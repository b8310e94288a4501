use arctic::output::{Out, ProgressInfo, ProgressView, Stream};

#[test]
fn notes_for_humans() {
    let out = Out::new(false);
    let info = out.info("Downloading");
    assert_eq!(info.stream, Stream::Stderr);
    assert_eq!(info.text, "Downloading");
    let warn = out.warn("mod left out");
    assert_eq!(warn.stream, Stream::Stderr);
    assert_eq!(warn.text, "warning: mod left out");
    let err = out.error_line("no such instance");
    assert_eq!(err.text, "error: no such instance");
}

#[test]
fn notes_as_json() {
    let out = Out::new(true);
    let info = out.info("say \"hi\"");
    assert_eq!(info.stream, Stream::Stdout);
    assert_eq!(info.text, "{\"event\":\"info\",\"message\":\"say \\\"hi\\\"\"}");
    let warn = out.warn("x");
    assert_eq!(warn.text, "{\"event\":\"warning\",\"message\":\"x\"}");
    let err = out.error_line("boom");
    assert_eq!(err.text, "{\"event\":\"error\",\"message\":\"boom\"}");
}

#[test]
fn emit_picks_the_form() {
    let json = Out::new(true).emit("{}".to_string(), || panic!("the human text is not built in JSON mode"));
    assert_eq!(json.stream, Stream::Stdout);
    assert_eq!(json.text, "{}");
    let mut calls = 0;
    let human = Out::new(false).emit("{}".to_string(), || {
        calls += 1;
        "text".to_string()
    });
    assert_eq!(calls, 1);
    assert_eq!(human.stream, Stream::Stdout);
    assert_eq!(human.text, "text");
}

#[test]
fn json_messages_are_escaped() {
    let out = Out::new(true);
    assert_eq!(out.info("a\nb").text, "{\"event\":\"info\",\"message\":\"a\\nb\"}");
    assert_eq!(out.warn("").text, "{\"event\":\"warning\",\"message\":\"\"}");
}

#[test]
fn json_records_stay_on_one_line() {
    let out = Out::new(true);
    for text in ["first\nsecond", "\r\n\r\n", "tab\there", "end\n"] {
        assert!(!out.info(text).text.contains('\n'));
        assert!(!out.warn(text).text.contains('\n'));
        assert!(!out.error_line(text).text.contains('\n'));
    }
}

fn progress(bytes_total: u64) -> ProgressInfo {
    ProgressInfo { stage: "Assets".to_string(), done: 3, total: 10, bytes_done: 512, bytes_total }
}

#[test]
fn progress_views() {
    match Out::new(true).progress(&progress(1024), false) {
        ProgressView::Json(t) => assert_eq!(
            t,
            "{\"bytes_done\":512,\"bytes_total\":1024,\"event\":\"progress\",\"files_done\":3,\"files_total\":10,\"stage\":\"Assets\"}"
        ),
        other => panic!("{other:?}"),
    }
    assert!(matches!(Out::new(false).progress(&progress(1024), false), ProgressView::Hidden));
    match Out::new(false).progress(&progress(1024), true) {
        ProgressView::Measured { stage, bytes_done, bytes_total } => {
            assert_eq!(stage, "Assets");
            assert_eq!(bytes_done, 512);
            assert_eq!(bytes_total, 1024);
        }
        other => panic!("{other:?}"),
    }
    match Out::new(false).progress(&progress(0), true) {
        ProgressView::Stage(t) => assert_eq!(t, "Assets…"),
        other => panic!("{other:?}"),
    }
    assert!(Out::new(false).end_progress(true));
    assert!(!Out::new(true).end_progress(true));
}
