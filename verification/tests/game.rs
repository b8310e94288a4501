use arctic::game::{filter_log, game_event, signed_string, GameEvent, Level, LogLine};

fn line(level: Level, text: &str) -> LogLine {
    LogLine { level, text: text.to_string() }
}

#[test]
fn level_order_and_names() {
    assert!(Level::Debug.rank_of() < Level::Info.rank_of());
    assert!(Level::Warn.rank_of() < Level::Error.rank_of());
    assert_eq!(Level::Warn.name(), "warn");
}

#[test]
fn log_filter() {
    let lines = vec![
        line(Level::Debug, "Loading Textures"),
        line(Level::Info, "Loaded 12 Textures"),
        line(Level::Error, "texture missing"),
        line(Level::Warn, "slow tick"),
    ];
    assert_eq!(filter_log(&lines, Level::Info, ""), vec![1, 2, 3]);
    assert_eq!(filter_log(&lines, Level::Debug, "texture"), vec![0, 1, 2]);
    assert_eq!(filter_log(&lines, Level::Warn, "texture"), vec![2]);
}

#[test]
fn signed_numbers() {
    assert_eq!(signed_string(0), "0");
    assert_eq!(signed_string(-1), "-1");
    assert_eq!(signed_string(i32::MIN), "-2147483648");
    assert_eq!(signed_string(137), "137");
}

#[test]
fn attached_output() {
    let out = game_event(&GameEvent::Output(vec![line(Level::Info, "hi \"there\"")]));
    assert_eq!(out.json, vec!["{\"event\":\"log\",\"level\":\"info\",\"text\":\"hi \\\"there\\\"\"}"]);
    assert_eq!(out.human, vec!["hi \"there\""]);
    assert_eq!(out.exit, None);
    let ready = game_event(&GameEvent::WindowReady);
    assert_eq!(ready.json, vec!["{\"event\":\"window_ready\"}"]);
    assert_eq!(ready.human, vec!["── Game window is up ──"]);
    let exited = game_event(&GameEvent::Exited { code: Some(-1) });
    assert_eq!(exited.json, vec!["{\"code\":-1,\"event\":\"exited\"}"]);
    assert_eq!(exited.human, vec!["Minecraft exited (-1)"]);
    assert_eq!(exited.exit, Some(-1));
    let killed = game_event(&GameEvent::Exited { code: None });
    assert_eq!(killed.human, vec!["Minecraft exited (killed)"]);
    assert_eq!(killed.exit, Some(1));
}

#[test]
fn search_lowercases_the_line() {
    // The Logs tab lowers the text with `str::to_lowercase` (not only ASCII).
    let lines = vec![line(Level::Info, "ÀBC loaded"), line(Level::Info, "abc")];
    assert_eq!(filter_log(&lines, Level::Debug, "àbc"), vec![0]);
}
