//! Human vs JSON output, and what a single-line progress display shows.
//! The functions here decide the lines; the program prints them.

use vstd::prelude::*;
use vstd::string::*;
use crate::text::{decimal, decimal_string, lemma_decimal_digits, lemma_one_line_concat, one_line, str_eq};

verus! {

/// A lower-case hexadecimal digit.
pub open spec fn hex_lower(d: nat) -> char {
    if d < 10 {
        (d + 48) as char
    } else {
        (d + 87) as char
    }
}

/// How `serde_json` writes one character inside a string literal: quote,
/// backslash and the control characters with a short escape are escaped so;
/// other characters below U+0020 as `\u00XX`; the rest as they are.
pub open spec fn json_escape(c: char) -> Seq<char> {
    if c == '"' {
        seq!['\\', '"']
    } else if c == '\\' {
        seq!['\\', '\\']
    } else if c == '\u{8}' {
        seq!['\\', 'b']
    } else if c == '\u{c}' {
        seq!['\\', 'f']
    } else if c == '\n' {
        seq!['\\', 'n']
    } else if c == '\r' {
        seq!['\\', 'r']
    } else if c == '\t' {
        seq!['\\', 't']
    } else if (c as u32) < 0x20 {
        seq!['\\', 'u', '0', '0', hex_lower((c as nat) / 16), hex_lower((c as nat) % 16)]
    } else {
        seq![c]
    }
}

/// Each character of `s`, escaped.
pub open spec fn json_escaped(s: Seq<char>) -> Seq<char>
    decreases s.len(),
{
    if s.len() == 0 {
        Seq::empty()
    } else {
        json_escaped(s.drop_last()) + json_escape(s.last())
    }
}

/// The JSON string literal for a text, as `serde_json` writes it.
pub open spec fn json_quoted(s: Seq<char>) -> Seq<char> {
    seq!['"'] + json_escaped(s) + seq!['"']
}

proof fn lemma_escape_one_line(c: char)
    ensures
        one_line(json_escape(c)),
{
    let e = json_escape(c);
    if (c as u32) < 0x20 && c != '\u{8}' && c != '\u{c}' && c != '\n' && c != '\r' && c != '\t' {
        let a = (c as nat) / 16;
        let b = (c as nat) % 16;
        assert(hex_lower(a) != '\n');
        assert(hex_lower(b) != '\n');
    }
    assert forall|i: int| 0 <= i < e.len() implies e[i] != '\n' by {}
}

proof fn lemma_escaped_one_line(s: Seq<char>)
    ensures
        one_line(json_escaped(s)),
    decreases s.len(),
{
    if s.len() > 0 {
        lemma_escaped_one_line(s.drop_last());
        lemma_escape_one_line(s.last());
        lemma_one_line_concat(json_escaped(s.drop_last()), json_escape(s.last()));
    }
}

/// A JSON string literal never spans two lines.
pub proof fn lemma_json_quoted_one_line(s: Seq<char>)
    ensures
        one_line(json_quoted(s)),
{
    lemma_escaped_one_line(s);
    lemma_one_line_concat(seq!['"'], json_escaped(s));
    lemma_one_line_concat(seq!['"'] + json_escaped(s), seq!['"']);
}

/// Calls `serde_json::to_string` on a string slice, which writes the text as
/// a JSON string literal: a quote, each character escaped as `json_escape`
/// says (serde_json's `ESCAPE` table and `write_char_escape`), and a closing
/// quote. Serializing a `str` into memory does not fail in serde_json's
/// source, so the error arm is never taken.
#[verifier::external_body]
pub(crate) fn json_string(s: &str) -> (r: String)
    ensures
        r@ == json_quoted(s@),
{
    match serde_json::to_string(s) {
        Ok(t) => t,
        Err(_) => String::new(),
    }
}

/// Where a line goes.
#[derive(Debug, Clone, Copy, PartialEq, Eq, Structural)]
pub enum Stream {
    Stdout,
    Stderr,
}

/// One line to print (without its line break).
#[derive(Debug)]
pub struct Line {
    pub stream: Stream,
    pub text: String,
}

/// Output mode of a command run: JSON objects, one per line, or text.
#[derive(Debug)]
pub struct Out {
    pub json: bool,
}

/// `{"event":<event>,"message":<message>}`, keys in serde_json's order.
pub open spec fn event_json(event: Seq<char>, message: Seq<char>) -> Seq<char> {
    "{\"event\":"@ + json_quoted(event) + ",\"message\":"@ + json_quoted(message) + "}"@
}

/// The line for a note: JSON on stdout, or text on stderr (warnings with a
/// `warning: ` prefix).
pub open spec fn note_line(json: bool, event: Seq<char>, message: Seq<char>) -> (Stream, Seq<char>) {
    if json {
        (Stream::Stdout, event_json(event, message))
    } else if event == "warning"@ {
        (Stream::Stderr, "warning: "@ + message)
    } else {
        (Stream::Stderr, message)
    }
}

pub open spec fn line_view(l: Line) -> (Stream, Seq<char>) {
    (l.stream, l.text@)
}

/// Snapshot of a download: stage, files and bytes done so far.
#[derive(Debug)]
pub struct ProgressInfo {
    pub stage: String,
    pub done: u64,
    pub total: u64,
    pub bytes_done: u64,
    pub bytes_total: u64,
}

/// What a progress report shows.
#[derive(Debug)]
pub enum ProgressView {
    /// A `{"event":"progress",...}` line on stdout.
    Json(String),
    /// Nothing (stderr is not a terminal).
    Hidden,
    /// Stage, percentage, megabytes and speed (the program measures time).
    Measured { stage: String, bytes_done: u64, bytes_total: u64 },
    /// Just the stage, followed by an ellipsis.
    Stage(String),
}

/// The JSON progress record, keys in serde_json's order.
pub open spec fn progress_json(p: ProgressInfo) -> Seq<char> {
    "{\"bytes_done\":"@ + decimal(p.bytes_done as nat) + ",\"bytes_total\":"@ + decimal(
        p.bytes_total as nat,
    ) + ",\"event\":\"progress\",\"files_done\":"@ + decimal(p.done as nat) + ",\"files_total\":"@
        + decimal(p.total as nat) + ",\"stage\":"@ + json_quoted(p.stage@) + "}"@
}

impl Out {
    pub fn new(json: bool) -> (r: Out)
        ensures
            r.json == json,
    {
        Out { json }
    }

    /// Something worth knowing that isn't the result (stderr for humans).
    pub fn info(&self, message: &str) -> (r: Line)
        ensures
            line_view(r) == note_line(self.json, "info"@, message@),
            self.json ==> one_line(r.text@),
    {
        self.note("info", message)
    }

    /// Something that went only partly right.
    pub fn warn(&self, message: &str) -> (r: Line)
        ensures
            line_view(r) == note_line(self.json, "warning"@, message@),
            self.json ==> one_line(r.text@),
    {
        self.note("warning", message)
    }

    /// The line for a note of kind `event`.
    pub fn note(&self, event: &str, message: &str) -> (r: Line)
        ensures
            line_view(r) == note_line(self.json, event@, message@),
            self.json ==> one_line(r.text@),
    {
        if self.json {
            let mut text = String::from_str("{\"event\":");
            let e = json_string(event);
            proof { lemma_json_quoted_one_line(event@); }
            text.append(e.as_str());
            text.append(",\"message\":");
            let m = json_string(message);
            proof { lemma_json_quoted_one_line(message@); }
            text.append(m.as_str());
            text.append("}");
            proof {
                reveal_strlit("{\"event\":");
                reveal_strlit(",\"message\":");
                reveal_strlit("}");
                lemma_one_line_concat("{\"event\":"@, e@);
                lemma_one_line_concat("{\"event\":"@ + e@, ",\"message\":"@);
                lemma_one_line_concat("{\"event\":"@ + e@ + ",\"message\":"@, m@);
                lemma_one_line_concat("{\"event\":"@ + e@ + ",\"message\":"@ + m@, "}"@);
            }
            Line { stream: Stream::Stdout, text }
        } else if str_eq(event, "warning") {
            let mut text = String::from_str("warning: ");
            text.append(message);
            Line { stream: Stream::Stderr, text }
        } else {
            Line { stream: Stream::Stderr, text: String::from_str(message) }
        }
    }

    /// A result record, on stdout in both modes: the JSON text in `--json`
    /// mode, else the human text, which is built (by calling `human` once)
    /// only then.
    pub fn emit<F: FnOnce() -> String>(&self, json_text: String, human: F) -> (r: Line)
        requires
            call_requires(human, ()),
        ensures
            r.stream == Stream::Stdout,
            self.json ==> r.text == json_text,
            !self.json ==> call_ensures(human, (), r.text),
    {
        if self.json {
            Line { stream: Stream::Stdout, text: json_text }
        } else {
            let text = human();
            Line { stream: Stream::Stdout, text }
        }
    }

    /// The line reporting a failed command (`error` event or `error: ...`).
    pub fn error_line(&self, message: &str) -> (r: Line)
        ensures
            line_view(r) == if self.json {
                (Stream::Stdout, event_json("error"@, message@))
            } else {
                (Stream::Stderr, "error: "@ + message@)
            },
            self.json ==> one_line(r.text@),
    {
        if self.json {
            self.note("error", message)
        } else {
            let mut text = String::from_str("error: ");
            text.append(message);
            Line { stream: Stream::Stderr, text }
        }
    }

    /// Progress goes to stderr (humans) or as `{"event":"progress"}` lines.
    pub fn progress(&self, p: &ProgressInfo, stderr_terminal: bool) -> (r: ProgressView)
        ensures
            self.json ==> (r matches ProgressView::Json(t) && t@ == progress_json(*p) && one_line(t@)),
            !self.json && !stderr_terminal ==> r is Hidden,
            !self.json && stderr_terminal && p.bytes_total > 0 ==> (r matches ProgressView::Measured {
                stage,
                bytes_done,
                bytes_total,
            } && stage@ == p.stage@ && bytes_done == p.bytes_done && bytes_total == p.bytes_total),
            !self.json && stderr_terminal && p.bytes_total == 0 ==> (r matches ProgressView::Stage(t)
                && t@ == p.stage@ + "…"@),
    {
        if self.json {
            proof {
                reveal_strlit("{\"bytes_done\":");
                reveal_strlit(",\"bytes_total\":");
                reveal_strlit(",\"event\":\"progress\",\"files_done\":");
                reveal_strlit(",\"files_total\":");
                reveal_strlit(",\"stage\":");
                reveal_strlit("}");
            }
            let mut t = String::from_str("{\"bytes_done\":");
            let n1 = decimal_string(p.bytes_done);
            proof {
                lemma_decimal_digits(p.bytes_done as nat);
                lemma_one_line_concat(t@, n1@);
            }
            t.append(n1.as_str());
            proof {
                lemma_one_line_concat(t@, ",\"bytes_total\":"@);
            }
            t.append(",\"bytes_total\":");
            let n2 = decimal_string(p.bytes_total);
            proof {
                lemma_decimal_digits(p.bytes_total as nat);
                lemma_one_line_concat(t@, n2@);
            }
            t.append(n2.as_str());
            proof {
                lemma_one_line_concat(t@, ",\"event\":\"progress\",\"files_done\":"@);
            }
            t.append(",\"event\":\"progress\",\"files_done\":");
            let n3 = decimal_string(p.done);
            proof {
                lemma_decimal_digits(p.done as nat);
                lemma_one_line_concat(t@, n3@);
            }
            t.append(n3.as_str());
            proof {
                lemma_one_line_concat(t@, ",\"files_total\":"@);
            }
            t.append(",\"files_total\":");
            let n4 = decimal_string(p.total);
            proof {
                lemma_decimal_digits(p.total as nat);
                lemma_one_line_concat(t@, n4@);
            }
            t.append(n4.as_str());
            proof {
                lemma_one_line_concat(t@, ",\"stage\":"@);
            }
            t.append(",\"stage\":");
            let q = json_string(p.stage.as_str());
            proof { lemma_json_quoted_one_line(p.stage@); }
            proof {
                lemma_one_line_concat(t@, q@);
            }
            t.append(q.as_str());
            proof {
                lemma_one_line_concat(t@, "}"@);
            }
            t.append("}");
            return ProgressView::Json(t);
        }
        if !stderr_terminal {
            return ProgressView::Hidden;
        }
        if p.bytes_total > 0 {
            ProgressView::Measured {
                stage: p.stage.clone(),
                bytes_done: p.bytes_done,
                bytes_total: p.bytes_total,
            }
        } else {
            let mut t = p.stage.clone();
            t.append("…");
            ProgressView::Stage(t)
        }
    }

    /// Whether to clear the progress line before printing results.
    pub fn end_progress(&self, stderr_terminal: bool) -> (r: bool)
        ensures
            r == (!self.json && stderr_terminal),
    {
        !self.json && stderr_terminal
    }
}

} // verus!
