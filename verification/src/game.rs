//! A running game: what each of its events prints, the exit code it ends
//! with, and the Logs tab's filter over its output.

use vstd::prelude::*;
use vstd::string::*;
use crate::output::{json_quoted, json_string};
use crate::select::{all_matches, lemma_first_matches_same, select_rows};
use crate::text::{chars_of, contains, contains_seq, decimal, decimal_string, lowercase, to_lowercase, views};

verus! {

/// Severity of a line of the game's log.
#[derive(Debug, Clone, Copy, PartialEq, Eq, Structural)]
pub enum Level {
    Debug,
    Info,
    Warn,
    Error,
}

impl Level {
    /// Position in the order Debug < Info < Warn < Error.
    pub open spec fn rank(self) -> nat {
        match self {
            Level::Debug => 0,
            Level::Info => 1,
            Level::Warn => 2,
            Level::Error => 3,
        }
    }

    pub fn rank_of(&self) -> (r: u8)
        ensures
            r as nat == self.rank(),
    {
        match self {
            Level::Debug => 0,
            Level::Info => 1,
            Level::Warn => 2,
            Level::Error => 3,
        }
    }

    pub open spec fn name_text(self) -> Seq<char> {
        match self {
            Level::Debug => "debug"@,
            Level::Info => "info"@,
            Level::Warn => "warn"@,
            Level::Error => "error"@,
        }
    }

    /// The level's name in lower case, as JSON log records carry it.
    pub fn name(&self) -> (r: &'static str)
        ensures
            r@ == self.name_text(),
    {
        match self {
            Level::Debug => "debug",
            Level::Info => "info",
            Level::Warn => "warn",
            Level::Error => "error",
        }
    }
}

/// A parsed line of the game's output.
#[derive(Debug)]
pub struct LogLine {
    pub level: Level,
    pub text: String,
}

/// Whether the Logs tab shows a line: at least `min_level`, and containing
/// the (already lower-cased) search text when there is one.
pub open spec fn log_keep(line: LogLine, min_level: Level, query: Seq<char>) -> bool {
    line.level.rank() >= min_level.rank() && (query.len() == 0 || contains_seq(
        lowercase(line.text@),
        query,
    ))
}

/// A level at least as severe as `min`, in the order Debug, Info, Warn,
/// Error, spelled out.
pub open spec fn severe_enough(level: Level, min: Level) -> bool {
    ||| min == Level::Debug
    ||| (min == Level::Info && level != Level::Debug)
    ||| (min == Level::Warn && (level == Level::Warn || level == Level::Error))
    ||| (min == Level::Error && level == Level::Error)
}

/// The Logs tab shows only lines at least as severe as the chosen level
/// (choosing Error hides warnings), and, with no search text, every such
/// line.
pub proof fn law_log_levels(lines: Seq<LogLine>, min_level: Level, query: Seq<char>, rows: Seq<usize>)
    requires
        lines.len() <= usize::MAX,
        all_matches(rows, lines.len(), |i: int| log_keep(lines[i], min_level, query)),
    ensures
        forall|k: int| 0 <= k < rows.len() ==> rows[k] < lines.len() && severe_enough(lines[#[trigger] rows[k] as int].level, min_level),
        query.len() == 0 ==> forall|j: int| 0 <= j < lines.len() ==> (rows.contains(j as usize) <==> severe_enough(#[trigger] lines[j].level, min_level)),
{
    let keep = |i: int| log_keep(lines[i], min_level, query);
    assert forall|k: int| 0 <= k < rows.len() implies rows[k] < lines.len() && severe_enough(lines[#[trigger] rows[k] as int].level, min_level) by {
        assert(keep(rows[k] as int));
    }
    if query.len() == 0 {
        assert forall|j: int| 0 <= j < lines.len() implies (rows.contains(j as usize) <==> severe_enough(#[trigger] lines[j].level, min_level)) by {
            if rows.contains(j as usize) {
                let k = choose|k: int| 0 <= k < rows.len() && rows[k] == j as usize;
                assert(rows[k] as int == j);
                assert(keep(rows[k] as int));
            }
            if severe_enough(lines[j].level, min_level) {
                assert(keep(j));
                crate::select::lemma_all_matches_complete(rows, lines.len(), keep, j);
            }
        }
    }
}

/// Indices of the lines the Logs tab shows, in order.
pub fn filter_log(lines: &Vec<LogLine>, min_level: Level, query: &str) -> (rows: Vec<usize>)
    ensures
        all_matches(rows@, lines@.len(), |i: int| log_keep(lines@[i], min_level, query@)),
        forall|k: int| 0 <= k < rows@.len() ==> severe_enough(lines@[#[trigger] rows@[k] as int].level, min_level),
{
    let ghost keep = |i: int| log_keep(lines@[i], min_level, query@);
    let q = chars_of(query);
    let min = min_level.rank_of();
    let n = lines.len();
    let mut flags: Vec<bool> = Vec::new();
    let mut i: usize = 0;
    while i < n
        invariant
            0 <= i <= n,
            n == lines@.len(),
            q@ == query@,
            min as nat == min_level.rank(),
            keep == (|i: int| log_keep(lines@[i], min_level, query@)),
            flags@.len() == i,
            forall|j: int| 0 <= j < i ==> flags@[j] == keep(j),
        decreases n - i,
    {
        let line = &lines[i];
        let shown = line.level.rank_of() >= min && (q.len() == 0 || {
            let lower = to_lowercase(line.text.as_str());
            contains(&chars_of(lower.as_str()), &q)
        });
        flags.push(shown);
        i += 1;
    }
    let rows = select_rows(&flags, n);
    proof {
        lemma_first_matches_same(rows@, n as nat, |i: int| flags@[i], keep, n as nat);
        law_log_levels(lines@, min_level, query@, rows@);
    }
    rows
}

/// `i` in decimal, with a minus sign when negative.
pub open spec fn signed_decimal(i: int) -> Seq<char> {
    if i < 0 {
        seq!['-'] + decimal((-i) as nat)
    } else {
        decimal(i as nat)
    }
}

/// `i32` to text (`i32::to_string`).
pub fn signed_string(i: i32) -> (r: String)
    ensures
        r@ == signed_decimal(i as int),
{
    proof {
        reveal_strlit("-");
    }
    if i < 0 {
        let magnitude: u64 = (0 - (i as i64)) as u64;
        let mut s = String::from_str("-");
        s.append(decimal_string(magnitude).as_str());
        s
    } else {
        decimal_string(i as u64)
    }
}

/// What the game sends while it runs.
#[derive(Debug)]
pub enum GameEvent {
    Output(Vec<LogLine>),
    WindowReady,
    Exited { code: Option<i32> },
}

/// What an event prints (JSON and human forms) and, once the game is
/// gone, the exit code to end with.
#[derive(Debug)]
pub struct Printed {
    pub json: Vec<String>,
    pub human: Vec<String>,
    pub exit: Option<i32>,
}

pub open spec fn log_json(line: LogLine) -> Seq<char> {
    "{\"event\":\"log\",\"level\":\""@ + line.level.name_text() + "\",\"text\":"@ + json_quoted(
        line.text@,
    ) + "}"@
}

pub open spec fn exited_json(code: Option<i32>) -> Seq<char> {
    "{\"code\":"@ + match code {
        Some(c) => signed_decimal(c as int),
        None => "null"@,
    } + ",\"event\":\"exited\"}"@
}

pub open spec fn exited_human(code: Option<i32>) -> Seq<char> {
    "Minecraft exited ("@ + match code {
        Some(c) => signed_decimal(c as int),
        None => "killed"@,
    } + ")"@
}

/// The JSON records of some log lines.
pub open spec fn log_jsons(lines: Seq<LogLine>) -> Seq<Seq<char>> {
    lines.map_values(|l: LogLine| log_json(l))
}

/// The texts of some log lines.
pub open spec fn log_texts(lines: Seq<LogLine>) -> Seq<Seq<char>> {
    lines.map_values(|l: LogLine| l.text@)
}

/// Stay attached: the lines one event prints, and the game's exit code
/// (1 when it was killed) once it exits.
pub fn game_event(event: &GameEvent) -> (r: Printed)
    ensures
        match event {
            GameEvent::Output(lines) => {
                &&& views(r.json@) == log_jsons(lines@)
                &&& views(r.human@) == log_texts(lines@)
                &&& r.exit is None
            },
            GameEvent::WindowReady => {
                &&& views(r.json@) == seq!["{\"event\":\"window_ready\"}"@]
                &&& views(r.human@) == seq!["── Game window is up ──"@]
                &&& r.exit is None
            },
            GameEvent::Exited { code } => {
                &&& views(r.json@) == seq![exited_json(*code)]
                &&& views(r.human@) == seq![exited_human(*code)]
                &&& r.exit == Some(
                    match code {
                        Some(c) => *c,
                        None => 1i32,
                    },
                )
            },
        },
{
    let mut json: Vec<String> = Vec::new();
    let mut human: Vec<String> = Vec::new();
    match event {
        GameEvent::Output(lines) => {
            let mut i: usize = 0;
            while i < lines.len()
                invariant
                    0 <= i <= lines.len(),
                    views(json@) == log_jsons(lines@.take(i as int)),
                    views(human@) == log_texts(lines@.take(i as int)),
                decreases lines.len() - i,
            {
                let line = &lines[i];
                let mut j = String::from_str("{\"event\":\"log\",\"level\":\"");
                j.append(line.level.name());
                j.append("\",\"text\":");
                j.append(json_string(line.text.as_str()).as_str());
                j.append("}");
                assert(j@ == log_json(lines@[i as int]));
                let ghost before_json = json@;
                let ghost before_human = human@;
                json.push(j);
                human.push(String::from_str(line.text.as_str()));
                proof {
                    assert(lines@.take(i + 1) =~= lines@.take(i as int).push(lines@[i as int]));
                    assert(views(json@) =~= views(before_json).push(log_json(lines@[i as int])));
                    assert(views(human@) =~= views(before_human).push(lines@[i as int].text@));
                    assert(log_jsons(lines@.take(i + 1)) =~= log_jsons(lines@.take(i as int)).push(
                        log_json(lines@[i as int]),
                    ));
                    assert(log_texts(lines@.take(i + 1)) =~= log_texts(lines@.take(i as int)).push(
                        lines@[i as int].text@,
                    ));
                }
                i += 1;
                assert(views(json@) =~= log_jsons(lines@.take(i as int)));
                assert(views(human@) =~= log_texts(lines@.take(i as int)));
            }
            assert(lines@.take(lines@.len() as int) =~= lines@);
            Printed { json, human, exit: None }
        },
        GameEvent::WindowReady => {
            json.push(String::from_str("{\"event\":\"window_ready\"}"));
            human.push(String::from_str("── Game window is up ──"));
            assert(views(json@) =~= seq!["{\"event\":\"window_ready\"}"@]);
            assert(views(human@) =~= seq!["── Game window is up ──"@]);
            Printed { json, human, exit: None }
        },
        GameEvent::Exited { code } => {
            let mut j = String::from_str("{\"code\":");
            let mut h = String::from_str("Minecraft exited (");
            match code {
                Some(c) => {
                    let t = signed_string(*c);
                    j.append(t.as_str());
                    h.append(t.as_str());
                },
                None => {
                    j.append("null");
                    h.append("killed");
                },
            }
            j.append(",\"event\":\"exited\"}");
            h.append(")");
            json.push(j);
            human.push(h);
            assert(views(json@) =~= seq![exited_json(*code)]);
            assert(views(human@) =~= seq![exited_human(*code)]);
            let exit = match code {
                Some(c) => *c,
                None => 1,
            };
            Printed { json, human, exit: Some(exit) }
        },
    }
}

} // verus!
