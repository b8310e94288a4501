//! "Play together": what the command line prints for each event of a
//! hosting or joining session, and the launcher's session state machine.

use vstd::prelude::*;
use vstd::string::*;
use crate::output::{json_quoted, json_string};
use crate::text::{chars_of, decimal, decimal_string, digit_char, leading_ws, trailing_ws, trim, trimmed};

verus! {

/// A world opened to LAN on the host's PC.
#[derive(Debug, Clone, PartialEq, Eq)]
pub struct LanWorld {
    pub motd: String,
    pub port: u16,
}

/// What the peer-to-peer service reports.
#[derive(Debug)]
pub enum ShareEvent {
    /// Hosting: the invite code to give friends.
    HostReady { code: String },
    /// The LAN world being shared (none while waiting for one).
    HostWorld(Option<LanWorld>),
    /// How many friends are connected.
    Guests(usize),
    /// Joined a friend's world; it shows up on this local port.
    Joined { motd: String, port: u16 },
    /// The session ended, with the reason when it failed.
    Stopped { error: Option<String> },
}

/// What one event prints, and the exit code once the session is over.
#[derive(Debug)]
pub struct Report {
    pub json: String,
    pub human: String,
    pub exit: Option<i32>,
}

pub open spec fn report_json(event: ShareEvent) -> Seq<char> {
    match event {
        ShareEvent::HostReady { code } => "{\"code\":"@ + json_quoted(code@)
            + ",\"event\":\"host_ready\"}"@,
        ShareEvent::HostWorld(Some(w)) => "{\"event\":\"host_world\",\"motd\":"@ + json_quoted(
            w.motd@,
        ) + ",\"port\":"@ + decimal(w.port as nat) + "}"@,
        ShareEvent::HostWorld(None) => "{\"event\":\"host_world\",\"motd\":null}"@,
        ShareEvent::Guests(n) => "{\"count\":"@ + decimal(n as nat) + ",\"event\":\"guests\"}"@,
        ShareEvent::Joined { motd, port } => "{\"event\":\"joined\",\"motd\":"@ + json_quoted(motd@)
            + ",\"port\":"@ + decimal(port as nat) + "}"@,
        ShareEvent::Stopped { error } => "{\"error\":"@ + match error {
            Some(e) => json_quoted(e@),
            None => "null"@,
        } + ",\"event\":\"stopped\"}"@,
    }
}

pub open spec fn report_human(event: ShareEvent) -> Seq<char> {
    match event {
        ShareEvent::HostReady { code } => "Hosting. Give your friends this code:\n\n    "@ + code@
            + "\n\nOpen a world to LAN in Minecraft to share it. Ctrl+C stops."@,
        ShareEvent::HostWorld(Some(w)) => "Sharing \""@ + w.motd@ + "\" (LAN port "@ + decimal(
            w.port as nat,
        ) + ")."@,
        ShareEvent::HostWorld(None) => "Waiting for a world opened to LAN..."@,
        ShareEvent::Guests(n) => decimal(n as nat) + " friend"@ + (if n == 1 {
            ""@
        } else {
            "s"@
        }) + " connected."@,
        ShareEvent::Joined { motd, port } => "Joined \""@ + motd@
            + "\". It's in Multiplayer's LAN list (or connect to localhost:"@ + decimal(port as nat)
            + "). Ctrl+C leaves."@,
        ShareEvent::Stopped { error } => match error {
            Some(e) => "Stopped: "@ + e@,
            None => "Stopped."@,
        },
    }
}

pub open spec fn report_exit(event: ShareEvent) -> Option<i32> {
    match event {
        ShareEvent::Stopped { error } => Some(
            if error is Some {
                1i32
            } else {
                0
            },
        ),
        _ => None,
    }
}

/// Print one event; the exit code once the session is over.
pub fn report(event: &ShareEvent) -> (r: Report)
    ensures
        r.json@ == report_json(*event),
        r.human@ == report_human(*event),
        r.exit == report_exit(*event),
{
    match event {
        ShareEvent::HostReady { code } => {
            let mut j = String::from_str("{\"code\":");
            j.append(json_string(code.as_str()).as_str());
            j.append(",\"event\":\"host_ready\"}");
            let mut h = String::from_str("Hosting. Give your friends this code:\n\n    ");
            h.append(code.as_str());
            h.append("\n\nOpen a world to LAN in Minecraft to share it. Ctrl+C stops.");
            Report { json: j, human: h, exit: None }
        },
        ShareEvent::HostWorld(Some(w)) => {
            let port = decimal_string(w.port as u64);
            let mut j = String::from_str("{\"event\":\"host_world\",\"motd\":");
            j.append(json_string(w.motd.as_str()).as_str());
            j.append(",\"port\":");
            j.append(port.as_str());
            j.append("}");
            let mut h = String::from_str("Sharing \"");
            h.append(w.motd.as_str());
            h.append("\" (LAN port ");
            h.append(port.as_str());
            h.append(").");
            Report { json: j, human: h, exit: None }
        },
        ShareEvent::HostWorld(None) => Report {
            json: String::from_str("{\"event\":\"host_world\",\"motd\":null}"),
            human: String::from_str("Waiting for a world opened to LAN..."),
            exit: None,
        },
        ShareEvent::Guests(n) => {
            let count = decimal_string(*n as u64);
            let mut j = String::from_str("{\"count\":");
            j.append(count.as_str());
            j.append(",\"event\":\"guests\"}");
            let mut h = String::from_str(count.as_str());
            h.append(" friend");
            h.append(
                if *n == 1 {
                    ""
                } else {
                    "s"
                },
            );
            h.append(" connected.");
            Report { json: j, human: h, exit: None }
        },
        ShareEvent::Joined { motd, port } => {
            let p = decimal_string(*port as u64);
            let mut j = String::from_str("{\"event\":\"joined\",\"motd\":");
            j.append(json_string(motd.as_str()).as_str());
            j.append(",\"port\":");
            j.append(p.as_str());
            j.append("}");
            let mut h = String::from_str("Joined \"");
            h.append(motd.as_str());
            h.append("\". It's in Multiplayer's LAN list (or connect to localhost:");
            h.append(p.as_str());
            h.append("). Ctrl+C leaves.");
            Report { json: j, human: h, exit: None }
        },
        ShareEvent::Stopped { error } => {
            let mut j = String::from_str("{\"error\":");
            match error {
                Some(e) => j.append(json_string(e.as_str()).as_str()),
                None => j.append("null"),
            }
            j.append(",\"event\":\"stopped\"}");
            let h = match error {
                Some(e) => {
                    let mut h = String::from_str("Stopped: ");
                    h.append(e.as_str());
                    h
                },
                None => String::from_str("Stopped."),
            };
            let code: i32 = if error.is_some() {
                1
            } else {
                0
            };
            Report { json: j, human: h, exit: Some(code) }
        },
    }
}

/// The launcher's play-together session.
#[derive(Debug)]
pub enum Session {
    Idle,
    Starting,
    Hosting { code: String, world: Option<LanWorld>, guests: usize },
    Joining,
    Joined { motd: String, port: u16 },
}

/// Play-together state: the session whose events still count, and what
/// it is doing.
#[derive(Debug)]
pub struct Together {
    pub current: u64,
    pub session: Session,
    pub error: Option<String>,
}

/// A toast to show for an event.
#[derive(Debug, PartialEq, Eq, Structural)]
pub enum Notice {
    Nothing,
    FriendJoined,
    Connected,
}

/// What an event of session `session` does to the state, and the toast it
/// raises: events of any session but the current one change nothing.
pub open spec fn share_step(t: Together, session: u64, event: ShareEvent) -> (Together, Notice) {
    if session != t.current {
        (t, Notice::Nothing)
    } else {
        match event {
            ShareEvent::HostReady { code } => (
                Together { session: Session::Hosting { code, world: None, guests: 0 }, ..t },
                Notice::Nothing,
            ),
            ShareEvent::HostWorld(found) => match t.session {
                Session::Hosting { code, guests, .. } => (
                    Together { session: Session::Hosting { code, world: found, guests }, ..t },
                    Notice::Nothing,
                ),
                _ => (t, Notice::Nothing),
            },
            ShareEvent::Guests(count) => match t.session {
                Session::Hosting { code, world, guests } => (
                    Together { session: Session::Hosting { code, world, guests: count }, ..t },
                    if count > guests {
                        Notice::FriendJoined
                    } else {
                        Notice::Nothing
                    },
                ),
                _ => (t, Notice::Nothing),
            },
            ShareEvent::Joined { motd, port } => (
                Together { session: Session::Joined { motd, port }, ..t },
                Notice::Connected,
            ),
            ShareEvent::Stopped { error } => (
                Together {
                    session: Session::Idle,
                    error: match error {
                        Some(e) => Some(e),
                        None => t.error,
                    },
                    ..t
                },
                Notice::Nothing,
            ),
        }
    }
}

/// Apply an event of session `session` to the state; events of an older
/// session are dropped.
pub fn on_share_event(t: &mut Together, session: u64, event: ShareEvent) -> (n: Notice)
    ensures
        (*final(t), n) == share_step(*old(t), session, event),
{
    if session != t.current {
        return Notice::Nothing;
    }
    match event {
        ShareEvent::HostReady { code } => {
            t.session = Session::Hosting { code, world: None, guests: 0 };
            Notice::Nothing
        },
        ShareEvent::HostWorld(found) => {
            if let Session::Hosting { world, .. } = &mut t.session {
                *world = found;
            }
            Notice::Nothing
        },
        ShareEvent::Guests(count) => {
            let mut notice = Notice::Nothing;
            if let Session::Hosting { guests, .. } = &mut t.session {
                if count > *guests {
                    notice = Notice::FriendJoined;
                }
                *guests = count;
            }
            notice
        },
        ShareEvent::Joined { motd, port } => {
            t.session = Session::Joined { motd, port };
            Notice::Connected
        },
        ShareEvent::Stopped { error } => {
            t.session = Session::Idle;
            if let Some(e) = error {
                t.error = Some(e);
            }
            Notice::Nothing
        },
    }
}

/// Leave the session: back to idle, and no session's events count. The
/// result says whether to ask the share service to stop: whenever one was
/// started (`has_service`); the service itself is kept for later sessions.
pub fn stop_together(t: &mut Together, has_service: bool) -> (stop_service: bool)
    ensures
        *final(t) == stopped(*old(t)),
        final(t).error == old(t).error,
        stop_service == has_service,
{
    t.current = 0;
    t.session = Session::Idle;
    has_service
}

/// After asking to join: the new session on success, the error otherwise.
pub fn joining_started(t: &mut Together, result: Result<u64, String>)
    ensures
        *final(t) == joined_state(*old(t), result),
{
    match result {
        Ok(id) => {
            t.error = None;
            t.current = id;
            t.session = Session::Joining;
        },
        Err(e) => {
            t.error = Some(e);
        },
    }
}

/// The state once a join was asked for: the new session on success, the
/// error otherwise.
pub open spec fn joined_state(t: Together, result: Result<u64, String>) -> Together {
    match result {
        Ok(id) => Together { current: id, session: Session::Joining, error: None },
        Err(e) => Together { error: Some(e), ..t },
    }
}

/// The state after leaving a session.
pub open spec fn stopped(t: Together) -> Together {
    Together { current: 0, session: Session::Idle, ..t }
}

/// Events of a session other than the current one change nothing and
/// raise no toast.
pub proof fn law_stale_events_ignored(t: Together, session: u64, event: ShareEvent)
    requires
        session != t.current,
    ensures
        share_step(t, session, event) == (t, Notice::Nothing),
{
}

/// Once the session is left, no session's events change anything any more.
pub proof fn law_nothing_counts_after_stop(t: Together, session: u64, event: ShareEvent)
    requires
        session != 0,
    ensures
        share_step(stopped(t), session, event) == (stopped(t), Notice::Nothing),
{
}

/// The end of the current session always leaves it idle, and keeps the
/// reason it failed.
pub proof fn law_stopped_goes_idle(t: Together, error: Option<String>)
    ensures
        share_step(t, t.current, ShareEvent::Stopped { error }).0.session == Session::Idle,
        error is Some ==> share_step(t, t.current, ShareEvent::Stopped { error }).0.error == error,
{
}

/// How many friends are in the hosted world.
pub open spec fn friends_view(guests: usize) -> Seq<char> {
    if guests == 0 {
        "No friends connected yet"@
    } else if guests == 1 {
        "1 friend connected"@
    } else {
        decimal(guests as nat) + " friends connected"@
    }
}

pub fn friends_text(guests: usize) -> (r: String)
    ensures
        r@ == friends_view(guests),
{
    if guests == 0 {
        String::from_str("No friends connected yet")
    } else if guests == 1 {
        String::from_str("1 friend connected")
    } else {
        let mut s = decimal_string(guests as u64);
        s.append(" friends connected");
        s
    }
}

/// "Start sharing" works only when no session runs.
pub fn can_start_hosting(session: &Session) -> (r: bool)
    ensures
        r == (*session is Idle),
{
    match session {
        Session::Idle => true,
        _ => false,
    }
}

/// "Join" needs no running session and a code.
pub fn can_join(session: &Session, code: &str) -> (r: bool)
    ensures
        r == (*session is Idle && trimmed(code@).len() > 0),
{
    can_start_hosting(session) && trim(&chars_of(code)).len() > 0
}

/// The address a joined world can be reached at.
pub fn lan_address(port: u16) -> (r: String)
    ensures
        r@ == "localhost:"@ + decimal(port as nat),
{
    let mut s = String::from_str("localhost:");
    s.append(decimal_string(port as u64).as_str());
    s
}

/// The value of a run of ASCII digits.
pub open spec fn digits_number(s: Seq<char>) -> nat
    decreases s.len(),
{
    if s.len() == 0 {
        0
    } else {
        digits_number(s.drop_last()) * 10 + ((s.last() as u32) - 48) as nat
    }
}

pub open spec fn all_ascii_digits(s: Seq<char>) -> bool {
    forall|i: int| 0 <= i < s.len() ==> '0' <= #[trigger] s[i] && s[i] <= '9'
}

/// What the host port field means: empty is "find the open world",
/// otherwise `u16` syntax (an optional `+`, then digits) for a number from
/// 1 to 65535.
pub open spec fn port_field(text: Seq<char>) -> Result<Option<u16>, ()> {
    let t = trimmed(text);
    let d = if t.len() > 0 && t[0] == '+' {
        t.drop_first()
    } else {
        t
    };
    if t.len() == 0 {
        Ok(None)
    } else if d.len() > 0 && all_ascii_digits(d) && 0 < digits_number(d) <= u16::MAX {
        Ok(Some(digits_number(d) as u16))
    } else {
        Err(())
    }
}

pub open spec fn bad_port_message() -> Seq<char> {
    "That port isn't a number from 1 to 65535."@
}

/// The port to host on, from the text field.
pub fn host_port(text: &str) -> (r: Result<Option<u16>, String>)
    ensures
        match port_field(text@) {
            Ok(p) => r == Ok::<Option<u16>, String>(p),
            Err(_) => r matches Err(m) && m@ == bad_port_message(),
        },
{
    let v = chars_of(text);
    let t = trim(&v);
    if t.len() == 0 {
        return Ok(None);
    }
    let start: usize = if t[0] == '+' {
        1
    } else {
        0
    };
    let ghost d = if t@[0] == '+' {
        t@.drop_first()
    } else {
        t@
    };
    assert(d =~= t@.subrange(start as int, t@.len() as int));
    if start == t.len() {
        return Err(String::from_str("That port isn't a number from 1 to 65535."));
    }
    let mut value: u32 = 0;
    let mut i: usize = start;
    while i < t.len()
        invariant
            t@ == trimmed(text@),
            t@.len() > 0,
            start == (if t@[0] == '+' { 1usize } else { 0usize }),
            d == (if t@[0] == '+' { t@.drop_first() } else { t@ }),
            start < t@.len(),
            start <= i <= t@.len(),
            d =~= t@.subrange(start as int, t@.len() as int),
            all_ascii_digits(t@.subrange(start as int, i as int)),
            value == digits_number(t@.subrange(start as int, i as int)),
            value <= 65535,
        decreases t@.len() - i,
    {
        let c = t[i];
        if !('0' <= c && c <= '9') {
            proof {
                assert(d[i - start] == c);
            }
            return Err(String::from_str("That port isn't a number from 1 to 65535."));
        }
        let next = value * 10 + ((c as u32) - 48);
        proof {
            assert(t@.subrange(start as int, i + 1).drop_last() =~= t@.subrange(
                start as int,
                i as int,
            ));
        }
        if next > 65535 {
            proof {
                if all_ascii_digits(d) {
                    lemma_digits_grow(d, (i + 1 - start) as nat);
                    assert(d.take((i + 1 - start) as int) =~= t@.subrange(start as int, i + 1));
                }
            }
            return Err(String::from_str("That port isn't a number from 1 to 65535."));
        }
        value = next;
        i += 1;
    }
    assert(t@.subrange(start as int, t@.len() as int) =~= d);
    if value == 0 {
        return Err(String::from_str("That port isn't a number from 1 to 65535."));
    }
    Ok(Some(value as u16))
}

/// The decimal text of a number is all digits, and reads back as it.
proof fn lemma_decimal_digits(n: nat)
    ensures
        decimal(n).len() > 0,
        all_ascii_digits(decimal(n)),
        digits_number(decimal(n)) == n,
    decreases n,
{
    reveal_with_fuel(decimal, 2);
    if n < 10 {
        assert(decimal(n) =~= seq![digit_char(n)]);
        assert(digit_char(n) as u32 == 48 + n);
        assert(decimal(n).drop_last() =~= Seq::<char>::empty());
        assert(digits_number(decimal(n)) == digits_number(Seq::<char>::empty()) * 10 + n);
    } else {
        lemma_decimal_digits(n / 10);
        let s = decimal(n);
        assert(s =~= decimal(n / 10).push(digit_char(n % 10)));
        assert(digit_char(n % 10) as u32 == 48 + n % 10);
        assert(s.drop_last() =~= decimal(n / 10));
        assert(digits_number(s) == digits_number(decimal(n / 10)) * 10 + n % 10);
        assert((n / 10) * 10 + n % 10 == n) by {
            vstd::arithmetic::div_mod::lemma_fundamental_div_mod(n as int, 10);
        }
        assert forall|i: int| 0 <= i < s.len() implies '0' <= #[trigger] s[i] && s[i] <= '9' by {
            if i < s.len() - 1 {
                assert(s[i] == decimal(n / 10)[i]);
            }
        }
    }
}

/// A port written in decimal is read back as that port.
pub proof fn law_port_round_trip(port: u16)
    requires
        port > 0,
    ensures
        port_field(decimal(port as nat)) == Ok::<Option<u16>, ()>(Some(port)),
{
    let s = decimal(port as nat);
    lemma_decimal_digits(port as nat);
    assert('0' <= s[0] && s[0] <= '9');
    assert('0' <= s.last() && s.last() <= '9');
    assert(leading_ws(s) == 0);
    assert(trailing_ws(s) == 0);
    assert(trimmed(s) =~= s);
}

/// A number with more digits is at least as large as its first digits.
proof fn lemma_digits_grow(s: Seq<char>, k: nat)
    requires
        k <= s.len(),
        all_ascii_digits(s),
    ensures
        digits_number(s) >= digits_number(s.take(k as int)),
    decreases s.len(),
{
    if s.len() > k {
        assert(s.drop_last().take(k as int) =~= s.take(k as int));
        assert(all_ascii_digits(s.drop_last())) by {
            assert forall|i: int| 0 <= i < s.drop_last().len() implies '0' <= #[trigger] s.drop_last()[i]
                && s.drop_last()[i] <= '9' by {
                assert(s.drop_last()[i] == s[i]);
            }
        }
        lemma_digits_grow(s.drop_last(), k);
    } else {
        assert(s.take(k as int) =~= s);
    }
}

} // verus!
