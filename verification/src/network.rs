//! Settings → Network: editing the SOCKS5 proxy, and the "Test proxy"
//! check, of which only the latest answer counts.

use vstd::prelude::*;
use vstd::string::*;
use crate::text::{chars_of, string_of, trim, trimmed};

verus! {

/// The proxy settings as the launcher keeps them.
#[derive(Debug, Clone)]
pub struct ProxySettings {
    pub enabled: bool,
    pub host: String,
    pub port: u16,
    pub username: String,
    pub password: String,
    /// When they were last saved (seconds since the epoch).
    pub set: u64,
}

/// The settings as plain values: two settings are the same when these are.
pub open spec fn settings_view(s: ProxySettings) -> (bool, Seq<char>, u16, Seq<char>, Seq<char>, u64) {
    (s.enabled, s.host@, s.port, s.username@, s.password@, s.set)
}

impl ProxySettings {
    /// A copy with the same values.
    pub fn duplicate(&self) -> (r: ProxySettings)
        ensures
            settings_view(r) == settings_view(*self),
    {
        ProxySettings {
            enabled: self.enabled,
            host: self.host.clone(),
            port: self.port,
            username: self.username.clone(),
            password: self.password.clone(),
            set: self.set,
        }
    }

    /// Whether two settings hold the same values.
    pub fn same(&self, other: &ProxySettings) -> (r: bool)
        ensures
            r == (settings_view(*self) == settings_view(*other)),
    {
        self.enabled == other.enabled && self.port == other.port && self.set == other.set
            && crate::text::str_eq(self.host.as_str(), other.host.as_str())
            && crate::text::str_eq(self.username.as_str(), other.username.as_str())
            && crate::text::str_eq(self.password.as_str(), other.password.as_str())
    }
}

/// State of the "Test proxy" check.
#[derive(Debug, Clone, PartialEq, Eq)]
pub enum ProxyCheck {
    Idle,
    Running,
    Works,
    Failed(String),
}

/// The editable copy of the proxy settings, and the check.
#[derive(Debug)]
pub struct NetworkUi {
    pub draft: ProxySettings,
    pub check: ProxyCheck,
    /// The settings the running check is for.
    pub checking: Option<ProxySettings>,
}

/// Whether an answer is for the settings being checked.
pub open spec fn answers(checking: Option<ProxySettings>, tested: ProxySettings) -> bool {
    match checking {
        Some(c) => settings_view(c) == settings_view(tested),
        None => false,
    }
}

/// The check once an answer for `tested` came back: only an answer for the
/// settings being checked counts.
pub open spec fn after_answer(ui: NetworkUi, tested: ProxySettings, result: Result<(), String>) -> (
    ProxyCheck,
    bool,
) {
    if answers(ui.checking, tested) {
        (
            match result {
                Ok(()) => ProxyCheck::Works,
                Err(e) => ProxyCheck::Failed(e),
            },
            true,
        )
    } else {
        (ui.check, false)
    }
}

/// The line under the buttons: what is wrong with the settings first, then
/// the state of the check.
pub open spec fn status_view(problem: Option<Seq<char>>, check: ProxyCheck) -> Option<Seq<char>> {
    match problem {
        Some(why) => Some(why),
        None => match check {
            ProxyCheck::Idle => None,
            ProxyCheck::Running => Some("Testing…"@),
            ProxyCheck::Works => Some("The proxy works."@),
            ProxyCheck::Failed(e) => Some("The proxy didn't work: "@ + e@),
        },
    }
}

impl NetworkUi {
    /// Start testing the draft: the check runs for a copy of it, which is
    /// handed to the test.
    pub fn start_test(&mut self) -> (tested: ProxySettings)
        ensures
            final(self).check == ProxyCheck::Running,
            final(self).checking matches Some(c) && settings_view(c) == settings_view(old(self).draft),
            settings_view(tested) == settings_view(old(self).draft),
            final(self).draft == old(self).draft,
    {
        self.check = ProxyCheck::Running;
        self.checking = Some(self.draft.duplicate());
        self.draft.duplicate()
    }

    /// A test came back; an answer for other settings than those being
    /// checked (an older test) is dropped.
    pub fn on_tested(&mut self, tested: ProxySettings, result: Result<(), String>)
        ensures
            final(self).draft == old(self).draft,
            final(self).check == after_answer(*old(self), tested, result).0,
            after_answer(*old(self), tested, result).1 ==> final(self).checking is None,
            !after_answer(*old(self), tested, result).1 ==> final(self).checking == old(
                self,
            ).checking,
    {
        let current = match &self.checking {
            Some(c) => c.same(&tested),
            None => false,
        };
        if !current {
            return;
        }
        self.checking = None;
        self.check = match result {
            Ok(()) => ProxyCheck::Works,
            Err(e) => ProxyCheck::Failed(e),
        };
    }

    /// "Test proxy" is offered for enabled, valid settings, one test at a
    /// time.
    pub fn can_test(&self, valid: bool) -> (r: bool)
        ensures
            r == (self.draft.enabled && valid && self.check != ProxyCheck::Running),
    {
        let running = match self.check {
            ProxyCheck::Running => true,
            _ => false,
        };
        self.draft.enabled && valid && !running
    }

    /// Whether the draft differs from the saved settings.
    pub fn changed(&self, saved: &ProxySettings) -> (r: bool)
        ensures
            r == (settings_view(self.draft) != settings_view(*saved)),
    {
        !self.draft.same(saved)
    }

    /// "Undo": back to the saved settings, and no check shown.
    pub fn undo(&mut self, saved: &ProxySettings)
        ensures
            settings_view(final(self).draft) == settings_view(*saved),
            final(self).check == ProxyCheck::Idle,
            final(self).checking == old(self).checking,
    {
        self.draft = saved.duplicate();
        self.check = ProxyCheck::Idle;
    }
}

/// "Save" is offered when the draft changed and is valid.
pub fn can_save(changed: bool, valid: bool) -> (r: bool)
    ensures
        r == (changed && valid),
{
    changed && valid
}

/// The status line, if any.
pub fn status_text(problem: Option<&str>, check: &ProxyCheck) -> (r: Option<String>)
    ensures
        match status_view(
            match problem {
                Some(p) => Some(p@),
                None => None,
            },
            *check,
        ) {
            Some(t) => (r matches Some(s) && s@ == t),
            None => r is None,
        },
{
    match problem {
        Some(why) => Some(String::from_str(why)),
        None => match check {
            ProxyCheck::Idle => None,
            ProxyCheck::Running => Some(String::from_str("Testing…")),
            ProxyCheck::Works => Some(String::from_str("The proxy works.")),
            ProxyCheck::Failed(e) => {
                let mut s = String::from_str("The proxy didn't work: ");
                s.append(e.as_str());
                Some(s)
            },
        },
    }
}

/// What "Save" stores: the draft with its address trimmed, the default
/// port for an unset one, stamped with the time.
pub fn settings_to_save(draft: &ProxySettings, default_port: u16, now: u64) -> (r: ProxySettings)
    ensures
        r.enabled == draft.enabled,
        r.host@ == trimmed(draft.host@),
        r.port == (if draft.port == 0 {
            default_port
        } else {
            draft.port
        }),
        r.username@ == draft.username@,
        r.password@ == draft.password@,
        r.set == now,
{
    let host = string_of(&trim(&chars_of(draft.host.as_str())));
    ProxySettings {
        enabled: draft.enabled,
        host,
        port: if draft.port == 0 {
            default_port
        } else {
            draft.port
        },
        username: draft.username.clone(),
        password: draft.password.clone(),
        set: now,
    }
}

/// The toast after saving.
pub fn saved_message(active: bool) -> (r: &'static str)
    ensures
        r@ == (if active {
            "Proxy on. Games started from now on use it."@
        } else {
            "Proxy off."@
        }),
{
    if active {
        "Proxy on. Games started from now on use it."
    } else {
        "Proxy off."
    }
}

/// An answer to the test that was started last ends the check, with the
/// result it brought.
pub proof fn law_latest_test_counts(ui: NetworkUi, result: Result<(), String>)
    requires
        ui.checking matches Some(c) && settings_view(c) == settings_view(ui.draft),
    ensures
        after_answer(ui, ui.draft, result).1,
        after_answer(ui, ui.draft, result).0 == match result {
            Ok(()) => ProxyCheck::Works,
            Err(e) => ProxyCheck::Failed(e),
        },
{
}

/// An answer for settings other than those being checked changes nothing.
pub proof fn law_stale_answer_dropped(ui: NetworkUi, tested: ProxySettings, result: Result<(), String>)
    requires
        !answers(ui.checking, tested),
    ensures
        after_answer(ui, tested, result) == (ui.check, false),
{
}

} // verus!
