//! First-run setup: its steps, moving between them, and the memory step's
//! limits.

use vstd::prelude::*;

verus! {

/// The steps of setup, in order.
#[derive(Debug, Clone, Copy, PartialEq, Eq, Structural)]
pub enum Step {
    Welcome,
    Look,
    Account,
    Memory,
    Client,
    Start,
}

/// What to do once setup is over.
#[derive(Debug, Clone, Copy, PartialEq, Eq, Structural)]
pub enum FirstPlay {
    Vanilla,
    Modded,
    Later,
}

/// Position of each step.
pub open spec fn rank(step: Step) -> nat {
    match step {
        Step::Welcome => 0,
        Step::Look => 1,
        Step::Account => 2,
        Step::Memory => 3,
        Step::Client => 4,
        Step::Start => 5,
    }
}

pub open spec fn all_steps() -> Seq<Step> {
    seq![Step::Welcome, Step::Look, Step::Account, Step::Memory, Step::Client, Step::Start]
}

impl Step {
    /// All steps, in order.
    pub fn all() -> (r: Vec<Step>)
        ensures
            r@ == all_steps(),
    {
        vec![Step::Welcome, Step::Look, Step::Account, Step::Memory, Step::Client, Step::Start]
    }

    /// The step's position (its dot in the progress row).
    pub fn index(self) -> (r: usize)
        ensures
            r == rank(self),
    {
        match self {
            Step::Welcome => 0,
            Step::Look => 1,
            Step::Account => 2,
            Step::Memory => 3,
            Step::Client => 4,
            Step::Start => 5,
        }
    }

    /// The step after "Next" (forward) or "Back": the neighbour, or the
    /// same step past either end.
    pub fn moved(self, forward: bool) -> (r: Step)
        ensures
            rank(r) == if forward {
                if rank(self) < 5 {
                    rank(self) + 1
                } else {
                    rank(self)
                }
            } else {
                if rank(self) > 0 {
                    (rank(self) - 1) as nat
                } else {
                    0
                }
            },
    {
        let i = self.index();
        let next: usize = if forward {
            i + 1
        } else if i > 0 {
            i - 1
        } else {
            0
        };
        let all = Step::all();
        if next < all.len() {
            all[next]
        } else {
            self
        }
    }

    /// The main button's label: "Skip for now" on the account step without
    /// an account.
    pub fn primary_label(self, has_account: bool) -> (r: &'static str)
        ensures
            r@ == match self {
                Step::Welcome => "Get started"@,
                Step::Start => "Start playing"@,
                Step::Account => if has_account {
                    "Next"@
                } else {
                    "Skip for now"@
                },
                _ => "Next"@,
            },
    {
        match self {
            Step::Welcome => "Get started",
            Step::Start => "Start playing",
            Step::Account => if has_account {
                "Next"
            } else {
                "Skip for now"
            },
            _ => "Next",
        }
    }
}

/// What happens when a profile is opened.
#[derive(Debug, Clone, Copy, PartialEq, Eq, Structural)]
pub enum SetupStart {
    /// Already set up.
    Nothing,
    /// Skipped, or a profile from before setup existed (it has accounts):
    /// marked as set up without asking.
    MarkDone,
    Begin,
}

/// Whether setup runs for a profile.
pub fn setup_start(onboarded: bool, skip: bool, has_accounts: bool) -> (r: SetupStart)
    ensures
        r == (if onboarded {
            SetupStart::Nothing
        } else if skip || has_accounts {
            SetupStart::MarkDone
        } else {
            SetupStart::Begin
        }),
{
    if onboarded {
        SetupStart::Nothing
    } else if skip || has_accounts {
        SetupStart::MarkDone
    } else {
        SetupStart::Begin
    }
}

/// The memory slider's top: this PC's memory less 1 GB (at least 2 GB),
/// or 16 GB when it is unknown.
pub open spec fn slider_max(total_mb: Option<u64>) -> u32 {
    match total_mb {
        None => 16384,
        Some(t) => {
            let m = if (t as u32) > 1024 {
                ((t as u32) - 1024) as u32
            } else {
                0u32
            };
            if m > 2048 {
                m
            } else {
                2048
            }
        },
    }
}

/// The memory slider's top in MB.
pub fn memory_slider_max(total_mb: Option<u64>) -> (r: u32)
    ensures
        r == slider_max(total_mb),
{
    match total_mb {
        None => 16384,
        Some(t) => {
            let low: u32 = t as u32;
            let m: u32 = if low > 1024 {
                low - 1024
            } else {
                0
            };
            if m > 2048 {
                m
            } else {
                2048
            }
        },
    }
}

/// The warning under the slider: more than half of this PC's memory.
pub fn over_half_memory(total_mb: Option<u64>, chosen_mb: u32) -> (r: bool)
    ensures
        r == (total_mb matches Some(t) && chosen_mb > t / 2),
{
    match total_mb {
        Some(t) => (chosen_mb as u64) > t / 2,
        None => false,
    }
}

/// Going forward one step and back again returns to the step, except from
/// the last one.
pub proof fn law_next_then_back(step: Step, next: Step, back: Step)
    requires
        rank(step) < 5,
        rank(next) == rank(step) + 1,
        rank(back) == (rank(next) - 1) as nat,
    ensures
        back == step,
{
}

/// Each step sits at its own position in the list of all steps.
pub proof fn law_index_in_order(step: Step)
    ensures
        rank(step) < all_steps().len(),
        all_steps()[rank(step) as int] == step,
{
}

} // verus!
