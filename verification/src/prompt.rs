//! Prompt mode (`--agent-prompt`): the short-lived child that owns one
//! request.
//!
//! The daemon never sees the password. It forks this, hands over what is
//! needed to ask, and reads the exit code. Everything that touches the
//! secret happens there, in a process that lives for one authentication and
//! dies:
//!
//!   hardening -> window -> helper conversation -> exit code
//!
//! What that process decides lives here: how many times to ask, when a
//! spent budget ends the asking, which exit code an outcome becomes, and
//! what a password typed ahead of its prompt may answer.
use vstd::prelude::*;

use crate::attempts::{status_text, Budget, MAX_ATTEMPTS, WARN_AT_OR_BELOW};
use crate::helper::Outcome;
use crate::secret::Secret;

verus! {

/// Exit codes. The daemon turns these back into a D-Bus answer, so the
/// distinction between "failed" and "cancelled" matters: reporting a refusal
/// as an error makes polkitd re-issue the request forever.
pub const EXIT_SUCCESS: i32 = 0;

pub const EXIT_FAILED: i32 = 1;

pub const EXIT_CANCELLED: i32 = 2;

/// D-Bus-facing code for one finished prompt. Wrong passwords must not be a
/// D-Bus error: polkitd would re-issue and the next child would start at the
/// fingerprint again.
pub fn exit_for(outcome: Outcome) -> (r: i32)
    ensures
        r == exit_code_of(outcome),
{
    match outcome {
        Outcome::Success => EXIT_SUCCESS,
        Outcome::Failed | Outcome::Cancelled | Outcome::RefusedWithoutPrompt => EXIT_CANCELLED,
    }
}

/// The exit code `exit_for` gives an outcome.
pub open spec fn exit_code_of(outcome: Outcome) -> i32 {
    if outcome == Outcome::Success {
        EXIT_SUCCESS
    } else {
        EXIT_CANCELLED
    }
}

/// What the agent answers polkitd without a D-Bus error.
pub open spec fn ends_cleanly(code: i32) -> bool {
    code == EXIT_SUCCESS || code == EXIT_CANCELLED
}

/// Spent password tries end the request without a D-Bus error: whatever
/// the prompt ended with, its exit code is one the agent answers normally,
/// so polkitd never re-issues the request and the window never reopens.
pub proof fn law_no_outcome_reopens_the_window(outcome: Outcome)
    ensures
        ends_cleanly(exit_code_of(outcome)),
        exit_code_of(outcome) == EXIT_SUCCESS <==> outcome == Outcome::Success,
{
}

/// What the retry loop does once attempt number `attempt` (from 1) ended.
#[derive(Debug, PartialEq, Eq, Structural, Clone, Copy)]
pub enum AfterAttempt {
    /// The request is over, with this outcome.
    Stop(Outcome),
    /// A wrong password with attempts to spare: read the budget, then
    /// decide with `after_budget`.
    ReadBudget,
}

/// Up to `MAX_ATTEMPTS` authentications, re-prompting after a wrong password
/// and stopping on anything else. The cap is per cookie, so this is where
/// "three tries then give up" for one request lives.
pub open spec fn after_attempt_of(attempt: nat, outcome: Outcome) -> AfterAttempt {
    if outcome == Outcome::Failed && attempt < MAX_ATTEMPTS {
        AfterAttempt::ReadBudget
    } else {
        AfterAttempt::Stop(outcome)
    }
}

pub fn after_attempt(attempt: u32, outcome: Outcome) -> (r: AfterAttempt)
    ensures
        r == after_attempt_of(attempt as nat, outcome),
{
    if outcome == Outcome::Failed && attempt < MAX_ATTEMPTS {
        AfterAttempt::ReadBudget
    } else {
        AfterAttempt::Stop(outcome)
    }
}

/// What a wrong password leads to once the budget has been read.
pub enum Retry {
    /// The account locked under the last answer: stop asking, as a cancel.
    Locked,
    /// Ask again. `attempts` is the budget line to put on the window first,
    /// when there is a budget; then the window is told `WRONG_PASSWORD`.
    Again { attempts: Option<Option<(String, bool)>> },
}

/// A retry goes on only while the account is not locked. Where the stack
/// keeps no budget there is nothing to update, and the window just hears
/// that the password was wrong.
pub fn after_budget(budget: Option<Budget>) -> (r: Retry)
    ensures
        match budget {
            None => r matches Retry::Again { attempts } && attempts is None,
            Some(b) => if b.remaining == 0 {
                r is Locked
            } else {
                r matches Retry::Again { attempts } && attempts matches Some(Some(line)) && line.0@
                    == status_text(b.remaining as nat) && line.1 == (b.remaining
                    <= WARN_AT_OR_BELOW)
            },
        },
{
    match budget {
        None => Retry::Again { attempts: None },
        Some(b) => {
            if b.is_locked() {
                Retry::Locked
            } else {
                Retry::Again { attempts: Some(b.status()) }
            }
        },
    }
}

/// The attempt numbers the loop can reach: it starts at 1 and goes on only
/// through `ReadBudget`, one number at a time.
pub open spec fn reachable(attempt: nat) -> bool {
    1 <= attempt <= MAX_ATTEMPTS
}

/// No request is asked more than `MAX_ATTEMPTS` times: the last attempt
/// stops whatever it ended with, and only a wrong password ever goes on.
pub proof fn law_attempts_are_capped(attempt: nat, outcome: Outcome)
    ensures
        attempt >= MAX_ATTEMPTS ==> after_attempt_of(attempt, outcome) == AfterAttempt::Stop(
            outcome,
        ),
        outcome != Outcome::Failed ==> after_attempt_of(attempt, outcome) == AfterAttempt::Stop(
            outcome,
        ),
        after_attempt_of(attempt, outcome) == AfterAttempt::ReadBudget ==> reachable(attempt)
            ==> reachable(attempt + 1),
{
}

/// A password typed while PAM was still at `pam_fprintd`, after a wrong
/// password: the next prompt is the one it was typed for.
pub struct Stash {
    pending: Option<Secret>,
}

impl View for Stash {
    type V = Option<Seq<char>>;

    closed spec fn view(&self) -> Option<Seq<char>> {
        match self.pending {
            Some(s) => Some(s@),
            None => None,
        }
    }
}

impl Stash {
    pub fn new() -> (s: Self)
        ensures
            s@ is None,
    {
        Stash { pending: None }
    }

    /// Keep `secret` for the next prompt. One typed earlier is wiped: only
    /// the last thing typed answers.
    pub fn keep(&mut self, secret: Secret)
        ensures
            final(self)@ == Some(secret@),
    {
        let old = self.pending.take();
        match old {
            Some(mut o) => o.wipe(),
            None => {},
        }
        self.pending = Some(secret);
    }

    /// What answers a prompt from the stash. The stash was typed into a
    /// password field, so it answers a password prompt and nothing else: an
    /// echoed prompt (a username, a one-time code) may be logged by the
    /// module that asked, and a password must never travel that way. Either
    /// way the stash is empty afterwards, and one that is not handed out is
    /// wiped.
    pub fn take_for(&mut self, echo: bool) -> (r: Option<Secret>)
        ensures
            final(self)@ is None,
            match r {
                Some(s) => !echo && old(self)@ == Some(s@),
                None => echo || old(self)@ is None,
            },
    {
        match self.pending.take() {
            Some(mut s) => {
                if !echo {
                    Some(s)
                } else {
                    s.wipe();
                    None
                }
            },
            None => None,
        }
    }
}

/// What the window had to say when the helper loop looked, between reads.
pub enum Polled {
    /// Esc, or the window closed.
    Cancel,
    /// The window is gone without a word.
    Closed,
    /// A password, typed while PAM was still at the sensor.
    Answer(Secret),
    /// Nothing yet.
    Nothing,
}

/// Has the user given up? A SIGTERM from the agent (polkitd cancelled) reads
/// as a cancel on its own, without a window message. A password typed
/// early is not a cancel: it is kept for the prompt it was typed for.
pub fn cancelled(stash: &mut Stash, terminated: bool, polled: Polled) -> (r: bool)
    ensures
        terminated ==> r && final(stash)@ == old(stash)@,
        !terminated ==> match polled {
            Polled::Cancel | Polled::Closed => r && final(stash)@ == old(stash)@,
            Polled::Answer(s) => !r && final(stash)@ == Some(s@),
            Polled::Nothing => !r && final(stash)@ == old(stash)@,
        },
{
    if terminated {
        return true;
    }
    match polled {
        Polled::Cancel | Polled::Closed => true,
        Polled::Answer(secret) => {
            stash.keep(secret);
            false
        },
        Polled::Nothing => false,
    }
}

} // verus!
