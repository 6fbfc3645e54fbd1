//! Askpass mode's wording: the process sudo forks to collect a password.
//!
//! Reached through the symlink whose basename is `askpass`; sudo hands it
//! the prompt and reads the first line of its stdout. What it shows when the
//! account is close to locking, or already locked, is decided here.
use vstd::prelude::*;

use crate::attempts::{Budget, MAX_ATTEMPTS, WARN_AT_OR_BELOW};
use crate::text::{chars_of, concat, decimal, decimal_exec, string_of, trim, trim_exec};

verus! {

/// Shown when sudo gives no prompt of its own.
pub const DEFAULT_PROMPT: &'static str = "Password:";

/// The warning for `remaining` failures left, when that is few enough to
/// warn about at all.
pub open spec fn warning_text(remaining: nat) -> Option<Seq<char>> {
    if remaining <= WARN_AT_OR_BELOW {
        Some(
            decimal(remaining) + " failed attempt"@ + (if remaining == 1 {
                ""@
            } else {
                "s"@
            }) + " left before lockout"@,
        )
    } else {
        None
    }
}

/// Warn only when the account is close to locking out.
pub fn warning_for(budget: &Budget) -> (r: Option<String>)
    ensures
        match warning_text(budget.remaining as nat) {
            None => r is None,
            Some(t) => r is Some && r->0@ == t,
        },
{
    if budget.remaining > WARN_AT_OR_BELOW {
        return None;
    }
    let plural = if budget.remaining == 1 {
        chars_of("")
    } else {
        chars_of("s")
    };
    let a = concat(&decimal_exec(budget.remaining as u64), &chars_of(" failed attempt"));
    let b = concat(&a, &plural);
    let c = concat(&b, &chars_of(" left before lockout"));
    Some(string_of(&c))
}

/// What a locked account is told, with the wait when it is known.
pub open spec fn locked_text(unlock_in: Option<u64>) -> Seq<char> {
    match unlock_in {
        Some(secs) => "Account locked by failed attempts.\nTry again in about "@ + decimal(
            secs as nat,
        ) + "s."@,
        None => "Account locked by failed attempts.\nTry again shortly."@,
    }
}

/// The notice shown instead of a prompt when the account is locked.
pub fn locked_message(unlock_in: Option<u64>) -> (r: String)
    ensures
        r@ == locked_text(unlock_in),
{
    match unlock_in {
        Some(secs) => {
            let a = concat(
                &chars_of("Account locked by failed attempts.\nTry again in about "),
                &decimal_exec(secs),
            );
            string_of(&concat(&a, &chars_of("s.")))
        },
        None => string_of(&chars_of("Account locked by failed attempts.\nTry again shortly.")),
    }
}

/// The prompt sudo handed over, or ours when it gave none worth showing.
pub open spec fn prompt_text(given: Option<Seq<char>>) -> Seq<char> {
    match given {
        Some(p) => if trim(p).len() == 0 {
            DEFAULT_PROMPT@
        } else {
            p
        },
        None => DEFAULT_PROMPT@,
    }
}

/// What the window asks with: sudo's own prompt unless it is missing or
/// blank.
pub fn prompt_for(given: Option<&str>) -> (r: String)
    ensures
        r@ == prompt_text(match given {
            Some(p) => Some(p@),
            None => None,
        }),
{
    match given {
        Some(p) => {
            if trim_exec(&chars_of(p)).len() == 0 {
                string_of(&chars_of(DEFAULT_PROMPT))
            } else {
                string_of(&chars_of(p))
            }
        },
        None => string_of(&chars_of(DEFAULT_PROMPT)),
    }
}

/// Refuse before drawing anything when the per-command allowance is spent:
/// prompting there can only waste an attempt.
pub fn allowance_spent(used: u32) -> (r: bool)
    ensures
        r == (used >= MAX_ATTEMPTS),
{
    used >= MAX_ATTEMPTS
}

} // verus!
