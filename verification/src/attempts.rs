//! Retry guard and failure budget.
//!
//! Two separate protections against the same hazard: sudoers here sets
//! `passwd_tries=10` and PAM sets faillock `deny=10`, the same number. One
//! sudo command that keeps answering wrongly can therefore consume the entire
//! lockout budget on its own.
//!
//! The guard caps a single command at three prompts. The budget query is what
//! lets the window warn before the last few attempts are spent, and refuse
//! outright once the account is already locked.
//!
//! The budget only means something where the PAM stack being answered runs
//! `pam_faillock`. Stock Arch does for both `sudo` and `polkit-1` (through
//! `system-auth`), but Omarchy's fingerprint setup writes a `polkit-1` without
//! it, and then a wrong polkit password neither counts nor locks. The stack is
//! followed through its `include`s before any number is shown.
//!
//! Reading the files, running `faillock` and the clock are the caller's; what
//! the numbers mean is decided here.
use vstd::prelude::*;

use crate::invocation::{lossy, utf8_lossy};
use crate::pam::{auth_stack_names, stack_names, PamDir};
use crate::text::{
    chars_of, concat, contains, contains_exec, decimal, decimal_exec, find, find_exec, is_digit,
    lemma_decimal, lemma_words_of_pair, lines, lines_exec, parse_uint, parse_uint_exec,
    starts_with, starts_with_exec, string_of, trim, trim_exec, trim_start, trim_start_at, words,
    words_exec,
};

verus! {

broadcast use crate::chars::lemma_deep_view_chars;

/// Prompts allowed per sudo command, out of the ten sudo would otherwise give.
pub const MAX_ATTEMPTS: u32 = 3;

/// What the window says after a rejected password. ASCII, like `Checking...`.
pub const WRONG_PASSWORD: &'static str = "Wrong password";

/// At or below this many remaining failures the standing line turns to the
/// error colour. Above it the same line is drawn quietly.
pub const WARN_AT_OR_BELOW: u32 = 3;

/// A stale counter is ignored. This only matters when sudo was invoked
/// without going through our wrapper, which is the one path that never
/// resets it.
pub const STALE_AFTER_SECS: u64 = 60;

/// The PAM service the polkit helper authenticates against.
pub const POLKIT_SERVICE: &'static str = "polkit-1";

/// The PAM service sudo authenticates against.
pub const SUDO_SERVICE: &'static str = "sudo";

/// How much failure budget PAM has left for this account.
pub struct Budget {
    /// Failures that can still be recorded before the account locks.
    pub remaining: u32,
    /// Seconds until the lockout lifts, when already locked and computable.
    pub unlock_in: Option<u64>,
}

/// The standing budget line for `remaining` failures left.
pub open spec fn status_text(remaining: nat) -> Seq<char> {
    decimal(remaining) + " attempt(s) left before the account locks"@
}

/// What a locked account is told instead of a prompt.
pub open spec fn refusal_text(unlock_in: Option<u64>) -> Seq<char> {
    match unlock_in {
        Some(secs) => "account locked, "@ + decimal(secs as nat) + "s to go"@,
        None => "account is locked out"@,
    }
}

/// The standing line for a budget with `remaining` failures left, and
/// whether it is low enough to alarm; none once the account is locked.
pub open spec fn status_of(remaining: u32) -> Option<(Seq<char>, bool)> {
    if remaining == 0 {
        None
    } else {
        Some((status_text(remaining as nat), remaining <= WARN_AT_OR_BELOW))
    }
}

/// What a budget refuses with: nothing while failures are left.
pub open spec fn refusal_of(remaining: u32, unlock_in: Option<u64>) -> Option<Seq<char>> {
    if remaining == 0 {
        Some(refusal_text(unlock_in))
    } else {
        None
    }
}

impl Budget {
    pub fn is_locked(&self) -> (r: bool)
        ensures
            r == (self.remaining == 0),
    {
        self.remaining == 0
    }

    /// The line that stands under the field for the whole life of the
    /// window: what is left of the shared faillock budget, and whether that
    /// is few enough to say so in the error colour.
    ///
    /// Shown at all times rather than only when it runs low. The number is
    /// what the window is for -- polkit failures lock sudo and login too, so
    /// "how much room is left" is worth knowing before it is nearly gone.
    ///
    /// `None` only when the account is already locked, which `refusal`
    /// speaks to instead and which never reaches a window anyway.
    pub fn status(&self) -> (r: Option<(String, bool)>)
        ensures
            match r {
                Some(line) => status_of(self.remaining) == Some((line.0@, line.1)),
                None => status_of(self.remaining) is None,
            },
    {
        if self.remaining == 0 {
            return None;
        }
        let line = concat(
            &decimal_exec(self.remaining as u64),
            &chars_of(" attempt(s) left before the account locks"),
        );
        Some((string_of(&line), self.remaining <= WARN_AT_OR_BELOW))
    }

    /// The message to show instead of a prompt when the account is locked,
    /// or `None` when it is not. Both prompt paths refuse rather than ask, so
    /// this is the one place that decides the wording.
    pub fn refusal(&self) -> (r: Option<String>)
        ensures
            match r {
                Some(t) => refusal_of(self.remaining, self.unlock_in) == Some(t@),
                None => refusal_of(self.remaining, self.unlock_in) is None,
            },
    {
        if !self.is_locked() {
            return None;
        }
        match self.unlock_in {
            Some(secs) => {
                let head = concat(&chars_of("account locked, "), &decimal_exec(secs));
                let line = concat(&head, &chars_of("s to go"));
                Some(string_of(&line))
            },
            None => Some(string_of(&chars_of("account is locked out"))),
        }
    }
}

/// `a - b`, or zero.
pub open spec fn sat_sub(a: int, b: int) -> int {
    if a > b {
        a - b
    } else {
        0
    }
}

/// The budget the numbers describe (see `budget`).
pub open spec fn budget_of(
    counts_failures: bool,
    deny: Option<u32>,
    tally: Option<(u32, Option<u64>)>,
    unlock_time: Option<u32>,
    now: u64,
) -> Option<(nat, Option<nat>)> {
    if !counts_failures || deny is None || tally is None {
        None
    } else {
        let remaining = sat_sub(deny->0 as int, tally.unwrap().0 as int);
        let unlock_in = if remaining == 0 && unlock_time is Some && tally.unwrap().1 is Some {
            Some(sat_sub(unlock_time->0 as int, sat_sub(now as int, tally.unwrap().1.unwrap() as int)) as nat)
        } else {
            None
        };
        Some((remaining as nat, unlock_in))
    }
}

/// The current failure budget, or `None` if it cannot be determined.
///
/// Guessing is worse than staying quiet: a wrong number shown next to a
/// password box is actively misleading, so any missing piece gives up. So
/// does a service whose PAM stack never runs `pam_faillock`
/// (`counts_failures` false): there the tally is real but this password does
/// not move it, and a locked account is not refused either, because that
/// stack would accept the password anyway.
///
/// `deny` and `unlock_time` are the pam_faillock settings, `tally` the count
/// of failures `faillock` still considers valid with the newest one's time,
/// and `now` the clock, all in seconds.
pub fn budget(
    counts_failures: bool,
    deny: Option<u32>,
    tally: Option<(u32, Option<u64>)>,
    unlock_time: Option<u32>,
    now: u64,
) -> (r: Option<Budget>)
    ensures
        match budget_of(counts_failures, deny, tally, unlock_time, now) {
            None => r is None,
            Some((remaining, unlock_in)) => r is Some && r->0.remaining == remaining && match unlock_in {
                None => r->0.unlock_in is None,
                Some(u) => r->0.unlock_in == Some(u as u64),
            },
        },
{
    if !counts_failures {
        return None;
    }
    let deny = match deny {
        Some(d) => d,
        None => {
            return None;
        },
    };
    let (valid, newest) = match tally {
        Some(t) => t,
        None => {
            return None;
        },
    };
    let remaining = deny.saturating_sub(valid);
    let unlock_in = if remaining == 0 {
        match (unlock_time, newest) {
            (Some(window), Some(at)) => {
                let elapsed = now.saturating_sub(at);
                Some((window as u64).saturating_sub(elapsed))
            },
            _ => None,
        }
    } else {
        None
    };
    Some(Budget { remaining, unlock_in })
}

/// Whether an `auth` line of the service's effective PAM stack runs
/// `pam_faillock`, following `include` and `substack` the way PAM does.
pub fn stack_counts_failures(dir: &PamDir, service: &str) -> (r: bool)
    ensures
        r == stack_names(dir@, service@, "pam_faillock"@, 0),
{
    auth_stack_names(dir, service, "pam_faillock")
}

/// The value a faillock.conf line gives `key`: `key = value`.
pub open spec fn conf_line_value(line: Seq<char>, key: Seq<char>) -> Option<nat> {
    let t = trim(line);
    let r = trim(t.subrange(key.len() as int, t.len() as int));
    if starts_with(t, seq!['#']) || !starts_with(t, key) || !starts_with(r, seq!['=']) {
        None
    } else {
        parse_uint(trim(r.drop_first()), u32::MAX as nat)
    }
}

/// The first line that gives `key` a value.
pub open spec fn first_value(ls: Seq<Seq<char>>, key: Seq<char>, pam: bool) -> Option<nat>
    decreases ls.len(),
{
    if ls.len() == 0 {
        None
    } else {
        let v = if pam {
            pam_line_value(ls[0], key)
        } else {
            conf_line_value(ls[0], key)
        };
        if v is Some {
            v
        } else {
            first_value(ls.drop_first(), key, pam)
        }
    }
}

/// The longest prefix of `s` made of ASCII digits.
pub open spec fn leading_digits(s: Seq<char>) -> Seq<char>
    decreases s.len(),
{
    if s.len() > 0 && is_digit(s[0]) {
        seq![s[0]] + leading_digits(s.drop_first())
    } else {
        Seq::<char>::empty()
    }
}

/// `line.split(needle).nth(1)`: what lies between the first occurrence of
/// `needle` and the next one, or the end.
pub open spec fn second_piece(line: Seq<char>, needle: Seq<char>) -> Option<Seq<char>> {
    match find(line, needle) {
        None => None,
        Some(f) => {
            let after = line.subrange(f + needle.len(), line.len() as int);
            match find(after, needle) {
                Some(g) => Some(after.subrange(0, g)),
                None => Some(after),
            }
        },
    }
}

/// The value a `pam_faillock` module line gives `key`: `key=digits`.
pub open spec fn pam_line_value(line: Seq<char>, key: Seq<char>) -> Option<nat> {
    if starts_with(trim_start(line), seq!['#']) || !contains(line, "pam_faillock"@) {
        None
    } else {
        match second_piece(line, key.push('=')) {
            None => None,
            Some(rest) => parse_uint(leading_digits(rest), u32::MAX as nat),
        }
    }
}

fn conf_line_value_exec(line: &[char], key: &[char]) -> (r: Option<u32>)
    ensures
        match r {
            Some(v) => conf_line_value(line@, key@) == Some(v as nat),
            None => conf_line_value(line@, key@) is None,
        },
{
    let t = trim_exec(line);
    let hash = vec!['#'];
    assert(hash@ =~= seq!['#']);
    if starts_with_exec(&t, &hash) || !starts_with_exec(&t, key) {
        return None;
    }
    let rest = crate::text::copy_range(&t, key.len(), t.len());
    let r = trim_exec(&rest);
    let eq = vec!['='];
    assert(eq@ =~= seq!['=']);
    if !starts_with_exec(&r, &eq) {
        return None;
    }
    let value = crate::text::copy_range(&r, 1, r.len());
    assert(value@ =~= r@.drop_first());
    let v = trim_exec(&value);
    match parse_uint_exec(&v, u32::MAX as u64) {
        Some(n) => Some(n as u32),
        None => None,
    }
}

fn leading_digits_exec(s: &[char]) -> (r: Vec<char>)
    ensures
        r@ == leading_digits(s@),
{
    let mut j: usize = 0;
    assert(s@.subrange(0, s@.len() as int) =~= s@);
    assert(s@.subrange(0, 0) + leading_digits(s@) =~= leading_digits(s@));
    while j < s.len() && '0' <= s[j] && s[j] <= '9'
        invariant
            j <= s@.len(),
            leading_digits(s@) == s@.subrange(0, j as int) + leading_digits(
                s@.subrange(j as int, s@.len() as int),
            ),
        decreases s.len() - j,
    {
        let ghost rest = s@.subrange(j as int, s@.len() as int);
        assert(rest.drop_first() =~= s@.subrange(j + 1, s@.len() as int));
        assert(s@.subrange(0, j + 1) =~= s@.subrange(0, j as int) + seq![rest[0]]);
        j = j + 1;
    }
    assert(s@.subrange(0, 0) + leading_digits(s@.subrange(0, s@.len() as int)) =~= leading_digits(
        s@,
    )) by {
        assert(s@.subrange(0, s@.len() as int) =~= s@);
    }
    assert(leading_digits(s@.subrange(j as int, s@.len() as int)) =~= Seq::<char>::empty());
    assert(leading_digits(s@) =~= s@.subrange(0, j as int));
    crate::text::copy_range(s, 0, j)
}

fn pam_line_value_exec(line: &[char], key: &[char]) -> (r: Option<u32>)
    ensures
        match r {
            Some(v) => pam_line_value(line@, key@) == Some(v as nat),
            None => pam_line_value(line@, key@) is None,
        },
{
    let a = trim_start_at(line);
    let hash = vec!['#'];
    assert(hash@ =~= seq!['#']);
    let lead = crate::text::copy_range(line, a, line.len());
    if starts_with_exec(&lead, &hash) || !contains_exec(line, &chars_of("pam_faillock")) {
        return None;
    }
    let mut needle = crate::text::copy_range(key, 0, key.len());
    needle.push('=');
    assert(key@.subrange(0, key@.len() as int) =~= key@);
    let f = match find_exec(line, &needle) {
        None => {
            return None;
        },
        Some(f) => f,
    };
    let after = crate::text::copy_range(line, f + needle.len(), line.len());
    let rest = match find_exec(&after, &needle) {
        Some(g) => crate::text::copy_range(&after, 0, g),
        None => after,
    };
    let digits = leading_digits_exec(&rest);
    match parse_uint_exec(&digits, u32::MAX as u64) {
        Some(n) => Some(n as u32),
        None => None,
    }
}

fn first_value_exec(text: &str, key: &str, pam: bool) -> (r: Option<u32>)
    ensures
        match r {
            Some(v) => first_value(lines(text@), key@, pam) == Some(v as nat),
            None => first_value(lines(text@), key@, pam) is None,
        },
{
    let t = chars_of(text);
    let k = chars_of(key);
    let ls = lines_exec(&t);
    let ghost all = lines(text@);
    let mut i: usize = 0;
    assert(all.subrange(0, all.len() as int) =~= all);
    while i < ls.len()
        invariant
            all == lines(text@),
            ls.deep_view() == all,
            k@ == key@,
            i <= all.len(),
            first_value(all, key@, pam) == first_value(
                all.subrange(i as int, all.len() as int),
                key@,
                pam,
            ),
        decreases ls.len() - i,
    {
        let ghost rest = all.subrange(i as int, all.len() as int);
        assert(rest[0] == ls@[i as int]@);
        let v = if pam {
            pam_line_value_exec(&ls[i], &k)
        } else {
            conf_line_value_exec(&ls[i], &k)
        };
        if v.is_some() {
            return v;
        }
        assert(rest.drop_first() =~= all.subrange(i + 1, all.len() as int));
        i = i + 1;
    }
    None
}

/// `key = value`, faillock.conf style. Comments and other keys are ignored,
/// and a longer key that merely starts with `key` is not a match.
pub fn parse_conf_setting(text: &str, key: &str) -> (r: Option<u32>)
    ensures
        match r {
            Some(v) => first_value(lines(text@), key@, false) == Some(v as nat),
            None => first_value(lines(text@), key@, false) is None,
        },
{
    first_value_exec(text, key, false)
}

/// `key=value` glued onto a pam_faillock module line. Only that module's
/// lines count, so a `deny=` on some other module is not mistaken for ours.
pub fn parse_pam_setting(text: &str, key: &str) -> (r: Option<u32>)
    ensures
        match r {
            Some(v) => first_value(lines(text@), key@, true) == Some(v as nat),
            None => first_value(lines(text@), key@, true) is None,
        },
{
    first_value_exec(text, key, true)
}

/// A `faillock` row that still counts: `<date> <time> <type> <source> V`.
pub open spec fn valid_row(line: Seq<char>) -> bool {
    let f = words(line);
    f.len() >= 5 && f.last() == seq!['V']
}

/// The still-valid failures among these rows, and the date and time of the
/// last of them.
pub open spec fn tally_of(ls: Seq<Seq<char>>) -> (nat, Option<(Seq<char>, Seq<char>)>)
    decreases ls.len(),
{
    if ls.len() == 0 {
        (0, None)
    } else {
        let (v, n) = tally_of(ls.drop_last());
        if valid_row(ls.last()) {
            (v + 1, Some((words(ls.last())[0], words(ls.last())[1])))
        } else {
            (v, n)
        }
    }
}

pub proof fn lemma_tally_bounded(ls: Seq<Seq<char>>)
    ensures
        tally_of(ls).0 <= ls.len(),
    decreases ls.len(),
{
    if ls.len() > 0 {
        lemma_tally_bounded(ls.drop_last());
    }
}

/// Count the still-valid failures and pick out the newest one's raw date
/// and time.
///
/// `faillock` lists entries oldest-first and flips the Valid column from `V`
/// to `I` once past `fail_interval`. Only `V` rows count toward the budget,
/// and the newest of them -- the last one listed -- carries the time for the
/// countdown.
pub fn parse_tally(text: &str) -> (r: (u32, Option<(String, String)>))
    requires
        lines(text@).len() <= u32::MAX,
    ensures
        r.0 as nat == tally_of(lines(text@)).0,
        match tally_of(lines(text@)).1 {
            None => r.1 is None,
            Some((d, t)) => r.1 is Some && r.1.unwrap().0@ == d && r.1.unwrap().1@ == t,
        },
{
    let t = chars_of(text);
    let ls = lines_exec(&t);
    let ghost all = lines(text@);
    let mut valid: u32 = 0;
    let mut newest: Option<(Vec<char>, Vec<char>)> = None;
    let mut i: usize = 0;
    while i < ls.len()
        invariant
            ls.deep_view() == all,
            all.len() <= u32::MAX,
            i <= all.len(),
            valid as nat == tally_of(all.subrange(0, i as int)).0,
            match tally_of(all.subrange(0, i as int)).1 {
                None => newest is None,
                Some((d, t)) => newest is Some && newest.unwrap().0@ == d && newest.unwrap().1@ == t,
            },
        decreases ls.len() - i,
    {
        proof {
            assert(all.subrange(0, i + 1).drop_last() =~= all.subrange(0, i as int));
            assert(all.subrange(0, i + 1).last() == ls@[i as int]@);
            lemma_tally_bounded(all.subrange(0, i as int));
        }
        let fields = words_exec(&ls[i]);
        let n = fields.len();
        if n >= 5 && fields[n - 1].len() == 1 && fields[n - 1][0] == 'V' {
            assert(fields@[n - 1]@ =~= seq!['V']);
            valid = valid + 1;
            newest = Some((
                crate::text::copy_range(&fields[0], 0, fields[0].len()),
                crate::text::copy_range(&fields[1], 0, fields[1].len()),
            ));
            assert(fields@[0]@.subrange(0, fields@[0]@.len() as int) =~= fields@[0]@);
            assert(fields@[1]@.subrange(0, fields@[1]@.len() as int) =~= fields@[1]@);
        } else {
            assert(!valid_row(ls@[i as int]@)) by {
                if n >= 5 && fields@[n - 1]@ == seq!['V'] {
                    assert(fields@[n - 1]@.len() == 1);
                }
            }
        }
        i = i + 1;
    }
    assert(all.subrange(0, all.len() as int) =~= all);
    let newest = match newest {
        None => None,
        Some((d, t)) => Some((string_of(&d), string_of(&t))),
    };
    (valid, newest)
}

/// What a counter file says is spent: `<stamp> <count>`, ignored once
/// older than `STALE_AFTER_SECS`, and zero when unreadable.
pub open spec fn used_of(counter: Option<Seq<char>>, now: u64) -> nat {
    match counter {
        None => 0,
        Some(text) => {
            let parts = words(text);
            let stamp = if parts.len() >= 1 && parse_uint(parts[0], u64::MAX as nat) is Some {
                parse_uint(parts[0], u64::MAX as nat)->0
            } else {
                0
            };
            let count = if parts.len() >= 2 && parse_uint(parts[1], u32::MAX as nat) is Some {
                parse_uint(parts[1], u32::MAX as nat)->0
            } else {
                0
            };
            if sat_sub(now as int, stamp as int) > STALE_AFTER_SECS {
                0
            } else {
                count
            }
        },
    }
}

/// Prompts already spent on the current sudo command, from the counter
/// file's text (`None` when there is no file) and the clock.
///
/// Counts submissions, not appearances: cancelling costs nothing here,
/// because a cancel makes sudo give up immediately and cannot loop.
pub fn used(counter: Option<&str>, now: u64) -> (r: u32)
    ensures
        r as nat == used_of(
            match counter {
                Some(t) => Some(t@),
                None => None,
            },
            now,
        ),
{
    let text = match counter {
        None => {
            return 0;
        },
        Some(t) => t,
    };
    let t = chars_of(text);
    let parts = words_exec(&t);
    let stamp: u64 = if parts.len() >= 1 {
        match parse_uint_exec(&parts[0], u64::MAX) {
            Some(v) => v,
            None => 0,
        }
    } else {
        0
    };
    let count: u32 = if parts.len() >= 2 {
        match parse_uint_exec(&parts[1], u32::MAX as u64) {
            Some(v) => v as u32,
            None => 0,
        }
    } else {
        0
    };
    proof {
        if parts@.len() >= 1 {
            assert(parts.deep_view()[0] == parts@[0]@);
        }
        if parts@.len() >= 2 {
            assert(parts.deep_view()[1] == parts@[1]@);
        }
    }
    if now.saturating_sub(stamp) > STALE_AFTER_SECS {
        return 0;
    }
    count
}

/// The counter file's next text, once a password is about to be handed to
/// sudo: the clock and one more submission.
///
/// Never holds the password itself — only a timestamp and a count.
pub fn record(used: u32, now: u64) -> (r: String)
    requires
        used < u32::MAX,
    ensures
        r@ == record_text(used as nat, now as nat),
{
    let next = used + 1;
    let mut line = decimal_exec(now);
    line.push(' ');
    let n = decimal_exec(next as u64);
    let mut line = concat(&line, &n);
    line.push('\n');
    string_of(&line)
}

/// A pam_faillock setting from the files that may hold it, as they read:
/// faillock.conf first, then a pam_faillock line in `system-auth`, then one
/// in `sudo`. A file that is missing is `None`.
pub open spec fn setting_of(
    conf: Option<Seq<char>>,
    system_auth: Option<Seq<char>>,
    sudo: Option<Seq<char>>,
    key: Seq<char>,
) -> Option<nat> {
    let from_conf = match conf {
        Some(t) => first_value(lines(t), key, false),
        None => None,
    };
    let from_system_auth = match system_auth {
        Some(t) => first_value(lines(t), key, true),
        None => None,
    };
    let from_sudo = match sudo {
        Some(t) => first_value(lines(t), key, true),
        None => None,
    };
    if from_conf is Some {
        from_conf
    } else if from_system_auth is Some {
        from_system_auth
    } else {
        from_sudo
    }
}

pub open spec fn text_opt(t: Option<&str>) -> Option<Seq<char>> {
    match t {
        Some(s) => Some(s@),
        None => None,
    }
}

/// Look up a pam_faillock setting, preferring faillock.conf over the PAM
/// stack.
pub fn setting(conf: Option<&str>, system_auth: Option<&str>, sudo: Option<&str>, key: &str) -> (r:
    Option<u32>)
    ensures
        match r {
            Some(v) => setting_of(text_opt(conf), text_opt(system_auth), text_opt(sudo), key@)
                == Some(v as nat),
            None => setting_of(text_opt(conf), text_opt(system_auth), text_opt(sudo), key@) is None,
        },
{
    if let Some(t) = conf {
        if let Some(v) = parse_conf_setting(t, key) {
            return Some(v);
        }
    }
    if let Some(t) = system_auth {
        if let Some(v) = parse_pam_setting(t, key) {
            return Some(v);
        }
    }
    match sudo {
        Some(t) => parse_pam_setting(t, key),
        None => None,
    }
}

/// What `date -d ... +%s` printed: a unix timestamp, once trimmed.
pub fn parse_epoch(stdout: &[u8]) -> (r: Option<u64>)
    ensures
        match r {
            Some(v) => parse_uint(trim(utf8_lossy(stdout@)), u64::MAX as nat) == Some(v as nat),
            None => parse_uint(trim(utf8_lossy(stdout@)), u64::MAX as nat) is None,
        },
{
    let text = lossy(stdout);
    parse_uint_exec(&trim_exec(&text), u64::MAX)
}

/// A budget speaks in exactly one voice: the standing line while failures
/// are left, the refusal once none are. The window never shows both, and
/// never neither.
pub proof fn law_status_or_refusal(remaining: u32, unlock_in: Option<u64>)
    ensures
        status_of(remaining) is Some != refusal_of(remaining, unlock_in) is Some,
{
}

/// The counter file's text after one more submission: `<now> <count>`.
pub open spec fn record_text(used: nat, now: nat) -> Seq<char> {
    decimal(now) + seq![' '] + decimal(used + 1) + seq!['\n']
}

/// What a write gives back: a count recorded at `then` reads as one more
/// submission than it was recorded from for as long as it is fresh -- from
/// that moment until `STALE_AFTER_SECS` later, and at any earlier clock
/// reading -- and as none once it has gone stale.
pub proof fn law_a_recorded_submission_counts(used: u32, then: u64, now: u64)
    requires
        used < u32::MAX,
    ensures
        now <= then + STALE_AFTER_SECS ==> used_of(Some(record_text(used as nat, then as nat)), now)
            == used + 1,
        now > then + STALE_AFTER_SECS ==> used_of(Some(record_text(used as nat, then as nat)), now)
            == 0,
{
    let a = decimal(then as nat);
    let b = decimal(used as nat + 1);
    lemma_decimal(then as nat);
    lemma_decimal(used as nat + 1);
    lemma_words_of_pair(a, b);
    assert(a[0] != '+');
    assert(b[0] != '+');
    assert(a =~= if a.len() > 0 && a[0] == '+' {
        a.drop_first()
    } else {
        a
    });
}

} // verus!
