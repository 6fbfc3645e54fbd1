//! The D-Bus side's decisions: who may ask, how long the caller will wait,
//! and which cancels are still owed.
//!
//! A request blocks until the user answers -- up to the caller's 25 seconds
//! -- and `CancelAuthentication` for that same request can arrive in the
//! middle of it, or before its turn in the queue has come. The bus plumbing
//! lives with the process; what it consults lives here.
use vstd::prelude::*;

use crate::paths::{split_byte, split_byte_exec};
use crate::{choose_uid, chosen_uid};
use crate::prompt::{ends_cleanly, EXIT_CANCELLED, EXIT_SUCCESS};
use crate::sudo_args::ascii_eq;
use crate::text::{
    chars_of, contains, contains_exec, copy_range, eq_chars, is_digit, lemma_trim_start_len,
    parse_uint, parse_uint_exec, skip_ws, string_of, trim, trim_end, trim_exec, trim_start,
};

verus! {

broadcast use crate::chars::lemma_deep_view_chars, crate::chars::lemma_deep_view_bytes;

/// Does the unique bus name behind a call belong to polkitd? A call with no
/// sender, or while the expected name cannot be read, is not polkit's.
pub fn is_polkitd(sender: Option<&str>, expected: Option<&str>) -> (r: bool)
    ensures
        r == (sender is Some && expected is Some && sender->0@ == expected->0@),
{
    match (sender, expected) {
        (Some(s), Some(e)) => eq_chars(&chars_of(s), &chars_of(e)),
        _ => false,
    }
}

/// A child exit code that ends the request without a D-Bus error. Success
/// and cancellation (and a refusal before any prompt, which the child also
/// reports as cancelled) return normally; anything else becomes an error,
/// and an error makes polkitd re-issue the request.
pub fn is_ok_exit(code: i32) -> (r: bool)
    ensures
        r == ends_cleanly(code),
{
    code == EXIT_SUCCESS || code == EXIT_CANCELLED
}

/// polkitd's wording for a second registration on the same subject, and
/// only that. Everything else -- polkitd not on the bus yet, a bus error --
/// is something a restart might get past.
pub fn seat_is_taken(message: &str) -> (r: bool)
    ensures
        r == contains(message@, "already exists for the given subject"@),
{
    contains_exec(&chars_of(message), &chars_of("already exists for the given subject"))
}

/// The subject's pid from polkit's `polkit.subject-pid` detail, or 0 when
/// there is none or it is not a number.
pub fn subject_pid(detail: Option<&str>) -> (r: u32)
    ensures
        r as nat == match detail {
            None => 0,
            Some(d) => match parse_uint(d@, u32::MAX as nat) {
                Some(v) => v,
                None => 0,
            },
        },
{
    match detail {
        None => 0,
        Some(d) => match parse_uint_exec(&chars_of(d), u32::MAX as u64) {
            Some(v) => v as u32,
            None => 0,
        },
    }
}

/// The first decision on a `BeginAuthentication`, taken before anything
/// else happens for it.
#[derive(Debug, PartialEq, Eq)]
pub enum BeginStep {
    /// The call is not polkitd's: answer it with an access error, and choose
    /// no identity, take no turn in the queue and start no window.
    Refuse,
    /// polkitd asked, but offered no `unix-user` to authenticate as.
    NoIdentity,
    /// polkitd asked: authenticate as `uid`.
    Ask { uid: u32 },
}

/// Open a request: refuse anything that is not polkitd before looking at
/// what it asks for, then pick the identity among the offered `unix-user`
/// uids (ours when it is there, otherwise the first).
pub fn on_begin(sender: Option<&str>, expected: Option<&str>, uids: &[u32], me: u32) -> (s:
    BeginStep)
    ensures
        !(sender is Some && expected is Some && sender->0@ == expected->0@) ==> s
            == BeginStep::Refuse,
        (sender is Some && expected is Some && sender->0@ == expected->0@) ==> s == match chosen_uid(
            uids@,
            me,
        ) {
            None => BeginStep::NoIdentity,
            Some(uid) => BeginStep::Ask { uid },
        },
{
    if !is_polkitd(sender, expected) {
        return BeginStep::Refuse;
    }
    match choose_uid(uids, me) {
        None => BeginStep::NoIdentity,
        Some(uid) => BeginStep::Ask { uid },
    }
}

/// Cookies whose cancel arrived before their request started. The queued
/// request checks here after taking its turn and ends without drawing a
/// window.
pub struct CancelledSet {
    cookies: Vec<Vec<char>>,
}

/// The most cookies the set keeps before it starts over.
pub const MAX_REMEMBERED: usize = 256;

/// The set after `cookie` is remembered: it starts over once it holds more
/// than `MAX_REMEMBERED`, so a stream of cancels for cookies that never begin
/// cannot grow it without limit.
pub open spec fn remembered(s: Set<Seq<char>>, cookie: Seq<char>) -> Set<Seq<char>> {
    if s.len() > MAX_REMEMBERED {
        Set::<Seq<char>>::empty().insert(cookie)
    } else {
        s.insert(cookie)
    }
}

impl View for CancelledSet {
    type V = Set<Seq<char>>;

    closed spec fn view(&self) -> Set<Seq<char>> {
        self.cookies.deep_view().to_set()
    }
}

impl CancelledSet {
    /// The set is finite and holds each cookie once.
    pub closed spec fn wf(&self) -> bool {
        self.cookies.deep_view().no_duplicates()
    }

    proof fn lemma_wf(&self)
        requires
            self.wf(),
        ensures
            self@.finite(),
            self@.len() == self.cookies@.len(),
    {
        self.cookies.deep_view().unique_seq_to_set();
    }

    pub fn new() -> (s: Self)
        ensures
            s.wf(),
            s@ == Set::<Seq<char>>::empty(),
    {
        let s = CancelledSet { cookies: Vec::new() };
        assert(s@ =~= Set::<Seq<char>>::empty());
        s
    }

    /// How many cookies are remembered.
    pub fn len(&self) -> (n: usize)
        requires
            self.wf(),
        ensures
            n == self@.len(),
    {
        proof {
            self.lemma_wf();
        }
        self.cookies.len()
    }

    fn position(&self, cookie: &[char]) -> (r: Option<usize>)
        ensures
            match r {
                Some(i) => i < self.cookies@.len() && self.cookies.deep_view()[i as int] == cookie@,
                None => !self.cookies.deep_view().contains(cookie@),
            },
    {
        let mut i: usize = 0;
        while i < self.cookies.len()
            invariant
                i <= self.cookies@.len(),
                forall|k: int| 0 <= k < i ==> self.cookies.deep_view()[k] != cookie@,
            decreases self.cookies.len() - i,
        {
            if eq_chars(&self.cookies[i], cookie) {
                return Some(i);
            }
            i = i + 1;
        }
        None
    }

    /// Remember a cookie cancelled before its request started.
    pub fn remember(&mut self, cookie: &str)
        requires
            old(self).wf(),
        ensures
            final(self).wf(),
            final(self)@ == remembered(old(self)@, cookie@),
            final(self)@.len() <= MAX_REMEMBERED + 1,
    {
        proof {
            self.lemma_wf();
        }
        let c = chars_of(cookie);
        if self.cookies.len() > MAX_REMEMBERED {
            self.cookies = Vec::new();
            let ghost before = self.cookies.deep_view();
            self.cookies.push(c);
            assert(self.cookies.deep_view() =~= seq![cookie@]);
            proof {
                let e = Seq::<Seq<char>>::empty();
                e.lemma_push_to_set_commute(cookie@);
                assert(e.to_set() =~= Set::<Seq<char>>::empty());
                assert(e.push(cookie@) =~= seq![cookie@]);
            }
            proof {
                self.lemma_wf();
            }
            return;
        }
        let ghost before = self.cookies.deep_view();
        match self.position(&c) {
            Some(_) => {
                assert(self@ =~= self@.insert(cookie@));
            },
            None => {
                self.cookies.push(c);
                assert(self.cookies.deep_view() =~= before.push(cookie@));
                proof {
                    before.lemma_push_to_set_commute(cookie@);
                }
            },
        }
        proof {
            self.lemma_wf();
        }
    }

    /// Consume a pending cancel for `cookie`, saying whether there was one.
    pub fn take(&mut self, cookie: &str) -> (r: bool)
        requires
            old(self).wf(),
        ensures
            final(self).wf(),
            r == old(self)@.contains(cookie@),
            final(self)@ == old(self)@.remove(cookie@),
    {
        let c = chars_of(cookie);
        let ghost before = self.cookies.deep_view();
        match self.position(&c) {
            None => {
                assert(self@ =~= self@.remove(cookie@));
                false
            },
            Some(i) => {
                self.cookies.remove(i);
                assert(self.cookies.deep_view() =~= before.remove(i as int));
                assert forall|x: Seq<char>| self@.contains(x) <==> before.to_set().remove(
                    cookie@,
                ).contains(x) by {
                    if self@.contains(x) {
                        let k = choose|k: int|
                            0 <= k < self.cookies.deep_view().len()
                                && self.cookies.deep_view()[k] == x;
                        if k < i {
                            assert(before[k] == x);
                        } else {
                            assert(before[k + 1] == x);
                        }
                    }
                    if before.to_set().remove(cookie@).contains(x) {
                        let k = choose|k: int| 0 <= k < before.len() && before[k] == x;
                        if k < i {
                            assert(self.cookies.deep_view()[k] == x);
                        } else if k > i {
                            assert(self.cookies.deep_view()[k - 1] == x);
                        }
                    }
                }
                assert(self@ =~= before.to_set().remove(cookie@));
                true
            },
        }
    }
}

/// A cancel that arrived before its request began is seen by that request
/// exactly once: remembered, it is there to take, and once taken it is gone.
pub proof fn law_cancel_is_consumed_once(s: Set<Seq<char>>, cookie: Seq<char>)
    ensures
        remembered(s, cookie).contains(cookie),
        !remembered(s, cookie).remove(cookie).contains(cookie),
{
}

/// The bus-timeout variable's value: the part after
/// `SYSTEMD_BUS_TIMEOUT=` of the first entry of a NUL-separated environment
/// block that starts with it, as sd-bus reads it.
pub open spec fn bus_timeout_value_of(environ: Seq<u8>) -> Option<Seq<u8>> {
    first_with_prefix(split_byte(environ, 0), "SYSTEMD_BUS_TIMEOUT="@)
}

/// The first entry starting with `prefix`, without the prefix.
pub open spec fn first_with_prefix(entries: Seq<Seq<u8>>, prefix: Seq<char>) -> Option<Seq<u8>>
    decreases entries.len(),
{
    if entries.len() == 0 {
        None
    } else if entries[0].len() >= prefix.len() && ascii_eq(
        entries[0].subrange(0, prefix.len() as int),
        prefix,
    ) {
        Some(entries[0].subrange(prefix.len() as int, entries[0].len() as int))
    } else {
        first_with_prefix(entries.drop_first(), prefix)
    }
}

/// Does `b` start with the ASCII text `p`?
fn starts_with_ascii(b: &[u8], p: &[char]) -> (r: bool)
    ensures
        r == (b@.len() >= p@.len() && ascii_eq(b@.subrange(0, p@.len() as int), p@)),
{
    if b.len() < p.len() {
        return false;
    }
    let mut i: usize = 0;
    while i < p.len()
        invariant
            b@.len() >= p@.len(),
            i <= p@.len(),
            forall|k: int| 0 <= k < i ==> b@[k] as u32 == #[trigger] p@[k] as u32,
        decreases p.len() - i,
    {
        if b[i] as u32 != p[i] as u32 {
            assert(b@.subrange(0, p@.len() as int)[i as int] == b@[i as int]);
            return false;
        }
        i = i + 1;
    }
    assert forall|k: int| 0 <= k < p@.len() implies b@.subrange(0, p@.len() as int)[k] as u32
        == #[trigger] p@[k] as u32 by {
        assert(b@.subrange(0, p@.len() as int)[k] == b@[k]);
    }
    true
}

/// `SYSTEMD_BUS_TIMEOUT` out of a NUL-separated environment block, as
/// sd-bus would read it: the first entry wins. The bytes are the value,
/// still to be read as systemd time syntax.
pub fn bus_timeout_value(environ: &[u8]) -> (r: Option<Vec<u8>>)
    ensures
        match r {
            Some(v) => bus_timeout_value_of(environ@) == Some(v@),
            None => bus_timeout_value_of(environ@) is None,
        },
{
    let prefix = chars_of("SYSTEMD_BUS_TIMEOUT=");
    let entries = split_byte_exec(environ, 0);
    let ghost es = entries.deep_view();
    let mut k: usize = 0;
    assert(es.subrange(0, es.len() as int) =~= es);
    while k < entries.len()
        invariant
            prefix@ == "SYSTEMD_BUS_TIMEOUT="@,
            es == entries.deep_view(),
            es == split_byte(environ@, 0),
            k <= es.len(),
            bus_timeout_value_of(environ@) == first_with_prefix(
                es.subrange(k as int, es.len() as int),
                prefix@,
            ),
        decreases entries.len() - k,
    {
        let e = &entries[k];
        assert(es.subrange(k as int, es.len() as int).drop_first() =~= es.subrange(
            k + 1,
            es.len() as int,
        ));
        assert(es.subrange(k as int, es.len() as int)[0] == e@);
        if starts_with_ascii(e, &prefix) {
            let mut v: Vec<u8> = Vec::new();
            let mut j: usize = prefix.len();
            while j < e.len()
                invariant
                    prefix@.len() <= j <= e@.len(),
                    v@ == e@.subrange(prefix@.len() as int, j as int),
                decreases e.len() - j,
            {
                v.push(e[j]);
                j = j + 1;
                assert(v@ =~= e@.subrange(prefix@.len() as int, j as int));
            }
            return Some(v);
        }
        k = k + 1;
    }
    assert(es.subrange(k as int, es.len() as int) =~= Seq::<Seq<u8>>::empty());
    None
}

/// The units systemd's time syntax knows, each a number of microseconds.
#[derive(PartialEq, Eq, Structural, Debug, Clone, Copy)]
pub enum TimeUnit {
    Second,
    Milli,
    Micro,
    Nano,
    Minute,
    Hour,
    Day,
}

impl TimeUnit {
    /// Nanoseconds in one of this unit.
    pub open spec fn nanos_of(self) -> nat {
        match self {
            TimeUnit::Second => 1_000_000_000,
            TimeUnit::Milli => 1_000_000,
            TimeUnit::Micro => 1_000,
            TimeUnit::Nano => 1,
            TimeUnit::Minute => 60_000_000_000,
            TimeUnit::Hour => 3_600_000_000_000,
            TimeUnit::Day => 86_400_000_000_000,
        }
    }

    pub fn nanos(&self) -> (r: u64)
        ensures
            r == self.nanos_of(),
    {
        match self {
            TimeUnit::Second => 1_000_000_000,
            TimeUnit::Milli => 1_000_000,
            TimeUnit::Micro => 1_000,
            TimeUnit::Nano => 1,
            TimeUnit::Minute => 60_000_000_000,
            TimeUnit::Hour => 3_600_000_000_000,
            TimeUnit::Day => 86_400_000_000_000,
        }
    }
}

/// One term of a time value: a decimal number (digits with at most one
/// `.`) and its unit.
pub struct SecTerm {
    pub number: String,
    pub unit: TimeUnit,
}

pub open spec fn num_char(c: char) -> bool {
    is_digit(c) || c == '.'
}

pub open spec fn unit_char(c: char) -> bool {
    ('a' <= c && c <= 'z') || ('A' <= c && c <= 'Z') || c == '\u{b5}'
}

/// The length of the run of number characters at the start of `s`.
pub open spec fn num_span(s: Seq<char>) -> nat
    decreases s.len(),
{
    if s.len() > 0 && num_char(s[0]) {
        1 + num_span(s.drop_first())
    } else {
        0
    }
}

/// The length of the run of unit characters at the start of `s`.
pub open spec fn unit_span(s: Seq<char>) -> nat
    decreases s.len(),
{
    if s.len() > 0 && unit_char(s[0]) {
        1 + unit_span(s.drop_first())
    } else {
        0
    }
}

/// How many `.` are in `s`.
pub open spec fn dots(s: Seq<char>) -> nat
    decreases s.len(),
{
    if s.len() == 0 {
        0
    } else {
        dots(s.drop_last()) + if s.last() == '.' {
            1nat
        } else {
            0nat
        }
    }
}

/// A run of digits and dots that reads as a number: at most one dot and at
/// least one digit, so `5`, `1.5`, `5.` and `.5`, but not `.` or `1.2.3`.
pub open spec fn decimal_number(n: Seq<char>) -> bool {
    n.len() > dots(n) && dots(n) <= 1
}

/// The unit a word names; the empty word is seconds only for a bare number
/// that is the whole value.
pub open spec fn unit_named(u: Seq<char>, first: bool) -> Option<TimeUnit> {
    if u.len() == 0 {
        if first {
            Some(TimeUnit::Second)
        } else {
            None
        }
    } else if u == "s"@ || u == "sec"@ || u == "second"@ || u == "seconds"@ {
        Some(TimeUnit::Second)
    } else if u == "ms"@ || u == "msec"@ {
        Some(TimeUnit::Milli)
    } else if u == "us"@ || u == "usec"@ || u == "\u{b5}s"@ {
        Some(TimeUnit::Micro)
    } else if u == "ns"@ || u == "nsec"@ {
        Some(TimeUnit::Nano)
    } else if u == "m"@ || u == "min"@ || u == "minute"@ || u == "minutes"@ {
        Some(TimeUnit::Minute)
    } else if u == "h"@ || u == "hr"@ || u == "hour"@ || u == "hours"@ {
        Some(TimeUnit::Hour)
    } else if u == "d"@ || u == "day"@ || u == "days"@ {
        Some(TimeUnit::Day)
    } else {
        None
    }
}

/// The terms of `rest`: each a number, optional whitespace, and a unit,
/// with whitespace between terms.
pub open spec fn terms_from(rest: Seq<char>, first: bool) -> Option<Seq<(Seq<char>, TimeUnit)>>
    decreases rest.len(),
{
    if rest.len() == 0 {
        Some(Seq::empty())
    } else {
        let d = num_span(rest);
        let number = rest.subrange(0, d as int);
        let after = trim_start(rest.subrange(d as int, rest.len() as int));
        let u = unit_span(after);
        let unit = after.subrange(0, u as int);
        let next = trim_start(after.subrange(u as int, after.len() as int));
        if d > rest.len() || u > after.len() || !decimal_number(number) {
            None
        } else {
            match unit_named(unit, first) {
                None => None,
                Some(k) => {
                    proof {
                        lemma_trim_start_len(rest.subrange(d as int, rest.len() as int));
                        lemma_trim_start_len(after.subrange(u as int, after.len() as int));
                    }
                    match terms_from(next, false) {
                        None => None,
                        Some(t) => Some(seq![(number, k)] + t),
                    }
                },
            }
        }
    }
}

/// systemd's time syntax, the part of it a timeout can be written in, read
/// as terms: a bare number is seconds, else each part is a number (with an
/// optional fraction) and a unit, with whitespace allowed between and around
/// them. Empty, `infinity`, a sign, an unknown or wrongly cased unit, or a
/// number after a unit without one of its own all read as nothing.
pub open spec fn sec_terms_of(text: Seq<char>) -> Option<Seq<(Seq<char>, TimeUnit)>> {
    let t = trim(text);
    if t.len() == 0 || t == "infinity"@ {
        None
    } else {
        terms_from(t, true)
    }
}

/// The terms as plain values: each number's text and its unit.
pub open spec fn terms_view(v: Seq<SecTerm>) -> Seq<(Seq<char>, TimeUnit)> {
    v.map_values(|t: SecTerm| (t.number@, t.unit))
}

/// What has been read, followed by what the rest reads as.
pub open spec fn glue(
    done: Seq<(Seq<char>, TimeUnit)>,
    rest: Option<Seq<(Seq<char>, TimeUnit)>>,
) -> Option<Seq<(Seq<char>, TimeUnit)>> {
    match rest {
        None => None,
        Some(x) => Some(done + x),
    }
}

fn is_num_char(c: char) -> (r: bool)
    ensures
        r == num_char(c),
{
    ('0' <= c && c <= '9') || c == '.'
}

fn is_unit_char(c: char) -> (r: bool)
    ensures
        r == unit_char(c),
{
    ('a' <= c && c <= 'z') || ('A' <= c && c <= 'Z') || c == '\u{b5}'
}

/// Where the run of number characters starting at `p` ends.
fn num_end(s: &[char], p: usize) -> (q: usize)
    requires
        p <= s@.len(),
    ensures
        p <= q <= s@.len(),
        q - p == num_span(s@.subrange(p as int, s@.len() as int)),
{
    let mut q = p;
    while q < s.len() && is_num_char(s[q])
        invariant
            p <= q <= s@.len(),
            num_span(s@.subrange(p as int, s@.len() as int)) == (q - p) + num_span(
                s@.subrange(q as int, s@.len() as int),
            ),
        decreases s.len() - q,
    {
        assert(s@.subrange(q as int, s@.len() as int).drop_first() =~= s@.subrange(
            q + 1,
            s@.len() as int,
        ));
        q = q + 1;
    }
    if q < s.len() {
        assert(s@.subrange(q as int, s@.len() as int)[0] == s@[q as int]);
    }
    q
}

/// Where the run of unit characters starting at `p` ends.
fn unit_end(s: &[char], p: usize) -> (q: usize)
    requires
        p <= s@.len(),
    ensures
        p <= q <= s@.len(),
        q - p == unit_span(s@.subrange(p as int, s@.len() as int)),
{
    let mut q = p;
    while q < s.len() && is_unit_char(s[q])
        invariant
            p <= q <= s@.len(),
            unit_span(s@.subrange(p as int, s@.len() as int)) == (q - p) + unit_span(
                s@.subrange(q as int, s@.len() as int),
            ),
        decreases s.len() - q,
    {
        assert(s@.subrange(q as int, s@.len() as int).drop_first() =~= s@.subrange(
            q + 1,
            s@.len() as int,
        ));
        q = q + 1;
    }
    if q < s.len() {
        assert(s@.subrange(q as int, s@.len() as int)[0] == s@[q as int]);
    }
    q
}

/// How many `.` are in `s[a..b]`.
fn count_dots(s: &[char], a: usize, b: usize) -> (n: usize)
    requires
        a <= b <= s@.len(),
    ensures
        n == dots(s@.subrange(a as int, b as int)),
{
    let mut n: usize = 0;
    let mut j: usize = a;
    assert(s@.subrange(a as int, a as int) =~= Seq::<char>::empty());
    while j < b
        invariant
            a <= j <= b <= s@.len(),
            n == dots(s@.subrange(a as int, j as int)),
            n <= j - a,
        decreases b - j,
    {
        assert(s@.subrange(a as int, j + 1).drop_last() =~= s@.subrange(a as int, j as int));
        if s[j] == '.' {
            n = n + 1;
        }
        j = j + 1;
    }
    n
}

fn is_word(u: &[char], w: &str) -> (r: bool)
    ensures
        r == (u@ == w@),
{
    eq_chars(u, &chars_of(w))
}

/// The unit a word names, as `unit_named` says.
fn unit_named_exec(u: &[char], first: bool) -> (r: Option<TimeUnit>)
    ensures
        r == unit_named(u@, first),
{
    if u.len() == 0 {
        if first {
            Some(TimeUnit::Second)
        } else {
            None
        }
    } else if is_word(u, "s") || is_word(u, "sec") || is_word(u, "second") || is_word(
        u,
        "seconds",
    ) {
        Some(TimeUnit::Second)
    } else if is_word(u, "ms") || is_word(u, "msec") {
        Some(TimeUnit::Milli)
    } else if is_word(u, "us") || is_word(u, "usec") || is_word(u, "\u{b5}s") {
        Some(TimeUnit::Micro)
    } else if is_word(u, "ns") || is_word(u, "nsec") {
        Some(TimeUnit::Nano)
    } else if is_word(u, "m") || is_word(u, "min") || is_word(u, "minute") || is_word(
        u,
        "minutes",
    ) {
        Some(TimeUnit::Minute)
    } else if is_word(u, "h") || is_word(u, "hr") || is_word(u, "hour") || is_word(u, "hours") {
        Some(TimeUnit::Hour)
    } else if is_word(u, "d") || is_word(u, "day") || is_word(u, "days") {
        Some(TimeUnit::Day)
    } else {
        None
    }
}

/// A timeout in systemd's time syntax, read as its terms. What the terms
/// add up to is a matter of fractions, which the caller computes.
pub fn sec_terms(text: &str) -> (r: Option<Vec<SecTerm>>)
    ensures
        match r {
            Some(v) => sec_terms_of(text@) == Some(terms_view(v@)),
            None => sec_terms_of(text@) is None,
        },
{
    let t = trim_exec(&chars_of(text));
    if t.len() == 0 || eq_chars(&t, &chars_of("infinity")) {
        return None;
    }
    let mut out: Vec<SecTerm> = Vec::new();
    let mut p: usize = 0;
    let mut first = true;
    assert(t@.subrange(0, t@.len() as int) =~= t@);
    assert(terms_view(out@) =~= Seq::<(Seq<char>, TimeUnit)>::empty());
    assert(glue(Seq::<(Seq<char>, TimeUnit)>::empty(), terms_from(t@, true)) =~= terms_from(
        t@,
        true,
    )) by {
        match terms_from(t@, true) {
            Some(x) => {
                assert(Seq::<(Seq<char>, TimeUnit)>::empty() + x =~= x);
            },
            None => {},
        }
    }
    while p < t.len()
        invariant
            p <= t@.len(),
            sec_terms_of(text@) == glue(
                terms_view(out@),
                terms_from(t@.subrange(p as int, t@.len() as int), first),
            ),
        decreases t.len() - p,
    {
        let ghost rest = t@.subrange(p as int, t@.len() as int);
        let q = num_end(&t, p);
        let a = skip_ws(&t, q);
        let ue = unit_end(&t, a);
        let n = skip_ws(&t, ue);
        let ghost d = num_span(rest);
        let ghost after = trim_start(rest.subrange(d as int, rest.len() as int));
        let ghost u = unit_span(after);
        let ghost next = trim_start(after.subrange(u as int, after.len() as int));
        assert(rest.subrange(0, d as int) =~= t@.subrange(p as int, q as int));
        assert(rest.subrange(d as int, rest.len() as int) =~= t@.subrange(
            q as int,
            t@.len() as int,
        ));
        assert(after == t@.subrange(a as int, t@.len() as int));
        assert(after.subrange(0, u as int) =~= t@.subrange(a as int, ue as int));
        assert(after.subrange(u as int, after.len() as int) =~= t@.subrange(
            ue as int,
            t@.len() as int,
        ));
        assert(next == t@.subrange(n as int, t@.len() as int));
        let nd = count_dots(&t, p, q);
        if !(q - p > nd && nd <= 1) {
            return None;
        }
        let unit = copy_range(&t, a, ue);
        let k = match unit_named_exec(&unit, first) {
            None => {
                return None;
            },
            Some(k) => k,
        };
        let number = copy_range(&t, p, q);
        let term = SecTerm { number: string_of(&number), unit: k };
        let ghost e = (number@, k);
        let ghost before = terms_view(out@);
        proof {
            match terms_from(next, false) {
                Some(x) => {
                    assert(before + (seq![e] + x) =~= before.push(e) + x);
                },
                None => {},
            }
        }
        out.push(term);
        assert(terms_view(out@) =~= before.push(e));
        first = false;
        p = n;
    }
    assert(t@.subrange(p as int, t@.len() as int) =~= Seq::<char>::empty());
    assert(terms_view(out@) + Seq::<(Seq<char>, TimeUnit)>::empty() =~= terms_view(out@));
    Some(out)
}

proof fn lemma_num_span_prefix(n: Seq<char>, u: Seq<char>)
    requires
        forall|i: int| 0 <= i < n.len() ==> is_digit(#[trigger] n[i]),
        u.len() == 0 || !num_char(u[0]),
    ensures
        num_span(n + u) == n.len(),
    decreases n.len(),
{
    if n.len() > 0 {
        assert((n + u)[0] == n[0]);
        assert((n + u).drop_first() =~= n.drop_first() + u);
        lemma_num_span_prefix(n.drop_first(), u);
    } else {
        assert(n + u =~= u);
    }
}

proof fn lemma_unit_span_all(u: Seq<char>)
    requires
        forall|i: int| 0 <= i < u.len() ==> unit_char(#[trigger] u[i]),
    ensures
        unit_span(u) == u.len(),
    decreases u.len(),
{
    if u.len() > 0 {
        lemma_unit_span_all(u.drop_first());
    }
}

proof fn lemma_dots_digits(n: Seq<char>)
    requires
        forall|i: int| 0 <= i < n.len() ==> is_digit(#[trigger] n[i]),
    ensures
        dots(n) == 0,
    decreases n.len(),
{
    if n.len() > 0 {
        assert(is_digit(n[n.len() - 1]));
        lemma_dots_digits(n.drop_last());
    }
}

/// A run of digits and a word of unit letters read as one term: that number
/// in the unit the word names, or nothing when it names none.
proof fn lemma_number_then_unit(n: Seq<char>, u: Seq<char>)
    requires
        n.len() > 0,
        forall|i: int| 0 <= i < n.len() ==> is_digit(#[trigger] n[i]),
        forall|i: int| 0 <= i < u.len() ==> unit_char(#[trigger] u[i]),
    ensures
        sec_terms_of(n + u) == match unit_named(u, true) {
            None => None,
            Some(k) => Some(seq![(n, k)]),
        },
{
    let s = n + u;
    assert(s[0] == n[0]);
    assert(is_digit(n[0]));
    assert(trim_start(s) == s);
    if u.len() > 0 {
        assert(s.last() == u[u.len() - 1]);
        assert(unit_char(u[u.len() - 1]));
    } else {
        assert(s =~= n);
        assert(is_digit(n[n.len() - 1]));
    }
    assert(trim_end(s) == s);
    reveal_strlit("infinity");
    assert(s != "infinity"@) by {
        if s == "infinity"@ {
            assert(s[0] == 'i');
        }
    }
    if u.len() > 0 {
        assert(unit_char(u[0]));
    }
    lemma_num_span_prefix(n, u);
    lemma_unit_span_all(u);
    lemma_dots_digits(n);
    assert(s.subrange(0, n.len() as int) =~= n);
    assert(s.subrange(n.len() as int, s.len() as int) =~= u);
    if u.len() > 0 {
        assert(trim_start(u) == u);
    }
    assert(u.subrange(0, u.len() as int) =~= u);
    assert(u.subrange(u.len() as int, u.len() as int) =~= Seq::<char>::empty());
    assert(trim_start(Seq::<char>::empty()) =~= Seq::<char>::empty());
    assert(trim(s) == s);
    assert(terms_from(Seq::<char>::empty(), false) == Some(Seq::<(Seq<char>, TimeUnit)>::empty()));
    assert(num_span(s) == n.len());
    assert(decimal_number(n));
    assert(trim_start(s.subrange(n.len() as int, s.len() as int)) == u);
    assert(unit_span(u) == u.len());
    match unit_named(u, true) {
        None => {},
        Some(k) => {
            assert(seq![(n, k)] + Seq::<(Seq<char>, TimeUnit)>::empty() =~= seq![(n, k)]);
        },
    }
}

/// systemd's unit words, each read as its unit after any number of digits:
/// `s sec second seconds`, `ms msec`, `us usec µs`, `ns nsec`,
/// `m min minute minutes`, `h hr hour hours`, `d day days`; a bare number is
/// seconds. So `SYSTEMD_BUS_TIMEOUT=2m` is two minutes.
pub proof fn law_unit_words(n: Seq<char>, u: Seq<char>)
    requires
        n.len() > 0,
        forall|i: int| 0 <= i < n.len() ==> '0' <= #[trigger] n[i] && n[i] <= '9',
    ensures
        sec_terms_of(n) == Some(seq![(n, TimeUnit::Second)]),
        (u == "s"@ || u == "sec"@ || u == "second"@ || u == "seconds"@) ==> sec_terms_of(n + u)
            == Some(seq![(n, TimeUnit::Second)]),
        (u == "ms"@ || u == "msec"@) ==> sec_terms_of(n + u) == Some(seq![(n, TimeUnit::Milli)]),
        (u == "us"@ || u == "usec"@ || u == "\u{b5}s"@) ==> sec_terms_of(n + u) == Some(
            seq![(n, TimeUnit::Micro)],
        ),
        (u == "ns"@ || u == "nsec"@) ==> sec_terms_of(n + u) == Some(seq![(n, TimeUnit::Nano)]),
        (u == "m"@ || u == "min"@ || u == "minute"@ || u == "minutes"@) ==> sec_terms_of(n + u)
            == Some(seq![(n, TimeUnit::Minute)]),
        (u == "h"@ || u == "hr"@ || u == "hour"@ || u == "hours"@) ==> sec_terms_of(n + u)
            == Some(seq![(n, TimeUnit::Hour)]),
        (u == "d"@ || u == "day"@ || u == "days"@) ==> sec_terms_of(n + u) == Some(
            seq![(n, TimeUnit::Day)],
        ),
{
    assert forall|i: int| 0 <= i < n.len() implies is_digit(#[trigger] n[i]) by {
        assert('0' <= n[i] && n[i] <= '9');
    }
    lemma_number_then_unit(n, Seq::<char>::empty());
    assert(n + Seq::<char>::empty() =~= n);
    reveal_strlit("s");
    reveal_strlit("sec");
    reveal_strlit("second");
    reveal_strlit("seconds");
    reveal_strlit("ms");
    reveal_strlit("msec");
    reveal_strlit("us");
    reveal_strlit("usec");
    reveal_strlit("\u{b5}s");
    reveal_strlit("ns");
    reveal_strlit("nsec");
    reveal_strlit("m");
    reveal_strlit("min");
    reveal_strlit("minute");
    reveal_strlit("minutes");
    reveal_strlit("h");
    reveal_strlit("hr");
    reveal_strlit("hour");
    reveal_strlit("hours");
    reveal_strlit("d");
    reveal_strlit("day");
    reveal_strlit("days");
    if forall|i: int| 0 <= i < u.len() ==> unit_char(#[trigger] u[i]) {
        lemma_number_then_unit(n, u);
    }
}

} // verus!
