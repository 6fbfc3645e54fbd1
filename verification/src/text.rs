//! Text as a sequence of characters: the handful of `str` operations the
//! parsers in this crate are written in, each with the meaning Rust gives it.
//!
//! Every reader here works on `Vec<char>`; `chars_of` and `string_of` move
//! between that and `str`/`String` at the edges.
use vstd::prelude::*;

verus! {

broadcast use crate::chars::lemma_deep_view_chars;

/// The Unicode `White_Space` property, which is what `char::is_whitespace`,
/// `str::trim` and `str::split_whitespace` test.
pub open spec fn is_ws(c: char) -> bool {
    let n = c as u32;
    ||| (9 <= n && n <= 13)
    ||| n == 32
    ||| n == 0x85
    ||| n == 0xa0
    ||| n == 0x1680
    ||| (0x2000 <= n && n <= 0x200a)
    ||| n == 0x2028
    ||| n == 0x2029
    ||| n == 0x202f
    ||| n == 0x205f
    ||| n == 0x3000
}

pub fn is_whitespace(c: char) -> (r: bool)
    ensures
        r == is_ws(c),
{
    let n = c as u32;
    (9 <= n && n <= 13) || n == 32 || n == 0x85 || n == 0xa0 || n == 0x1680 || (0x2000 <= n && n
        <= 0x200a) || n == 0x2028 || n == 0x2029 || n == 0x202f || n == 0x205f || n == 0x3000
}

/// `str::trim_start`.
pub open spec fn trim_start(s: Seq<char>) -> Seq<char>
    decreases s.len(),
{
    if s.len() > 0 && is_ws(s[0]) {
        trim_start(s.drop_first())
    } else {
        s
    }
}

/// `str::trim_end`.
pub open spec fn trim_end(s: Seq<char>) -> Seq<char>
    decreases s.len(),
{
    if s.len() > 0 && is_ws(s.last()) {
        trim_end(s.drop_last())
    } else {
        s
    }
}

/// `str::trim`.
pub open spec fn trim(s: Seq<char>) -> Seq<char> {
    trim_end(trim_start(s))
}

/// `s.starts_with(p)`.
pub open spec fn starts_with(s: Seq<char>, p: Seq<char>) -> bool {
    p.len() <= s.len() && s.subrange(0, p.len() as int) == p
}

/// `s.ends_with(p)`.
pub open spec fn ends_with(s: Seq<char>, p: Seq<char>) -> bool {
    p.len() <= s.len() && s.subrange(s.len() - p.len(), s.len() as int) == p
}

/// `p` occurs in `s` starting at `i`.
pub open spec fn matches_at(s: Seq<char>, i: int, p: Seq<char>) -> bool {
    0 <= i && i + p.len() <= s.len() && s.subrange(i, i + p.len()) == p
}

/// The first occurrence of `p` in `s` at or after `k`.
pub open spec fn find_from(s: Seq<char>, p: Seq<char>, k: int) -> Option<int>
    decreases s.len() + 1 - k,
{
    if k < 0 || k + p.len() > s.len() {
        None
    } else if matches_at(s, k, p) {
        Some(k)
    } else {
        find_from(s, p, k + 1)
    }
}

/// `str::find` with a string pattern, counted in characters.
pub open spec fn find(s: Seq<char>, p: Seq<char>) -> Option<int> {
    find_from(s, p, 0)
}

/// `str::contains` with a string pattern.
pub open spec fn contains(s: Seq<char>, p: Seq<char>) -> bool {
    find(s, p) is Some
}

/// `s.split(c)`: the pieces between occurrences of `c`, always at least one.
pub open spec fn split_char(s: Seq<char>, c: char) -> Seq<Seq<char>>
    decreases s.len(),
{
    if s.len() == 0 {
        seq![Seq::<char>::empty()]
    } else {
        let p = split_char(s.drop_last(), c);
        if s.last() == c {
            p.push(Seq::<char>::empty())
        } else {
            p.update(p.len() - 1, p.last().push(s.last()))
        }
    }
}

/// A line with the `\r` of a `\r\n` ending taken off.
pub open spec fn strip_cr(s: Seq<char>) -> Seq<char> {
    if s.len() > 0 && s.last() == '\r' {
        s.drop_last()
    } else {
        s
    }
}

/// `str::lines`: split at `\n`, with a `\r` right before it dropped, and no
/// empty line for a final line ending.
pub open spec fn lines(s: Seq<char>) -> Seq<Seq<char>> {
    let p = split_char(s, '\n');
    let n = if p.last().len() == 0 {
        p.len() - 1
    } else {
        p.len() as int
    };
    Seq::new(
        n as nat,
        |i: int|
            if i < p.len() - 1 {
                strip_cr(p[i])
            } else {
                p[i]
            },
    )
}

/// `str::split_whitespace`: the maximal runs of non-whitespace characters.
pub open spec fn words(s: Seq<char>) -> Seq<Seq<char>>
    decreases s.len(),
{
    if s.len() == 0 {
        Seq::<Seq<char>>::empty()
    } else {
        let w = words(s.drop_last());
        let x = s.last();
        if is_ws(x) {
            w
        } else if s.len() >= 2 && !is_ws(s[s.len() - 2]) {
            w.update(w.len() - 1, w.last().push(x))
        } else {
            w.push(seq![x])
        }
    }
}

pub open spec fn is_digit(c: char) -> bool {
    '0' <= c && c <= '9'
}

pub open spec fn all_digits(s: Seq<char>) -> bool {
    forall|i: int| 0 <= i < s.len() ==> is_digit(#[trigger] s[i])
}

/// The number a run of decimal digits spells.
pub open spec fn digits_value(s: Seq<char>) -> nat
    decreases s.len(),
{
    if s.len() == 0 {
        0
    } else {
        digits_value(s.drop_last()) * 10 + ((s.last() as u32) - 48) as nat
    }
}

/// `str::parse` for an unsigned integer type whose largest value is `max`:
/// an optional `+`, then one or more decimal digits, and nothing else.
pub open spec fn parse_uint(s: Seq<char>, max: nat) -> Option<nat> {
    let d = if s.len() > 0 && s[0] == '+' {
        s.drop_first()
    } else {
        s
    };
    if d.len() > 0 && all_digits(d) && digits_value(d) <= max {
        Some(digits_value(d))
    } else {
        None
    }
}

/// The ASCII digit for `d`.
pub open spec fn digit_char(d: nat) -> char {
    ((d + 48) as u8) as char
}

/// `n` written in decimal, as `format!("{n}")` writes it.
pub open spec fn decimal(n: nat) -> Seq<char>
    decreases n,
{
    if n < 10 {
        seq![digit_char(n)]
    } else {
        decimal(n / 10).push(digit_char(n % 10))
    }
}

/// Characters of a `str`.
pub fn chars_of(s: &str) -> (r: Vec<char>)
    ensures
        r@ == s@,
{
    broadcast use vstd::string::axiom_spec_iter;

    let mut out: Vec<char> = Vec::new();
    for c in it: s.chars()
        invariant
            out@ == it.seq().take(it.index() as int),
    {
        out.push(c);
    }
    out
}

/// `String::push`: the string with `c` appended.
#[verifier::external_body]
fn push_char(s: &mut String, c: char)
    ensures
        final(s)@ == old(s)@.push(c),
{
    s.push(c);
}

/// A `String` holding exactly these characters.
pub fn string_of(v: &[char]) -> (r: String)
    ensures
        r@ == v@,
{
    let mut s = String::new();
    let mut i: usize = 0;
    while i < v.len()
        invariant
            i <= v@.len(),
            s@ == v@.subrange(0, i as int),
        decreases v.len() - i,
    {
        push_char(&mut s, v[i]);
        i = i + 1;
        assert(s@ =~= v@.subrange(0, i as int));
    }
    assert(v@.subrange(0, v@.len() as int) =~= v@);
    s
}

pub proof fn lemma_trim_start_len(s: Seq<char>)
    ensures
        trim_start(s).len() <= s.len(),
    decreases s.len(),
{
    if s.len() > 0 && is_ws(s[0]) {
        lemma_trim_start_len(s.drop_first());
    }
}

pub proof fn lemma_split_char_nonempty(s: Seq<char>, c: char)
    ensures
        split_char(s, c).len() >= 1,
    decreases s.len(),
{
    if s.len() > 0 {
        lemma_split_char_nonempty(s.drop_last(), c);
    }
}

/// `s[a..b]`, copied.
pub fn copy_range(s: &[char], a: usize, b: usize) -> (r: Vec<char>)
    requires
        a <= b <= s@.len(),
    ensures
        r@ == s@.subrange(a as int, b as int),
{
    let mut r: Vec<char> = Vec::new();
    let mut i = a;
    while i < b
        invariant
            a <= i <= b <= s@.len(),
            r@ == s@.subrange(a as int, i as int),
        decreases b - i,
    {
        r.push(s[i]);
        i = i + 1;
        assert(r@ =~= s@.subrange(a as int, i as int));
    }
    r
}

/// `a == b`.
pub fn eq_chars(a: &[char], b: &[char]) -> (r: bool)
    ensures
        r == (a@ == b@),
{
    if a.len() != b.len() {
        return false;
    }
    let mut i: usize = 0;
    while i < a.len()
        invariant
            a@.len() == b@.len(),
            i <= a@.len(),
            a@.subrange(0, i as int) == b@.subrange(0, i as int),
        decreases a.len() - i,
    {
        if a[i] != b[i] {
            assert(a@[i as int] != b@[i as int]);
            return false;
        }
        i = i + 1;
        assert(a@.subrange(0, i as int) =~= b@.subrange(0, i as int)) by {
            assert forall|k: int| 0 <= k < i implies a@[k] == b@[k] by {
                if k < i - 1 {
                    assert(a@.subrange(0, i - 1)[k] == b@.subrange(0, i - 1)[k]);
                }
            }
        }
    }
    assert(a@ =~= a@.subrange(0, a@.len() as int));
    assert(b@ =~= b@.subrange(0, b@.len() as int));
    true
}

/// Does `p` occur in `s` at `i`?
pub fn matches_at_exec(s: &[char], i: usize, p: &[char]) -> (r: bool)
    ensures
        r == matches_at(s@, i as int, p@),
{
    if i > s.len() || p.len() > s.len() - i {
        return false;
    }
    let n = s.len();
    let mut k: usize = 0;
    while k < p.len()
        invariant
            n == s@.len(),
            i <= s@.len(),
            i + p@.len() <= s@.len(),
            k <= p@.len(),
            s@.subrange(i as int, i + k) == p@.subrange(0, k as int),
        decreases p.len() - k,
    {
        assert(i + k < n);
        if s[i + k] != p[k] {
            assert(s@.subrange(i as int, i + p@.len())[k as int] != p@[k as int]);
            return false;
        }
        k = k + 1;
        assert(s@.subrange(i as int, i + k) =~= p@.subrange(0, k as int)) by {
            assert forall|j: int| 0 <= j < k implies s@.subrange(i as int, i + k)[j] == p@.subrange(
                0,
                k as int,
            )[j] by {
                if j < k - 1 {
                    assert(s@.subrange(i as int, i + k - 1)[j] == p@.subrange(0, k - 1)[j]);
                }
            }
        }
    }
    assert(p@ =~= p@.subrange(0, p@.len() as int));
    true
}

/// `s.starts_with(p)`.
pub fn starts_with_exec(s: &[char], p: &[char]) -> (r: bool)
    ensures
        r == starts_with(s@, p@),
{
    matches_at_exec(s, 0, p)
}

/// `s.ends_with(p)`.
pub fn ends_with_exec(s: &[char], p: &[char]) -> (r: bool)
    ensures
        r == ends_with(s@, p@),
{
    if p.len() > s.len() {
        return false;
    }
    matches_at_exec(s, s.len() - p.len(), p)
}

/// The first occurrence of `p` in `s` at or after `k`.
pub fn find_from_exec(s: &[char], p: &[char], k: usize) -> (r: Option<usize>)
    ensures
        match r {
            Some(i) => find_from(s@, p@, k as int) == Some(i as int),
            None => find_from(s@, p@, k as int) is None,
        },
{
    let mut i = k;
    while i <= s.len() && p.len() <= s.len() - i
        invariant
            k <= i,
            find_from(s@, p@, k as int) == find_from(s@, p@, i as int),
        decreases s.len() + 1 - i,
    {
        if matches_at_exec(s, i, p) {
            return Some(i);
        }
        if i == s.len() {
            assert(s@.subrange(i as int, i as int) =~= p@);
            return None;
        }
        i = i + 1;
    }
    None
}

pub proof fn lemma_find_from_matches(s: Seq<char>, p: Seq<char>, k: int)
    ensures
        find_from(s, p, k) matches Some(i) ==> k <= i && matches_at(s, i, p),
    decreases s.len() + 1 - k,
{
    if !(k < 0 || k + p.len() > s.len()) && !matches_at(s, k, p) {
        lemma_find_from_matches(s, p, k + 1);
    }
}

/// An occurrence at `i` means there is a first one at or after any
/// `k <= i`.
pub proof fn lemma_matches_found(s: Seq<char>, p: Seq<char>, i: int, k: int)
    requires
        0 <= k <= i,
        matches_at(s, i, p),
    ensures
        find_from(s, p, k) is Some,
    decreases i - k,
{
    if !matches_at(s, k, p) {
        lemma_matches_found(s, p, i, k + 1);
    }
}

/// An occurrence at `k` with none between `j` and `k` is the first one
/// from `j`.
pub proof fn lemma_find_first(s: Seq<char>, p: Seq<char>, k: int, j: int)
    requires
        0 <= j <= k,
        matches_at(s, k, p),
        forall|i: int| j <= i < k ==> !matches_at(s, i, p),
    ensures
        find_from(s, p, j) == Some(k),
    decreases k - j,
{
    if j < k {
        lemma_find_first(s, p, k, j + 1);
    }
}

/// `s.find(p)`.
pub fn find_exec(s: &[char], p: &[char]) -> (r: Option<usize>)
    ensures
        match r {
            Some(i) => find(s@, p@) == Some(i as int) && matches_at(s@, i as int, p@),
            None => find(s@, p@) is None,
        },
{
    proof {
        lemma_find_from_matches(s@, p@, 0);
    }
    find_from_exec(s, p, 0)
}

/// `s.contains(p)`.
pub fn contains_exec(s: &[char], p: &[char]) -> (r: bool)
    ensures
        r == contains(s@, p@),
{
    find_exec(s, p).is_some()
}

/// Where `trim_start` starts: the first character that is not whitespace.
pub fn trim_start_at(s: &[char]) -> (i: usize)
    ensures
        i <= s@.len(),
        trim_start(s@) == s@.subrange(i as int, s@.len() as int),
{
    let mut i: usize = 0;
    assert(s@ =~= s@.subrange(0, s@.len() as int));
    while i < s.len() && is_whitespace(s[i])
        invariant
            i <= s@.len(),
            trim_start(s@) == trim_start(s@.subrange(i as int, s@.len() as int)),
        decreases s.len() - i,
    {
        assert(s@.subrange(i as int, s@.len() as int).drop_first() =~= s@.subrange(
            i + 1,
            s@.len() as int,
        ));
        i = i + 1;
    }
    i
}

/// Where `trim_end` ends within `s[a..]`.
pub fn trim_end_at(s: &[char], a: usize) -> (j: usize)
    requires
        a <= s@.len(),
    ensures
        a <= j <= s@.len(),
        trim_end(s@.subrange(a as int, s@.len() as int)) == s@.subrange(a as int, j as int),
{
    let mut j = s.len();
    while j > a && is_whitespace(s[j - 1])
        invariant
            a <= j <= s@.len(),
            trim_end(s@.subrange(a as int, s@.len() as int)) == trim_end(
                s@.subrange(a as int, j as int),
            ),
        decreases j,
    {
        assert(s@.subrange(a as int, j as int).drop_last() =~= s@.subrange(a as int, j - 1));
        j = j - 1;
    }
    j
}

/// Where `trim_start` of `s[p..]` starts.
pub fn skip_ws(s: &[char], p: usize) -> (q: usize)
    requires
        p <= s@.len(),
    ensures
        p <= q <= s@.len(),
        trim_start(s@.subrange(p as int, s@.len() as int)) == s@.subrange(q as int, s@.len() as int),
{
    let mut q = p;
    while q < s.len() && is_whitespace(s[q])
        invariant
            p <= q <= s@.len(),
            trim_start(s@.subrange(p as int, s@.len() as int)) == trim_start(
                s@.subrange(q as int, s@.len() as int),
            ),
        decreases s.len() - q,
    {
        assert(s@.subrange(q as int, s@.len() as int).drop_first() =~= s@.subrange(
            q + 1,
            s@.len() as int,
        ));
        q = q + 1;
    }
    q
}

/// `s.trim()`.
pub fn trim_exec(s: &[char]) -> (r: Vec<char>)
    ensures
        r@ == trim(s@),
{
    let a = trim_start_at(s);
    let b = trim_end_at(s, a);
    copy_range(s, a, b)
}

/// `s.split(c)`, each piece copied.
pub fn split_char_exec(s: &[char], c: char) -> (r: Vec<Vec<char>>)
    ensures
        r.deep_view() == split_char(s@, c),
{
    let mut done: Vec<Vec<char>> = Vec::new();
    let mut cur: Vec<char> = Vec::new();
    let mut i: usize = 0;
    assert(s@.subrange(0, 0) =~= Seq::<char>::empty());
    assert(done.deep_view().push(cur@) =~= seq![Seq::<char>::empty()]);
    while i < s.len()
        invariant
            i <= s@.len(),
            split_char(s@.subrange(0, i as int), c) == done.deep_view().push(cur@),
        decreases s.len() - i,
    {
        let x = s[i];
        let ghost before = done.deep_view().push(cur@);
        assert(s@.subrange(0, i + 1).drop_last() =~= s@.subrange(0, i as int));
        if x == c {
            done.push(cur);
            cur = Vec::new();
            assert(done.deep_view() =~= before);
            assert(done.deep_view().push(cur@) =~= before.push(Seq::<char>::empty()));
        } else {
            let ghost old_cur = cur@;
            cur.push(x);
            assert(done.deep_view().push(cur@) =~= before.update(
                before.len() - 1,
                before.last().push(x),
            ));
        }
        i = i + 1;
    }
    assert(s@.subrange(0, s@.len() as int) =~= s@);
    let ghost before = done.deep_view().push(cur@);
    done.push(cur);
    assert(done.deep_view() =~= before);
    done
}

/// `s.lines()`, each line copied.
pub fn lines_exec(s: &[char]) -> (r: Vec<Vec<char>>)
    ensures
        r.deep_view() == lines(s@),
{
    let p = split_char_exec(s, '\n');
    proof {
        lemma_split_char_nonempty(s@, '\n');
    }
    let n = if p[p.len() - 1].len() == 0 {
        p.len() - 1
    } else {
        p.len()
    };
    let mut r: Vec<Vec<char>> = Vec::new();
    let mut i: usize = 0;
    while i < n
        invariant
            p.deep_view() == split_char(s@, '\n'),
            p@.len() >= 1,
            n <= p@.len(),
            n == (if p.deep_view().last().len() == 0 {
                p@.len() - 1
            } else {
                p@.len() as int
            }),
            i <= n,
            r.deep_view() == lines(s@).subrange(0, i as int),
        decreases n - i,
    {
        let piece = &p[i];
        let len = piece.len();
        let line = if i + 1 < p.len() && len > 0 && piece[len - 1] == '\r' {
            copy_range(piece, 0, len - 1)
        } else {
            copy_range(piece, 0, len)
        };
        proof {
            assert(p.deep_view()[i as int] == piece@);
            assert(piece@.subrange(0, len as int) =~= piece@);
            if len > 0 {
                assert(piece@.subrange(0, len - 1) =~= piece@.drop_last());
            }
            assert(line@ == lines(s@)[i as int]);
        }
        let ghost before = r.deep_view();
        r.push(line);
        assert(r.deep_view() =~= before.push(lines(s@)[i as int]));
        i = i + 1;
        assert(r.deep_view() =~= lines(s@).subrange(0, i as int));
    }
    assert(lines(s@).subrange(0, n as int) =~= lines(s@));
    r
}

/// `s.split_whitespace()`, each word copied.
pub fn words_exec(s: &[char]) -> (r: Vec<Vec<char>>)
    ensures
        r.deep_view() == words(s@),
{
    let mut out: Vec<Vec<char>> = Vec::new();
    let mut cur: Vec<char> = Vec::new();
    let mut in_word = false;
    let mut i: usize = 0;
    assert(s@.subrange(0, 0) =~= Seq::<char>::empty());
    while i < s.len()
        invariant
            i <= s@.len(),
            in_word == (i > 0 && !is_ws(s@[i - 1])),
            !in_word ==> cur@.len() == 0,
            words(s@.subrange(0, i as int)) == (if in_word {
                out.deep_view().push(cur@)
            } else {
                out.deep_view()
            }),
        decreases s.len() - i,
    {
        let x = s[i];
        let ghost t = s@.subrange(0, i + 1);
        let ghost w = words(s@.subrange(0, i as int));
        let ghost before_out = out.deep_view();
        let ghost before_cur = cur@;
        assert(t.drop_last() =~= s@.subrange(0, i as int));
        assert(t.last() == x);
        if i > 0 {
            assert(t[t.len() - 2] == s@[i - 1]);
        }
        if is_whitespace(x) {
            assert(words(t) == w);
            if in_word {
                out.push(cur);
                cur = Vec::new();
                assert(out.deep_view() =~= before_out.push(before_cur));
            }
            in_word = false;
        } else {
            cur.push(x);
            if in_word {
                assert(words(t) == w.update(w.len() - 1, w.last().push(x)));
                assert(out.deep_view().push(cur@) =~= w.update(w.len() - 1, w.last().push(x)));
            } else {
                assert(words(t) == w.push(seq![x]));
                assert(cur@ =~= seq![x]);
                assert(out.deep_view().push(cur@) =~= w.push(seq![x]));
            }
            in_word = true;
        }
        i = i + 1;
    }
    assert(s@.subrange(0, s@.len() as int) =~= s@);
    if in_word {
        let ghost before_out = out.deep_view();
        let ghost before_cur = cur@;
        out.push(cur);
        assert(out.deep_view() =~= before_out.push(before_cur));
    }
    out
}

pub proof fn lemma_digits_value_prefix(s: Seq<char>, i: int)
    requires
        0 <= i <= s.len(),
    ensures
        digits_value(s.subrange(0, i)) <= digits_value(s),
    decreases s.len() - i,
{
    if i < s.len() {
        lemma_digits_value_prefix(s, i + 1);
        assert(s.subrange(0, i + 1).drop_last() =~= s.subrange(0, i));
    } else {
        assert(s.subrange(0, i) =~= s);
    }
}

/// What `decimal` writes reads back: digits, none of them blank, spelling
/// the number.
pub proof fn lemma_decimal(n: nat)
    ensures
        decimal(n).len() >= 1,
        all_digits(decimal(n)),
        digits_value(decimal(n)) == n,
        forall|i: int| 0 <= i < decimal(n).len() ==> !is_ws(#[trigger] decimal(n)[i]),
    decreases n,
{
    if n >= 10 {
        lemma_decimal(n / 10);
        let d = decimal(n);
        assert(d.drop_last() =~= decimal(n / 10));
        assert((n / 10) * 10 + n % 10 == n) by (nonlinear_arith);
        let k = n % 10;
        assert(d.last() == digit_char(k));
        assert((k + 48) as u8 == k + 48);
        assert(digit_char(k) as u32 == k + 48);
        assert(digits_value(d) == digits_value(decimal(n / 10)) * 10 + k);
        assert(digits_value(d) == n);
        assert forall|i: int| 0 <= i < d.len() implies !is_ws(#[trigger] d[i]) && is_digit(d[i]) by {
            if i < d.len() - 1 {
                assert(d[i] == decimal(n / 10)[i]);
            }
        }
    } else {
        let d = decimal(n);
        assert((n + 48) as u8 == n + 48);
        assert(digit_char(n) as u32 == n + 48);
        assert(d.drop_last() =~= Seq::<char>::empty());
        assert(digits_value(d.drop_last()) == 0);
        assert(d.last() == digit_char(n));
        assert(((d.last() as u32) - 48) as nat == n);
        assert(digits_value(d) == n);
    }
}

/// A run of non-blank characters after a blank (or at the start) is one
/// more word.
pub proof fn lemma_words_then_word(p: Seq<char>, b: Seq<char>)
    requires
        p.len() == 0 || is_ws(p.last()),
        b.len() >= 1,
        forall|i: int| 0 <= i < b.len() ==> !is_ws(#[trigger] b[i]),
    ensures
        words(p + b) == words(p).push(b),
    decreases b.len(),
{
    let s = p + b;
    if b.len() == 1 {
        assert(s.drop_last() =~= p);
        assert(seq![b[0]] =~= b);
    } else {
        let c = b.drop_last();
        lemma_words_then_word(p, c);
        assert(s.drop_last() =~= p + c);
        assert(s[s.len() - 2] == b[b.len() - 2]);
        assert(c.push(b.last()) =~= b);
        assert(words(p).push(c).update(words(p).len() as int, b) =~= words(p).push(b));
    }
}

/// `format!("{a} {b}\n")` splits back into `a` and `b` when neither has a
/// blank in it.
pub proof fn lemma_words_of_pair(a: Seq<char>, b: Seq<char>)
    requires
        a.len() >= 1,
        b.len() >= 1,
        forall|i: int| 0 <= i < a.len() ==> !is_ws(#[trigger] a[i]),
        forall|i: int| 0 <= i < b.len() ==> !is_ws(#[trigger] b[i]),
    ensures
        words(a + seq![' '] + b + seq!['\n']) == seq![a, b],
{
    let e = Seq::<char>::empty();
    lemma_words_then_word(e, a);
    assert(e + a =~= a);
    let p = a + seq![' '];
    assert(p.drop_last() =~= a);
    assert(is_ws(p.last()));
    lemma_words_then_word(p, b);
    let s = a + seq![' '] + b + seq!['\n'];
    assert(s.drop_last() =~= p + b);
    assert(words(e) =~= Seq::<Seq<char>>::empty());
    assert(Seq::<Seq<char>>::empty().push(a).push(b) =~= seq![a, b]);
}

/// A text without `c` is one piece.
pub proof fn lemma_split_without(s: Seq<char>, c: char)
    requires
        forall|i: int| 0 <= i < s.len() ==> s[i] != c,
    ensures
        split_char(s, c) == seq![s],
    decreases s.len(),
{
    if s.len() > 0 {
        lemma_split_without(s.drop_last(), c);
        assert(s.drop_last().push(s.last()) =~= s);
        assert(seq![s.drop_last()].update(0, s) =~= seq![s]);
    } else {
        assert(s =~= Seq::<char>::empty());
    }
}

/// One line, ended: a text with no line break or blank in it, then `\n`,
/// is that one line.
pub proof fn lemma_one_line(s: Seq<char>)
    requires
        s.len() >= 1,
        forall|i: int| 0 <= i < s.len() ==> s[i] != '\n',
        !is_ws(s.last()),
    ensures
        lines(s.push('\n')) == seq![s],
{
    lemma_split_without(s, '\n');
    let t = s.push('\n');
    assert(t.drop_last() =~= s);
    assert(split_char(t, '\n') == seq![s].push(Seq::<char>::empty()));
    assert(strip_cr(s) == s);
    assert(lines(t) =~= seq![s]);
}

/// A text with no blank at either end is its own trim.
pub proof fn lemma_trim_unblank(s: Seq<char>)
    requires
        s.len() >= 1,
        !is_ws(s[0]),
        !is_ws(s.last()),
    ensures
        trim(s) == s,
{
}

/// `s.parse::<uN>()` where `max` is `uN::MAX`.
pub fn parse_uint_exec(s: &[char], max: u64) -> (r: Option<u64>)
    ensures
        match r {
            Some(v) => parse_uint(s@, max as nat) == Some(v as nat),
            None => parse_uint(s@, max as nat) is None,
        },
{
    let start: usize = if s.len() > 0 && s[0] == '+' {
        1
    } else {
        0
    };
    let ghost d = if s@.len() > 0 && s@[0] == '+' {
        s@.drop_first()
    } else {
        s@
    };
    assert(d =~= s@.subrange(start as int, s@.len() as int));
    if start == s.len() {
        return None;
    }
    let mut v: u64 = 0;
    let mut i = start;
    while i < s.len()
        invariant
            start <= i <= s@.len(),
            d == s@.subrange(start as int, s@.len() as int),
            d == (if s@.len() > 0 && s@[0] == '+' {
                s@.drop_first()
            } else {
                s@
            }),
            all_digits(s@.subrange(start as int, i as int)),
            v as nat == digits_value(s@.subrange(start as int, i as int)),
            v <= max,
        decreases s.len() - i,
    {
        let c = s[i];
        if !('0' <= c && c <= '9') {
            assert(d[i - start] == c);
            assert(!is_digit(d[i - start]));
            assert(!all_digits(d)) by {
                if all_digits(d) {
                    assert(is_digit(d[i - start]));
                    assert(false);
                }
            }
            assert(parse_uint(s@, max as nat) is None);
            return None;
        }
        assert(c as u32 >= 48 && c as u32 <= 57);
        let dg = (c as u32 - 48) as u64;
        assert(s@.subrange(start as int, i + 1).drop_last() =~= s@.subrange(
            start as int,
            i as int,
        ));
        if dg > max || v > (max - dg) / 10 {
            proof {
                assert(v * 10 + dg > max) by (nonlinear_arith)
                    requires
                        dg > max || v > (max - dg) / 10,
                        dg <= 9,
                ;
                lemma_digits_value_prefix(d, i + 1 - start);
                assert(d.subrange(0, i + 1 - start) =~= s@.subrange(start as int, i + 1));
                let t = s@.subrange(start as int, i + 1);
                assert(t.last() == c);
                assert(t.drop_last() =~= s@.subrange(start as int, i as int));
                assert(digits_value(t) == digits_value(t.drop_last()) * 10 + ((c as u32) - 48) as nat);
                assert(digits_value(t) == v * 10 + dg);
                assert(d.subrange(0, i + 1 - start) == t);
                assert(digits_value(d.subrange(0, i + 1 - start)) == digits_value(t));
                assert(digits_value(d) > max);
                assert(parse_uint(s@, max as nat) is None);
            }
            return None;
        }
        proof {
            assert(v * 10 + dg <= max) by (nonlinear_arith)
                requires
                    v <= (max - dg) / 10,
                    dg <= max,
            ;
        }
        assert(s@.subrange(start as int, i + 1).last() == c);
        v = v * 10 + dg;
        i = i + 1;
        assert(v as nat == digits_value(s@.subrange(start as int, i as int)));
        assert(all_digits(s@.subrange(start as int, i as int))) by {
            assert forall|k: int| 0 <= k < s@.subrange(start as int, i as int).len() implies is_digit(
                #[trigger] s@.subrange(start as int, i as int)[k],
            ) by {
                if k < i - 1 - start {
                    assert(s@.subrange(start as int, i - 1)[k] == s@.subrange(
                        start as int,
                        i as int,
                    )[k]);
                }
            }
        }
    }
    assert(s@.subrange(start as int, i as int) =~= d);
    assert(d.len() > 0);
    Some(v)
}

/// `n` in decimal.
pub fn decimal_exec(n: u64) -> (r: Vec<char>)
    ensures
        r@ == decimal(n as nat),
    decreases n,
{
    let d = (n % 10) as u8;
    let c = (48 + d) as char;
    if n < 10 {
        let mut r = Vec::new();
        r.push(c);
        assert(r@ =~= seq![digit_char(n as nat)]);
        r
    } else {
        let mut r = decimal_exec(n / 10);
        r.push(c);
        r
    }
}

/// `a` followed by `b`.
pub fn concat(a: &[char], b: &[char]) -> (r: Vec<char>)
    ensures
        r@ == a@ + b@,
{
    let mut r = copy_range(a, 0, a.len());
    let mut i: usize = 0;
    while i < b.len()
        invariant
            i <= b@.len(),
            r@ == a@ + b@.subrange(0, i as int),
        decreases b.len() - i,
    {
        r.push(b[i]);
        i = i + 1;
        assert(r@ =~= a@ + b@.subrange(0, i as int));
    }
    assert(b@.subrange(0, b@.len() as int) =~= b@);
    assert(a@.subrange(0, a@.len() as int) =~= a@);
    r
}

} // verus!
