//! Reading a sudo command line the way sudo itself would.
//!
//! Two places need this: the wrapper, to notice that the caller already chose
//! a password source and to decide whether the command can go to run0, and
//! askpass, to show which command is asking. Both hinge on knowing where
//! sudo's own options stop and the command begins, which means knowing which
//! options swallow the next argument.
//!
//! Arguments are byte strings, as the kernel hands them over: a command may
//! carry a path that is not UTF-8 and it must reach sudo byte for byte.
use vstd::prelude::*;

use crate::text::chars_of;

verus! {

broadcast use crate::chars::lemma_deep_view_bytes;

/// Short sudo options that consume a value, either glued to the bundle
/// (`-uroot`) or as the following argument (`-u root`): `CDghpRTUu`.
pub open spec fn short_takes_value(c: u8) -> bool {
    c == 67u8 || c == 68u8 || c == 103u8 || c == 104u8 || c == 112u8 || c == 82u8 || c == 84u8 || c
        == 85u8 || c == 117u8
}

/// Short options that mean the caller already decided how the password is
/// supplied: `-A`, `-n`, `-S`.
pub open spec fn short_conflicts(c: u8) -> bool {
    c == 65u8 || c == 110u8 || c == 83u8
}

/// The bytes spell these ASCII characters.
pub open spec fn ascii_eq(b: Seq<u8>, s: Seq<char>) -> bool {
    b.len() == s.len() && forall|i: int| 0 <= i < b.len() ==> b[i] as u32 == #[trigger] s[i] as u32
}

/// Long sudo options that consume a value when written without `=`.
pub open spec fn long_takes_value(name: Seq<u8>) -> bool {
    ||| ascii_eq(name, "close-from"@)
    ||| ascii_eq(name, "chdir"@)
    ||| ascii_eq(name, "group"@)
    ||| ascii_eq(name, "host"@)
    ||| ascii_eq(name, "prompt"@)
    ||| ascii_eq(name, "chroot"@)
    ||| ascii_eq(name, "command-timeout"@)
    ||| ascii_eq(name, "other-user"@)
    ||| ascii_eq(name, "user"@)
}

/// Long options that choose the password source: `--askpass`,
/// `--non-interactive`, `--stdin`.
pub open spec fn long_conflicts(name: Seq<u8>) -> bool {
    ||| ascii_eq(name, "askpass"@)
    ||| ascii_eq(name, "non-interactive"@)
    ||| ascii_eq(name, "stdin"@)
}

/// `--` on its own: the end of the options.
pub open spec fn is_double_dash(a: Seq<u8>) -> bool {
    a.len() == 2 && a[0] == 45u8 && a[1] == 45u8
}

/// `--name` or `--name=value`.
pub open spec fn is_long(a: Seq<u8>) -> bool {
    a.len() >= 2 && a[0] == 45u8 && a[1] == 45u8
}

/// `-x...`: a bundle of short options.
pub open spec fn is_short(a: Seq<u8>) -> bool {
    a.len() > 1 && a[0] == 45u8
}

/// The first `=` in `s` at or after `k`, or `s.len()` when there is none.
pub open spec fn eq_sign_from(s: Seq<u8>, k: int) -> int
    decreases s.len() - k,
{
    if k < 0 || k >= s.len() {
        s.len() as int
    } else if s[k] == 61u8 {
        k
    } else {
        eq_sign_from(s, k + 1)
    }
}

/// The name of a long option: what follows `--`, up to any `=`.
pub open spec fn long_name(a: Seq<u8>) -> Seq<u8> {
    let long = a.subrange(2, a.len() as int);
    long.subrange(0, eq_sign_from(long, 0))
}

/// The long option carries its value after `=`.
pub open spec fn long_has_value(a: Seq<u8>) -> bool {
    let long = a.subrange(2, a.len() as int);
    eq_sign_from(long, 0) < long.len()
}

/// Arguments a long option consumes after itself.
pub open spec fn long_skip(a: Seq<u8>) -> int {
    if !long_has_value(a) && long_takes_value(long_name(a)) {
        1
    } else {
        0
    }
}

/// The first position at or after `k` in a short bundle holding an option
/// that takes a value, or the bundle's length.
pub open spec fn first_valued(b: Seq<u8>, k: int) -> int
    decreases b.len() - k,
{
    if k < 0 || k >= b.len() {
        b.len() as int
    } else if short_takes_value(b[k]) {
        k
    } else {
        first_valued(b, k + 1)
    }
}

/// The first position at or after `k` in a short bundle holding an option
/// that takes a value or one that chooses the password source.
pub open spec fn first_special(b: Seq<u8>, k: int) -> int
    decreases b.len() - k,
{
    if k < 0 || k >= b.len() {
        b.len() as int
    } else if short_takes_value(b[k]) || short_conflicts(b[k]) {
        k
    } else {
        first_special(b, k + 1)
    }
}

/// Arguments a short bundle consumes after itself: one when the option that
/// takes a value ends the bundle, since the value is then the next argument.
pub open spec fn short_skip(a: Seq<u8>) -> int {
    let b = a.drop_first();
    if first_valued(b, 0) + 1 == b.len() {
        1
    } else {
        0
    }
}

/// Where the command starts, scanning from argument `i`.
pub open spec fn command_start_from(args: Seq<Seq<u8>>, i: int) -> Option<int>
    decreases args.len() + 2 - i,
{
    if i < 0 || i >= args.len() {
        None
    } else {
        let a = args[i];
        if is_double_dash(a) {
            if i + 1 < args.len() {
                Some(i + 1)
            } else {
                None
            }
        } else if is_long(a) {
            command_start_from(args, i + 1 + long_skip(a))
        } else if is_short(a) {
            command_start_from(args, i + 1 + short_skip(a))
        } else {
            Some(i)
        }
    }
}

/// Does the option section, from argument `i` on, choose a password source?
pub open spec fn conflict_from(args: Seq<Seq<u8>>, i: int) -> bool
    decreases args.len() + 2 - i,
{
    if i < 0 || i >= args.len() {
        false
    } else {
        let a = args[i];
        if is_double_dash(a) {
            false
        } else if is_long(a) {
            long_conflicts(long_name(a)) || conflict_from(args, i + 1 + long_skip(a))
        } else if is_short(a) {
            let b = a.drop_first();
            let p = first_special(b, 0);
            if p < b.len() && short_conflicts(b[p]) {
                true
            } else {
                conflict_from(
                    args,
                    i + 1 + (if p + 1 == b.len() {
                        1int
                    } else {
                        0int
                    }),
                )
            }
        } else {
            false
        }
    }
}

/// Which short options take the next argument as their value: exactly
/// `-C -D -g -h -p -R -T -U -u`. After one of them on its own, the argument
/// that follows is its value and the command is the one after that
/// (`sudo -g wheel id` runs `id`); after any other single-letter option the
/// next argument is already the command.
pub proof fn law_short_options_that_take_a_value(x: u8, v: Seq<u8>, c: Seq<u8>)
    requires
        c.len() == 0 || c[0] != '-' as u8,
    ensures
        (x == 'C' as u8 || x == 'D' as u8 || x == 'g' as u8 || x == 'h' as u8 || x == 'p' as u8
            || x == 'R' as u8 || x == 'T' as u8 || x == 'U' as u8 || x == 'u' as u8)
            ==> command_start_from(seq![seq!['-' as u8, x], v, c], 0) == Some(2int),
        !(x == 'C' as u8 || x == 'D' as u8 || x == 'g' as u8 || x == 'h' as u8 || x == 'p' as u8
            || x == 'R' as u8 || x == 'T' as u8 || x == 'U' as u8 || x == 'u' as u8) && (v.len()
            == 0 || v[0] != '-' as u8) ==> command_start_from(seq![seq!['-' as u8, x], v, c], 0)
            == Some(1int),
{
    let args = seq![seq!['-' as u8, x], v, c];
    let a = args[0];
    let b = a.drop_first();
    assert(b =~= seq![x]);
    assert(first_valued(b, 1) == 1);
    assert(args[1] == v);
    assert(args[2] == c);
    reveal_with_fuel(command_start_from, 3);
}

fn ascii_eq_exec(b: &[u8], s: &[char]) -> (r: bool)
    ensures
        r == ascii_eq(b@, s@),
{
    if b.len() != s.len() {
        return false;
    }
    let mut i: usize = 0;
    while i < b.len()
        invariant
            b@.len() == s@.len(),
            i <= b@.len(),
            forall|k: int| 0 <= k < i ==> b@[k] as u32 == #[trigger] s@[k] as u32,
        decreases b.len() - i,
    {
        if b[i] as u32 != s[i] as u32 {
            return false;
        }
        i = i + 1;
    }
    true
}

fn is_short_takes_value(c: u8) -> (r: bool)
    ensures
        r == short_takes_value(c),
{
    c == 67u8 || c == 68u8 || c == 103u8 || c == 104u8 || c == 112u8 || c == 82u8 || c == 84u8 || c
        == 85u8 || c == 117u8
}

fn is_short_conflict(c: u8) -> (r: bool)
    ensures
        r == short_conflicts(c),
{
    c == 65u8 || c == 110u8 || c == 83u8
}

fn is_long_takes_value(name: &[u8]) -> (r: bool)
    ensures
        r == long_takes_value(name@),
{
    ascii_eq_exec(name, &chars_of("close-from")) || ascii_eq_exec(name, &chars_of("chdir"))
        || ascii_eq_exec(name, &chars_of("group")) || ascii_eq_exec(name, &chars_of("host"))
        || ascii_eq_exec(name, &chars_of("prompt")) || ascii_eq_exec(name, &chars_of("chroot"))
        || ascii_eq_exec(name, &chars_of("command-timeout")) || ascii_eq_exec(
        name,
        &chars_of("other-user"),
    ) || ascii_eq_exec(name, &chars_of("user"))
}

fn is_long_conflict(name: &[u8]) -> (r: bool)
    ensures
        r == long_conflicts(name@),
{
    ascii_eq_exec(name, &chars_of("askpass")) || ascii_eq_exec(name, &chars_of("non-interactive"))
        || ascii_eq_exec(name, &chars_of("stdin"))
}

/// The name of a long option `a` and whether a value follows its `=`.
fn long_parts(a: &[u8]) -> (r: (Vec<u8>, bool))
    requires
        is_long(a@),
    ensures
        r.0@ == long_name(a@),
        r.1 == long_has_value(a@),
{
    let ghost long = a@.subrange(2, a@.len() as int);
    let mut k: usize = 2;
    while k < a.len() && a[k] != 61u8
        invariant
            2 <= k <= a@.len(),
            long == a@.subrange(2, a@.len() as int),
            eq_sign_from(long, 0) == eq_sign_from(long, k - 2),
        decreases a.len() - k,
    {
        k = k + 1;
    }
    let mut name: Vec<u8> = Vec::new();
    let mut j: usize = 2;
    while j < k
        invariant
            2 <= j <= k <= a@.len(),
            name@ == a@.subrange(2, j as int),
        decreases k - j,
    {
        name.push(a[j]);
        j = j + 1;
        assert(name@ =~= a@.subrange(2, j as int));
    }
    assert(long.subrange(0, k - 2) =~= a@.subrange(2, k as int));
    (name, k < a.len())
}

/// Position of the first option in a short bundle (`a` without its dash)
/// that takes a value, or the bundle length.
fn first_valued_exec(a: &[u8], special: bool) -> (p: usize)
    requires
        is_short(a@),
    ensures
        !special ==> p as int == first_valued(a@.drop_first(), 0),
        special ==> p as int == first_special(a@.drop_first(), 0),
        p <= a@.len() - 1,
{
    let ghost b = a@.drop_first();
    let mut p: usize = 0;
    while p < a.len() - 1 && !is_short_takes_value(a[p + 1]) && !(special && is_short_conflict(
        a[p + 1],
    ))
        invariant
            p <= a@.len() - 1,
            b == a@.drop_first(),
            !special ==> first_valued(b, 0) == first_valued(b, p as int),
            special ==> first_special(b, 0) == first_special(b, p as int),
        decreases a.len() - p,
    {
        assert(b[p as int] == a@[p + 1]);
        p = p + 1;
    }
    if p < a.len() - 1 {
        assert(b[p as int] == a@[p + 1]);
    }
    p
}

/// Index of the first argument that is not a sudo option — where the
/// command starts. `None` when the arguments are all options.
pub fn command_start(args: &[Vec<u8>]) -> (r: Option<usize>)
    ensures
        match r {
            Some(i) => command_start_from(args.deep_view(), 0) == Some(i as int) && i < args@.len(),
            None => command_start_from(args.deep_view(), 0) is None,
        },
{
    let ghost dv = args.deep_view();
    let mut i: usize = 0;
    while i < args.len()
        invariant
            dv == args.deep_view(),
            command_start_from(dv, 0) == command_start_from(dv, i as int),
        decreases args.len() - i,
    {
        let a = &args[i];
        assert(dv[i as int] == a@);
        if a.len() == 2 && a[0] == 45u8 && a[1] == 45u8 {
            if i + 1 < args.len() {
                return Some(i + 1);
            }
            return None;
        }
        if a.len() >= 2 && a[0] == 45u8 && a[1] == 45u8 {
            let (name, has_value) = long_parts(a);
            if !has_value && is_long_takes_value(&name) {
                assert(command_start_from(dv, i as int) == command_start_from(dv, i + 2));
                if args.len() - i <= 2 {
                    assert(command_start_from(dv, i + 2) is None);
                    return None;
                }
                i = i + 2;
            } else {
                i = i + 1;
            }
        } else if a.len() > 1 && a[0] == 45u8 {
            let p = first_valued_exec(a, false);
            if p + 1 == a.len() - 1 {
                assert(command_start_from(dv, i as int) == command_start_from(dv, i + 2));
                if args.len() - i <= 2 {
                    assert(command_start_from(dv, i + 2) is None);
                    return None;
                }
                i = i + 2;
            } else {
                i = i + 1;
            }
        } else {
            return Some(i);
        }
    }
    None
}

/// True if the caller already passed -A, -n or -S in any spelling.
///
/// Scans only the option section: parsing stops at `--` or at the first
/// argument that is not an option, which is where the command begins.
/// Options that take a value are skipped over so a value like
/// `-u -n-ish-user` cannot be mistaken for a flag.
pub fn has_conflicting_flag(args: &[Vec<u8>]) -> (r: bool)
    ensures
        r == conflict_from(args.deep_view(), 0),
{
    let ghost dv = args.deep_view();
    let mut i: usize = 0;
    while i < args.len()
        invariant
            dv == args.deep_view(),
            conflict_from(dv, 0) == conflict_from(dv, i as int),
        decreases args.len() - i,
    {
        let a = &args[i];
        assert(dv[i as int] == a@);
        if a.len() == 2 && a[0] == 45u8 && a[1] == 45u8 {
            return false;
        }
        if a.len() >= 2 && a[0] == 45u8 && a[1] == 45u8 {
            let (name, has_value) = long_parts(a);
            if is_long_conflict(&name) {
                return true;
            }
            if !has_value && is_long_takes_value(&name) {
                assert(conflict_from(dv, i as int) == conflict_from(dv, i + 2));
                if args.len() - i <= 2 {
                    assert(!conflict_from(dv, i + 2));
                    return false;
                }
                i = i + 2;
            } else {
                i = i + 1;
            }
        } else if a.len() > 1 && a[0] == 45u8 {
            let p = first_valued_exec(a, true);
            if p < a.len() - 1 && is_short_conflict(a[p + 1]) {
                assert(a@.drop_first()[p as int] == a@[p + 1]);
                return true;
            }
            if p < a.len() - 1 {
                assert(a@.drop_first()[p as int] == a@[p + 1]);
            }
            if p + 1 == a.len() - 1 {
                assert(conflict_from(dv, i as int) == conflict_from(dv, i + 2));
                if args.len() - i <= 2 {
                    assert(!conflict_from(dv, i + 2));
                    return false;
                }
                i = i + 2;
            } else {
                i = i + 1;
            }
        } else {
            return false;
        }
    }
    false
}

} // verus!
