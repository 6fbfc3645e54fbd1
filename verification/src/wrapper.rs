//! Wrapper mode: what runs when the user types `sudo <args>` through the
//! alias.
//!
//! A fork in the road; the command itself is never rewritten. Anything polkit can carry goes to
//! `run0`, where our agent draws the prompt and the command runs as a systemd
//! unit rather than through setuid. Everything else stays on sudo, with our
//! own window supplying the password:
//!
//!   sudo pacman -Syu     -> run0 pacman -Syu
//!   sudo -E make install -> sudo -A make install   (run0 has no -E)
//!   sudo VAR=1 make      -> sudo -A VAR=1 make     (run0 would drop VAR)
//!
//! Deciding is left to `sudo_args`, which already knows which options
//! swallow the next word.
use vstd::prelude::*;

use crate::sudo_args::{command_start, command_start_from, conflict_from, has_conflicting_flag};

verus! {

broadcast use crate::chars::lemma_deep_view_bytes;

/// An ASCII letter, digit or `_`: what a variable name is made of.
pub open spec fn name_byte(b: u8) -> bool {
    (48 <= b && b <= 57) || (65 <= b && b <= 90) || (97 <= b && b <= 122) || b == 95
}

/// The first `=` in `a`, if any.
pub open spec fn first_eq(a: Seq<u8>, k: int) -> Option<int>
    decreases a.len() - k,
{
    if k < 0 || k >= a.len() {
        None
    } else if a[k] == 61 {
        Some(k)
    } else {
        first_eq(a, k + 1)
    }
}

/// `NAME=value`: a non-empty name of letters, digits and `_` before the
/// first `=`.
pub open spec fn assignment(a: Seq<u8>) -> bool {
    match first_eq(a, 0) {
        None => false,
        Some(e) => e > 0 && forall|i: int| 0 <= i < e ==> name_byte(#[trigger] a[i]),
    }
}

/// `NAME=value` in the command position is an environment assignment, which
/// sudo applies and run0 would silently drop.
pub fn is_assignment(arg: &[u8]) -> (r: bool)
    ensures
        r == assignment(arg@),
{
    let mut e: usize = 0;
    while e < arg.len() && arg[e] != 61
        invariant
            e <= arg@.len(),
            first_eq(arg@, 0) == first_eq(arg@, e as int),
            forall|i: int| 0 <= i < e ==> arg@[i] != 61,
        decreases arg.len() - e,
    {
        e = e + 1;
    }
    if e == arg.len() || e == 0 {
        return false;
    }
    let mut i: usize = 0;
    while i < e
        invariant
            e < arg@.len(),
            first_eq(arg@, 0) == Some(e as int),
            i <= e,
            forall|k: int| 0 <= k < i ==> name_byte(#[trigger] arg@[k]),
        decreases e - i,
    {
        let b = arg[i];
        if !((48 <= b && b <= 57) || (65 <= b && b <= 90) || (97 <= b && b <= 122) || b == 95) {
            assert(!name_byte(arg@[i as int]));
            return false;
        }
        i = i + 1;
    }
    true
}

/// Can this invocation go to run0 unchanged? Only when there is nothing but
/// a command: no sudo options, no environment assignment.
pub open spec fn plain(args: Seq<Seq<u8>>) -> bool {
    command_start_from(args, 0) == Some(0int) && !(args.len() > 0 && assignment(args[0]))
}

/// Can this invocation go to run0 unchanged?
///
/// Only when there is nothing but a command: no sudo options, no environment
/// assignments. Anything else keeps sudo's meaning, which run0 does not share.
pub fn plain_command(args: &[Vec<u8>]) -> (r: bool)
    ensures
        r == plain(args.deep_view()),
{
    match command_start(args) {
        Some(0) => {
            assert(args.deep_view()[0] == args@[0]@);
            !is_assignment(&args[0])
        },
        _ => false,
    }
}

/// Where a `sudo <args>` goes.
#[derive(Debug, PartialEq, Eq, Structural, Clone, Copy)]
pub enum Route {
    /// Plain sudo, arguments untouched, with its own terminal prompt.
    Sudo,
    /// `run0 <args>`: our agent draws the prompt.
    Run0,
    /// `sudo -A <args>` with our window as the askpass helper.
    Askpass,
}

/// The fork in the road. No arguments: sudo prints its own usage. A caller
/// that chose a password source (`-A`, `-n`, `-S`) keeps it. A plain command
/// goes to run0 unless that routing is switched off. Without a display a
/// popup cannot appear, so the terminal prompt stays. Everything else gets
/// our window through askpass.
pub open spec fn route_of(args: Seq<Seq<u8>>, run0_routing: bool, has_display: bool) -> Route {
    if args.len() == 0 {
        Route::Sudo
    } else if conflict_from(args, 0) {
        Route::Sudo
    } else if run0_routing && plain(args) {
        Route::Run0
    } else if !has_display {
        Route::Sudo
    } else {
        Route::Askpass
    }
}

/// Decide where `sudo <args>` goes. The process still falls back to plain
/// sudo when the askpass hook cannot be put anywhere private, and to sudo
/// when run0 will not start: not being able to show a popup is a far
/// smaller problem than not being able to run sudo at all.
pub fn route(args: &[Vec<u8>], run0_routing: bool, has_display: bool) -> (r: Route)
    ensures
        r == route_of(args.deep_view(), run0_routing, has_display),
{
    if args.len() == 0 {
        Route::Sudo
    } else if has_conflicting_flag(args) {
        Route::Sudo
    } else if run0_routing && plain_command(args) {
        Route::Run0
    } else if !has_display {
        Route::Sudo
    } else {
        Route::Askpass
    }
}

/// Only an invocation that is nothing but a command reaches run0 -- any
/// option or environment assignment keeps sudo's meaning -- and never once
/// the routing is switched off; one that chose its own password source is
/// never given ours.
pub proof fn law_run0_gets_only_plain_commands(
    args: Seq<Seq<u8>>,
    run0_routing: bool,
    has_display: bool,
)
    ensures
        route_of(args, run0_routing, has_display) == Route::Run0 ==> plain(args) && run0_routing,
        !run0_routing ==> route_of(args, run0_routing, has_display) != Route::Run0,
        conflict_from(args, 0) ==> route_of(args, run0_routing, has_display) == Route::Sudo,
        !has_display ==> route_of(args, run0_routing, has_display) != Route::Askpass,
{
}

/// `first_eq` finds an `=` that only name bytes precede.
proof fn lemma_first_eq_after_name(a: Seq<u8>, e: int, k: int)
    requires
        0 <= k <= e < a.len(),
        a[e] == 61,
        forall|i: int| 0 <= i < e ==> a[i] != 61,
    ensures
        first_eq(a, k) == Some(e),
    decreases e - k,
{
    if k < e {
        lemma_first_eq_after_name(a, e, k + 1);
    }
}

/// An environment assignment never goes to run0, which would drop it:
/// whenever the first argument is `NAME=value` with a non-empty NAME of
/// ASCII letters, digits and `_` (`LC_ALL=C`, `VAR=1`), `sudo` keeps the
/// invocation, with our window or its own prompt.
pub proof fn law_an_assignment_stays_on_sudo(
    args: Seq<Seq<u8>>,
    name_len: int,
    run0_routing: bool,
    has_display: bool,
)
    requires
        args.len() > 0,
        0 < name_len < args[0].len(),
        args[0][name_len] == '=' as u8,
        forall|i: int|
            0 <= i < name_len ==> {
                let b = #[trigger] args[0][i];
                ('0' as u8 <= b && b <= '9' as u8) || ('A' as u8 <= b && b <= 'Z' as u8) || (
                'a' as u8 <= b && b <= 'z' as u8) || b == '_' as u8
            },
    ensures
        route_of(args, run0_routing, has_display) != Route::Run0,
{
    let a = args[0];
    assert forall|i: int| 0 <= i < name_len implies a[i] != 61 by {
        let b = a[i];
        assert(('0' as u8 <= b && b <= '9' as u8) || ('A' as u8 <= b && b <= 'Z' as u8) || (
        'a' as u8 <= b && b <= 'z' as u8) || b == '_' as u8);
    }
    lemma_first_eq_after_name(a, name_len, 0);
    assert forall|i: int| 0 <= i < name_len implies name_byte(#[trigger] a[i]) by {
        let b = a[i];
        assert(('0' as u8 <= b && b <= '9' as u8) || ('A' as u8 <= b && b <= 'Z' as u8) || (
        'a' as u8 <= b && b <= 'z' as u8) || b == '_' as u8);
    }
    assert(assignment(a));
}

} // verus!
