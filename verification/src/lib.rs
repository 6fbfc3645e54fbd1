//! sudo-pop: the password prompt for privileged actions, as a library.
//!
//! A polkit authentication agent with a sudo router in front of it: plain
//! `sudo <command>` goes to `run0`, anything sudo-specific stays on sudo with
//! this window supplying the password, and both end at the same prompt, which
//! says which command is asking.
//!
//! What is decided lives here, verified: how a PAM stack, a faillock tally, a
//! sudo command line, a helper conversation and a theme file are read, and
//! what the window and the agent do with them. The process around it -- the
//! bus, the window toolkit, the files and the clock -- hands this library
//! plain values and acts on what comes back.
pub mod agent;
pub mod askpass;
pub mod attempts;
pub mod chars;
pub mod fingerprint;
pub mod font;
pub mod gui;
pub mod helper;
pub mod init;
pub mod invocation;
pub mod pam;
pub mod paths;
pub mod prompt;
pub mod secret;
pub mod sudo_args;
pub mod text;
pub mod theme;
pub mod wrapper;

use vstd::prelude::*;

use crate::text::{digit_char, string_of};

verus! {

/// `n` as two decimal digits, as `{:02}` writes a number below 100.
pub open spec fn two_digits(n: nat) -> Seq<char> {
    seq![digit_char(n / 10), digit_char(n % 10)]
}

/// The wall-clock time of day `now` (seconds since the epoch) reads as in
/// Korea (UTC+9): `HH:MM:SS`.
pub open spec fn stamp_of(now: nat) -> Seq<char> {
    let secs = now % 86400;
    two_digits((secs / 3600 + 9) % 24) + seq![':'] + two_digits((secs / 60) % 60) + seq![':']
        + two_digits(secs % 60)
}

fn two_digits_exec(n: u64) -> (r: (char, char))
    requires
        n < 100,
    ensures
        seq![r.0, r.1] == two_digits(n as nat),
{
    (((n / 10) as u8 + 48) as char, ((n % 10) as u8 + 48) as char)
}

/// Wall clock, for lining a log up against what the caller saw.
pub fn stamp(now: u64) -> (r: String)
    ensures
        r@ == stamp_of(now as nat),
{
    let secs = now % 86400;
    let (h1, h2) = two_digits_exec((secs / 3600 + 9) % 24);
    let (m1, m2) = two_digits_exec((secs / 60) % 60);
    let (s1, s2) = two_digits_exec(secs % 60);
    let v = vec![h1, h2, ':', m1, m2, ':', s1, s2];
    assert(v@ =~= stamp_of(now as nat));
    string_of(&v)
}

/// The uid to authenticate: ours if it is offered, otherwise the first.
pub open spec fn chosen_uid(uids: Seq<u32>, me: u32) -> Option<u32> {
    if uids.contains(me) {
        Some(me)
    } else if uids.len() > 0 {
        Some(uids[0])
    } else {
        None
    }
}

/// Which uid to authenticate: ours if it is offered, otherwise the first.
///
/// Picking the current user when possible is the settled choice; a
/// multi-admin chooser is deferred, so any other case just takes the first
/// candidate.
pub fn choose_uid(uids: &[u32], me: u32) -> (r: Option<u32>)
    ensures
        r == chosen_uid(uids@, me),
{
    let mut i: usize = 0;
    while i < uids.len()
        invariant
            i <= uids@.len(),
            forall|k: int| 0 <= k < i ==> uids@[k] != me,
        decreases uids.len() - i,
    {
        if uids[i] == me {
            assert(uids@.contains(me));
            return Some(me);
        }
        i = i + 1;
    }
    if uids.len() > 0 {
        Some(uids[0])
    } else {
        None
    }
}

/// The uids of the `unix-user` identities among `(kind, uid)` pairs, in
/// order, skipping one without a uid.
pub open spec fn user_uids(ids: Seq<(Seq<char>, Option<u32>)>) -> Seq<u32>
    decreases ids.len(),
{
    if ids.len() == 0 {
        Seq::<u32>::empty()
    } else {
        let r = user_uids(ids.drop_last());
        let (kind, uid) = ids.last();
        if kind == "unix-user"@ && uid is Some {
            r.push(uid->0)
        } else {
            r
        }
    }
}

/// The uids of the `unix-user` identities, in the order polkit listed them.
/// Other identity kinds (groups, netgroups) are not something we
/// authenticate. Each identity comes as its kind and its `uid` attribute,
/// when that is a `u32`.
pub fn unix_user_uids(identities: &[(String, Option<u32>)]) -> (r: Vec<u32>)
    ensures
        r@ == user_uids(identities.deep_view()),
{
    let ghost ids = identities.deep_view();
    let user = text::chars_of("unix-user");
    let mut out: Vec<u32> = Vec::new();
    let mut i: usize = 0;
    assert(ids.subrange(0, 0) =~= Seq::<(Seq<char>, Option<u32>)>::empty());
    while i < identities.len()
        invariant
            ids == identities.deep_view(),
            user@ == "unix-user"@,
            i <= ids.len(),
            out@ == user_uids(ids.subrange(0, i as int)),
        decreases identities.len() - i,
    {
        let (kind, uid) = &identities[i];
        assert(ids.subrange(0, i + 1).drop_last() =~= ids.subrange(0, i as int));
        assert(ids[i as int] == (kind@, *uid));
        let k = text::chars_of(kind.as_str());
        if text::eq_chars(&k, &user) {
            if let Some(u) = uid {
                out.push(*u);
            }
        }
        i = i + 1;
    }
    assert(ids.subrange(0, ids.len() as int) =~= ids);
    out
}

} // verus!
