//! Whether the polkit PAM stack will try a fingerprint before a password.
//!
//! Fingerprint authentication is PAM's job (`pam_fprintd`), not ours. We only
//! look at whether the stack mentions that module, and whether the laptop lid
//! is closed, so the window can hide the password field while the helper
//! waits on the reader. We do not parse `max-tries`, do not count remaining
//! swipes, and do not write PAM files.
use vstd::prelude::*;

use crate::pam::{auth_stack_names, stack_names, PamDir};

verus! {

/// Whether this machine's polkit PAM stack will try a fingerprint: an `auth`
/// line naming `pam_fprintd.so`, in `polkit-1` or in anything it includes.
///
/// Omarchy puts the line in `polkit-1` itself; a hand-made stack may put it
/// in `system-auth` and include that. Both are the same stack to PAM, so both
/// are the same answer here (the same reader as the faillock check, so the
/// two cannot disagree about what the stack contains).
pub fn configured(dir: &PamDir) -> (r: bool)
    ensures
        r == stack_names(dir@, "polkit-1"@, "pam_fprintd"@, 0),
{
    auth_stack_names(dir, "polkit-1", "pam_fprintd")
}

/// Hide the password field and wait on the reader: the stack tries a
/// fingerprint and the lid is open.
///
/// Checked once when the prompt starts. The PAM clamshell gate already ran by
/// the time a later lid close could matter, so nothing polls. The lid probe
/// is run only for a stack that tries a fingerprint: with none, its answer
/// could not change the result.
pub fn should_wait<F: FnOnce() -> bool>(dir: &PamDir, lid_closed: F) -> (r: bool)
    requires
        lid_closed.requires(()),
    ensures
        !stack_names(dir@, "polkit-1"@, "pam_fprintd"@, 0) ==> !r,
        stack_names(dir@, "polkit-1"@, "pam_fprintd"@, 0) ==> exists|closed: bool|
            #[trigger] lid_closed.ensures((), closed) && r == !closed,
{
    if configured(dir) {
        let closed = lid_closed();
        !closed
    } else {
        false
    }
}

} // verus!
