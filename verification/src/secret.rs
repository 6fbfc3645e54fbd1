//! The password buffer.
//!
//! Held for as short a time as possible and wiped by hand rather than by
//! `Drop` -- under `panic = "abort"` destructors never run. The process pins
//! the buffer in RAM (`mlock`) right after it is made, so it cannot reach
//! swap.
//!
//! Where it goes afterwards depends on the path: the agent writes it straight
//! to the polkit helper, and askpass writes it to the descriptor sudo is
//! reading. Neither ever formats it into a `String` or a `println!` buffer
//! that nothing zeroizes.
use vstd::prelude::*;
use vstd::utf8::encode_utf8;

use zeroize::Zeroize;

verus! {

/// Room for a generous password without reallocating. A `String` that
/// outgrows its capacity leaves the old buffer freed but not cleared -- and,
/// worse, the freed pages would no longer be the ones that were locked. The
/// input widget caps entry at `MAX_CHARS`, so at four bytes per character
/// the buffer can never reach this size.
pub const CAPACITY: usize = 2048;

/// Characters the password field accepts. Paired with `CAPACITY` to rule out
/// reallocation.
pub const MAX_CHARS: usize = 256;

/// `String::with_capacity`: an empty string with room for `n` bytes.
#[verifier::external_body]
fn empty_with_room(n: usize) -> (s: String)
    ensures
        s@ == Seq::<char>::empty(),
{
    String::with_capacity(n)
}

/// zeroize's `Zeroize::zeroize` on a `String`: it overwrites every byte of
/// the allocation with zeros, the spare capacity included, and leaves the
/// string empty with its allocation in place. Only the emptiness is stated.
#[verifier::external_body]
fn zeroize_string(s: &mut String)
    ensures
        final(s)@ == Seq::<char>::empty(),
{
    s.zeroize();
}

/// A password held in memory for as short a time as possible.
///
/// `Drop` is not relied on: under `panic = "abort"` destructors never run,
/// so the caller wipes this explicitly on the normal path.
pub struct Secret(String);

impl View for Secret {
    type V = Seq<char>;

    closed spec fn view(&self) -> Seq<char> {
        self.0@
    }
}

impl Secret {
    /// Allocate the buffer, with room for `MAX_CHARS` of any width.
    pub fn new() -> (s: Self)
        ensures
            s@ == Seq::<char>::empty(),
    {
        Secret(empty_with_room(CAPACITY))
    }

    pub fn is_empty(&self) -> (r: bool)
        ensures
            r == (self@.len() == 0),
    {
        self.0.as_str().is_empty()
    }

    /// Mutable access for the input widget to write into.
    pub fn buffer_mut(&mut self) -> (r: &mut String)
        ensures
            r@ == old(self)@,
            final(self)@ == final(r)@,
    {
        &mut self.0
    }

    /// The bytes, for writing straight to a descriptor.
    pub fn as_bytes(&self) -> (r: &[u8])
        ensures
            r@ == encode_utf8(self@),
    {
        self.0.as_str().as_bytes()
    }

    /// Overwrite the contents. Call as soon as the password has been handed
    /// on.
    pub fn wipe(&mut self)
        ensures
            final(self)@ == Seq::<char>::empty(),
    {
        zeroize_string(&mut self.0);
    }
}

/// What is typed is what is handed on: a secret that started empty, as
/// `new` makes it, and then had `written` appended through `buffer_mut`
/// gives back exactly the UTF-8 bytes of `written` from `as_bytes`, and
/// `is_empty` says so exactly when nothing was written.
pub proof fn law_written_text_comes_back(fresh: Secret, filled: Secret, written: Seq<char>)
    requires
        fresh@ == Seq::<char>::empty(),
        filled@ == fresh@ + written,
    ensures
        encode_utf8(filled@) == encode_utf8(written),
        (filled@.len() == 0) == (written.len() == 0),
{
    assert(fresh@ + written =~= written);
}

impl Default for Secret {
    fn default() -> (s: Self)
        ensures
            s@ == Seq::<char>::empty(),
    {
        Self::new()
    }
}

} // verus!
