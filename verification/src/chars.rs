//! Facts about vectors of characters.
use vstd::prelude::*;

verus! {

/// A `Vec<char>`'s deep view is its view.
pub broadcast proof fn lemma_deep_view_chars(v: Vec<char>)
    ensures
        #[trigger] v.deep_view() == v@,
{
    assert(v.deep_view() =~= v@);
}


/// A `Vec<u8>`'s deep view is its view.
pub broadcast proof fn lemma_deep_view_bytes(v: Vec<u8>)
    ensures
        #[trigger] v.deep_view() == v@,
{
    assert(v.deep_view() =~= v@);
}

} // verus!
