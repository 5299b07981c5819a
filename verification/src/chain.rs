//! The ancestor chain used by cycle-safe indirect-reference resolution,
//! backed by a small vector so that shallow chains stay on the stack.
//!
//! The chain holds `(object number, generation)` pairs. Its contents are
//! named by the trusted spec function [`chain_view`]; the wrappers below
//! relate every operation to that name.

use vstd::prelude::*;
use smallvec::SmallVec;

verus! {

/// An ordered sequence of `(object number, generation)` pairs, kept inline
/// for the shallow chains that well-formed documents produce.
#[verifier::external_body]
pub struct AncestorChain {
    items: SmallVec<[(u64, u64); 4]>,
}

/// The items of an ancestor chain, oldest first: the contents of the
/// backing small vector.
pub uninterp spec fn chain_view(v: AncestorChain) -> Seq<(u64, u64)>;

/// Relies on smallvec::SmallVec::new: a freshly created vector is empty.
#[verifier::external_body]
pub(crate) fn chain_new() -> (r: AncestorChain)
    ensures
        chain_view(r) == Seq::<(u64, u64)>::empty(),
{
    AncestorChain { items: SmallVec::new() }
}

/// Relies on smallvec::SmallVec::push: appends the item at the back and
/// keeps the items before it.
#[verifier::external_body]
pub(crate) fn chain_push(v: &mut AncestorChain, item: (u64, u64))
    ensures
        chain_view(*final(v)) == chain_view(*old(v)).push(item),
{
    v.items.push(item)
}

/// Relies on smallvec::SmallVec::len: the number of items held.
#[verifier::external_body]
pub(crate) fn chain_len(v: &AncestorChain) -> (r: usize)
    ensures
        r == chain_view(*v).len(),
{
    v.items.len()
}

/// Relies on the slice indexing that smallvec::SmallVec derefs to: the
/// item at position `i`.
#[verifier::external_body]
pub(crate) fn chain_get(v: &AncestorChain, i: usize) -> (r: (u64, u64))
    requires
        i < chain_view(*v).len(),
    ensures
        r == chain_view(*v)[i as int],
{
    v.items[i]
}

/// Relies on smallvec::SmallVec::clone: an independent vector with the
/// same items.
#[verifier::external_body]
pub(crate) fn chain_clone(v: &AncestorChain) -> (r: AncestorChain)
    ensures
        chain_view(r) == chain_view(*v),
{
    AncestorChain { items: v.items.clone() }
}

} // verus!
