//! The list in which retired connection IDs are reported.

use smallvec::SmallVec;
use vstd::prelude::*;

verus! {

/// A list of (sequence number, path) pairs, one for each retired destination
/// connection ID that a path was using. It usually holds one pair at most, and
/// then takes no allocation.
#[verifier::external_body]
pub struct RetiredPathIds {
    inner: SmallVec<[(u64, usize); 1]>,
}

/// The pairs that a list holds, in their order.
pub uninterp spec fn retired_pairs(list: RetiredPathIds) -> Seq<(u64, usize)>;

impl View for RetiredPathIds {
    type V = Seq<(u64, usize)>;

    open spec fn view(&self) -> Seq<(u64, usize)> {
        retired_pairs(*self)
    }
}

/// Calls `SmallVec::new`: the vector it creates has no items.
#[verifier::external_body]
fn small_vec_new() -> (r: RetiredPathIds)
    ensures
        retired_pairs(r) == Seq::<(u64, usize)>::empty(),
{
    RetiredPathIds { inner: SmallVec::new() }
}

/// Calls `SmallVec::push`: the item comes after those that were there.
#[verifier::external_body]
fn small_vec_push(list: &mut RetiredPathIds, item: (u64, usize))
    ensures
        retired_pairs(*final(list)) == retired_pairs(*old(list)).push(item),
{
    list.inner.push(item);
}

/// Calls `SmallVec::as_slice`: the slice holds all the items in their order.
#[verifier::external_body]
fn small_vec_as_slice(list: &RetiredPathIds) -> (r: &[(u64, usize)])
    ensures
        r@ == retired_pairs(*list),
{
    list.inner.as_slice()
}

impl RetiredPathIds {
    /// Creates an empty list.
    pub fn new() -> (r: Self)
        ensures
            r@ == Seq::<(u64, usize)>::empty(),
    {
        small_vec_new()
    }

    /// Adds a pair at the end.
    pub fn push(&mut self, item: (u64, usize))
        ensures
            final(self)@ == old(self)@.push(item),
    {
        small_vec_push(self, item)
    }

    /// The pairs in their order.
    pub fn as_slice(&self) -> (r: &[(u64, usize)])
        ensures
            r@ == self@,
    {
        small_vec_as_slice(self)
    }
}

} // verus!
