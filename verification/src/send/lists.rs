//! Short lists, which take no allocation as long as they hold few items.

use crate::frame::Frame;
use smallvec::SmallVec;
use vstd::prelude::*;

verus! {

/// A list of path IDs or sequence numbers.
#[verifier::external_body]
pub struct IdList {
    inner: SmallVec<[u64; 2]>,
}

/// The numbers that a list holds, in their order.
pub uninterp spec fn listed_ids(list: IdList) -> Seq<u64>;

impl View for IdList {
    type V = Seq<u64>;

    open spec fn view(&self) -> Seq<u64> {
        listed_ids(*self)
    }
}

/// Calls `SmallVec::new`: the vector it creates has no items.
#[verifier::external_body]
fn new_ids() -> (r: IdList)
    ensures
        listed_ids(r) == Seq::<u64>::empty(),
{
    IdList { inner: SmallVec::new() }
}

/// Calls `SmallVec::push`: the item comes after those that were there.
#[verifier::external_body]
fn push_ids(list: &mut IdList, item: u64)
    ensures
        listed_ids(*final(list)) == listed_ids(*old(list)).push(item),
{
    list.inner.push(item);
}

/// Calls `SmallVec::as_slice`: the slice holds all the items in their order.
#[verifier::external_body]
fn slice_of_ids(list: &IdList) -> (r: &[u64])
    ensures
        r@ == listed_ids(*list),
{
    list.inner.as_slice()
}

impl IdList {
    /// Creates an empty list.
    pub fn new() -> (r: Self)
        ensures
            r@ == Seq::<u64>::empty(),
    {
        new_ids()
    }

    /// Adds a number at the end.
    pub fn push(&mut self, item: u64)
        ensures
            final(self)@ == old(self)@.push(item),
    {
        push_ids(self, item)
    }

    /// The numbers in their order.
    pub fn as_slice(&self) -> (r: &[u64])
        ensures
            r@ == self@,
    {
        slice_of_ids(self)
    }
}

/// A list of (path ID, sequence number) pairs.
#[verifier::external_body]
pub struct PairList {
    inner: SmallVec<[(u64, u64); 2]>,
}

/// The pairs that a list holds, in their order.
pub uninterp spec fn listed_pairs(list: PairList) -> Seq<(u64, u64)>;

impl View for PairList {
    type V = Seq<(u64, u64)>;

    open spec fn view(&self) -> Seq<(u64, u64)> {
        listed_pairs(*self)
    }
}

/// Calls `SmallVec::new`: the vector it creates has no items.
#[verifier::external_body]
fn new_pairs() -> (r: PairList)
    ensures
        listed_pairs(r) == Seq::<(u64, u64)>::empty(),
{
    PairList { inner: SmallVec::new() }
}

/// Calls `SmallVec::push`: the item comes after those that were there.
#[verifier::external_body]
fn push_pairs(list: &mut PairList, item: (u64, u64))
    ensures
        listed_pairs(*final(list)) == listed_pairs(*old(list)).push(item),
{
    list.inner.push(item);
}

/// Calls `SmallVec::as_slice`: the slice holds all the items in their order.
#[verifier::external_body]
fn slice_of_pairs(list: &PairList) -> (r: &[(u64, u64)])
    ensures
        r@ == listed_pairs(*list),
{
    list.inner.as_slice()
}

impl PairList {
    /// Creates an empty list.
    pub fn new() -> (r: Self)
        ensures
            r@ == Seq::<(u64, u64)>::empty(),
    {
        new_pairs()
    }

    /// Adds a pair at the end.
    pub fn push(&mut self, item: (u64, u64))
        ensures
            final(self)@ == old(self)@.push(item),
    {
        push_pairs(self, item)
    }

    /// The pairs in their order.
    pub fn as_slice(&self) -> (r: &[(u64, u64)])
        ensures
            r@ == self@,
    {
        slice_of_pairs(self)
    }
}

/// The frames of a packet.
#[verifier::external_body]
pub struct FrameList {
    inner: SmallVec<[Frame; 1]>,
}

/// The frames that a list holds, in their order.
pub uninterp spec fn listed_frames(list: FrameList) -> Seq<Frame>;

impl View for FrameList {
    type V = Seq<Frame>;

    open spec fn view(&self) -> Seq<Frame> {
        listed_frames(*self)
    }
}

/// Calls `SmallVec::new`: the vector it creates has no items.
#[verifier::external_body]
fn new_frames() -> (r: FrameList)
    ensures
        listed_frames(r) == Seq::<Frame>::empty(),
{
    FrameList { inner: SmallVec::new() }
}

/// Calls `SmallVec::push`: the item comes after those that were there.
#[verifier::external_body]
fn push_frames(list: &mut FrameList, item: Frame)
    ensures
        listed_frames(*final(list)) == listed_frames(*old(list)).push(item),
{
    list.inner.push(item);
}

/// Calls `SmallVec::as_slice`: the slice holds all the items in their order.
#[verifier::external_body]
fn slice_of_frames(list: &FrameList) -> (r: &[Frame])
    ensures
        r@ == listed_frames(*list),
{
    list.inner.as_slice()
}

impl FrameList {
    /// Creates an empty list.
    pub fn new() -> (r: Self)
        ensures
            r@ == Seq::<Frame>::empty(),
    {
        new_frames()
    }

    /// Adds a frame at the end.
    pub fn push(&mut self, item: Frame)
        ensures
            final(self)@ == old(self)@.push(item),
    {
        push_frames(self, item)
    }

    /// The frames in their order.
    pub fn as_slice(&self) -> (r: &[Frame])
        ensures
            r@ == self@,
    {
        slice_of_frames(self)
    }
}

} // verus!
