//! Probing a path: its MTU and its reachability.

use crate::error::Error;
use crate::frame::{Frame, FrameView};
use crate::send::packing::{PackFields, Packing, PackingView};
use std::collections::VecDeque;
use vstd::prelude::*;

verus! {

/// The packet as a probe of a path MTU of `size` bytes: it is filled up to that
/// size with padding, whatever room it had. `None` where the size does not even
/// suffice for the overhead.
pub open spec fn pmtu_probe(p: PackingView, size: usize, overhead: usize) -> Option<PackingView> {
    if size < overhead {
        None
    } else {
        let room = (size - overhead) as usize;
        let padding = FrameView::Padding { len: (room - 1) as usize };
        let ping = FrameView::Ping { mtu_probe: Some(size) };
        let q = p.with_left(room).with(padding).with(ping).eliciting();
        Some(PackingView { fields: PackFields { is_pmtud_probe: true, ..q.fields }, ..q })
    }
}

/// Makes the packet a probe of the path MTU.
///
/// The room of the packet, which was limited by the current estimate of the MTU,
/// is ignored.
pub fn add_pmtu_probe(pk: &mut Packing, size: usize, overhead: usize) -> (r: Result<(), Error>)
    requires
        old(pk)@.valid(),
        size != overhead,
        size > overhead ==> old(pk)@.fields.size + (size - overhead) <= usize::MAX,
    ensures
        final(pk)@.valid(),
        match pmtu_probe(old(pk)@, size, overhead) {
            Some(p) => r == Ok::<(), Error>(()) && final(pk)@ == p,
            None => r == Err::<(), Error>(Error::Done) && final(pk)@ == old(pk)@,
        },
{
    if size < overhead {
        return Err(Error::Done);
    }
    let room: usize = size - overhead;
    pk.fields.left = room;
    if pk.push(Frame::Padding { len: room - 1 }) {
        pk.push_eliciting(Frame::Ping { mtu_probe: Some(size) });
    }
    // There is one packet with a probe in a flight.
    pk.fields.is_pmtud_probe = true;
    Ok(())
}

/// The packet with PATH_RESPONSE frames for the challenges, and the challenges that
/// are left: where one finds no room, it is dropped and those after it are kept.
pub open spec fn path_responses(p: PackingView, challenges: Seq<[u8; 8]>) -> (
    PackingView,
    Seq<[u8; 8]>,
)
    decreases challenges.len(),
{
    if challenges.len() == 0 {
        (p, challenges)
    } else {
        let f = FrameView::PathResponse { data: challenges[0]@ };
        let rest = challenges.skip(1);
        if p.has_room(f) {
            path_responses(p.with(f).eliciting(), rest)
        } else {
            (p, rest)
        }
    }
}

/// Creates PATH_RESPONSE frames. We do not try to ensure that these are really
/// sent.
pub fn add_path_responses(pk: &mut Packing, challenges: &mut VecDeque<[u8; 8]>)
    requires
        old(pk)@.valid(),
    ensures
        final(pk)@.valid(),
        (final(pk)@, final(challenges)@) == path_responses(old(pk)@, old(challenges)@),
{
    let ghost goal = path_responses(pk@, challenges@);
    while challenges.len() > 0
        invariant
            pk@.valid(),
            goal == path_responses(pk@, challenges@),
            goal == path_responses(old(pk)@, old(challenges)@),
        decreases challenges@.len(),
    {
        let ghost before = challenges@;
        if let Some(data) = challenges.pop_front() {
            assert(data == before[0]);
            assert(challenges@ =~= before.skip(1));
            if !pk.push_eliciting(Frame::PathResponse { data }) {
                // If there are other pending PATH_RESPONSE, don't lose them now.
                return;
            }
        }
    }
}

/// Creates a PATH_CHALLENGE frame where validation of the path was requested, and
/// says whether it found room.
pub fn add_path_challenge(pk: &mut Packing, requested: bool, data: [u8; 8]) -> (r: bool)
    requires
        old(pk)@.valid(),
    ensures
        final(pk)@.valid(),
        (final(pk)@, r) == if requested {
            old(pk)@.push_eliciting(FrameView::PathChallenge { data: data@ })
        } else {
            (old(pk)@, false)
        },
{
    if requested {
        pk.push_eliciting(Frame::PathChallenge { data })
    } else {
        false
    }
}

/// A probe of the path MTU fills its packet to the probed size.
pub proof fn law_pmtu_probe_fills_packet(p: PackingView, size: usize, overhead: usize)
    requires
        p.valid(),
        size > overhead,
        p.fields.size + (size - overhead) <= usize::MAX,
    ensures
        pmtu_probe(p, size, overhead) matches Some(q) && q.fields.left == 0 && q.fields.size
            == p.fields.size + (size - overhead) && q.fields.ack_eliciting,
{
}

} // verus!
