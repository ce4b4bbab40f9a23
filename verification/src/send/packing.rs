//! A packet that is being filled with frames.

use crate::frame::{Frame, FrameView};
use crate::send::lists::FrameList;
use vstd::prelude::*;

verus! {

/// What is known of a packet apart from its frames.
#[derive(Clone, Copy, Debug, PartialEq, Eq, Structural)]
pub struct PackFields {
    /// The number of bytes that can still be written.
    pub left: usize,
    /// The number of bytes that the frames take.
    pub size: usize,
    /// Whether the packet elicits an acknowledgement.
    pub ack_eliciting: bool,
    /// Whether the packet counts towards the bytes in flight.
    pub in_flight: bool,
    /// Whether the packet carries data of a stream.
    pub has_data: bool,
    /// Whether the packet carries a datagram.
    pub dgram_emitted: bool,
    /// Whether the packet probes the path MTU.
    pub is_pmtud_probe: bool,
}

/// A packet that is being filled with frames.
pub struct Packing {
    /// What is known of it apart from its frames.
    pub fields: PackFields,
    /// Its frames, in their order.
    pub frames: FrameList,
}

/// What a packet holds.
pub struct PackingView {
    /// What is known of it apart from its frames.
    pub fields: PackFields,
    /// Its frames, in their order.
    pub frames: Seq<FrameView>,
}

/// The frames of a sequence, each by what it holds.
pub open spec fn frame_views(fs: Seq<Frame>) -> Seq<FrameView> {
    fs.map_values(|f: Frame| f@)
}

impl View for Packing {
    type V = PackingView;

    open spec fn view(&self) -> PackingView {
        PackingView { fields: self.fields, frames: frame_views(self.frames@) }
    }
}

impl PackingView {
    /// The bytes that are written and those that can still be add up to a number
    /// of bytes.
    pub open spec fn valid(self) -> bool {
        self.fields.size + self.fields.left <= usize::MAX
    }

    /// Whether there is room for a frame.
    pub open spec fn has_room(self, f: FrameView) -> bool {
        f.wire_len() <= self.fields.left
    }

    /// The packet with a frame added.
    pub open spec fn with(self, f: FrameView) -> PackingView {
        PackingView {
            fields: PackFields {
                left: (self.fields.left - f.wire_len()) as usize,
                size: (self.fields.size + f.wire_len()) as usize,
                ..self.fields
            },
            frames: self.frames.push(f),
        }
    }

    /// The packet marked as eliciting an acknowledgement and in flight.
    pub open spec fn eliciting(self) -> PackingView {
        PackingView {
            fields: PackFields { ack_eliciting: true, in_flight: true, ..self.fields },
            ..self
        }
    }

    /// The packet once a frame was added where there is room for it, and whether
    /// there was.
    pub open spec fn push(self, f: FrameView) -> (PackingView, bool) {
        if self.has_room(f) {
            (self.with(f), true)
        } else {
            (self, false)
        }
    }

    /// The packet once a frame that elicits an acknowledgement was added where
    /// there is room for it, and whether there was.
    pub open spec fn push_eliciting(self, f: FrameView) -> (PackingView, bool) {
        if self.has_room(f) {
            (self.with(f).eliciting(), true)
        } else {
            (self, false)
        }
    }

    /// The packet with another room limit.
    pub open spec fn with_left(self, left: usize) -> PackingView {
        PackingView { fields: PackFields { left, ..self.fields }, ..self }
    }
}

impl Packing {
    /// A packet without frames that has room for `left` bytes.
    pub fn new(left: usize) -> (r: Self)
        ensures
            r@.valid(),
            r@ == (PackingView {
                fields: PackFields {
                    left,
                    size: 0,
                    ack_eliciting: false,
                    in_flight: false,
                    has_data: false,
                    dgram_emitted: false,
                    is_pmtud_probe: false,
                },
                frames: Seq::empty(),
            }),
    {
        let r = Packing {
            fields: PackFields {
                left,
                size: 0,
                ack_eliciting: false,
                in_flight: false,
                has_data: false,
                dgram_emitted: false,
                is_pmtud_probe: false,
            },
            frames: FrameList::new(),
        };
        assert(r@.frames =~= Seq::empty());
        r
    }

    /// Adds a frame where there is room for it, and says whether there was.
    pub fn push(&mut self, frame: Frame) -> (r: bool)
        requires
            old(self)@.valid(),
            frame@.valid(),
        ensures
            final(self)@.valid(),
            (final(self)@, r) == old(self)@.push(frame@),
    {
        let len: u128 = frame.wire_len();
        if len > self.fields.left as u128 {
            return false;
        }
        let n: usize = len as usize;
        self.fields.left = self.fields.left - n;
        self.fields.size = self.fields.size + n;
        self.frames.push(frame);
        assert(self@.frames =~= old(self)@.frames.push(frame@));
        true
    }

    /// Adds a frame that elicits an acknowledgement where there is room for it,
    /// and says whether there was.
    pub fn push_eliciting(&mut self, frame: Frame) -> (r: bool)
        requires
            old(self)@.valid(),
            frame@.valid(),
        ensures
            final(self)@.valid(),
            (final(self)@, r) == old(self)@.push_eliciting(frame@),
    {
        if self.push(frame) {
            self.fields.ack_eliciting = true;
            self.fields.in_flight = true;
            true
        } else {
            false
        }
    }
}

/// The bytes that frames take.
pub open spec fn total_len(fs: Seq<FrameView>) -> nat
    decreases fs.len(),
{
    if fs.len() == 0 {
        0
    } else {
        total_len(fs.drop_last()) + fs.last().wire_len()
    }
}

/// Adding a frame takes exactly its bytes from the room that is left, whether it
/// elicits an acknowledgement or not: what is left and what is written add up to
/// what they did before.
pub proof fn law_room_is_accounted(p: PackingView, f: FrameView)
    requires
        p.valid(),
        p.fields.size == total_len(p.frames),
    ensures
        p.push(f).0.fields.size == total_len(p.push(f).0.frames),
        p.push(f).0.fields.size + p.push(f).0.fields.left == p.fields.size + p.fields.left,
        p.push_eliciting(f).0.fields.size == total_len(p.push_eliciting(f).0.frames),
        p.push_eliciting(f).0.fields.size + p.push_eliciting(f).0.fields.left == p.fields.size
            + p.fields.left,
{
    assert(p.frames.push(f).drop_last() =~= p.frames);
}

} // verus!
