//! Data of the handshake, datagrams and data of streams.

use crate::frame::{Frame, FrameView};
use crate::packet::Type;
use crate::send::flow::one_more;
use crate::send::packing::{PackFields, Packing, PackingView};
use crate::send::state::{ConnFields, PathFields, SendStats, Sender, SenderView};
use crate::varint::varint_size;
use crate::wire::size_of_varint;
use vstd::prelude::*;

verus! {

/// How much data of the handshake a packet takes, if any: the header of the frame
/// comes first. `overhead` is the room that a CRYPTO frame needs at least.
pub open spec fn crypto_room(
    s: SenderView,
    p: PackingView,
    pid: int,
    flushable: bool,
    offset: u64,
    overhead: usize,
) -> Option<int> {
    let header = 1 + varint_size(offset) + 2;
    if flushable && p.fields.left > overhead && s.local_error is None && s.path(pid).active
        && p.fields.left >= header {
        Some(p.fields.left - header)
    } else {
        None
    }
}

/// The packet with a frame that carries data.
pub open spec fn with_data(p: PackingView, f: FrameView) -> PackingView {
    let (q, ok) = p.push_eliciting(f);
    if ok {
        PackingView { fields: PackFields { has_data: true, ..q.fields }, ..q }
    } else {
        p
    }
}

/// How much data of a stream a packet has room for, if any: the header of the frame
/// comes first.
pub open spec fn stream_room(p: PackingView, stream_id: u64, offset: u64) -> Option<int> {
    let header = 1 + varint_size(stream_id) + varint_size(offset) + 2;
    if p.fields.left >= header {
        Some(p.fields.left - header)
    } else {
        None
    }
}

impl Sender {
    /// How much data of the handshake goes into the packet, if any.
    pub fn room_for_crypto(
        &self,
        pk: &Packing,
        pid: usize,
        flushable: bool,
        offset: u64,
        overhead: usize,
    ) -> (r: Option<usize>)
        requires
            pid < self@.paths.len(),
        ensures
            match crypto_room(self@, pk@, pid as int, flushable, offset, overhead) {
                Some(n) => r matches Some(m) && m == n,
                None => r is None,
            },
    {
        assert(self@.paths[pid as int] == self.paths@[pid as int]@);
        if !flushable || pk.fields.left <= overhead || self.local_error.is_some()
            || !self.paths[pid].fields.active {
            return None;
        }
        let header: usize = 1 + size_of_varint(offset) as usize + 2;
        pk.fields.left.checked_sub(header)
    }
}

/// Records that `length` bytes of the handshake were written into the packet.
pub fn crypto_emitted(pk: &mut Packing, offset: u64, length: usize)
    requires
        old(pk)@.valid(),
    ensures
        final(pk)@.valid(),
        final(pk)@ == with_data(old(pk)@, FrameView::CryptoHeader { offset, length }),
{
    if pk.push_eliciting(Frame::CryptoHeader { offset, length }) {
        pk.fields.has_data = true;
    }
}

/// How much data of a stream goes into the packet, if any.
pub fn room_for_stream(pk: &Packing, stream_id: u64, offset: u64) -> (r: Option<usize>)
    ensures
        match stream_room(pk@, stream_id, offset) {
            Some(n) => r matches Some(m) && m == n,
            None => r is None,
        },
{
    let header: usize = 1 + size_of_varint(stream_id) as usize + size_of_varint(offset) as usize
        + 2;
    pk.fields.left.checked_sub(header)
}

/// Records that `length` bytes of a stream were written into the packet.
pub fn stream_emitted(pk: &mut Packing, stream_id: u64, offset: u64, length: usize, fin: bool)
    requires
        old(pk)@.valid(),
    ensures
        final(pk)@.valid(),
        final(pk)@ == with_data(
            old(pk)@,
            FrameView::StreamHeader { stream_id, offset, length, fin },
        ),
{
    if pk.push_eliciting(Frame::StreamHeader { stream_id, offset, length, fin }) {
        pk.fields.has_data = true;
    }
}

/// Whether a datagram is to be sent: datagrams and streams take turns, and where one
/// has nothing to send it is the other's turn.
pub open spec fn dgram_turn(emit_dgram: bool, dgrams: bool, streams: bool) -> bool {
    dgrams && (emit_dgram || !streams)
}

/// Whether data can go into a packet of the given type on the path at `pid`.
/// `overhead` is the room that its frame needs at least.
pub open spec fn data_allowed(
    s: SenderView,
    p: PackingView,
    pid: int,
    ty: Type,
    overhead: usize,
) -> bool {
    &&& ty == Type::Short || ty == Type::ZeroRTT
    &&& p.fields.left > overhead
    &&& s.local_error is None
    &&& s.path(pid).can_send
}

/// What becomes of the datagram at the front of the queue.
#[derive(Clone, Copy, Debug, PartialEq, Eq, Structural)]
pub enum DgramStep {
    /// It goes into the packet.
    Send,
    /// It will never fit a packet and is dropped.
    Purge,
    /// It waits for the next packet.
    Wait,
}

/// What becomes of a datagram of `len` bytes, where packets take datagrams of up to
/// `max` bytes.
pub open spec fn dgram_step(p: PackingView, len: usize, max: usize) -> DgramStep {
    if (FrameView::DatagramHeader { length: len }).wire_len() <= p.fields.left {
        DgramStep::Send
    } else if len > max {
        DgramStep::Purge
    } else {
        DgramStep::Wait
    }
}

/// Says what becomes of a datagram of `len` bytes.
pub fn next_dgram_step(pk: &Packing, len: usize, max: usize) -> (r: DgramStep)
    ensures
        r == dgram_step(pk@, len, max),
{
    let frame = Frame::DatagramHeader { length: len };
    if frame.wire_len() <= pk.fields.left as u128 {
        DgramStep::Send
    } else if len > max {
        DgramStep::Purge
    } else {
        DgramStep::Wait
    }
}

/// The counts with one more datagram.
pub open spec fn with_dgram(st: SendStats) -> SendStats {
    SendStats { dgram_sent_count: one_more(st.dgram_sent_count), ..st }
}

/// The state once a datagram that goes on the path at `pid` was counted.
pub open spec fn dgram_counted(s: SenderView, pid: int) -> SenderView {
    s.with_path(
        pid,
        PathFields { stats: with_dgram(s.path(pid).stats), ..s.path(pid) },
    ).with_conn(ConnFields { stats: with_dgram(s.conn.stats), ..s.conn })
}

/// The state and the packet once a datagram of `length` bytes was written into it.
pub open spec fn dgram_emitted_stage(s: SenderView, p: PackingView, pid: int, length: usize) -> (
    SenderView,
    PackingView,
) {
    let (q, ok) = p.push_eliciting(FrameView::DatagramHeader { length });
    if ok {
        (
            dgram_counted(s, pid),
            PackingView { fields: PackFields { dgram_emitted: true, ..q.fields }, ..q },
        )
    } else {
        (s, p)
    }
}

impl Sender {
    /// Whether a datagram is to be sent now rather than data of a stream.
    ///
    /// The preference of data-bearing frame to include in a packet is managed by
    /// `emit_dgram`. However, whether any frames can be sent depends on the state of
    /// their buffers. In the case where one type is preferred but its buffer is
    /// empty, fall back to the other type in order not to waste a packet.
    pub fn is_dgram_turn(&self, dgrams: bool, streams: bool) -> (r: bool)
        ensures
            r == dgram_turn(self@.conn.emit_dgram, dgrams, streams),
    {
        let do_stream: bool = !self.conn.emit_dgram && streams;
        (self.conn.emit_dgram && dgrams) || (!do_stream && dgrams)
    }

    /// Whether data can go into a packet of the given type on the path at `pid`.
    pub fn allows_data(&self, pk: &Packing, pid: usize, ty: Type, overhead: usize) -> (r: bool)
        requires
            pid < self@.paths.len(),
        ensures
            r == data_allowed(self@, pk@, pid as int, ty, overhead),
    {
        assert(self@.paths[pid as int] == self.paths@[pid as int]@);
        (ty == Type::Short || ty == Type::ZeroRTT) && pk.fields.left > overhead
            && self.local_error.is_none() && self.paths[pid].fields.can_send
    }

    /// Counts a datagram that goes on the path at `pid`.
    fn count_dgram(&mut self, pid: usize)
        requires
            old(self).wf(),
            pid < old(self)@.paths.len(),
        ensures
            final(self).wf(),
            final(self)@ == dgram_counted(old(self)@, pid as int),
    {
        let mut x: PathFields = self.paths[pid].fields;
        assert(x == self@.path(pid as int));
        x.stats.dgram_sent_count = x.stats.dgram_sent_count.saturating_add(1);
        self.set_path(pid, x);
        let mut c: ConnFields = self.conn;
        c.stats.dgram_sent_count = c.stats.dgram_sent_count.saturating_add(1);
        self.set_conn(c);
    }

    /// Records that a datagram of `length` bytes was written into the packet.
    pub fn dgram_emitted(&mut self, pk: &mut Packing, pid: usize, length: usize)
        requires
            old(self).wf(),
            old(pk)@.valid(),
            pid < old(self)@.paths.len(),
        ensures
            final(self).wf(),
            final(pk)@.valid(),
            (final(self)@, final(pk)@) == dgram_emitted_stage(
                old(self)@,
                old(pk)@,
                pid as int,
                length,
            ),
    {
        if pk.push_eliciting(Frame::DatagramHeader { length }) {
            pk.fields.dgram_emitted = true;
            self.count_dgram(pid);
        }
    }
}

/// What becomes of a stream in the queue of streams to flush once some of its data
/// was sent.
#[derive(Clone, Copy, Debug, PartialEq, Eq, Structural)]
pub enum QueueStep {
    /// It leaves the queue.
    Remove,
    /// It goes to the back of the queue.
    Rotate,
    /// It stays where it is.
    Keep,
}

/// Says what becomes of a stream: it leaves the queue where it has nothing more to
/// send, and an incremental one lets the others go first.
pub fn after_stream(flushable: bool, incremental: bool) -> (r: QueueStep)
    ensures
        r == if !flushable {
            QueueStep::Remove
        } else if incremental {
            QueueStep::Rotate
        } else {
            QueueStep::Keep
        },
{
    if !flushable {
        QueueStep::Remove
    } else if incremental {
        QueueStep::Rotate
    } else {
        QueueStep::Keep
    }
}

/// Data that was written into the room for it always finds its frame's place in the
/// packet, and does not exceed what was left.
pub proof fn law_data_fits_its_room(p: PackingView, stream_id: u64, offset: u64, length: usize, fin: bool)
    requires
        p.valid(),
        stream_room(p, stream_id, offset) matches Some(n) && length <= n,
    ensures
        ({
            let f = FrameView::StreamHeader { stream_id, offset, length, fin };
            &&& p.has_room(f)
            &&& with_data(p, f).fields.has_data
            &&& with_data(p, f).fields.size <= p.fields.size + p.fields.left
        }),
{
}

} // verus!
