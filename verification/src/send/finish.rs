//! Finishing a packet and recording that it was sent.

use crate::buffer::{put_two_byte_varint_at, sink_at};
use crate::error::Error;
use crate::frame::{Frame, FrameView};
use crate::packet::Type;
use crate::send::begin::PAYLOAD_MIN_LEN;
use crate::send::packing::{PackFields, Packing, PackingView};
use crate::send::state::{ConnFields, PathFields, SendStats, Sender, SenderView, Timers};
use crate::varint::{lemma_two_byte_roundtrip, two_byte_varint, varint_at};
use vstd::prelude::*;

verus! {

/// What finishing a packet depends on besides the state.
#[derive(Clone, Copy, Debug)]
pub struct FinishInputs {
    /// The type of the packet.
    pub ty: Type,
    /// Whether an Initial packet was already written to the datagram.
    pub has_initial: bool,
    /// Whether an acknowledgement has to be elicited.
    pub elicit_required: bool,
    /// The congestion window space for the payload of the packet.
    pub cwnd_available: usize,
    /// The room that a STREAM frame needs at least.
    pub stream_overhead: usize,
}

/// What remains to be done once a packet is finished.
#[derive(Clone, Copy, Debug, PartialEq, Eq, Structural)]
pub struct Finished {
    /// Whether the recovery is told that an ack-eliciting packet is sent.
    pub ping_sent: bool,
    /// Whether the recovery is told that the application limits what is sent.
    pub app_limited: bool,
    /// Whether the packet has no frames and is not sent.
    pub is_empty: bool,
}

/// The packet with a PING frame where an acknowledgement is to be elicited and
/// nothing else does.
#[verifier::opaque]
pub open spec fn with_ping(s: SenderView, p: PackingView, pid: int, a: FinishInputs) -> PackingView {
    if (a.elicit_required || s.path(pid).needs_ack_eliciting) && !p.fields.ack_eliciting
        && s.local_error is None {
        p.push_eliciting(FrameView::Ping { mtu_probe: None }).0
    } else {
        p
    }
}

/// The packet marked as in flight where padding was added.
pub open spec fn push_padding(p: PackingView, len: usize) -> PackingView {
    let (q, ok) = p.push(FrameView::Padding { len });
    if ok {
        PackingView { fields: PackFields { in_flight: true, ..q.fields }, ..q }
    } else {
        q
    }
}

/// The packet padded: to its full size where an Initial packet precedes it or the
/// path is not validated, and to the least number of bytes of a payload.
#[verifier::opaque]
pub open spec fn padded(s: SenderView, p: PackingView, pid: int, a: FinishInputs) -> PackingView {
    let q = if (a.has_initial || !s.path(pid).validated) && a.ty == Type::Short && p.fields.left
        >= 1 {
        push_padding(p, p.fields.left)
    } else {
        p
    };
    if q.fields.size < PAYLOAD_MIN_LEN {
        push_padding(q, (PAYLOAD_MIN_LEN - q.fields.size) as usize)
    } else {
        q
    }
}

/// The state once a packet is finished: datagrams and streams take turns, and an
/// ack-eliciting packet was not asked for anymore once there is one.
#[verifier::opaque]
pub open spec fn finished_state(s: SenderView, pid: int, dgram_emitted: bool, ping_sent: bool) -> SenderView {
    let t = s.with_conn(ConnFields { emit_dgram: !dgram_emitted, ..s.conn });
    if ping_sent {
        t.with_path(pid, PathFields { needs_ack_eliciting: false, ..s.path(pid) })
    } else {
        t
    }
}

/// The state, the packet and what remains to be done once the packet is finished. A
/// packet without frames is not padded.
pub open spec fn finish_stage(s: SenderView, p: PackingView, pid: int, a: FinishInputs) -> (
    SenderView,
    PackingView,
    Finished,
) {
    let q = with_ping(s, p, pid, a);
    let ping_sent = q.fields.ack_eliciting && !q.fields.is_pmtud_probe;
    let app_limited = !q.fields.has_data && !q.fields.dgram_emitted && a.cwnd_available
        > a.stream_overhead;
    let is_empty = q.frames.len() == 0;
    (
        finished_state(s, pid, q.fields.dgram_emitted, ping_sent),
        if is_empty {
            q
        } else {
            padded(s, q, pid, a)
        },
        Finished { ping_sent, app_limited, is_empty },
    )
}

/// Adds padding where it finds room.
fn add_padding(pk: &mut Packing, len: usize)
    requires
        old(pk)@.valid(),
    ensures
        final(pk)@.valid(),
        final(pk)@ == push_padding(old(pk)@, len),
{
    if pk.push(Frame::Padding { len }) {
        pk.fields.in_flight = true;
    }
}

impl Sender {
    /// Adds a PING frame if no other ack-eliciting frame is sent
    /// - if PTO probe needed; OR
    /// - if we've sent too many non ack-eliciting packets without having sent an ACK
    ///   eliciting one; OR
    /// - the application requested an ack-eliciting frame be sent.
    fn add_ping(&self, pk: &mut Packing, pid: usize, a: FinishInputs)
        requires
            old(pk)@.valid(),
            pid < self@.paths.len(),
        ensures
            final(pk)@.valid(),
            final(pk)@ == with_ping(self@, old(pk)@, pid as int, a),
    {
        proof {
            reveal(with_ping);
        }
        assert(self@.paths[pid as int] == self.paths@[pid as int]@);
        if (a.elicit_required || self.paths[pid].fields.needs_ack_eliciting)
            && !pk.fields.ack_eliciting && self.local_error.is_none() {
            pk.push_eliciting(Frame::Ping { mtu_probe: None });
        }
    }

    /// Pads the packet.
    ///
    /// When coalescing a 1-RTT packet, we can't add padding in the UDP datagram, so
    /// use PADDING frames instead. This is only needed if an Initial packet has
    /// already been written to the UDP datagram, as Initial always requires padding,
    /// or if this is a probing packet towards an unvalidated peer address.
    fn pad(&self, pk: &mut Packing, pid: usize, a: FinishInputs)
        requires
            old(pk)@.valid(),
            pid < self@.paths.len(),
        ensures
            final(pk)@.valid(),
            final(pk)@ == padded(self@, old(pk)@, pid as int, a),
    {
        proof {
            reveal(padded);
        }
        assert(self@.paths[pid as int] == self.paths@[pid as int]@);
        if (a.has_initial || !self.paths[pid].fields.validated) && a.ty == Type::Short
            && pk.fields.left >= 1 {
            let len: usize = pk.fields.left;
            add_padding(pk, len);
        }
        // Pad payload so that it's always at least 4 bytes.
        if pk.fields.size < PAYLOAD_MIN_LEN {
            let len: usize = PAYLOAD_MIN_LEN - pk.fields.size;
            add_padding(pk, len);
        }
    }

    /// Records what a finished packet changes.
    fn note_finished(&mut self, pid: usize, dgram_emitted: bool, ping_sent: bool)
        requires
            old(self).wf(),
            pid < old(self)@.paths.len(),
        ensures
            final(self).wf(),
            final(self)@ == finished_state(old(self)@, pid as int, dgram_emitted, ping_sent),
    {
        proof {
            reveal(finished_state);
        }
        let mut x: PathFields = self.paths[pid].fields;
        assert(x == self@.path(pid as int));
        // Alternate trying to send DATAGRAMs next time.
        let mut c: ConnFields = self.conn;
        c.emit_dgram = !dgram_emitted;
        self.set_conn(c);
        if ping_sent {
            x.needs_ack_eliciting = false;
            self.set_path(pid, x);
        }
    }

    /// Finishes the packet, and says what remains to be done.
    pub fn finish_packet(&mut self, pk: &mut Packing, pid: usize, a: FinishInputs) -> (r: Finished)
        requires
            old(self).wf(),
            old(pk)@.valid(),
            pid < old(self)@.paths.len(),
        ensures
            final(self).wf(),
            final(pk)@.valid(),
            (final(self)@, final(pk)@, r) == finish_stage(old(self)@, old(pk)@, pid as int, a),
    {
        self.add_ping(pk, pid, a);
        let ping_sent: bool = pk.fields.ack_eliciting && !pk.fields.is_pmtud_probe;
        let app_limited: bool = !pk.fields.has_data && !pk.fields.dgram_emitted && a.cwnd_available
            > a.stream_overhead;
        let is_empty: bool = pk.frames.as_slice().len() == 0;
        let dgram_emitted: bool = pk.fields.dgram_emitted;
        if !is_empty {
            self.pad(pk, pid, a);
        }
        self.note_finished(pid, dgram_emitted, ping_sent);
        Finished { ping_sent, app_limited, is_empty }
    }
}

/// A packet with the two bytes of its length field, at `off`, filled in: the length
/// of what follows the field.
pub open spec fn with_length(buf: Seq<u8>, off: int, len: u64) -> Seq<u8> {
    buf.take(off) + two_byte_varint(len) + buf.skip(off + 2)
}

/// Fills in the length of a long header packet, which covers the packet number, the
/// payload and what encryption adds. `BufferTooShort` comes where there is no room
/// for the field.
pub fn fill_length(
    buf: &mut [u8],
    off: usize,
    pn_len: usize,
    payload_len: usize,
    crypto_overhead: usize,
) -> (r: Result<(), Error>)
    requires
        pn_len + payload_len + crypto_overhead <= usize::MAX,
    ensures
        if off + 2 <= old(buf)@.len() {
            r == Ok::<(), Error>(()) && final(buf)@ == with_length(
                old(buf)@,
                off as int,
                (pn_len + payload_len + crypto_overhead) as u64,
            )
        } else {
            r == Err::<(), Error>(Error::BufferTooShort) && final(buf)@ == old(buf)@
        },
{
    let len: usize = pn_len + payload_len + crypto_overhead;
    match put_two_byte_varint_at(buf, off, len as u64) {
        Ok(n) => {
            proof {
                let was = old(buf)@;
                let written = sink_at(was, off as int).done + two_byte_varint(len as u64);
                assert(buf@ =~= buf@.take(n as int) + buf@.skip(n as int));
                assert(was.skip(off as int).skip(2) =~= was.skip(off + 2));
                assert(buf@.take(n as int) == written);
            }
            Ok(())
        },
        Err(_) => Err(Error::BufferTooShort),
    }
}

/// A reader finds the length in the field, where two bytes can hold it.
pub proof fn law_length_is_read_back(buf: Seq<u8>, off: int, len: u64)
    requires
        0 <= off,
        off + 2 <= buf.len(),
        len < 0x4000,
    ensures
        varint_at(with_length(buf, off, len).skip(off)) == Some((len, 2nat)),
{
    let rest = buf.skip(off + 2);
    lemma_two_byte_roundtrip(len, rest);
    assert(with_length(buf, off, len).skip(off) =~= two_byte_varint(len) + rest);
}

/// What the recovery is told of a packet that was sent.
#[derive(Clone, Copy, Debug, PartialEq, Eq, Structural)]
pub struct SentInfo {
    /// Its size as far as it is congestion controlled.
    pub size: usize,
    /// Whether it elicits an acknowledgement.
    pub ack_eliciting: bool,
    /// Whether it is in flight.
    pub in_flight: bool,
    /// Whether it carries data.
    pub has_data: bool,
    /// Whether it probes the path MTU.
    pub is_pmtud_probe: bool,
}

/// What the recovery is told of a packet of `written` bytes. Datagrams count as data
/// where `dgrams_count` says so.
pub fn sent_info(pk: &Packing, written: usize, dgrams_count: bool) -> (r: SentInfo)
    ensures
        r == (SentInfo {
            size: if pk@.fields.ack_eliciting {
                written
            } else {
                0
            },
            ack_eliciting: pk@.fields.ack_eliciting,
            in_flight: pk@.fields.in_flight,
            has_data: pk@.fields.has_data || (dgrams_count && pk@.fields.dgram_emitted),
            is_pmtud_probe: pk@.fields.is_pmtud_probe,
        }),
{
    SentInfo {
        size: if pk.fields.ack_eliciting {
            written
        } else {
            0
        },
        ack_eliciting: pk.fields.ack_eliciting,
        in_flight: pk.fields.in_flight,
        has_data: pk.fields.has_data || (dgrams_count && pk.fields.dgram_emitted),
        is_pmtud_probe: pk.fields.is_pmtud_probe,
    }
}

/// Whether the rate of delivery is told that the application limits it, once the
/// packet was sent: the application does, and the packet is in flight.
pub fn limits_delivery(pk: &Packing, is_app_limited: bool) -> (r: bool)
    ensures
        r == (pk@.fields.in_flight && is_app_limited),
{
    pk.fields.in_flight && is_app_limited
}

/// Whether more datagrams are queued than the congestion window has space for: then
/// it is not the application that limits what is sent.
pub fn dgrams_fill_window(queued: usize, cwnd_available: usize) -> (r: bool)
    ensures
        r == (queued > cwnd_available),
{
    queued > cwnd_available
}

impl SendStats {
    /// Whether a packet of `written` bytes can be counted.
    pub open spec fn can_count_packet(self, written: usize) -> bool {
        self.sent_count < u64::MAX && self.sent_bytes + written <= u64::MAX
    }

    /// The counts with a packet of `written` bytes.
    pub open spec fn with_packet(self, written: usize) -> SendStats {
        SendStats {
            sent_count: (self.sent_count + 1) as u64,
            sent_bytes: (self.sent_bytes + written) as u64,
            ..self
        }
    }
}

/// What is known of a path once a packet of `written` bytes was sent on it.
pub open spec fn path_sent(x: PathFields, written: usize) -> PathFields {
    PathFields {
        stats: x.stats.with_packet(written),
        max_send_bytes: if x.max_send_bytes >= written {
            (x.max_send_bytes - written) as usize
        } else {
            0
        },
        ..x
    }
}

/// What is known of a connection once the number of a packet was used up, where it
/// is one of the shared space.
pub open spec fn number_used(c: ConnFields, path_number: bool) -> ConnFields {
    if path_number {
        c
    } else {
        ConnFields { next_pkt_num: (c.next_pkt_num + 1) as u64, ..c }
    }
}

/// What is known of a connection once a packet of `written` bytes was sent: it is
/// counted, and the idle timer is restarted by the first ack-eliciting packet since
/// one was received.
pub open spec fn conn_sent(
    c: ConnFields,
    ack_eliciting: bool,
    written: usize,
    now: u128,
    idle_timeout: Option<u128>,
) -> ConnFields {
    ConnFields {
        stats: c.stats.with_packet(written),
        timers: Timers {
            idle: match idle_timeout {
                Some(d) if ack_eliciting && !c.ack_eliciting_sent => Some((now + d) as u128),
                _ => c.timers.idle,
            },
            ..c.timers
        },
        ack_eliciting_sent: c.ack_eliciting_sent || ack_eliciting,
        ..c
    }
}

/// The state once a packet of `written` bytes was sent on the path at `pid`.
pub open spec fn sent_stage(
    s: SenderView,
    p: PackingView,
    pid: int,
    written: usize,
    now: u128,
    idle_timeout: Option<u128>,
) -> SenderView {
    s.with_path(pid, path_sent(s.path(pid), written)).with_conn(
        conn_sent(s.conn, p.fields.ack_eliciting, written, now, idle_timeout),
    )
}

/// Counts a packet.
fn count_packet(stats: &mut SendStats, written: usize)
    requires
        old(stats).can_count_packet(written),
    ensures
        *final(stats) == old(stats).with_packet(written),
{
    stats.sent_count = stats.sent_count + 1;
    stats.sent_bytes = stats.sent_bytes + written as u64;
}

/// Records on a path that a packet was sent.
fn note_path_sent(x: &mut PathFields, written: usize)
    requires
        old(x).stats.can_count_packet(written),
    ensures
        *final(x) == path_sent(*old(x), written),
{
    count_packet(&mut x.stats, written);
    x.max_send_bytes = x.max_send_bytes.saturating_sub(written);
}

/// Records on a connection that a packet was sent.
fn note_conn_sent(
    c: &mut ConnFields,
    ack_eliciting: bool,
    written: usize,
    now: u128,
    idle_timeout: Option<u128>,
)
    requires
        old(c).stats.can_count_packet(written),
        idle_timeout matches Some(d) ==> now + d <= u128::MAX,
    ensures
        *final(c) == conn_sent(*old(c), ack_eliciting, written, now, idle_timeout),
{
    count_packet(&mut c.stats, written);
    // (Re)start the idle timer if we are sending the first ack-eliciting packet
    // since last receiving a packet.
    if ack_eliciting && !c.ack_eliciting_sent {
        if let Some(d) = idle_timeout {
            c.timers.idle = Some(now + d);
        }
    }
    if ack_eliciting {
        c.ack_eliciting_sent = true;
    }
}

impl Sender {
    /// Uses up the number of a packet that is about to be handed to the recovery.
    pub fn use_number(&mut self, path_number: bool)
        requires
            old(self).wf(),
            !path_number ==> old(self)@.conn.next_pkt_num < u64::MAX,
        ensures
            final(self).wf(),
            final(self)@ == old(self)@.with_conn(number_used(old(self)@.conn, path_number)),
    {
        // Only advance the shared packet number counter when we are NOT using the
        // per-path counter (which was already incremented).
        if !path_number {
            let mut c: ConnFields = self.conn;
            c.next_pkt_num = c.next_pkt_num + 1;
            self.set_conn(c);
        }
    }

    /// Records that the packet was sent with `written` bytes on the path at `pid`.
    pub fn packet_sent(
        &mut self,
        pk: &Packing,
        pid: usize,
        written: usize,
        now: u128,
        idle_timeout: Option<u128>,
    )
        requires
            old(self).wf(),
            pid < old(self)@.paths.len(),
            old(self)@.conn.stats.can_count_packet(written),
            old(self)@.path(pid as int).stats.can_count_packet(written),
            idle_timeout matches Some(d) ==> now + d <= u128::MAX,
        ensures
            final(self).wf(),
            final(self)@ == sent_stage(
                old(self)@,
                pk@,
                pid as int,
                written,
                now,
                idle_timeout,
            ),
    {
        let mut x: PathFields = self.paths[pid].fields;
        assert(x == self@.path(pid as int));
        note_path_sent(&mut x, written);
        self.set_path(pid, x);
        let mut c: ConnFields = self.conn;
        note_conn_sent(&mut c, pk.fields.ack_eliciting, written, now, idle_timeout);
        self.set_conn(c);
    }

    /// Whether the state of the Initial packet number space is dropped: a client
    /// does so after sending a Handshake packet.
    pub fn drops_initial_state(&self, ty: Type) -> (r: bool)
        ensures
            r == (!self@.conn.config.is_server && ty == Type::Handshake),
    {
        !self.conn.config.is_server && ty == Type::Handshake
    }
}

} // verus!
