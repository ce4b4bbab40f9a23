//! What the other frames of a packet are for, and what is recorded of a packet.

use crate::cid::entries::EntryView;
use crate::error::Error;
use crate::frame::FrameView;
use crate::packet::Type;
use crate::send::assembly::begun;
use crate::send::begin::{numbered, packet_cids};
use crate::send::data::{
    crypto_room, data_allowed, dgram_emitted_stage, dgram_step, dgram_turn, stream_room, with_data,
    DgramStep,
};
use crate::send::finish::{
    finish_stage, finished_state, number_used, padded, push_padding, sent_stage, with_ping,
    FinishInputs,
};
use crate::send::flow::{
    close_stage, data_blocked_stage, handshake_done_stage, max_data_stage, max_streams_bidi_stage,
    max_streams_uni_stage, stream_data_blocked_stage,
};
use crate::send::packing::PackingView;
use crate::send::path_laws::{extends, lemma_added_one, lemma_added_stays, was_added};
use crate::send::plan::{
    after_validation, planned, single, stream_allowed, stream_limits_stage, PlanInputs, PlanView,
    Stage,
};
use crate::send::probes::{path_responses, pmtu_probe};
use crate::send::state::{
    ConnFields, FlowState, HandshakeDone, PathFields, SendStats, SenderView, Timers,
};
use vstd::prelude::*;

verus! {

/// Whether a frame that is wanted was added where it finds room: it takes its bytes from
/// the room, and the packet elicits an acknowledgement and is in flight then. Where it is
/// not wanted or finds no room the packet stays as it is.
pub open spec fn offered(p: PackingView, q: PackingView, f: FrameView, wanted: bool) -> bool {
    if wanted && f.wire_len() <= p.fields.left {
        &&& q.frames == p.frames.push(f)
        &&& q.fields.left == p.fields.left - f.wire_len()
        &&& q.fields.size == p.fields.size + f.wire_len()
        &&& q.fields.ack_eliciting
        &&& q.fields.in_flight
        &&& q.fields.has_data == p.fields.has_data
        &&& q.fields.dgram_emitted == p.fields.dgram_emitted
        &&& q.fields.is_pmtud_probe == p.fields.is_pmtud_probe
    } else {
        q == p
    }
}

/// A frame is added exactly where its bytes find room, and takes just them.
pub proof fn law_frame_is_added_where_it_fits(p: PackingView, f: FrameView)
    requires
        p.valid(),
    ensures
        p.push_eliciting(f).1 == (f.wire_len() <= p.fields.left),
        offered(p, p.push_eliciting(f).0, f, true),
        p.push(f).1 == (f.wire_len() <= p.fields.left),
        p.push(f).0.fields.ack_eliciting == p.fields.ack_eliciting,
        p.push(f).0.fields.in_flight == p.fields.in_flight,
        p.push(f).0.frames == if f.wire_len() <= p.fields.left {
            p.frames.push(f)
        } else {
            p.frames
        },
{
}

/// HANDSHAKE_DONE is sent by a server whose handshake completed, once.
pub proof fn law_handshake_done_is_sent_once(c: ConnFields, p: PackingView)
    requires
        p.valid(),
    ensures
        ({
            let (d, q) = handshake_done_stage(c, p);
            let wanted = c.config.is_server && c.config.handshake_completed
                && !c.handshake_done.sent;
            &&& offered(p, q, FrameView::HandshakeDone, wanted)
            &&& d == (ConnFields {
                handshake_done: HandshakeDone {
                    sent: c.handshake_done.sent || (wanted && p.fields.left >= 1),
                    ..c.handshake_done
                },
                ..c
            })
            &&& handshake_done_stage(d, q) == (d, q) || q == p
        }),
{
}

/// A raised limit on streams is told where it is due or its frame was lost, and then not
/// again; where its frame finds no room it stays wanted.
pub proof fn law_stream_limits_are_told(c: ConnFields, p: PackingView, due: bool, max: u64)
    requires
        p.valid(),
    ensures
        ({
            let (d, q, sent) = max_streams_bidi_stage(c, p, due, max);
            let f = FrameView::MaxStreamsBidi { max };
            let wanted = due || c.flow.send_max_streams_bidi;
            &&& offered(p, q, f, wanted)
            &&& sent == (wanted && f.wire_len() <= p.fields.left)
            &&& d == (ConnFields {
                flow: FlowState {
                    send_max_streams_bidi: c.flow.send_max_streams_bidi && !sent,
                    ..c.flow
                },
                ..c
            })
        }),
        ({
            let (d, q, sent) = max_streams_uni_stage(c, p, due, max);
            let f = FrameView::MaxStreamsUni { max };
            let wanted = due || c.flow.send_max_streams_uni;
            &&& offered(p, q, f, wanted)
            &&& sent == (wanted && f.wire_len() <= p.fields.left)
            &&& d == (ConnFields {
                flow: FlowState {
                    send_max_streams_uni: c.flow.send_max_streams_uni && !sent,
                    ..c.flow
                },
                ..c
            })
        }),
{
}

/// A raised limit on all data is told where it is due or its frame was lost, and then not
/// again; where its frame finds no room it stays wanted, also where it was just due.
pub proof fn law_data_limit_is_told(c: ConnFields, p: PackingView, due: bool, max: u64)
    requires
        p.valid(),
    ensures
        ({
            let (d, q, sent) = max_data_stage(c, p, due, max);
            let f = FrameView::MaxData { max };
            let wanted = due || c.flow.send_max_data;
            &&& offered(p, q, f, wanted)
            &&& sent == (wanted && f.wire_len() <= p.fields.left)
            &&& d == (ConnFields {
                flow: FlowState { send_max_data: wanted && !sent, ..c.flow },
                ..c
            })
        }),
{
}

/// That data or a stream is blocked is told with the limit that blocks it, and counted;
/// of the connection it is told once.
pub proof fn law_blocked_is_told(c: ConnFields, p: PackingView, stream_id: u64, limit: u64)
    requires
        p.valid(),
    ensures
        ({
            let (d, q) = data_blocked_stage(c, p);
            match c.flow.blocked_limit {
                None => d == c && q == p,
                Some(l) => {
                    let f = FrameView::DataBlocked { limit: l };
                    &&& offered(p, q, f, true)
                    &&& f.wire_len() > p.fields.left ==> d == c
                    &&& f.wire_len() <= p.fields.left ==> d.flow.blocked_limit is None && (
                    d.flow.data_blocked_sent_count == c.flow.data_blocked_sent_count + 1 || (
                    c.flow.data_blocked_sent_count == u64::MAX && d.flow.data_blocked_sent_count
                        == u64::MAX)) && d == (ConnFields {
                        flow: FlowState {
                            blocked_limit: None,
                            data_blocked_sent_count: d.flow.data_blocked_sent_count,
                            ..c.flow
                        },
                        ..c
                    })
                },
            }
        }),
        ({
            let (d, q, sent) = stream_data_blocked_stage(c, p, stream_id, limit);
            let f = FrameView::StreamDataBlocked { stream_id, limit };
            let n = c.flow.stream_data_blocked_sent_count;
            &&& offered(p, q, f, true)
            &&& sent == (f.wire_len() <= p.fields.left)
            &&& !sent ==> d == c
            &&& sent ==> d == (ConnFields {
                flow: FlowState {
                    stream_data_blocked_sent_count: d.flow.stream_data_blocked_sent_count,
                    ..c.flow
                },
                ..c
            }) && (d.flow.stream_data_blocked_sent_count == n + 1 || (n == u64::MAX
                && d.flow.stream_data_blocked_sent_count == n))
        }),
{
}

/// The limits on bidirectional and on unidirectional streams are told in this order, then
/// that data is blocked; each does not depend on whether the others found room but by the
/// room that they leave.
pub proof fn law_stream_limits_come_in_order(
    s: SenderView,
    p: PackingView,
    bidi: (bool, u64),
    uni: (bool, u64),
)
    requires
        p.valid(),
    ensures
        ({
            let (t, q, sent) = stream_limits_stage(s, p, bidi, uni);
            &&& extends(p, q)
            &&& sent.0 ==> was_added(p, q, FrameView::MaxStreamsBidi { max: bidi.1 })
            &&& sent.1 ==> was_added(p, q, FrameView::MaxStreamsUni { max: uni.1 })
            &&& !sent.0 && (bidi.0 || s.conn.flow.send_max_streams_bidi) ==> (
            FrameView::MaxStreamsBidi { max: bidi.1 }).wire_len() > q.fields.left
            &&& !sent.1 && (uni.0 || s.conn.flow.send_max_streams_uni) ==> (
            FrameView::MaxStreamsUni { max: uni.1 }).wire_len() > q.fields.left
            &&& sent.0 ==> bidi.0 || s.conn.flow.send_max_streams_bidi
            &&& sent.1 ==> uni.0 || s.conn.flow.send_max_streams_uni
            &&& match s.conn.flow.blocked_limit {
                Some(limit) => (t.conn.flow.blocked_limit is None && was_added(
                    p,
                    q,
                    FrameView::DataBlocked { limit },
                )) || (t.conn.flow.blocked_limit == Some(limit) && (FrameView::DataBlocked {
                    limit,
                }).wire_len() > q.fields.left),
                None => t.conn.flow.blocked_limit is None,
            }
            &&& t == s.with_conn(t.conn)
        }),
{
    let (c1, p1, b) = max_streams_bidi_stage(s.conn, p, bidi.0, bidi.1);
    let (c2, p2, u) = max_streams_uni_stage(c1, p1, uni.0, uni.1);
    let (c3, q) = data_blocked_stage(c2, p2);
    let f1 = FrameView::MaxStreamsBidi { max: bidi.1 };
    let f2 = FrameView::MaxStreamsUni { max: uni.1 };
    let f3 = FrameView::DataBlocked { limit: s.conn.flow.blocked_limit.unwrap() };
    if b {
        lemma_added_one(p, p1, f1);
    }
    if u {
        lemma_added_one(p1, p2, f2);
    }
    if q != p2 {
        lemma_added_one(p2, q, f3);
    }
    lemma_added_stays(p, p1, p2, f1);
    lemma_added_stays(p, p1, p2, f2);
    lemma_added_stays(p, p2, q, f1);
    lemma_added_stays(p, p2, q, f2);
    lemma_added_stays(p, p2, q, f3);
}

/// A connection that is to be closed is closed on its active path or on its only one: by
/// the transport in any packet, by the application in 1-RTT packets, with the error code
/// and the reason. It then drains for three PTOs from now. Otherwise nothing changes.
pub proof fn law_connection_is_closed(
    s: SenderView,
    p: PackingView,
    pid: int,
    ty: Type,
    now: u128,
    pto: u128,
)
    requires
        p.valid(),
        now + 3 * pto <= u128::MAX,
    ensures
        ({
            let (c, q) = close_stage(s, p, pid, ty, now, pto);
            let here = s.paths[pid].fields.active || s.paths.len() == 1;
            match s.local_error {
                None => c == s.conn && q == p,
                Some(e) => {
                    let f = if e.is_app {
                        FrameView::ApplicationClose { error_code: e.error_code, reason: e.reason }
                    } else {
                        FrameView::ConnectionClose {
                            error_code: e.error_code,
                            frame_type: 0,
                            reason: e.reason,
                        }
                    };
                    let wanted = here && (!e.is_app || ty == Type::Short);
                    &&& offered(p, q, f, wanted)
                    &&& q == p ==> c == s.conn
                    &&& q != p ==> (c.timers.draining matches Some(d) && d == now + 3 * pto)
                    &&& c == (ConnFields {
                        timers: Timers { draining: c.timers.draining, ..s.conn.timers },
                        ..s.conn
                    })
                },
            }
        }),
{
    let (c, q) = close_stage(s, p, pid, ty, now, pto);
    if q.frames != p.frames {
        assert(q.frames.len() == p.frames.len() + 1);
    }
}

/// Data of the handshake goes into a packet on the active path of a connection that is not
/// being closed, where there is some and more room than a CRYPTO frame needs at least; as
/// much of it as fills the packet with its frame.
pub proof fn law_handshake_data_fills_the_packet(
    s: SenderView,
    p: PackingView,
    pid: int,
    flushable: bool,
    offset: u64,
    overhead: usize,
)
    ensures
        match crypto_room(s, p, pid, flushable, offset, overhead) {
            Some(n) => flushable && s.local_error is None && s.paths[pid].fields.active
                && p.fields.left > overhead && 0 <= n <= usize::MAX && (FrameView::CryptoHeader {
                offset,
                length: n as usize,
            }).wire_len() == p.fields.left,
            None => !flushable || s.local_error is Some || !s.paths[pid].fields.active
                || p.fields.left <= overhead || (FrameView::CryptoHeader {
                offset,
                length: 0,
            }).wire_len() > p.fields.left,
        },
{
}

/// Data of a stream gets as much room as fills the packet with its frame, and none where
/// not even an empty frame fits.
pub proof fn law_stream_data_fills_the_packet(p: PackingView, stream_id: u64, offset: u64, fin: bool)
    ensures
        match stream_room(p, stream_id, offset) {
            Some(n) => 0 <= n <= usize::MAX && (FrameView::StreamHeader {
                stream_id,
                offset,
                length: n as usize,
                fin,
            }).wire_len() == p.fields.left,
            None => (FrameView::StreamHeader { stream_id, offset, length: 0, fin }).wire_len()
                > p.fields.left,
        },
{
}

/// Whether a packet can carry data of a stream or datagrams: it is a 1-RTT or a 0-RTT
/// packet, on a path that data can be sent on, of a connection that is not being closed,
/// with more room than the frame needs at least. A packet with a datagram carries no data
/// of a stream.
pub proof fn law_data_goes_where_it_may(v: PlanView, s: SenderView, overhead: usize)
    ensures
        ({
            let pid = v.fields.pid as int;
            let may = (v.fields.ty == Type::Short || v.fields.ty == Type::ZeroRTT)
                && s.paths[pid].fields.can_send && s.local_error is None && v.pk.fields.left
                > overhead;
            &&& data_allowed(s, v.pk, pid, v.fields.ty, overhead) == may
            &&& stream_allowed(s, v, overhead) == (may && !v.pk.fields.dgram_emitted)
        }),
{
}

/// Datagrams and streams take turns: where both have something to send, a packet without a
/// datagram is followed by one with datagrams, and one with a datagram by one with data of
/// a stream. Where only one has, it is its turn.
pub proof fn law_datagrams_and_streams_take_turns(
    s: SenderView,
    p: PackingView,
    pid: int,
    a: FinishInputs,
)
    requires
        0 <= pid < s.paths.len(),
    ensures
        ({
            let (t, q, _) = finish_stage(s, p, pid, a);
            &&& dgram_turn(t.conn.emit_dgram, true, true) == !p.fields.dgram_emitted
            &&& dgram_turn(t.conn.emit_dgram, true, false)
            &&& !dgram_turn(t.conn.emit_dgram, false, true)
            &&& !dgram_turn(t.conn.emit_dgram, false, false)
        }),
{
    reveal(with_ping);
    reveal(padded);
    reveal(finished_state);
}

/// A datagram at the front of the queue goes into the packet where it finds room with its
/// frame, is dropped where no packet takes it, and waits otherwise.
pub proof fn law_datagram_waits_for_room(p: PackingView, len: usize, max: usize)
    ensures
        dgram_step(p, len, max) == DgramStep::Send <==> 3 + len <= p.fields.left,
        dgram_step(p, len, max) == DgramStep::Purge <==> 3 + len > p.fields.left && len > max,
        dgram_step(p, len, max) == DgramStep::Wait <==> 3 + len > p.fields.left && len <= max,
{
}

/// A datagram that is written is in the packet, which then carries one, and is counted on
/// its path and on the connection; nothing else changes.
pub proof fn law_datagram_is_counted(s: SenderView, p: PackingView, pid: int, length: usize)
    requires
        p.valid(),
        0 <= pid < s.paths.len(),
        3 + length <= p.fields.left,
        s.conn.stats.dgram_sent_count < u64::MAX,
        s.paths[pid].fields.stats.dgram_sent_count < u64::MAX,
    ensures
        ({
            let (t, q) = dgram_emitted_stage(s, p, pid, length);
            &&& q.frames == p.frames.push(FrameView::DatagramHeader { length })
            &&& q.fields.dgram_emitted && q.fields.ack_eliciting && q.fields.in_flight
            &&& q.fields.has_data == p.fields.has_data
            &&& q.fields.left == p.fields.left - 3 - length
            &&& t.conn.stats.dgram_sent_count == s.conn.stats.dgram_sent_count + 1
            &&& t.paths[pid].fields.stats.dgram_sent_count
                == s.paths[pid].fields.stats.dgram_sent_count + 1
            &&& t.conn == (ConnFields {
                stats: SendStats {
                    dgram_sent_count: t.conn.stats.dgram_sent_count,
                    ..s.conn.stats
                },
                ..s.conn
            })
            &&& t.paths.len() == s.paths.len()
            &&& forall|i: int|
                0 <= i < s.paths.len() && i != pid ==> #[trigger] t.paths[i] == s.paths[i]
            &&& t.paths[pid].fields == (PathFields {
                stats: SendStats {
                    dgram_sent_count: t.paths[pid].fields.stats.dgram_sent_count,
                    ..s.paths[pid].fields.stats
                },
                ..s.paths[pid].fields
            })
        }),
{
}

/// Data that is written is in the packet, which then carries data and elicits an
/// acknowledgement.
pub proof fn law_written_data_is_in_the_packet(p: PackingView, f: FrameView)
    requires
        p.valid(),
        f.wire_len() <= p.fields.left,
    ensures
        with_data(p, f).frames == p.frames.push(f),
        with_data(p, f).fields.has_data,
        with_data(p, f).fields.ack_eliciting,
        with_data(p, f).fields.in_flight,
        with_data(p, f).fields.left == p.fields.left - f.wire_len(),
        with_data(p, f).fields.dgram_emitted == p.fields.dgram_emitted,
{
}

/// Path challenges are answered in the order in which they came, each with its own data,
/// until one finds no room: that one is dropped and those after it are kept.
pub proof fn law_challenges_are_answered(p: PackingView, challenges: Seq<[u8; 8]>) -> (n: int)
    ensures
        ({
            let (q, kept) = path_responses(p, challenges);
            &&& 0 <= n <= challenges.len()
            &&& extends(p, q)
            &&& q.frames.len() == p.frames.len() + n
            &&& forall|k: int|
                p.frames.len() <= k < q.frames.len() ==> #[trigger] q.frames[k]
                    == (FrameView::PathResponse { data: challenges[k - p.frames.len()]@ })
            &&& n == challenges.len() ==> kept.len() == 0
            &&& n < challenges.len() ==> kept == challenges.skip(n + 1) && q.fields.left < 9
            &&& n > 0 ==> q.fields.ack_eliciting && q.fields.in_flight
            &&& n == 0 ==> q == p
        }),
    decreases challenges.len(),
{
    let (q, kept) = path_responses(p, challenges);
    if challenges.len() == 0 {
        0
    } else {
        let f = FrameView::PathResponse { data: challenges[0]@ };
        let rest = challenges.skip(1);
        if f.wire_len() <= p.fields.left {
            let p1 = p.with(f).eliciting();
            lemma_added_one(p, p1, f);
            let m = law_challenges_are_answered(p1, rest);
            lemma_added_stays(p, p1, q, f);
            assert forall|k: int| p.frames.len() <= k < q.frames.len() implies #[trigger] q.frames[k]
                == (FrameView::PathResponse { data: challenges[k - p.frames.len()]@ }) by {
                if k == p.frames.len() {
                    assert(q.frames[k] == p1.frames[k]);
                } else {
                    assert(rest[k - p1.frames.len()] == challenges[k - p.frames.len()]);
                }
            }
            if m < rest.len() {
                assert(rest.skip(m + 1) =~= challenges.skip(m + 2));
            }
            m + 1
        } else {
            0
        }
    }
}

/// A probe of the path MTU is a packet of exactly the probed size: its padding and its
/// PING, which names the size, fill all that the overhead leaves.
pub proof fn law_probe_has_the_probed_size(p: PackingView, size: usize, overhead: usize)
    requires
        p.valid(),
        size != overhead,
        size > overhead ==> p.fields.size + (size - overhead) <= usize::MAX,
    ensures
        match pmtu_probe(p, size, overhead) {
            None => size < overhead,
            Some(q) => {
                &&& size > overhead
                &&& q.frames == p.frames.push(
                    FrameView::Padding { len: (size - overhead - 1) as usize },
                ).push(FrameView::Ping { mtu_probe: Some(size) })
                &&& q.fields.size == p.fields.size + size - overhead
                &&& q.fields.left == 0
                &&& q.fields.is_pmtud_probe
                &&& q.fields.ack_eliciting
                &&& q.fields.in_flight
                &&& q.fields.has_data == p.fields.has_data
                &&& q.fields.dgram_emitted == p.fields.dgram_emitted
            },
        },
{
}

/// Where an acknowledgement has to be elicited or was asked for, a packet with room elicits
/// one, by a PING where nothing else does, unless the connection is being closed. Where it
/// is not asked for, finishing does not make a packet elicit one. Only a PING and padding
/// are added.
pub proof fn law_acknowledgement_is_elicited(
    s: SenderView,
    p: PackingView,
    pid: int,
    a: FinishInputs,
)
    requires
        p.valid(),
        0 <= pid < s.paths.len(),
    ensures
        ({
            let (t, q, done) = finish_stage(s, p, pid, a);
            let asked = a.elicit_required || s.paths[pid].fields.needs_ack_eliciting;
            &&& asked && s.local_error is None && p.fields.left >= 1 ==> q.fields.ack_eliciting
            &&& !asked || s.local_error is Some || p.fields.left == 0 ==> q.fields.ack_eliciting
                == p.fields.ack_eliciting
            &&& p.fields.ack_eliciting ==> q.fields.ack_eliciting
            &&& q.fields.ack_eliciting && !p.fields.ack_eliciting ==> was_added(
                p,
                q,
                FrameView::Ping { mtu_probe: None },
            )
            &&& p.fields.ack_eliciting ==> !was_added(p, q, FrameView::Ping { mtu_probe: None })
            &&& extends(p, q)
            &&& forall|k: int|
                p.frames.len() <= k < q.frames.len() ==> (#[trigger] q.frames[k]) is Padding
                    || q.frames[k] == (FrameView::Ping { mtu_probe: None })
            &&& q.fields.has_data == p.fields.has_data
            &&& q.fields.dgram_emitted == p.fields.dgram_emitted
            &&& q.fields.is_pmtud_probe == p.fields.is_pmtud_probe
        }),
{
    reveal(with_ping);
    reveal(padded);
    let ping = FrameView::Ping { mtu_probe: None };
    let p1 = with_ping(s, p, pid, a);
    let (t, q, done) = finish_stage(s, p, pid, a);
    if p1 != p {
        lemma_added_one(p, p1, ping);
    }
    if !done.is_empty {
        let long = (a.has_initial || !s.path(pid).validated) && a.ty == Type::Short
            && p1.fields.left >= 1;
        let p2 = if long {
            push_padding(p1, p1.fields.left)
        } else {
            p1
        };
        let g = FrameView::Padding { len: p1.fields.left };
        if p2 != p1 {
            lemma_added_one(p1, p2, g);
        }
        lemma_added_stays(p, p1, p2, ping);
        if q != p2 {
            let h = FrameView::Padding { len: (4 - p2.fields.size) as usize };
            lemma_added_one(p2, q, h);
        }
        lemma_added_stays(p, p2, q, ping);
        assert forall|k: int| p.frames.len() <= k < q.frames.len() implies (
        #[trigger] q.frames[k]) is Padding || (q.frames[k] == ping && p1 != p) by {
            if k < p1.frames.len() {
                assert(p2.frames[k] == p1.frames[k]);
                assert(q.frames[k] == p2.frames[k]);
            } else if k < p2.frames.len() {
                assert(q.frames[k] == p2.frames[k]);
            }
        }
    }
}

/// A packet that has frames is padded to its full size where an Initial packet precedes it
/// or its path is not validated, in 1-RTT packets; one without frames is not sent.
pub proof fn law_packet_is_padded(s: SenderView, p: PackingView, pid: int, a: FinishInputs)
    requires
        p.valid(),
        0 <= pid < s.paths.len(),
    ensures
        ({
            let (t, q, done) = finish_stage(s, p, pid, a);
            &&& done.is_empty == (q.frames.len() == 0)
            &&& done.is_empty ==> p.frames.len() == 0 && q == p
            &&& !done.is_empty && a.ty == Type::Short && (a.has_initial
                || !s.paths[pid].fields.validated) ==> q.fields.left == 0
            &&& !done.is_empty && p.fields.size + p.fields.left >= 4 ==> q.fields.size >= 4
            &&& (a.ty != Type::Short || (!a.has_initial && s.paths[pid].fields.validated))
                && p.fields.size >= 4 ==> q.fields.size <= p.fields.size + 1
        }),
{
    reveal(with_ping);
    reveal(padded);
}

/// What remains to be done about a finished packet: the recovery is told of an ack-eliciting
/// packet that is no probe, and that the application limits what is sent where a packet with
/// space in the congestion window carries no data. What was asked for is done then, and
/// nothing else about the connection changes but whose turn it is.
pub proof fn law_finished_packet_is_told_of(
    s: SenderView,
    p: PackingView,
    pid: int,
    a: FinishInputs,
)
    requires
        p.valid(),
        0 <= pid < s.paths.len(),
    ensures
        ({
            let (t, q, done) = finish_stage(s, p, pid, a);
            &&& done.ping_sent == (q.fields.ack_eliciting && !p.fields.is_pmtud_probe)
            &&& done.app_limited == (!p.fields.has_data && !p.fields.dgram_emitted
                && a.cwnd_available > a.stream_overhead)
            &&& t.conn == (ConnFields { emit_dgram: !p.fields.dgram_emitted, ..s.conn })
            &&& t.paths.len() == s.paths.len()
            &&& forall|i: int|
                0 <= i < s.paths.len() && i != pid ==> #[trigger] t.paths[i] == s.paths[i]
            &&& t.paths[pid].fields == (PathFields {
                needs_ack_eliciting: s.paths[pid].fields.needs_ack_eliciting && !done.ping_sent,
                ..s.paths[pid].fields
            })
            &&& t.paths[pid].need_ack == s.paths[pid].need_ack
            &&& t == (SenderView { conn: t.conn, paths: t.paths, ..s })
        }),
{
    reveal(with_ping);
    reveal(padded);
    reveal(finished_state);
}

/// A packet that was sent is counted with its bytes on its path and on the connection, and
/// its bytes are taken from what may be sent before the peer is validated. The first
/// ack-eliciting packet since one was received starts the idle timer anew.
pub proof fn law_sent_packet_is_recorded(
    s: SenderView,
    p: PackingView,
    pid: int,
    written: usize,
    now: u128,
    idle_timeout: Option<u128>,
)
    requires
        0 <= pid < s.paths.len(),
        s.conn.stats.sent_count < u64::MAX,
        s.conn.stats.sent_bytes + written <= u64::MAX,
        s.paths[pid].fields.stats.sent_count < u64::MAX,
        s.paths[pid].fields.stats.sent_bytes + written <= u64::MAX,
        idle_timeout matches Some(d) ==> now + d <= u128::MAX,
    ensures
        ({
            let t = sent_stage(s, p, pid, written, now, idle_timeout);
            let x = s.paths[pid].fields;
            let y = t.paths[pid].fields;
            &&& t.conn.stats.sent_count == s.conn.stats.sent_count + 1
            &&& t.conn.stats.sent_bytes == s.conn.stats.sent_bytes + written
            &&& y.stats.sent_count == x.stats.sent_count + 1
            &&& y.stats.sent_bytes == x.stats.sent_bytes + written
            &&& y.max_send_bytes == if x.max_send_bytes >= written {
                x.max_send_bytes - written
            } else {
                0
            }
            &&& t.conn.ack_eliciting_sent == (s.conn.ack_eliciting_sent || p.fields.ack_eliciting)
            &&& p.fields.ack_eliciting && !s.conn.ack_eliciting_sent && idle_timeout is Some ==> (
            t.conn.timers.idle matches Some(at) && at == now + idle_timeout.unwrap())
            &&& !p.fields.ack_eliciting || s.conn.ack_eliciting_sent || idle_timeout is None
                ==> t.conn.timers.idle == s.conn.timers.idle
            &&& t.conn == (ConnFields {
                stats: SendStats {
                    sent_count: t.conn.stats.sent_count,
                    sent_bytes: t.conn.stats.sent_bytes,
                    ..s.conn.stats
                },
                timers: Timers { idle: t.conn.timers.idle, ..s.conn.timers },
                ack_eliciting_sent: t.conn.ack_eliciting_sent,
                ..s.conn
            })
            &&& y == (PathFields {
                stats: SendStats {
                    sent_count: y.stats.sent_count,
                    sent_bytes: y.stats.sent_bytes,
                    ..x.stats
                },
                max_send_bytes: y.max_send_bytes,
                ..x
            })
            &&& t.paths.len() == s.paths.len()
            &&& forall|i: int|
                0 <= i < s.paths.len() && i != pid ==> #[trigger] t.paths[i] == s.paths[i]
        }),
{
}

/// The numbers of the shared packet number space increase: the number of a packet is used up
/// once it is sent, and a number that is skipped is remembered and not used. The numbers of
/// a path's own space leave it alone.
pub proof fn law_shared_numbers_increase(s: SenderView, pid: int, ty: Type, skip: bool)
    requires
        0 <= pid < s.paths.len(),
        s.conn.next_pkt_num + 2 <= u64::MAX,
        s.paths[pid].fields.mp_next_pkt_num < u64::MAX,
    ensures
        ({
            let (t, pn) = numbered(s, pid, ty, skip);
            let own = s.conn.config.multipath_enabled && ty == Type::Short && s.paths.len() > 1;
            &&& own ==> pn == s.paths[pid].fields.mp_next_pkt_num
                && t.paths[pid].fields.mp_next_pkt_num == pn + 1 && t.conn == s.conn
            &&& !own && !skip ==> pn == s.conn.next_pkt_num && t == s
            &&& !own && skip ==> pn == s.conn.next_pkt_num + 1 && t.conn.skipped_pkt_num == Some(
                s.conn.next_pkt_num,
            ) && t.conn.next_pkt_num == pn && t.paths == s.paths
            &&& !own ==> number_used(t.conn, false).next_pkt_num == pn + 1
            &&& own ==> number_used(t.conn, true) == s.conn
        }),
{
}

/// Whether a connection ID is that of an entry with a sequence number.
pub open spec fn is_cid_of(es: Seq<EntryView>, seq: u64, cid: Seq<u8>) -> bool {
    exists|i: int| 0 <= i < es.len() && (#[trigger] es[i]).seq == seq && es[i].cid == cid
}

/// A packet is sent to the destination connection ID that its path uses, and from the source
/// connection ID that it uses: of the path's own pools where it has them, of those of path 0
/// otherwise. Only a 1-RTT packet can do without a source connection ID.
pub proof fn law_packet_carries_the_cids_of_its_path(s: SenderView, pid: int, ty: Type)
    ensures
        ({
            let x = s.paths[pid].fields;
            let space: u64 = if x.mp_per_path_cids {
                x.path_id
            } else {
                0
            };
            match packet_cids(s, pid, ty) {
                Ok((dcid, scid)) => {
                    &&& x.active_dcid_seq matches Some(d) && is_cid_of(
                        s.ids.dcids_of(space),
                        d,
                        dcid,
                    )
                    &&& match x.active_scid_seq {
                        Some(n) => is_cid_of(s.ids.scids_of(space), n, scid),
                        None => ty == Type::Short && scid.len() == 0,
                    }
                },
                Err(e) => {
                    ||| x.active_dcid_seq is None && e == Error::OutOfIdentifiers
                    ||| x.active_dcid_seq is Some && e == Error::InvalidState
                },
            }
        }),
        s.paths[pid].fields.active_dcid_seq is None ==> packet_cids(s, pid, ty) is Err,
        s.paths[pid].fields.active_scid_seq is None && ty != Type::Short ==> packet_cids(
            s,
            pid,
            ty,
        ) is Err,
{
    let x = s.paths[pid].fields;
    let space: u64 = if x.mp_per_path_cids {
        x.path_id
    } else {
        0
    };
    if let Ok((dcid, scid)) = packet_cids(s, pid, ty) {
        let d = x.active_dcid_seq.unwrap();
        let es = s.ids.dcids_of(space);
        let i = crate::cid::entries::index_of_seq(es, d);
        assert(es[i].seq == d && es[i].cid == dcid);
        if let Some(n) = x.active_scid_seq {
            let fs = s.ids.scids_of(space);
            let j = crate::cid::entries::index_of_seq(fs, n);
            assert(fs[j].seq == n && fs[j].cid == scid);
        }
    }
}

/// A packet is begun where there is a key to encrypt it with and it has its connection IDs.
pub proof fn law_packet_needs_a_key(s: SenderView, pid: int, ty: Type, skip: bool, n: usize)
    ensures
        begun(s, pid, ty, skip, None).1 == Some(Error::Done),
        begun(s, pid, ty, skip, None).0 == numbered(s, pid, ty, skip).0,
        begun(s, pid, ty, skip, Some(n)).1 is None <==> packet_cids(
            numbered(s, pid, ty, skip).0,
            pid,
            ty,
        ) is Ok,
        begun(s, pid, ty, skip, Some(n)).0 == numbered(s, pid, ty, skip).0,
{
}

/// The frames of a packet get what its header, its packet number, encryption and, in long
/// header packets, two bytes of length leave of the buffer and of the path MTU, if those are
/// at least four bytes.
pub proof fn law_room_is_what_the_overhead_leaves(a: PlanInputs)
    requires
        a.header_len + a.pn_len + a.crypto_overhead + 2 <= usize::MAX,
    ensures
        ({
            let overhead = a.header_len + a.pn_len + a.crypto_overhead + (if a.ty == Type::Short {
                0int
            } else {
                2int
            });
            match planned(a) {
                Some(v) => {
                    &&& v.pk.fields.left >= 4
                    &&& v.pk.fields.left + overhead <= a.cap
                    &&& a.mtu matches Some(m) ==> v.pk.fields.left + overhead <= m
                    &&& v.pk.fields.left + overhead == a.cap || a.mtu == Some(
                        (v.pk.fields.left + overhead) as usize,
                    )
                    &&& v.pk.frames.len() == 0 && v.pk.fields.size == 0
                    &&& !v.pk.fields.ack_eliciting && !v.pk.fields.in_flight
                        && !v.pk.fields.has_data && !v.pk.fields.dgram_emitted
                        && !v.pk.fields.is_pmtud_probe
                    &&& v.fields.overhead == overhead
                    &&& v.fields.cwnd_available == if a.cwnd >= overhead {
                        a.cwnd - overhead
                    } else {
                        0
                    }
                    &&& v.fields.pid == a.pid && v.fields.ty == a.ty && v.fields.elicit_required
                        == a.elicit_required && v.fields.has_initial == a.has_initial
                    &&& v.fields.stage == Stage::Control
                },
                None => a.cap < overhead + 4 || (a.mtu matches Some(m) && m < overhead + 4),
            }
        }),
{
}

/// Frames about streams go into packets on paths that data can be sent on, of connections
/// that are not being closed.
pub proof fn law_stream_frames_belong_to_open_connections(s: SenderView, pid: int)
    ensures
        after_validation(s, pid) == Stage::StreamLimits <==> s.local_error is None
            && s.paths[pid].fields.can_send,
        after_validation(s, pid) == Stage::Close <==> s.local_error is Some
            || !s.paths[pid].fields.can_send,
{
}

/// A single frame about a stream is added where it fits, and leaves the plan as it is.
pub proof fn law_single_frame_is_added_where_it_fits(v: PlanView, f: FrameView)
    requires
        v.pk.valid(),
    ensures
        offered(v.pk, single(v, f).0.pk, f, true),
        single(v, f).1 == (f.wire_len() <= v.pk.fields.left),
        single(v, f).0.fields == v.fields,
{
}

} // verus!
