//! A packet stays within the room that it was given.

use crate::cid::model::IdsView;
use crate::frame::FrameView;
use crate::packet::Type;
use crate::send::assembly::management_stage;
use crate::send::cids::{
    announce_cids, announce_path_cids, announce_stage, path_retire_all, retire_all, retire_stage,
};
use crate::send::control::{
    ack_stage, control_stage, limits_stage, path_abandons, path_acks, path_stage, path_statuses,
    queued_abandons, AckInputs,
};
use crate::send::data::with_data;
use crate::send::finish::{finish_stage, padded, push_padding, with_ping, FinishInputs};
use crate::send::flow::close_stage;
use crate::send::packing::{law_room_is_accounted, total_len, PackingView};
use crate::send::probes::path_responses;
use crate::send::state::{PathLimits, SenderView};
use vstd::prelude::*;

verus! {

/// The bytes that are written are those of the frames.
pub open spec fn accounted(p: PackingView) -> bool {
    p.valid() && p.fields.size == total_len(p.frames)
}

/// Whether `q` is `p` with more frames, within the room that `p` had.
pub open spec fn within(p: PackingView, q: PackingView) -> bool {
    &&& accounted(q)
    &&& q.fields.size + q.fields.left <= p.fields.size + p.fields.left
    &&& q.frames.len() >= p.frames.len()
}

/// Adding a frame that finds room stays within the room.
proof fn lemma_with(p: PackingView, f: FrameView)
    requires
        accounted(p),
        p.has_room(f),
    ensures
        within(p, p.with(f)),
        within(p, p.with(f).eliciting()),
{
    law_room_is_accounted(p, f);
}

/// The acknowledgement stays within the room.
proof fn lemma_ack(s: SenderView, p: PackingView, pid: int, a: AckInputs)
    requires
        accounted(p),
    ensures
        within(p, ack_stage(s, p, pid, a).1),
{
    reveal(ack_stage);
    let f = crate::send::control::ack_frame(s, a.elapsed_micros);
    if p.has_room(f) {
        lemma_with(p, f);
    }
}

/// The acknowledgements of paths stay within the room.
proof fn lemma_path_acks(s: SenderView, p: PackingView, n: nat)
    requires
        accounted(p),
    ensures
        within(p, path_acks(s, p, n).1),
    decreases n,
{
    if n > 0 {
        lemma_path_acks(s, p, (n - 1) as nat);
        let (t, q) = path_acks(s, p, (n - 1) as nat);
        let x = t.paths[n - 1];
        let f = FrameView::PathAck {
            path_id: x.fields.path_id,
            ack_delay: crate::send::control::scaled_delay(
                x.fields.rx_elapsed_micros,
                t.conn.config.ack_delay_exponent,
            ),
            ranges: x.need_ack,
            ecn_counts: None,
        };
        if q.has_room(f) {
            lemma_with(q, f);
        }
    }
}

/// The abandonment of paths stays within the room.
proof fn lemma_path_abandons(s: SenderView, p: PackingView, n: nat)
    requires
        accounted(p),
    ensures
        within(p, path_abandons(s, p, n).1),
    decreases n,
{
    if n > 0 {
        lemma_path_abandons(s, p, (n - 1) as nat);
        let (t, q) = path_abandons(s, p, (n - 1) as nat);
        let x = t.path(n - 1);
        let f = FrameView::PathAbandon { path_id: x.path_id, error_code: x.abandon.error_code };
        if q.has_room(f) {
            lemma_with(q, f);
        }
    }
}

/// The abandonment of path IDs stays within the room.
proof fn lemma_queued_abandons(queue: Seq<(u64, u64)>, p: PackingView)
    requires
        accounted(p),
    ensures
        within(p, queued_abandons(queue, p).1),
    decreases queue.len(),
{
    if queue.len() > 0 {
        lemma_queued_abandons(queue.drop_last(), p);
        let (kept, q) = queued_abandons(queue.drop_last(), p);
        let f = FrameView::PathAbandon { path_id: queue.last().0, error_code: queue.last().1 };
        if q.has_room(f) {
            lemma_with(q, f);
        }
    }
}

/// The statuses of paths stay within the room.
proof fn lemma_path_statuses(s: SenderView, p: PackingView, n: nat)
    requires
        accounted(p),
    ensures
        within(p, path_statuses(s, p, n).1),
    decreases n,
{
    if n > 0 {
        lemma_path_statuses(s, p, (n - 1) as nat);
        let (t, q) = path_statuses(s, p, (n - 1) as nat);
        let x = t.path(n - 1);
        let a = FrameView::PathStatusAvailable { path_id: x.path_id, seq_num: x.status.seq_num };
        let b = FrameView::PathStatusBackup { path_id: x.path_id, seq_num: x.status.seq_num };
        if q.has_room(a) {
            lemma_with(q, a);
        }
        if q.has_room(b) {
            lemma_with(q, b);
        }
    }
}

/// The limits on paths stay within the room.
proof fn lemma_limits(l: PathLimits, p: PackingView)
    requires
        accounted(p),
    ensures
        within(p, limits_stage(l, p).1),
{
    let (l1, p1) = crate::send::control::paths_blocked_stage(l, p);
    if let Some(path_id) = l.paths_blocked_pending {
        if p.has_room(FrameView::PathsBlocked { path_id }) {
            lemma_with(p, FrameView::PathsBlocked { path_id });
        }
    }
    let (l2, p2) = crate::send::control::cids_blocked_stage(l1, p1);
    if let Some(path_id) = l1.cids_blocked_path {
        let f = FrameView::PathCidsBlocked { path_id, seq_num: l1.cids_blocked_seq };
        if p1.has_room(f) {
            lemma_with(p1, f);
        }
    }
    if let Some(path_id) = l2.max_path_id_pending {
        if p2.has_room(FrameView::MaxPathId { path_id }) {
            lemma_with(p2, FrameView::MaxPathId { path_id });
        }
    }
}

/// The frames about paths stay within the room.
proof fn lemma_path_stage(s: SenderView, p: PackingView)
    requires
        accounted(p),
    ensures
        within(p, path_stage(s, p).1),
{
    reveal(path_stage);
    let n = s.paths.len();
    lemma_path_acks(s, p, n);
    let (s1, p1) = path_acks(s, p, n);
    lemma_path_abandons(s1, p1, n);
    let (s2, p2) = path_abandons(s1, p1, n);
    lemma_queued_abandons(s2.abandon_queue, p2);
    let (queue, p3) = queued_abandons(s2.abandon_queue, p2);
    let s3 = SenderView { abandon_queue: queue, ..s2 };
    lemma_path_statuses(s3, p3, n);
    let (s4, p4) = path_statuses(s3, p3, n);
    lemma_limits(s4.conn.limits, p4);
}

/// Acknowledgements and frames about paths stay within the room of a packet.
pub proof fn law_control_stays_within_room(s: SenderView, p: PackingView, pid: int, a: AckInputs)
    requires
        accounted(p),
    ensures
        within(p, control_stage(s, p, pid, a).1),
{
    lemma_ack(s, p, pid, a);
    let (s1, p1) = ack_stage(s, p, pid, a);
    lemma_path_stage(s1, p1);
}

/// Answers to path challenges stay within the room of a packet.
pub proof fn law_responses_stay_within_room(p: PackingView, challenges: Seq<[u8; 8]>)
    requires
        accounted(p),
    ensures
        within(p, path_responses(p, challenges).0),
    decreases challenges.len(),
{
    if challenges.len() > 0 {
        let f = FrameView::PathResponse { data: challenges[0]@ };
        if p.has_room(f) {
            lemma_with(p, f);
            law_responses_stay_within_room(p.with(f).eliciting(), challenges.skip(1));
        }
    }
}

/// The announcement of connection IDs stays within the room.
proof fn lemma_announce_cids(ids: IdsView, p: PackingView)
    requires
        accounted(p),
    ensures
        within(p, announce_cids(ids, p).1),
    decreases ids.advertise.len(),
{
    if ids.advertise.len() > 0 {
        if let Some(f) = crate::send::cids::new_cid_frame(ids, ids.advertise[0]) {
            if p.has_room(f) {
                lemma_with(p, f);
                lemma_announce_cids(
                    IdsView { advertise: ids.advertise.skip(1), ..ids },
                    p.with(f).eliciting(),
                );
            }
        }
    }
}

/// The announcement of connection IDs of paths stays within the room.
proof fn lemma_announce_path_cids(ids: IdsView, p: PackingView)
    requires
        accounted(p),
    ensures
        within(p, announce_path_cids(ids, p).1),
    decreases ids.mp_advertise.len(),
{
    if ids.mp_advertise.len() > 0 {
        let k = ids.mp_advertise[0];
        if let Some(f) = crate::send::cids::path_new_cid_frame(ids, k.0, k.1) {
            if p.has_room(f) {
                lemma_with(p, f);
                lemma_announce_path_cids(
                    IdsView { mp_advertise: ids.mp_advertise.skip(1), ..ids },
                    p.with(f).eliciting(),
                );
            }
        }
    }
}

/// The announcement of connection IDs and the end of the handshake stay within the
/// room of a packet.
pub proof fn law_management_stays_within_room(s: SenderView, p: PackingView, pid: int, ty: Type)
    requires
        accounted(p),
    ensures
        within(p, management_stage(s, p, pid, ty).1),
{
    lemma_announce_cids(s.ids, p);
    let (ids, q, r) = announce_cids(s.ids, p);
    lemma_announce_path_cids(ids, q);
    let q2 = announce_stage(s, p).1;
    if q2.has_room(FrameView::HandshakeDone) {
        lemma_with(q2, FrameView::HandshakeDone);
    }
}

/// The retirement of connection IDs stays within the room.
proof fn lemma_retire_all(held: Set<u64>, p: PackingView, carrying: Option<u64>, order: Seq<u64>)
    requires
        accounted(p),
    ensures
        within(p, retire_all(held, p, carrying, order).1),
    decreases order.len(),
{
    if order.len() > 0 {
        lemma_retire_all(held, p, carrying, order.drop_last());
        let q = retire_all(held, p, carrying, order.drop_last()).1;
        let f = FrameView::RetireConnectionId { seq_num: order.last() };
        if q.has_room(f) {
            lemma_with(q, f);
        }
    }
}

/// The retirement of connection IDs of paths stays within the room.
proof fn lemma_path_retire_all(
    held: Set<(u64, u64)>,
    p: PackingView,
    carrying: Option<(u64, u64)>,
    order: Seq<(u64, u64)>,
)
    requires
        accounted(p),
    ensures
        within(p, path_retire_all(held, p, carrying, order).1),
    decreases order.len(),
{
    if order.len() > 0 {
        lemma_path_retire_all(held, p, carrying, order.drop_last());
        let q = path_retire_all(held, p, carrying, order.drop_last()).1;
        let f = FrameView::PathRetireConnectionId {
            path_id: order.last().0,
            seq_num: order.last().1,
        };
        if q.has_room(f) {
            lemma_with(q, f);
        }
    }
}

/// The retirement of connection IDs stays within the room of a packet.
pub proof fn law_retirement_stays_within_room(
    s: SenderView,
    p: PackingView,
    pid: int,
    order: Seq<u64>,
    mp_order: Seq<(u64, u64)>,
)
    requires
        accounted(p),
    ensures
        within(p, retire_stage(s, p, pid, order, mp_order).1),
{
    let x = s.path(pid);
    let legacy = crate::send::cids::legacy_carried_by(x);
    lemma_retire_all(s.ids.retire, p, legacy, order);
    let q = retire_all(s.ids.retire, p, legacy, order).1;
    lemma_path_retire_all(s.ids.mp_retire, q, crate::send::cids::carried_by(x), mp_order);
}

/// A frame that is added on its own stays within the room of a packet, as data does.
pub proof fn law_frame_stays_within_room(p: PackingView, f: FrameView)
    requires
        accounted(p),
    ensures
        within(p, p.push(f).0),
        within(p, p.push_eliciting(f).0),
        within(p, with_data(p, f)),
{
    if p.has_room(f) {
        lemma_with(p, f);
    }
}

/// Closing a connection stays within the room of a packet.
pub proof fn law_close_stays_within_room(
    s: SenderView,
    p: PackingView,
    pid: int,
    ty: Type,
    now: u128,
    pto: u128,
)
    requires
        accounted(p),
    ensures
        within(p, close_stage(s, p, pid, ty, now, pto).1),
{
    if let Some(e) = s.local_error {
        if let Some(f) = crate::send::flow::close_frame(e, ty) {
            if p.has_room(f) {
                lemma_with(p, f);
            }
        }
    }
}

/// Finishing a packet stays within its room.
pub proof fn law_finish_stays_within_room(s: SenderView, p: PackingView, pid: int, a: FinishInputs)
    requires
        accounted(p),
    ensures
        within(p, finish_stage(s, p, pid, a).1),
{
    let ping = FrameView::Ping { mtu_probe: None };
    reveal(with_ping);
    reveal(padded);
    if p.has_room(ping) {
        lemma_with(p, ping);
    }
    let q = with_ping(s, p, pid, a);
    let full = FrameView::Padding { len: q.fields.left };
    if q.has_room(full) {
        lemma_with(q, full);
    }
    let q2 = push_padding(q, q.fields.left);
    lemma_least_padding(q);
    lemma_least_padding(q2);
}

/// Padding to the least number of bytes stays within the room.
proof fn lemma_least_padding(q: PackingView)
    requires
        accounted(q),
    ensures
        q.fields.size < 4 ==> within(q, push_padding(q, (4 - q.fields.size) as usize)),
{
    if q.fields.size < 4 {
        let f = FrameView::Padding { len: (4 - q.fields.size) as usize };
        if q.has_room(f) {
            lemma_with(q, f);
        }
    }
}

/// A packet that is finished with frames in it and had room for it has a payload of
/// at least four bytes.
pub proof fn law_payload_is_long_enough(s: SenderView, p: PackingView, pid: int, a: FinishInputs)
    requires
        accounted(p),
        p.fields.size + p.fields.left >= 4,
        !finish_stage(s, p, pid, a).2.is_empty,
    ensures
        finish_stage(s, p, pid, a).1.fields.size >= 4,
{
    reveal(with_ping);
    reveal(padded);
}

} // verus!
