//! What holds of the packets that are sent.

use crate::frame::FrameView;
use crate::packet::Type;
use crate::send::begin::{numbered, uses_path_numbers};
use crate::send::cids::{path_retire_all, retire_all};
use crate::send::control::{abandon_step, ack_stage, path_acks, AckInputs};
use crate::send::deferred::{
    first_with_id, has_path_id, implicitly_retired, is_first_with_id, rearm_abandon, rearm_retire,
    rearm_status,
};
use crate::send::lost::lost_flag_frame;
use crate::send::packing::PackingView;
use crate::send::state::{ConnFields, SenderView};
use vstd::prelude::*;

verus! {

/// A packet never retires the connection ID that it is sent to: no
/// RETIRE_CONNECTION_ID frame that is added names it.
pub proof fn law_packet_keeps_its_dcid(
    held: Set<u64>,
    p: PackingView,
    carrying: u64,
    order: Seq<u64>,
    i: int,
)
    requires
        p.frames.len() <= i < retire_all(held, p, Some(carrying), order).1.frames.len(),
    ensures
        retire_all(held, p, Some(carrying), order).1.frames[i]
            != (FrameView::RetireConnectionId { seq_num: carrying }),
    decreases order.len(),
{
    if order.len() > 0 {
        let (h, q, more) = retire_all(held, p, Some(carrying), order.drop_last());
        lemma_retire_extends(held, p, Some(carrying), order.drop_last());
        if i < q.frames.len() {
            law_packet_keeps_its_dcid(held, p, carrying, order.drop_last(), i);
        }
    }
}

/// Frames are only added.
proof fn lemma_retire_extends(
    held: Set<u64>,
    p: PackingView,
    carrying: Option<u64>,
    order: Seq<u64>,
)
    ensures
        retire_all(held, p, carrying, order).1.frames.len() >= p.frames.len(),
    decreases order.len(),
{
    if order.len() > 0 {
        lemma_retire_extends(held, p, carrying, order.drop_last());
    }
}

/// A packet never retires the connection ID that it is sent to: no
/// PATH_RETIRE_CONNECTION_ID frame that is added names it.
pub proof fn law_packet_keeps_its_path_dcid(
    held: Set<(u64, u64)>,
    p: PackingView,
    carrying: (u64, u64),
    order: Seq<(u64, u64)>,
    i: int,
)
    requires
        p.frames.len() <= i < path_retire_all(held, p, Some(carrying), order).1.frames.len(),
    ensures
        path_retire_all(held, p, Some(carrying), order).1.frames[i]
            != (FrameView::PathRetireConnectionId { path_id: carrying.0, seq_num: carrying.1 }),
    decreases order.len(),
{
    if order.len() > 0 {
        let (h, q, more) = path_retire_all(held, p, Some(carrying), order.drop_last());
        lemma_path_retire_extends(held, p, Some(carrying), order.drop_last());
        if i < q.frames.len() {
            law_packet_keeps_its_path_dcid(held, p, carrying, order.drop_last(), i);
        }
    }
}

/// Frames are only added.
proof fn lemma_path_retire_extends(
    held: Set<(u64, u64)>,
    p: PackingView,
    carrying: Option<(u64, u64)>,
    order: Seq<(u64, u64)>,
)
    ensures
        path_retire_all(held, p, carrying, order).1.frames.len() >= p.frames.len(),
    decreases order.len(),
{
    if order.len() > 0 {
        lemma_path_retire_extends(held, p, carrying, order.drop_last());
    }
}

/// No retirement is forgotten: each one that was pending either still is or has its
/// frame in the packet.
pub proof fn law_retirement_is_not_forgotten(
    held: Set<u64>,
    p: PackingView,
    carrying: Option<u64>,
    order: Seq<u64>,
    seq_num: u64,
)
    requires
        held.contains(seq_num),
    ensures
        ({
            let (h, q, _) = retire_all(held, p, carrying, order);
            h.contains(seq_num) || q.frames.contains(FrameView::RetireConnectionId { seq_num })
        }),
    decreases order.len(),
{
    if order.len() > 0 {
        law_retirement_is_not_forgotten(held, p, carrying, order.drop_last(), seq_num);
        let (h, q, more) = retire_all(held, p, carrying, order.drop_last());
        let (h2, q2, _) = retire_all(held, p, carrying, order);
        let f = FrameView::RetireConnectionId { seq_num };
        if q.frames.contains(f) {
            let k = choose|k: int| 0 <= k < q.frames.len() && q.frames[k] == f;
            assert(q2.frames[k] == f);
        } else if !h2.contains(seq_num) {
            assert(q2.frames[q2.frames.len() - 1] == f);
        }
    }
}

/// Acknowledgements alone do not make a packet elicit an acknowledgement, nor do they
/// put it in flight.
pub proof fn law_acks_do_not_elicit_acks(s: SenderView, p: PackingView, pid: int, a: AckInputs, n: nat)
    ensures
        ack_stage(s, p, pid, a).1.fields.ack_eliciting == p.fields.ack_eliciting,
        ack_stage(s, p, pid, a).1.fields.in_flight == p.fields.in_flight,
        path_acks(s, p, n).1.fields.ack_eliciting == p.fields.ack_eliciting,
        path_acks(s, p, n).1.fields.in_flight == p.fields.in_flight,
    decreases n,
{
    reveal(ack_stage);
    if n > 0 {
        law_acks_do_not_elicit_acks(s, p, pid, a, (n - 1) as nat);
    }
}

/// A PATH_ABANDON frame that was lost is sent again: where it was not acknowledged,
/// the next packet with room for it has it.
pub proof fn law_lost_abandon_is_repeated(s: SenderView, p: PackingView, i: int)
    requires
        is_first_with_id(s.paths, s.path(i).path_id, i),
        !s.path(i).abandon.acked,
        p.has_room(
            FrameView::PathAbandon {
                path_id: s.path(i).path_id,
                error_code: s.path(i).abandon.error_code,
            },
        ),
    ensures
        abandon_step(rearm_abandon(s, s.path(i).path_id), p, i).1 == p.with(
            FrameView::PathAbandon {
                path_id: s.path(i).path_id,
                error_code: s.path(i).abandon.error_code,
            },
        ).eliciting(),
{
    let id = s.path(i).path_id;
    assert(has_path_id(s.paths, id));
    lemma_first_with_id(s, id, i);
}

/// The first path with a path ID is the one that satisfies its description.
proof fn lemma_first_with_id(s: SenderView, id: u64, i: int)
    requires
        is_first_with_id(s.paths, id, i),
    ensures
        first_with_id(s.paths, id) == i,
{
    let c = first_with_id(s.paths, id);
    assert(is_first_with_id(s.paths, id, c));
    if c < i {
        assert(s.paths[c].fields.path_id != id);
    }
    if i < c {
        assert(s.paths[i].fields.path_id != id);
    }
}

/// A status that was superseded is not sent again when its frame is lost.
pub proof fn law_superseded_status_is_not_repeated(s: SenderView, i: int, seq_num: u64)
    requires
        is_first_with_id(s.paths, s.path(i).path_id, i),
        seq_num != s.path(i).status.seq_num,
    ensures
        rearm_status(s, s.path(i).path_id, seq_num) == s,
{
    assert(has_path_id(s.paths, s.path(i).path_id));
    lemma_first_with_id(s, s.path(i).path_id, i);
}

/// A path limit that was superseded or acknowledged is not sent again when its frame
/// is lost.
pub proof fn law_superseded_limit_is_not_repeated(c: ConnFields, path_id: u64)
    requires
        c.limits.max_path_id_sent != Some(path_id) || c.limits.max_path_id_acked,
    ensures
        lost_flag_frame(c, FrameView::MaxPathId { path_id }) == c,
{
}

/// No retirement is sent again for a path that is abandoned.
pub proof fn law_abandoned_path_retires_nothing(s: SenderView, path_id: u64, seq_num: u64)
    requires
        implicitly_retired(s, path_id),
    ensures
        rearm_retire(s, path_id, seq_num).0 == s,
{
}

/// Two packets on one path that are numbered one after the other in its own packet
/// number space have different numbers, the second the greater one.
pub proof fn law_path_numbers_increase(s: SenderView, pid: int, ty: Type, skip1: bool, skip2: bool)
    requires
        uses_path_numbers(s, ty),
        0 <= pid < s.paths.len(),
        s.path(pid).mp_next_pkt_num < u64::MAX,
    ensures
        ({
            let (t, first) = numbered(s, pid, ty, skip1);
            numbered(t, pid, ty, skip2).1 == first + 1
        }),
{
}

/// Numbering a packet on one path leaves the numbers of the others alone.
pub proof fn law_path_numbers_are_independent(
    s: SenderView,
    pid: int,
    other: int,
    ty: Type,
    skip: bool,
)
    requires
        uses_path_numbers(s, ty),
        0 <= pid < s.paths.len(),
        0 <= other < s.paths.len(),
        pid != other,
    ensures
        numbered(s, pid, ty, skip).0.path(other) == s.path(other),
        numbered(s, pid, ty, skip).0.conn == s.conn,
{
}

} // verus!
