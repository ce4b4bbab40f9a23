//! What the frames about acknowledgements and paths are for: which of them a packet
//! gets, and what is left for the next one.

use crate::frame::FrameView;
use crate::packet::Type;
use crate::path::PathAppStatus;
use crate::send::control::{
    abandon_step, ack_stage, cids_blocked_stage, control_stage, limits_stage, max_path_id_stage,
    path_abandons, path_ack_step, path_acks, path_stage, path_statuses, paths_blocked_stage,
    queued_abandons, status_step, AckInputs,
};
use crate::send::packing::{PackFields, PackingView};
use crate::send::state::{AbandonState, ConnFields, PathFields, PathLimits, SenderView, StatusState};
use vstd::arithmetic::power2::pow2;
use vstd::prelude::*;

verus! {

/// Whether a packet has the frames of another one and possibly more after them, and no
/// more room.
pub open spec fn extends(p: PackingView, q: PackingView) -> bool {
    &&& p.frames.len() <= q.frames.len()
    &&& forall|k: int| 0 <= k < p.frames.len() ==> #[trigger] q.frames[k] == p.frames[k]
    &&& q.fields.left <= p.fields.left
}

/// Whether all that was added took its bytes from the room.
pub open spec fn conserves(p: PackingView, q: PackingView) -> bool {
    p.valid() ==> q.valid() && q.fields.size + q.fields.left == p.fields.size + p.fields.left
}

/// Whether a packet is marked as eliciting an acknowledgement and in flight just where
/// it was or a frame was added.
pub open spec fn marks_added(p: PackingView, q: PackingView) -> bool {
    let more = q.frames.len() > p.frames.len();
    q.fields == (PackFields {
        left: q.fields.left,
        size: q.fields.size,
        ack_eliciting: p.fields.ack_eliciting || more,
        in_flight: p.fields.in_flight || more,
        ..p.fields
    })
}

/// Whether a packet is marked as it was.
pub open spec fn marks_kept(p: PackingView, q: PackingView) -> bool {
    q.fields == (PackFields { left: q.fields.left, size: q.fields.size, ..p.fields })
}

/// Whether a frame acknowledges packets.
pub open spec fn acknowledges(f: FrameView) -> bool {
    f is ACK || f is PathAck
}

/// Whether a packet is marked as eliciting an acknowledgement and in flight just where
/// it was or a frame was added that does not just acknowledge packets.
pub open spec fn marks_elicited(p: PackingView, q: PackingView) -> bool {
    let more = exists|k: int|
        p.frames.len() <= k < q.frames.len() && !acknowledges(#[trigger] q.frames[k]);
    q.fields == (PackFields {
        left: q.fields.left,
        size: q.fields.size,
        ack_eliciting: p.fields.ack_eliciting || more,
        in_flight: p.fields.in_flight || more,
        ..p.fields
    })
}

/// Whether a frame is one of those that were added.
pub open spec fn was_added(p: PackingView, q: PackingView, f: FrameView) -> bool {
    exists|k: int| p.frames.len() <= k < q.frames.len() && #[trigger] q.frames[k] == f
}

/// A frame that was added stays.
pub proof fn lemma_added_stays(p: PackingView, q: PackingView, r: PackingView, f: FrameView)
    requires
        extends(p, q),
        extends(q, r),
    ensures
        extends(p, r),
        was_added(p, q, f) ==> was_added(p, r, f),
        was_added(q, r, f) ==> was_added(p, r, f),
{
    assert forall|k: int| 0 <= k < p.frames.len() implies #[trigger] r.frames[k] == p.frames[k] by {
        assert(q.frames[k] == p.frames[k]);
    }
    if was_added(p, q, f) {
        let k = choose|k: int| p.frames.len() <= k < q.frames.len() && #[trigger] q.frames[k] == f;
        assert(r.frames[k] == f);
    }
    if was_added(q, r, f) {
        let k = choose|k: int| q.frames.len() <= k < r.frames.len() && #[trigger] r.frames[k] == f;
        assert(r.frames[k] == f);
    }
}

/// Adding one frame.
pub proof fn lemma_added_one(p: PackingView, q: PackingView, f: FrameView)
    requires
        q.frames == p.frames.push(f),
        q.fields.left <= p.fields.left,
    ensures
        extends(p, q),
        was_added(p, q, f),
{
    assert(q.frames[p.frames.len() as int] == f);
}

/// The PATH_ACK frame of a path: all there is to acknowledge on it, and the delay
/// since the last packet, scaled.
pub open spec fn path_ack_of(s: SenderView, i: int) -> FrameView {
    FrameView::PathAck {
        path_id: s.paths[i].fields.path_id,
        ack_delay: (s.paths[i].fields.rx_elapsed_micros as nat / pow2(
            s.conn.config.ack_delay_exponent as nat,
        )) as u64,
        ranges: s.paths[i].need_ack,
        ecn_counts: None,
    }
}

/// The PATH_ABANDON frame of a path.
pub open spec fn path_abandon_of(s: SenderView, i: int) -> FrameView {
    FrameView::PathAbandon {
        path_id: s.paths[i].fields.path_id,
        error_code: s.paths[i].fields.abandon.error_code,
    }
}

/// The PATH_STATUS frame of a path: its type tells the status that the application set.
#[verifier::opaque]
pub open spec fn status_frame(path_id: u64, status: PathAppStatus, seq_num: u64) -> FrameView {
    if status == PathAppStatus::Available {
        FrameView::PathStatusAvailable { path_id, seq_num }
    } else {
        FrameView::PathStatusBackup { path_id, seq_num }
    }
}

/// The PATH_STATUS frame of a path.
pub open spec fn status_of(x: PathFields) -> FrameView {
    status_frame(x.path_id, x.app_status, x.status.seq_num)
}

/// What one PATH_STATUS frame does.
proof fn lemma_status_step(s: SenderView, p: PackingView, i: int)
    ensures
        ({
            let x = s.paths[i].fields;
            let f = status_of(x);
            &&& !acknowledges(f)
            &&& status_step(s, p, i) == if x.status.pending && f.wire_len() <= p.fields.left {
                (
                    s.with_path(
                        i,
                        PathFields { status: StatusState { pending: false, ..x.status }, ..x },
                    ),
                    p.with(f).eliciting(),
                )
            } else {
                (s, p)
            }
        }),
{
    reveal(status_frame);
}

/// The frame for an Available path is PATH_STATUS_AVAILABLE and the one for a Backup
/// path is PATH_STATUS_BACKUP, with the ID and the sequence number that they were given.
pub proof fn law_status_frame_tells_the_status(path_id: u64, seq_num: u64)
    ensures
        status_frame(path_id, PathAppStatus::Available, seq_num)
            == (FrameView::PathStatusAvailable { path_id, seq_num }),
        status_frame(path_id, PathAppStatus::Backup, seq_num) == (FrameView::PathStatusBackup {
            path_id,
            seq_num,
        }),
{
    reveal(status_frame);
}

/// Whether a PATH_ACK frame was due on a path and was added, or had no room, or was not
/// due.
pub open spec fn ack_done(
    s: SenderView,
    t: SenderView,
    p: PackingView,
    q: PackingView,
    i: int,
) -> bool {
    let x = s.paths[i].fields;
    if x.ack_elicited && s.paths[i].need_ack.len() > 0 {
        ||| !t.paths[i].fields.ack_elicited && was_added(p, q, path_ack_of(s, i))
        ||| t.paths[i].fields.ack_elicited && path_ack_of(s, i).wire_len() > q.fields.left
    } else {
        t.paths[i].fields.ack_elicited == x.ack_elicited
    }
}

/// Whether a PATH_ABANDON frame was due on a path and was added, or had no room, or was
/// not due.
pub open spec fn abandon_done(
    s: SenderView,
    t: SenderView,
    p: PackingView,
    q: PackingView,
    i: int,
) -> bool {
    let x = s.paths[i].fields;
    let y = t.paths[i].fields.abandon;
    if x.abandon.pending {
        ||| y == (AbandonState { pending: false, sent: true, ..x.abandon }) && was_added(
            p,
            q,
            path_abandon_of(s, i),
        )
        ||| y == x.abandon && path_abandon_of(s, i).wire_len() > q.fields.left
    } else {
        y == x.abandon
    }
}

/// Whether the status of a path was due to be told and was, or had no room, or was not
/// due.
pub open spec fn status_done(
    s: SenderView,
    t: SenderView,
    p: PackingView,
    q: PackingView,
    i: int,
) -> bool {
    let x = s.paths[i].fields;
    let y = t.paths[i].fields.status;
    if x.status.pending {
        ||| y == (StatusState { pending: false, ..x.status }) && was_added(p, q, status_of(x))
        ||| y == x.status && status_of(x).wire_len() > q.fields.left
    } else {
        y == x.status
    }
}

/// Whether packets on a path are to be acknowledged.
pub open spec fn acks_pending(s: SenderView, i: int) -> bool {
    s.paths[i].fields.ack_elicited && s.paths[i].need_ack.len() > 0
}

/// Whether the abandonment of a path is to be told.
pub open spec fn abandons_pending(s: SenderView, i: int) -> bool {
    s.paths[i].fields.abandon.pending
}

/// Whether the status of a path is to be told.
pub open spec fn statuses_pending(s: SenderView, i: int) -> bool {
    s.paths[i].fields.status.pending
}

/// Whether a frame is the PATH_ACK frame of a path, and is due.
pub open spec fn acks_due(s: SenderView, i: int, f: FrameView) -> bool {
    s.paths[i].fields.ack_elicited && s.paths[i].need_ack.len() > 0 && f == path_ack_of(s, i)
}

/// Whether a frame is the PATH_ABANDON frame of a path, and is due.
pub open spec fn abandons_due(s: SenderView, i: int, f: FrameView) -> bool {
    s.paths[i].fields.abandon.pending && f == path_abandon_of(s, i)
}

/// Whether a frame tells the status of a path, and is due.
pub open spec fn statuses_due(s: SenderView, i: int, f: FrameView) -> bool {
    s.paths[i].fields.status.pending && f == status_of(s.paths[i].fields)
}

/// Whether a frame is the due PATH_ACK frame of one of the first `n` paths.
pub open spec fn some_acks(s: SenderView, n: nat, f: FrameView) -> bool {
    exists|i: int| 0 <= i < n && #[trigger] acks_due(s, i, f)
}

/// Whether a frame is the due PATH_ABANDON frame of one of the first `n` paths.
pub open spec fn some_abandons(s: SenderView, n: nat, f: FrameView) -> bool {
    exists|i: int| 0 <= i < n && #[trigger] abandons_due(s, i, f)
}

/// Whether a frame is due and tells the status of one of the first `n` paths.
pub open spec fn some_statuses(s: SenderView, n: nat, f: FrameView) -> bool {
    exists|i: int| 0 <= i < n && #[trigger] statuses_due(s, i, f)
}

/// Whether a frame is the PATH_ABANDON frame of a queued path ID.
pub open spec fn some_queued(queue: Seq<(u64, u64)>, f: FrameView) -> bool {
    exists|j: int| 0 <= j < queue.len() && #[trigger] queue_due(queue, j, f)
}

/// Whether a frame tells something about a path, or about how many there can be, that
/// is pending.
pub open spec fn path_frame_due(s: SenderView, f: FrameView) -> bool {
    ||| some_acks(s, s.paths.len(), f)
    ||| some_abandons(s, s.paths.len(), f)
    ||| some_queued(s.abandon_queue, f)
    ||| some_statuses(s, s.paths.len(), f)
    ||| limit_due(s.conn.limits, f)
}

/// What the stage has done once it went through the first `n` paths.
spec fn acks_upto(s: SenderView, t: SenderView, p: PackingView, q: PackingView, n: nat) -> bool {
    &&& extends(p, q) && conserves(p, q) && marks_kept(p, q)
    &&& t == (SenderView { paths: t.paths, ..s })
    &&& t.paths.len() == s.paths.len()
    &&& forall|i: int|
        0 <= i < s.paths.len() ==> (#[trigger] t.paths[i]).need_ack == s.paths[i].need_ack
            && t.paths[i].fields == (PathFields {
            ack_elicited: t.paths[i].fields.ack_elicited,
            ..s.paths[i].fields
        })
    &&& forall|i: int| n <= i < s.paths.len() ==> #[trigger] t.paths[i] == s.paths[i]
    &&& forall|i: int| 0 <= i < n ==> #[trigger] ack_done(s, t, p, q, i)
    &&& forall|k: int|
        p.frames.len() <= k < q.frames.len() ==> some_acks(s, n, #[trigger] q.frames[k])
}

/// What the stage does on one path.
spec fn acks_step(
    s: SenderView,
    t: SenderView,
    u: SenderView,
    q: PackingView,
    r: PackingView,
    m: nat,
    f: FrameView,
    x: PathFields,
) -> bool {
    if acks_due(s, m as int, f) && f.wire_len() <= q.fields.left {
        &&& u == t.with_path(m as int, x)
        &&& x == (PathFields { ack_elicited: x.ack_elicited, ..s.paths[m as int].fields })
        &&& !x.ack_elicited
        &&& r == q.with(f)
    } else {
        u == t && r == q
    }
}

/// One more path.
proof fn lemma_acks_next(
    s: SenderView,
    t: SenderView,
    u: SenderView,
    p: PackingView,
    q: PackingView,
    r: PackingView,
    m: nat,
    f: FrameView,
    x: PathFields,
)
    requires
        m < s.paths.len(),
        acks_upto(s, t, p, q, m),
        acks_step(s, t, u, q, r, m, f, x),
        acks_due(s, m as int, f) || !acks_pending(s, m as int),
    ensures
        acks_upto(s, u, p, r, m + 1),
{
    if r != q {
        assert(r.frames == q.frames.push(f));
        lemma_added_one(q, r, f);
    }
    lemma_added_stays(p, q, r, f);
    assert(t.paths[m as int] == s.paths[m as int]);
    assert forall|i: int| 0 <= i < m + 1 implies #[trigger] ack_done(s, u, p, r, i) by {
        if i < m {
            assert(ack_done(s, t, p, q, i));
            assert(u.paths[i] == t.paths[i]);
            lemma_added_stays(p, q, r, path_ack_of(s, i));
        }
    }
    assert forall|k: int| p.frames.len() <= k < r.frames.len() implies some_acks(
        s,
        m + 1,
        #[trigger] r.frames[k],
    ) by {
        if k < q.frames.len() {
            assert(r.frames[k] == q.frames[k]);
            assert(some_acks(s, m, q.frames[k]));
            let i = choose|i: int| 0 <= i < m && #[trigger] acks_due(s, i, q.frames[k]);
            assert(acks_due(s, i, r.frames[k]));
        } else {
            assert(acks_due(s, m as int, r.frames[k]));
        }
    }
}

/// What the stage does on the first `n` paths.
proof fn lemma_acks(s: SenderView, p: PackingView, n: nat)
    requires
        n <= s.paths.len(),
    ensures
        acks_upto(s, path_acks(s, p, n).0, p, path_acks(s, p, n).1, n),
    decreases n,
{
    if n > 0 {
        let m = (n - 1) as nat;
        lemma_acks(s, p, m);
        let (t, q) = path_acks(s, p, m);
        let (u, r) = path_ack_step(t, q, m as int);
        assert(t.paths[m as int] == s.paths[m as int]);
        let f = path_ack_of(s, m as int);
        lemma_acks_next(s, t, u, p, q, r, m, f, u.paths[m as int].fields);
    }
}

/// What the stage has done once it went through the first `n` paths.
spec fn abandons_upto(s: SenderView, t: SenderView, p: PackingView, q: PackingView, n: nat) -> bool {
    &&& extends(p, q) && conserves(p, q) && marks_added(p, q)
    &&& t == (SenderView { paths: t.paths, ..s })
    &&& t.paths.len() == s.paths.len()
    &&& forall|i: int|
        0 <= i < s.paths.len() ==> (#[trigger] t.paths[i]).need_ack == s.paths[i].need_ack
            && t.paths[i].fields == (PathFields {
            abandon: t.paths[i].fields.abandon,
            ..s.paths[i].fields
        })
    &&& forall|i: int| n <= i < s.paths.len() ==> #[trigger] t.paths[i] == s.paths[i]
    &&& forall|i: int| 0 <= i < n ==> #[trigger] abandon_done(s, t, p, q, i)
    &&& forall|k: int|
        p.frames.len() <= k < q.frames.len() ==> some_abandons(s, n, #[trigger] q.frames[k])
}

/// What the stage does on one path.
spec fn abandons_step(
    s: SenderView,
    t: SenderView,
    u: SenderView,
    q: PackingView,
    r: PackingView,
    m: nat,
    f: FrameView,
    x: PathFields,
) -> bool {
    if abandons_due(s, m as int, f) && f.wire_len() <= q.fields.left {
        &&& u == t.with_path(m as int, x)
        &&& x == (PathFields { abandon: x.abandon, ..s.paths[m as int].fields })
        &&& !x.abandon.pending && x.abandon == (AbandonState {
                    pending: false,
                    sent: true,
                    ..s.paths[m as int].fields.abandon
                })
        &&& r == q.with(f).eliciting()
    } else {
        u == t && r == q
    }
}

/// One more path.
proof fn lemma_abandons_next(
    s: SenderView,
    t: SenderView,
    u: SenderView,
    p: PackingView,
    q: PackingView,
    r: PackingView,
    m: nat,
    f: FrameView,
    x: PathFields,
)
    requires
        m < s.paths.len(),
        abandons_upto(s, t, p, q, m),
        abandons_step(s, t, u, q, r, m, f, x),
        abandons_due(s, m as int, f) || !abandons_pending(s, m as int),
    ensures
        abandons_upto(s, u, p, r, m + 1),
{
    if r != q {
        assert(r.frames == q.frames.push(f));
        lemma_added_one(q, r, f);
    }
    lemma_added_stays(p, q, r, f);
    assert(t.paths[m as int] == s.paths[m as int]);
    assert forall|i: int| 0 <= i < m + 1 implies #[trigger] abandon_done(s, u, p, r, i) by {
        if i < m {
            assert(abandon_done(s, t, p, q, i));
            assert(u.paths[i] == t.paths[i]);
            lemma_added_stays(p, q, r, path_abandon_of(s, i));
        }
    }
    assert forall|k: int| p.frames.len() <= k < r.frames.len() implies some_abandons(
        s,
        m + 1,
        #[trigger] r.frames[k],
    ) by {
        if k < q.frames.len() {
            assert(r.frames[k] == q.frames[k]);
            assert(some_abandons(s, m, q.frames[k]));
            let i = choose|i: int| 0 <= i < m && #[trigger] abandons_due(s, i, q.frames[k]);
            assert(abandons_due(s, i, r.frames[k]));
        } else {
            assert(abandons_due(s, m as int, r.frames[k]));
        }
    }
}

/// What the stage does on the first `n` paths.
proof fn lemma_abandons(s: SenderView, p: PackingView, n: nat)
    requires
        n <= s.paths.len(),
    ensures
        abandons_upto(s, path_abandons(s, p, n).0, p, path_abandons(s, p, n).1, n),
    decreases n,
{
    if n > 0 {
        let m = (n - 1) as nat;
        lemma_abandons(s, p, m);
        let (t, q) = path_abandons(s, p, m);
        let (u, r) = abandon_step(t, q, m as int);
        assert(t.paths[m as int] == s.paths[m as int]);
        let f = path_abandon_of(s, m as int);
        lemma_abandons_next(s, t, u, p, q, r, m, f, u.paths[m as int].fields);
    }
}

/// What the stage has done once it went through the first `n` paths.
spec fn statuses_upto(s: SenderView, t: SenderView, p: PackingView, q: PackingView, n: nat) -> bool {
    &&& extends(p, q) && conserves(p, q) && marks_added(p, q)
    &&& t == (SenderView { paths: t.paths, ..s })
    &&& t.paths.len() == s.paths.len()
    &&& forall|i: int|
        0 <= i < s.paths.len() ==> (#[trigger] t.paths[i]).need_ack == s.paths[i].need_ack
            && t.paths[i].fields == (PathFields {
            status: t.paths[i].fields.status,
            ..s.paths[i].fields
        })
    &&& forall|i: int| n <= i < s.paths.len() ==> #[trigger] t.paths[i] == s.paths[i]
    &&& forall|i: int| 0 <= i < n ==> #[trigger] status_done(s, t, p, q, i)
    &&& forall|k: int|
        p.frames.len() <= k < q.frames.len() ==> some_statuses(s, n, #[trigger] q.frames[k])
}

/// What the stage does on one path.
spec fn statuses_step(
    s: SenderView,
    t: SenderView,
    u: SenderView,
    q: PackingView,
    r: PackingView,
    m: nat,
    f: FrameView,
    x: PathFields,
) -> bool {
    if statuses_due(s, m as int, f) && f.wire_len() <= q.fields.left {
        &&& u == t.with_path(m as int, x)
        &&& x == (PathFields { status: x.status, ..s.paths[m as int].fields })
        &&& !x.status.pending && x.status == (StatusState {
                    pending: false,
                    ..s.paths[m as int].fields.status
                })
        &&& r == q.with(f).eliciting()
    } else {
        u == t && r == q
    }
}

/// One more path.
proof fn lemma_statuses_next(
    s: SenderView,
    t: SenderView,
    u: SenderView,
    p: PackingView,
    q: PackingView,
    r: PackingView,
    m: nat,
    f: FrameView,
    x: PathFields,
)
    requires
        m < s.paths.len(),
        statuses_upto(s, t, p, q, m),
        statuses_step(s, t, u, q, r, m, f, x),
        statuses_due(s, m as int, f) || !statuses_pending(s, m as int),
    ensures
        statuses_upto(s, u, p, r, m + 1),
{
    if r != q {
        assert(r.frames == q.frames.push(f));
        lemma_added_one(q, r, f);
    }
    lemma_added_stays(p, q, r, f);
    assert(t.paths[m as int] == s.paths[m as int]);
    assert forall|i: int| 0 <= i < m + 1 implies #[trigger] status_done(s, u, p, r, i) by {
        if i < m {
            assert(status_done(s, t, p, q, i));
            assert(u.paths[i] == t.paths[i]);
            lemma_added_stays(p, q, r, status_of(s.paths[i].fields));
        }
    }
    assert forall|k: int| p.frames.len() <= k < r.frames.len() implies some_statuses(
        s,
        m + 1,
        #[trigger] r.frames[k],
    ) by {
        if k < q.frames.len() {
            assert(r.frames[k] == q.frames[k]);
            assert(some_statuses(s, m, q.frames[k]));
            let i = choose|i: int| 0 <= i < m && #[trigger] statuses_due(s, i, q.frames[k]);
            assert(statuses_due(s, i, r.frames[k]));
        } else {
            assert(statuses_due(s, m as int, r.frames[k]));
        }
    }
}

/// What the stage does on the first `n` paths.
proof fn lemma_statuses(s: SenderView, p: PackingView, n: nat)
    requires
        n <= s.paths.len(),
    ensures
        statuses_upto(s, path_statuses(s, p, n).0, p, path_statuses(s, p, n).1, n),
    decreases n,
{
    if n > 0 {
        let m = (n - 1) as nat;
        lemma_statuses(s, p, m);
        let (t, q) = path_statuses(s, p, m);
        let (u, r) = status_step(t, q, m as int);
        assert(t.paths[m as int] == s.paths[m as int]);
        let f = status_of(s.paths[m as int].fields);
        lemma_status_step(t, q, m as int);
        lemma_statuses_next(s, t, u, p, q, r, m, f, u.paths[m as int].fields);
    }
}

/// What becomes of the queued PATH_ABANDON frames: each is added or stays queued.
proof fn lemma_queue(queue: Seq<(u64, u64)>, p: PackingView)
    ensures
        ({
            let (kept, q) = queued_abandons(queue, p);
            &&& extends(p, q) && conserves(p, q) && marks_added(p, q)
            &&& forall|k: int|
                p.frames.len() <= k < q.frames.len() ==> some_queued(queue, #[trigger] q.frames[k])
            &&& forall|j: int|
                0 <= j < queue.len() ==> #[trigger] queue_done(queue, kept, p, q, j)
            &&& forall|m: int| 0 <= m < kept.len() ==> queue.contains(#[trigger] kept[m])
        }),
    decreases queue.len(),
{
    if queue.len() > 0 {
        let front = queue.drop_last();
        lemma_queue(front, p);
        let (kept, q) = queued_abandons(front, p);
        let (kept2, r) = queued_abandons(queue, p);
        let n = queue.len() - 1;
        let f = FrameView::PathAbandon { path_id: queue[n].0, error_code: queue[n].1 };
        if r != q {
            lemma_added_one(q, r, f);
        }
        lemma_added_stays(p, q, r, f);
        assert forall|k: int| p.frames.len() <= k < r.frames.len() implies some_queued(
            queue,
            #[trigger] r.frames[k],
        ) by {
            if k < q.frames.len() {
                assert(r.frames[k] == q.frames[k]);
                assert(some_queued(front, q.frames[k]));
                let j = choose|j: int|
                    0 <= j < front.len() && #[trigger] queue_due(front, j, q.frames[k]);
                assert(queue[j] == front[j]);
                assert(queue_due(queue, j, r.frames[k]));
            } else {
                assert(queue_due(queue, n, r.frames[k]));
            }
        }
        assert forall|j: int| 0 <= j < queue.len() implies #[trigger] queue_done(
            queue,
            kept2,
            p,
            r,
            j,
        ) by {
            let g = FrameView::PathAbandon { path_id: queue[j].0, error_code: queue[j].1 };
            if j < n {
                assert(queue[j] == front[j]);
                assert(queue_done(front, kept, p, q, j));
                lemma_added_stays(p, q, r, g);
                if kept.contains(front[j]) {
                    let m = choose|m: int| 0 <= m < kept.len() && kept[m] == front[j];
                    assert(kept2[m] == kept[m]);
                }
            } else if r == q {
                assert(kept2[kept.len() as int] == queue[n]);
            }
        }
        assert forall|m: int| 0 <= m < kept2.len() implies queue.contains(#[trigger] kept2[m]) by {
            if m < kept.len() {
                assert(kept2[m] == kept[m]);
                let j = choose|j: int| 0 <= j < front.len() && front[j] == kept[m];
                assert(queue[j] == kept2[m]);
            } else {
                assert(queue[n] == kept2[m]);
            }
        }
    }
}

/// Whether a frame is the PATH_ABANDON frame of a queued path ID.
pub open spec fn queue_due(queue: Seq<(u64, u64)>, j: int, f: FrameView) -> bool {
    f == (FrameView::PathAbandon { path_id: queue[j].0, error_code: queue[j].1 })
}

/// Whether a queued PATH_ABANDON frame was added, or had no room and stays queued.
pub open spec fn queue_done(
    queue: Seq<(u64, u64)>,
    kept: Seq<(u64, u64)>,
    p: PackingView,
    q: PackingView,
    j: int,
) -> bool {
    let f = FrameView::PathAbandon { path_id: queue[j].0, error_code: queue[j].1 };
    was_added(p, q, f) || (kept.contains(queue[j]) && f.wire_len() > q.fields.left)
}

/// Whether a frame about how many paths there can be is due.
pub open spec fn limit_due(l: PathLimits, f: FrameView) -> bool {
    match f {
        FrameView::PathsBlocked { path_id } => l.paths_blocked_pending == Some(path_id),
        FrameView::PathCidsBlocked { path_id, seq_num } => l.cids_blocked_path == Some(path_id)
            && seq_num == l.cids_blocked_seq,
        FrameView::MaxPathId { path_id } => l.max_path_id_pending == Some(path_id),
        _ => false,
    }
}

/// Whether each frame about how many paths there can be that was due was added, or had
/// no room and stays pending. A MAX_PATH_ID frame that was added is the latest one, and
/// is not acknowledged.
pub open spec fn limits_done(
    l: PathLimits,
    m: PathLimits,
    p: PackingView,
    q: PackingView,
) -> bool {
    &&& m.cids_blocked_seq == l.cids_blocked_seq
    &&& match l.paths_blocked_pending {
        Some(path_id) => (m.paths_blocked_pending is None && was_added(
            p,
            q,
            FrameView::PathsBlocked { path_id },
        )) || (m.paths_blocked_pending == l.paths_blocked_pending && (FrameView::PathsBlocked {
            path_id,
        }).wire_len() > q.fields.left),
        None => m.paths_blocked_pending is None,
    }
    &&& match l.cids_blocked_path {
        Some(path_id) => (m.cids_blocked_path is None && was_added(
            p,
            q,
            FrameView::PathCidsBlocked { path_id, seq_num: l.cids_blocked_seq },
        )) || (m.cids_blocked_path == l.cids_blocked_path && (FrameView::PathCidsBlocked {
            path_id,
            seq_num: l.cids_blocked_seq,
        }).wire_len() > q.fields.left),
        None => m.cids_blocked_path is None,
    }
    &&& match l.max_path_id_pending {
        Some(path_id) => (m.max_path_id_pending is None && m.max_path_id_sent == Some(path_id)
            && !m.max_path_id_acked && was_added(p, q, FrameView::MaxPathId { path_id })) || (
        m.max_path_id_pending == l.max_path_id_pending && m.max_path_id_sent == l.max_path_id_sent
            && m.max_path_id_acked == l.max_path_id_acked && (FrameView::MaxPathId {
            path_id,
        }).wire_len() > q.fields.left),
        None => m.max_path_id_pending is None && m.max_path_id_sent == l.max_path_id_sent
            && m.max_path_id_acked == l.max_path_id_acked,
    }
}

/// What becomes of the frames about how many paths there can be.
proof fn lemma_limits(l: PathLimits, p: PackingView)
    ensures
        ({
            let (m, q) = limits_stage(l, p);
            &&& extends(p, q) && conserves(p, q) && marks_added(p, q)
            &&& limits_done(l, m, p, q)
            &&& forall|k: int|
                p.frames.len() <= k < q.frames.len() ==> limit_due(l, #[trigger] q.frames[k])
        }),
{
    let (l1, p1) = paths_blocked_stage(l, p);
    let (l2, p2) = cids_blocked_stage(l1, p1);
    let (m, q) = max_path_id_stage(l2, p2);
    let f1 = FrameView::PathsBlocked { path_id: l.paths_blocked_pending.unwrap() };
    let f2 = FrameView::PathCidsBlocked {
        path_id: l.cids_blocked_path.unwrap(),
        seq_num: l.cids_blocked_seq,
    };
    let f3 = FrameView::MaxPathId { path_id: l.max_path_id_pending.unwrap() };
    if l1 != l {
        lemma_added_one(p, p1, f1);
    }
    if l2 != l1 {
        lemma_added_one(p1, p2, f2);
    }
    if q != p2 {
        lemma_added_one(p2, q, f3);
    }
    lemma_added_stays(p, p1, p2, f1);
    lemma_added_stays(p, p1, p2, f2);
    lemma_added_stays(p, p2, q, f1);
    lemma_added_stays(p, p2, q, f2);
    lemma_added_stays(p, p2, q, f3);
    assert forall|k: int| p.frames.len() <= k < q.frames.len() implies limit_due(
        l,
        #[trigger] q.frames[k],
    ) by {
        if k < p1.frames.len() {
            assert(q.frames[k] == f1);
        } else if k < p2.frames.len() {
            assert(q.frames[k] == f2);
        } else {
            assert(q.frames[k] == f3);
        }
    }
}

/// The ACK frame: all there is to acknowledge, and the delay since the last packet,
/// scaled.
pub open spec fn ack_of(s: SenderView, elapsed_micros: u64) -> FrameView {
    FrameView::ACK {
        ack_delay: (elapsed_micros as nat / pow2(s.conn.config.ack_delay_exponent as nat)) as u64,
        ranges: s.need_ack,
        ecn_counts: None,
    }
}

/// Whether an ACK frame is due on a path: there is something to acknowledge, packets
/// elicited it or a PING is to be sent that both have congestion window space for, data
/// can be sent on the path, and the connection is not being closed, but by the
/// application during the handshake.
pub open spec fn ack_due(s: SenderView, pid: int, a: AckInputs) -> bool {
    &&& s.need_ack.len() > 0
    &&& s.conn.ack_elicited || (a.elicit_required && ack_of(s, a.elapsed_micros).wire_len()
        < a.cwnd_available)
    &&& s.paths[pid].fields.can_send
    &&& match s.local_error {
        None => true,
        Some(e) => e.is_app && a.ty == Type::Handshake,
    }
}

/// Whether a frame of the control stage is due.
pub open spec fn control_due(s: SenderView, pid: int, a: AckInputs, f: FrameView) -> bool {
    if f is ACK {
        ack_due(s, pid, a) && f == ack_of(s, a.elapsed_micros)
    } else {
        &&& s.conn.config.multipath_enabled
        &&& a.ty == Type::Short
        &&& path_frame_due(s, f)
    }
}

/// The states and the packets between the frames about paths.
ghost struct Chain {
    s1: SenderView,
    p1: PackingView,
    s2: SenderView,
    p2: PackingView,
    p3: PackingView,
    s3: SenderView,
    s4: SenderView,
    p4: PackingView,
    t: SenderView,
    q: PackingView,
}

/// What holds between them.
spec fn chained(s: SenderView, p: PackingView, c: Chain) -> bool {
    let n = s.paths.len();
    &&& acks_upto(s, c.s1, p, c.p1, n)
    &&& abandons_upto(c.s1, c.s2, c.p1, c.p2, n)
    &&& extends(c.p2, c.p3) && conserves(c.p2, c.p3) && marks_added(c.p2, c.p3)
    &&& c.s3 == (SenderView { abandon_queue: c.s3.abandon_queue, ..c.s2 })
    &&& forall|k: int|
        c.p2.frames.len() <= k < c.p3.frames.len() ==> some_queued(
            s.abandon_queue,
            #[trigger] c.p3.frames[k],
        )
    &&& forall|j: int|
        0 <= j < s.abandon_queue.len() ==> #[trigger] queue_done(
            s.abandon_queue,
            c.s3.abandon_queue,
            c.p2,
            c.p3,
            j,
        )
    &&& forall|m: int|
        0 <= m < c.s3.abandon_queue.len() ==> s.abandon_queue.contains(
            #[trigger] c.s3.abandon_queue[m],
        )
    &&& statuses_upto(c.s3, c.s4, c.p3, c.p4, n)
    &&& extends(c.p4, c.q) && conserves(c.p4, c.q) && marks_added(c.p4, c.q)
    &&& limits_done(s.conn.limits, c.t.conn.limits, c.p4, c.q)
    &&& forall|k: int|
        c.p4.frames.len() <= k < c.q.frames.len() ==> limit_due(
            s.conn.limits,
            #[trigger] c.q.frames[k],
        )
    &&& c.t == c.s4.with_conn(ConnFields { limits: c.t.conn.limits, ..c.s4.conn })
}

/// The packets only grow.
spec fn grows(p: PackingView, c: Chain) -> bool {
    &&& extends(p, c.p1) && extends(p, c.p2) && extends(p, c.p3) && extends(p, c.p4)
    &&& extends(c.p1, c.q) && extends(c.p2, c.q) && extends(c.p3, c.q) && extends(c.p4, c.q)
    &&& extends(p, c.q)
}

/// The frames about paths come in this order.
proof fn lemma_chain(s: SenderView, p: PackingView) -> (c: Chain)
    ensures
        chained(s, p, c),
        grows(p, c),
        path_stage(s, p) == (c.t, c.q),
{
    reveal(path_stage);
    let n = s.paths.len();
    let (s1, p1) = path_acks(s, p, n);
    lemma_acks(s, p, n);
    let (s2, p2) = path_abandons(s1, p1, n);
    lemma_abandons(s1, p1, n);
    let (kept, p3) = queued_abandons(s2.abandon_queue, p2);
    lemma_queue(s2.abandon_queue, p2);
    let s3 = SenderView { abandon_queue: kept, ..s2 };
    let (s4, p4) = path_statuses(s3, p3, n);
    lemma_statuses(s3, p3, n);
    let (l, q) = limits_stage(s4.conn.limits, p4);
    lemma_limits(s4.conn.limits, p4);
    let t = path_stage(s, p).0;
    let any = FrameView::HandshakeDone;
    lemma_added_stays(p, p1, p2, any);
    lemma_added_stays(p, p2, p3, any);
    lemma_added_stays(p, p3, p4, any);
    lemma_added_stays(p, p4, q, any);
    lemma_added_stays(p3, p4, q, any);
    lemma_added_stays(p2, p3, q, any);
    lemma_added_stays(p1, p2, q, any);
    Chain { s1, p1, s2, p2, p3, s3, s4, p4, t, q }
}

/// What stays as it is.
proof fn lemma_chain_state(s: SenderView, p: PackingView, c: Chain)
    requires
        chained(s, p, c),
    ensures
        c.t == (SenderView {
            paths: c.t.paths,
            abandon_queue: c.t.abandon_queue,
            conn: ConnFields { limits: c.t.conn.limits, ..s.conn },
            ..s
        }),
        c.t.paths.len() == s.paths.len(),
        c.t.paths == c.s4.paths,
        c.t.abandon_queue == c.s3.abandon_queue,
{
}

/// What becomes of one path.
proof fn lemma_chain_path(s: SenderView, p: PackingView, c: Chain, i: int)
    requires
        chained(s, p, c),
        grows(p, c),
        0 <= i < s.paths.len(),
    ensures
        c.t.paths[i].need_ack == s.paths[i].need_ack,
        c.t.paths[i].fields == (PathFields {
            ack_elicited: c.t.paths[i].fields.ack_elicited,
            abandon: c.t.paths[i].fields.abandon,
            status: c.t.paths[i].fields.status,
            ..s.paths[i].fields
        }),
        ack_done(s, c.t, p, c.q, i),
        abandon_done(s, c.t, p, c.q, i),
        status_done(s, c.t, p, c.q, i),
{
    lemma_chain_state(s, p, c);
    let x = s.paths[i].fields;
    assert(c.s1.paths[i].fields == (PathFields {
        ack_elicited: c.s1.paths[i].fields.ack_elicited,
        ..x
    }));
    assert(c.s2.paths[i].fields == (PathFields {
        abandon: c.s2.paths[i].fields.abandon,
        ..c.s1.paths[i].fields
    }));
    assert(c.s4.paths[i].fields == (PathFields {
        status: c.s4.paths[i].fields.status,
        ..c.s2.paths[i].fields
    }));
    assert(ack_done(s, c.s1, p, c.p1, i));
    assert(abandon_done(c.s1, c.s2, c.p1, c.p2, i));
    assert(status_done(c.s3, c.s4, c.p3, c.p4, i));
    lemma_added_stays(p, c.p1, c.q, path_ack_of(s, i));
    lemma_added_stays(c.p1, c.p2, c.q, path_abandon_of(s, i));
    lemma_added_stays(p, c.p1, c.q, path_abandon_of(s, i));
    lemma_added_stays(c.p3, c.p4, c.q, status_of(x));
    lemma_added_stays(p, c.p3, c.q, status_of(x));
}

/// What becomes of what is pending for the connection.
proof fn lemma_chain_connection(s: SenderView, p: PackingView, c: Chain, j: int)
    requires
        chained(s, p, c),
        grows(p, c),
    ensures
        0 <= j < s.abandon_queue.len() ==> queue_done(
            s.abandon_queue,
            c.t.abandon_queue,
            p,
            c.q,
            j,
        ),
        0 <= j < c.t.abandon_queue.len() ==> s.abandon_queue.contains(c.t.abandon_queue[j]),
        limits_done(s.conn.limits, c.t.conn.limits, p, c.q),
{
    lemma_chain_state(s, p, c);
    if 0 <= j < s.abandon_queue.len() {
        assert(queue_done(s.abandon_queue, c.s3.abandon_queue, c.p2, c.p3, j));
        let f = FrameView::PathAbandon {
            path_id: s.abandon_queue[j].0,
            error_code: s.abandon_queue[j].1,
        };
        lemma_added_stays(c.p2, c.p3, c.q, f);
        lemma_added_stays(p, c.p2, c.q, f);
    }
    if 0 <= j < c.t.abandon_queue.len() {
        assert(s.abandon_queue.contains(c.s3.abandon_queue[j]));
    }
    lemma_limits_lift(s.conn.limits, c.t.conn.limits, p, c.p4, c.q);
}

/// What was pending of the limits is dealt with, whatever came before it.
proof fn lemma_limits_lift(
    l: PathLimits,
    m: PathLimits,
    p: PackingView,
    r: PackingView,
    q: PackingView,
)
    requires
        extends(p, r),
        extends(r, q),
        limits_done(l, m, r, q),
    ensures
        limits_done(l, m, p, q),
{
    let f1 = FrameView::PathsBlocked { path_id: l.paths_blocked_pending.unwrap() };
    let f2 = FrameView::PathCidsBlocked {
        path_id: l.cids_blocked_path.unwrap(),
        seq_num: l.cids_blocked_seq,
    };
    let f3 = FrameView::MaxPathId { path_id: l.max_path_id_pending.unwrap() };
    lemma_added_stays(p, r, q, f1);
    lemma_added_stays(p, r, q, f2);
    lemma_added_stays(p, r, q, f3);
}

/// Each frame that was added was due.
proof fn lemma_chain_due(s: SenderView, p: PackingView, c: Chain, k: int)
    requires
        chained(s, p, c),
        grows(p, c),
        p.frames.len() <= k < c.q.frames.len(),
    ensures
        path_frame_due(s, c.q.frames[k]),
        acknowledges(c.q.frames[k]) == (k < c.p1.frames.len()),
        !(c.q.frames[k] is ACK),
{
    let f = c.q.frames[k];
    let n = s.paths.len();
    if k < c.p1.frames.len() {
        assert(c.p1.frames[k] == f);
        assert(some_acks(s, n, c.p1.frames[k]));
    } else if k < c.p2.frames.len() {
        assert(c.p2.frames[k] == f);
        assert(some_abandons(c.s1, n, c.p2.frames[k]));
        let i = choose|i: int| 0 <= i < n && #[trigger] abandons_due(c.s1, i, f);
        assert(c.s1.paths[i].need_ack == s.paths[i].need_ack);
        assert(abandons_due(s, i, f));
    } else if k < c.p3.frames.len() {
        assert(c.p3.frames[k] == f);
        assert(some_queued(s.abandon_queue, c.p3.frames[k]));
    } else if k < c.p4.frames.len() {
        assert(c.p4.frames[k] == f);
        assert(some_statuses(c.s3, n, c.p4.frames[k]));
        let i = choose|i: int| 0 <= i < n && #[trigger] statuses_due(c.s3, i, f);
        assert(c.s1.paths[i].need_ack == s.paths[i].need_ack);
        assert(c.s2.paths[i].need_ack == c.s1.paths[i].need_ack);
        lemma_status_step(s, p, i);
        assert(statuses_due(s, i, f));
    } else {
        assert(limit_due(s.conn.limits, c.q.frames[k]));
    }
}

/// How the packet is marked.
proof fn lemma_chain_marks(s: SenderView, p: PackingView, c: Chain)
    requires
        chained(s, p, c),
        grows(p, c),
    ensures
        conserves(p, c.q),
        marks_elicited(p, c.q),
{
    let q = c.q;
    assert forall|k: int| p.frames.len() <= k < q.frames.len() implies acknowledges(
        #[trigger] q.frames[k],
    ) == (k < c.p1.frames.len()) by {
        lemma_chain_due(s, p, c, k);
    }
    if q.frames.len() > c.p1.frames.len() {
        assert(!acknowledges(q.frames[c.p1.frames.len() as int]));
    }
}

/// What the frames about paths do to the packet and to what stays as it is.
proof fn lemma_path_frames(s: SenderView, p: PackingView)
    ensures
        ({
            let (t, q) = path_stage(s, p);
            &&& extends(p, q) && conserves(p, q) && marks_elicited(p, q)
            &&& t.paths.len() == s.paths.len()
            &&& t == (SenderView {
                paths: t.paths,
                abandon_queue: t.abandon_queue,
                conn: ConnFields { limits: t.conn.limits, ..s.conn },
                ..s
            })
            &&& forall|k: int|
                p.frames.len() <= k < q.frames.len() ==> path_frame_due(s, #[trigger] q.frames[k])
                    && !(q.frames[k] is ACK)
        }),
{
    let c = lemma_chain(s, p);
    lemma_chain_state(s, p, c);
    lemma_chain_marks(s, p, c);
    assert forall|k: int| p.frames.len() <= k < c.q.frames.len() implies path_frame_due(
        s,
        #[trigger] c.q.frames[k],
    ) && !(c.q.frames[k] is ACK) by {
        lemma_chain_due(s, p, c, k);
    }
}

/// What the ACK frame does to the state and to the packet.
proof fn lemma_ack_frame(s: SenderView, p: PackingView, pid: int, a: AckInputs)
    ensures
        ({
            let (t, q) = ack_stage(s, p, pid, a);
            let f = ack_of(s, a.elapsed_micros);
            &&& extends(p, q) && conserves(p, q) && marks_kept(p, q)
            &&& if ack_due(s, pid, a) && f.wire_len() <= p.fields.left {
                t == s.with_conn(ConnFields { ack_elicited: false, ..s.conn }) && q.frames
                    == p.frames.push(f)
            } else {
                t == s && q == p
            }
        }),
{
    reveal(ack_stage);
    let (t, q) = ack_stage(s, p, pid, a);
    if q != p {
        lemma_added_one(p, q, ack_of(s, a.elapsed_micros));
    }
}

/// Every frame that the control stage adds is due: it acknowledges what there is to
/// acknowledge, or tells the peer something about a path that is pending, as it is.
pub proof fn law_control_frames_are_due(
    s: SenderView,
    p: PackingView,
    pid: int,
    a: AckInputs,
    k: int,
)
    requires
        p.frames.len() <= k < control_stage(s, p, pid, a).1.frames.len(),
    ensures
        control_due(s, pid, a, control_stage(s, p, pid, a).1.frames[k]),
{
    lemma_ack_frame(s, p, pid, a);
    let (s1, p1) = ack_stage(s, p, pid, a);
    let multipath = s1.conn.config.multipath_enabled && a.ty == Type::Short;
    lemma_path_frames(s1, p1);
    let q = control_stage(s, p, pid, a).1;
    let f = q.frames[k];
    if k < p1.frames.len() {
        if multipath {
            assert(path_stage(s1, p1).1.frames[k] == p1.frames[k]);
        }
    } else {
        assert(path_stage(s1, p1).1.frames[k] == f);
        assert(path_frame_due(s1, f));
        let n = s.paths.len();
        if some_acks(s1, n, f) {
            let i = choose|i: int| 0 <= i < n && #[trigger] acks_due(s1, i, f);
            assert(acks_due(s, i, f));
        } else if some_abandons(s1, n, f) {
            let i = choose|i: int| 0 <= i < n && #[trigger] abandons_due(s1, i, f);
            assert(abandons_due(s, i, f));
        } else if some_statuses(s1, n, f) {
            let i = choose|i: int| 0 <= i < n && #[trigger] statuses_due(s1, i, f);
            lemma_status_step(s, p, i);
            assert(statuses_due(s, i, f));
        }
    }
}

/// An ACK frame that is due and finds room is the first frame that is added, and then
/// none is elicited anymore; otherwise it stays elicited if it was.
pub proof fn law_due_ack_is_sent(s: SenderView, p: PackingView, pid: int, a: AckInputs)
    ensures
        ({
            let (t, q) = control_stage(s, p, pid, a);
            let f = ack_of(s, a.elapsed_micros);
            if ack_due(s, pid, a) && f.wire_len() <= p.fields.left {
                q.frames.len() > p.frames.len() && q.frames[p.frames.len() as int] == f
                    && !t.conn.ack_elicited
            } else {
                t.conn.ack_elicited == s.conn.ack_elicited
            }
        }),
{
    lemma_ack_frame(s, p, pid, a);
    let (s1, p1) = ack_stage(s, p, pid, a);
    lemma_path_frames(s1, p1);
    let k = p.frames.len() as int;
    if k < p1.frames.len() {
        assert(path_stage(s1, p1).1.frames[k] == p1.frames[k]);
    }
}

/// In a 1-RTT packet of a multipath connection whatever is pending about a path is
/// told and is not pending anymore, unless its frame finds no room in what is left of
/// the packet: PATH_ACK of all packets to acknowledge, PATH_ABANDON, and PATH_STATUS, of
/// the type that the application's status asks for, with the path's own ID and sequence
/// number. Nothing else about the path changes.
pub proof fn law_paths_are_told_of(
    s: SenderView,
    p: PackingView,
    pid: int,
    a: AckInputs,
    i: int,
)
    requires
        s.conn.config.multipath_enabled,
        a.ty == Type::Short,
        0 <= i < s.paths.len(),
    ensures
        ({
            let (t, q) = control_stage(s, p, pid, a);
            &&& t.paths.len() == s.paths.len()
            &&& ack_done(s, t, p, q, i)
            &&& abandon_done(s, t, p, q, i)
            &&& status_done(s, t, p, q, i)
            &&& t.paths[i].need_ack == s.paths[i].need_ack
            &&& t.paths[i].fields == (PathFields {
                ack_elicited: t.paths[i].fields.ack_elicited,
                abandon: t.paths[i].fields.abandon,
                status: t.paths[i].fields.status,
                ..s.paths[i].fields
            })
        }),
{
    lemma_ack_frame(s, p, pid, a);
    let (s1, p1) = ack_stage(s, p, pid, a);
    let c = lemma_chain(s1, p1);
    lemma_chain_state(s1, p1, c);
    lemma_chain_path(s1, p1, c, i);
    let (t, q1) = path_stage(s1, p1);
    let q = control_stage(s, p, pid, a).1;
    assert(extends(q1, q));
    lemma_added_stays(p1, q1, q, path_ack_of(s, i));
    lemma_added_stays(p, p1, q, path_ack_of(s, i));
    lemma_added_stays(p1, q1, q, path_abandon_of(s, i));
    lemma_added_stays(p, p1, q, path_abandon_of(s, i));
    assert(path_ack_of(s1, i) == path_ack_of(s, i));
    lemma_added_stays(p1, q1, q, status_of(s.paths[i].fields));
    lemma_added_stays(p, p1, q, status_of(s.paths[i].fields));
}

/// In a 1-RTT packet of a multipath connection each PATH_ABANDON frame that is queued
/// for the connection is added, unless it finds no room and stays queued, and so is
/// each frame about how many paths there can be.
pub proof fn law_connection_is_told_of(s: SenderView, p: PackingView, pid: int, a: AckInputs, j: int)
    requires
        s.conn.config.multipath_enabled,
        a.ty == Type::Short,
    ensures
        ({
            let (t, q) = control_stage(s, p, pid, a);
            &&& 0 <= j < s.abandon_queue.len() ==> queue_done(
                s.abandon_queue,
                t.abandon_queue,
                p,
                q,
                j,
            )
            &&& 0 <= j < t.abandon_queue.len() ==> s.abandon_queue.contains(t.abandon_queue[j])
            &&& limits_done(s.conn.limits, t.conn.limits, p, q)
            &&& t.conn.handshake_done == s.conn.handshake_done && t.conn.flow == s.conn.flow
                && t.conn.stats == s.conn.stats && t.conn.timers == s.conn.timers
                && t.conn.next_pkt_num == s.conn.next_pkt_num && t.conn.config == s.conn.config
            &&& t.ids == s.ids && t.abandoned == s.abandoned && t.need_ack == s.need_ack
                && t.local_error == s.local_error
        }),
{
    lemma_ack_frame(s, p, pid, a);
    let (s1, p1) = ack_stage(s, p, pid, a);
    let c = lemma_chain(s1, p1);
    lemma_chain_state(s1, p1, c);
    lemma_chain_connection(s1, p1, c, j);
    let (t, q1) = path_stage(s1, p1);
    let q = control_stage(s, p, pid, a).1;
    assert(extends(q1, q));
    if 0 <= j < s.abandon_queue.len() {
        let f = FrameView::PathAbandon {
            path_id: s.abandon_queue[j].0,
            error_code: s.abandon_queue[j].1,
        };
        lemma_added_stays(p1, q1, q, f);
        lemma_added_stays(p, p1, q, f);
    }
    lemma_limits_shrink(s.conn.limits, t.conn.limits, p1, q1, q);
    lemma_limits_lift(s.conn.limits, t.conn.limits, p, p1, q);
}

/// What was pending of the limits is dealt with, though the room shrinks afterwards.
proof fn lemma_limits_shrink(
    l: PathLimits,
    m: PathLimits,
    p: PackingView,
    r: PackingView,
    q: PackingView,
)
    requires
        extends(p, r),
        extends(r, q),
        limits_done(l, m, p, r),
    ensures
        limits_done(l, m, p, q),
{
    let f1 = FrameView::PathsBlocked { path_id: l.paths_blocked_pending.unwrap() };
    let f2 = FrameView::PathCidsBlocked {
        path_id: l.cids_blocked_path.unwrap(),
        seq_num: l.cids_blocked_seq,
    };
    let f3 = FrameView::MaxPathId { path_id: l.max_path_id_pending.unwrap() };
    lemma_added_stays(p, r, q, f1);
    lemma_added_stays(p, r, q, f2);
    lemma_added_stays(p, r, q, f3);
}

/// Without multipath, or in another packet than a 1-RTT one, nothing but an ACK frame
/// is added, and nothing about paths changes.
pub proof fn law_other_packets_only_acknowledge(
    s: SenderView,
    p: PackingView,
    pid: int,
    a: AckInputs,
)
    requires
        !s.conn.config.multipath_enabled || a.ty != Type::Short,
    ensures
        ({
            let (t, q) = control_stage(s, p, pid, a);
            &&& t == s.with_conn(ConnFields { ack_elicited: t.conn.ack_elicited, ..s.conn })
            &&& q.frames == p.frames || q.frames == p.frames.push(ack_of(s, a.elapsed_micros))
        }),
{
    lemma_ack_frame(s, p, pid, a);
}

/// What follows the acknowledgements and the frames about paths fits the congestion
/// window together with them, and gets all the room that the buffer and the window
/// leave.
pub proof fn law_congestion_window_is_respected(
    s: SenderView,
    p: PackingView,
    pid: int,
    a: AckInputs,
)
    requires
        p.valid(),
    ensures
        ({
            let q = control_stage(s, p, pid, a).1;
            let used = q.fields.size - p.fields.size;
            &&& used >= 0
            &&& q.fields.left > 0 ==> used + q.fields.left <= a.cwnd_available
            &&& used + q.fields.left <= p.fields.left
            &&& {
                ||| used + q.fields.left == p.fields.left
                ||| used + q.fields.left == a.cwnd_available
                ||| q.fields.left == 0 && used >= a.cwnd_available
            }
        }),
{
    lemma_ack_frame(s, p, pid, a);
    let (s1, p1) = ack_stage(s, p, pid, a);
    lemma_path_frames(s1, p1);
}

/// A packet with acknowledgements alone elicits no acknowledgement and is not in
/// flight; any other frame of the control stage elicits one.
pub proof fn law_only_acknowledgements_elicit_nothing(
    s: SenderView,
    p: PackingView,
    pid: int,
    a: AckInputs,
)
    ensures
        marks_elicited(p, control_stage(s, p, pid, a).1),
{
    lemma_ack_frame(s, p, pid, a);
    let (s1, p1) = ack_stage(s, p, pid, a);
    lemma_path_frames(s1, p1);
    let q = control_stage(s, p, pid, a).1;
    assert forall|k: int| p.frames.len() <= k < p1.frames.len() implies acknowledges(
        #[trigger] q.frames[k],
    ) by {
        assert(q.frames[k] == p1.frames[k]);
    }
    if marks_elicited(p1, q) && exists|k: int|
        p1.frames.len() <= k < q.frames.len() && !acknowledges(#[trigger] q.frames[k]) {
        let k = choose|k: int|
            p1.frames.len() <= k < q.frames.len() && !acknowledges(#[trigger] q.frames[k]);
        assert(!acknowledges(q.frames[k]));
    }
}

} // verus!
