//! What is done about lost frames, and what for.

use crate::cid::model::IdsView;
use crate::error::Error;
use crate::frame::{EcnCounts, FrameView};
use crate::send::deferred::{
    deferred_done, first_with_id, has_path_id, implicitly_retired, is_first_with_id, rearm_abandon,
    rearm_abandons, rearm_blocked, rearm_legacy_retires, rearm_retires, rearm_status,
    rearm_statuses, NewPathOutcome,
};
use crate::send::lost::{lost_frame, DeferredView, LostAction, StreamFacts};
use crate::send::state::{
    AbandonState, ConnFields, FlowState, HandshakeDone, PathFields, PathLimits, SendStats,
    SenderView, StatusState,
};
use vstd::prelude::*;

verus! {

/// Whether a retransmission of `length` bytes was counted: as many more bytes, and one
/// more retransmission.
pub open spec fn counts_one(before: SendStats, after: SendStats, length: usize) -> bool {
    &&& after.stream_retrans_bytes == before.stream_retrans_bytes + length
    &&& after.retrans_count == before.retrans_count + 1
    &&& after.dgram_sent_count == before.dgram_sent_count
    &&& after.sent_count == before.sent_count
    &&& after.sent_bytes == before.sent_bytes
}

/// Whether nothing changed but the counts of the connection and of one path, and the
/// path that stream data was lost on.
pub open spec fn only_counts(s: SenderView, t: SenderView, pid: int, length: usize) -> bool {
    &&& counts_one(s.conn.stats, t.conn.stats, length)
    &&& counts_one(s.paths[pid].fields.stats, t.paths[pid].fields.stats, length)
    &&& t.paths.len() == s.paths.len()
    &&& forall|i: int| 0 <= i < s.paths.len() && i != pid ==> #[trigger] t.paths[i] == s.paths[i]
    &&& t.paths[pid].need_ack == s.paths[pid].need_ack
    &&& t.paths[pid].fields == (PathFields {
        stats: t.paths[pid].fields.stats,
        ..s.paths[pid].fields
    })
    &&& t == (SenderView {
        paths: t.paths,
        conn: ConnFields {
            stats: t.conn.stats,
            pending_reinjection_path: t.conn.pending_reinjection_path,
            ..s.conn
        },
        ..s
    })
}

/// Whether a retransmission can be counted.
pub open spec fn can_be_counted(s: SenderView, pid: int, length: usize) -> bool {
    &&& s.conn.stats.stream_retrans_bytes + length <= u64::MAX
    &&& s.conn.stats.retrans_count < u64::MAX
    &&& s.paths[pid].fields.stats.stream_retrans_bytes + length <= u64::MAX
    &&& s.paths[pid].fields.stats.retrans_count < u64::MAX
}

/// Lost data of the handshake is retransmitted, all of it and nothing else, and is
/// counted on its path and on the connection.
pub proof fn law_lost_handshake_data_is_retransmitted(
    s: SenderView,
    d: DeferredView,
    pid: int,
    offset: u64,
    length: usize,
    facts: StreamFacts,
)
    requires
        0 <= pid < s.paths.len(),
        can_be_counted(s, pid, length),
    ensures
        ({
            let (t, e, action) = lost_frame(
                s,
                d,
                pid,
                FrameView::CryptoHeader { offset, length },
                facts,
            );
            &&& action == (LostAction::RetransmitCrypto { offset, length })
            &&& e == d
            &&& only_counts(s, t, pid, length)
            &&& t.conn.pending_reinjection_path == s.conn.pending_reinjection_path
        }),
{
}

/// Lost data of a stream that still sends is retransmitted, all of it and nothing
/// else, is counted on its path and on the connection, and its path is remembered for
/// reinjection.
pub proof fn law_lost_stream_data_is_retransmitted(
    s: SenderView,
    d: DeferredView,
    pid: int,
    f: (u64, u64, usize, bool),
    facts: StreamFacts,
)
    requires
        0 <= pid < s.paths.len(),
        can_be_counted(s, pid, f.2),
        facts.exists,
        !facts.send_stopped,
    ensures
        ({
            let (stream_id, offset, length, fin) = f;
            let (t, e, action) = lost_frame(
                s,
                d,
                pid,
                FrameView::StreamHeader { stream_id, offset, length, fin },
                facts,
            );
            &&& action == (LostAction::RetransmitStream { stream_id, offset, length, fin })
            &&& e == d
            &&& only_counts(s, t, pid, length)
            &&& t.conn.pending_reinjection_path == Some(s.paths[pid].fields.path_id)
        }),
{
}

/// Lost data of a stream that is gone or was stopped is dropped: it is no longer
/// buffered, and nothing else changes.
pub proof fn law_lost_data_of_closed_stream_is_dropped(
    s: SenderView,
    d: DeferredView,
    pid: int,
    f: (u64, u64, usize, bool),
    facts: StreamFacts,
)
    requires
        !facts.exists || facts.send_stopped,
    ensures
        ({
            let (stream_id, offset, length, fin) = f;
            let (t, e, action) = lost_frame(
                s,
                d,
                pid,
                FrameView::StreamHeader { stream_id, offset, length, fin },
                facts,
            );
            &&& action == LostAction::Nothing
            &&& e == d
            &&& t == s.with_conn(ConnFields { tx_buffered: t.conn.tx_buffered, ..s.conn })
            &&& length <= s.conn.tx_buffered ==> t.conn.tx_buffered + length == s.conn.tx_buffered
            &&& length > s.conn.tx_buffered ==> t.conn.tx_buffered == 0
        }),
{
}

/// A lost frame about a stream is sent again where the stream still needs it:
/// RESET_STREAM always, STOP_SENDING where the final size is not known,
/// MAX_STREAM_DATA where the stream exists. A lost probe of the path MTU failed.
pub proof fn law_lost_stream_frames_are_sent_again(
    s: SenderView,
    d: DeferredView,
    pid: int,
    x: u64,
    y: u64,
    z: u64,
    size: usize,
    facts: StreamFacts,
)
    ensures
        lost_frame(
            s,
            d,
            pid,
            FrameView::ResetStream { stream_id: x, error_code: y, final_size: z },
            facts,
        ) == (s, d, LostAction::ResetStream { stream_id: x, error_code: y, final_size: z }),
        lost_frame(s, d, pid, FrameView::StopSending { stream_id: x, error_code: y }, facts) == (
            s,
            d,
            if facts.exists && !facts.recv_fin {
                LostAction::StopSending { stream_id: x, error_code: y }
            } else {
                LostAction::Nothing
            },
        ),
        lost_frame(s, d, pid, FrameView::MaxStreamData { stream_id: x, max: y }, facts) == (
            s,
            d,
            if facts.exists {
                LostAction::MaxStreamData { stream_id: x }
            } else {
                LostAction::Nothing
            },
        ),
        lost_frame(s, d, pid, FrameView::Ping { mtu_probe: Some(size) }, facts) == (
            s,
            d,
            LostAction::FailedProbe { size },
        ),
{
}

/// The loss of an ACK frame makes the packet number space acknowledge again, and that
/// of a limit on data or streams makes the limit be told again. HANDSHAKE_DONE is sent
/// again unless it was acknowledged, and MAX_PATH_ID unless a later one was sent or it
/// was acknowledged. Nothing else changes.
pub proof fn law_lost_limits_are_told_again(
    s: SenderView,
    d: DeferredView,
    pid: int,
    max: u64,
    ranges: Seq<(u64, u64)>,
    ecn_counts: Option<EcnCounts>,
    facts: StreamFacts,
)
    ensures
        lost_frame(s, d, pid, FrameView::ACK { ack_delay: max, ranges, ecn_counts }, facts) == (
            s.with_conn(ConnFields { ack_elicited: true, ..s.conn }),
            d,
            LostAction::Nothing,
        ),
        lost_frame(s, d, pid, FrameView::MaxData { max }, facts) == (
            s.with_conn(
                ConnFields { flow: FlowState { send_max_data: true, ..s.conn.flow }, ..s.conn },
            ),
            d,
            LostAction::Nothing,
        ),
        lost_frame(s, d, pid, FrameView::MaxStreamsUni { max }, facts) == (
            s.with_conn(
                ConnFields {
                    flow: FlowState { send_max_streams_uni: true, ..s.conn.flow },
                    ..s.conn
                },
            ),
            d,
            LostAction::Nothing,
        ),
        lost_frame(s, d, pid, FrameView::MaxStreamsBidi { max }, facts) == (
            s.with_conn(
                ConnFields {
                    flow: FlowState { send_max_streams_bidi: true, ..s.conn.flow },
                    ..s.conn
                },
            ),
            d,
            LostAction::Nothing,
        ),
        s.conn.handshake_done.acked ==> lost_frame(s, d, pid, FrameView::HandshakeDone, facts) == (
            s,
            d,
            LostAction::Nothing,
        ),
        !s.conn.handshake_done.acked ==> lost_frame(s, d, pid, FrameView::HandshakeDone, facts) == (
            s.with_conn(
                ConnFields {
                    handshake_done: HandshakeDone { sent: false, acked: false },
                    ..s.conn
                },
            ),
            d,
            LostAction::Nothing,
        ),
        s.conn.limits.max_path_id_sent == Some(max) && !s.conn.limits.max_path_id_acked
            ==> lost_frame(s, d, pid, FrameView::MaxPathId { path_id: max }, facts) == (
            s.with_conn(
                ConnFields {
                    limits: PathLimits { max_path_id_pending: Some(max), ..s.conn.limits },
                    ..s.conn
                },
            ),
            d,
            LostAction::Nothing,
        ),
        s.conn.limits.max_path_id_sent != Some(max) || s.conn.limits.max_path_id_acked
            ==> lost_frame(s, d, pid, FrameView::MaxPathId { path_id: max }, facts) == (
            s,
            d,
            LostAction::Nothing,
        ),
{
}

/// A connection ID whose announcement was lost is among those to advertise, after all
/// that were before, and nothing else changes.
pub proof fn law_lost_announcement_is_repeated(
    s: SenderView,
    d: DeferredView,
    pid: int,
    seq_num: u64,
    retire_prior_to: u64,
    conn_id: Seq<u8>,
    reset_token: Seq<u8>,
    facts: StreamFacts,
)
    ensures
        ({
            let (t, e, action) = lost_frame(
                s,
                d,
                pid,
                FrameView::NewConnectionId { seq_num, retire_prior_to, conn_id, reset_token },
                facts,
            );
            let n = s.ids.advertise.len();
            &&& t.ids.advertise.len() == n + 1
            &&& t.ids.advertise[n as int] == seq_num
            &&& t.ids.advertise.contains(seq_num)
            &&& forall|i: int| 0 <= i < n ==> #[trigger] t.ids.advertise[i] == s.ids.advertise[i]
            &&& t == (SenderView {
                ids: IdsView { advertise: t.ids.advertise, ..s.ids },
                ..s
            })
            &&& e == d
            &&& action == LostAction::Nothing
        }),
{
    let t = lost_frame(
        s,
        d,
        pid,
        FrameView::NewConnectionId { seq_num, retire_prior_to, conn_id, reset_token },
        facts,
    ).0;
    assert(t.ids.advertise[s.ids.advertise.len() as int] == seq_num);
}

/// A connection ID of a path whose announcement was lost is among those to advertise,
/// after all that were before, where the path still has it; the peer may have retired
/// it in the meantime. Nothing else changes.
pub proof fn law_lost_path_announcement_is_repeated(
    s: SenderView,
    d: DeferredView,
    pid: int,
    k: (u64, u64),
    retire_prior_to: u64,
    conn_id: Seq<u8>,
    reset_token: u128,
    facts: StreamFacts,
)
    ensures
        ({
            let (path_id, seq_num) = k;
            let (t, e, action) = lost_frame(
                s,
                d,
                pid,
                FrameView::PathNewConnectionId {
                    path_id,
                    seq_num,
                    retire_prior_to,
                    conn_id,
                    reset_token,
                },
                facts,
            );
            let held = exists|i: int|
                0 <= i < s.ids.scids_of(path_id).len() && (#[trigger] s.ids.scids_of(
                    path_id,
                )[i]).seq == seq_num;
            let n = s.ids.mp_advertise.len();
            &&& held ==> t.ids.mp_advertise.len() == n + 1 && t.ids.mp_advertise[n as int] == k
                && t.ids.mp_advertise.contains(k)
            &&& !held ==> t.ids.mp_advertise.len() == n
            &&& forall|i: int|
                0 <= i < n ==> #[trigger] t.ids.mp_advertise[i] == s.ids.mp_advertise[i]
            &&& t == (SenderView {
                ids: IdsView { mp_advertise: t.ids.mp_advertise, ..s.ids },
                ..s
            })
            &&& e == d
            &&& action == LostAction::Nothing
        }),
{
    let t = lost_frame(
        s,
        d,
        pid,
        FrameView::PathNewConnectionId {
            path_id: k.0,
            seq_num: k.1,
            retire_prior_to,
            conn_id,
            reset_token,
        },
        facts,
    ).0;
    if t.ids.mp_advertise.len() > s.ids.mp_advertise.len() {
        assert(t.ids.mp_advertise[s.ids.mp_advertise.len() as int] == k);
    }
}

/// What is done once all lost frames are known is remembered: which paths an abandonment
/// or a status was lost of, which retirements were lost, and whether a frame about
/// blocked paths was. The state does not change yet.
pub proof fn law_lost_path_frames_are_remembered(
    s: SenderView,
    d: DeferredView,
    pid: int,
    path_id: u64,
    n: u64,
    facts: StreamFacts,
)
    ensures
        lost_frame(s, d, pid, FrameView::PathAbandon { path_id, error_code: n }, facts) == (
            s,
            DeferredView { abandon: d.abandon.push(path_id), ..d },
            LostAction::Nothing,
        ),
        lost_frame(s, d, pid, FrameView::PathStatusAvailable { path_id, seq_num: n }, facts) == (
            s,
            DeferredView { status: d.status.push((path_id, n)), ..d },
            LostAction::Nothing,
        ),
        lost_frame(s, d, pid, FrameView::PathStatusBackup { path_id, seq_num: n }, facts) == (
            s,
            DeferredView { status: d.status.push((path_id, n)), ..d },
            LostAction::Nothing,
        ),
        lost_frame(s, d, pid, FrameView::PathRetireConnectionId { path_id, seq_num: n }, facts) == (
            s,
            DeferredView { retire: d.retire.push((path_id, n)), ..d },
            LostAction::Nothing,
        ),
        lost_frame(s, d, pid, FrameView::RetireConnectionId { seq_num: n }, facts) == (
            s,
            DeferredView { legacy_retire: d.legacy_retire.push(n), ..d },
            LostAction::Nothing,
        ),
        lost_frame(s, d, pid, FrameView::PathsBlocked { path_id }, facts) == (
            s,
            DeferredView { paths_blocked: true, ..d },
            LostAction::Nothing,
        ),
        lost_frame(s, d, pid, FrameView::PathCidsBlocked { path_id, seq_num: n }, facts) == (
            s,
            DeferredView { cids_blocked: true, ..d },
            LostAction::Nothing,
        ),
{
}

/// Nothing is done about the loss of any other frame.
pub proof fn law_other_lost_frames_are_let_go(
    s: SenderView,
    d: DeferredView,
    pid: int,
    f: FrameView,
    facts: StreamFacts,
)
    requires
        f is Padding || f is PathChallenge || f is PathResponse || f is ConnectionClose
            || f is ApplicationClose || f is DatagramHeader || f is PathAck || f is DataBlocked
            || f is StreamDataBlocked || f == (FrameView::Ping { mtu_probe: None }),
    ensures
        lost_frame(s, d, pid, f, facts) == (s, d, LostAction::Nothing),
{
}

/// Whether a path is the first one with its path ID.
pub open spec fn is_first(s: SenderView, i: int) -> bool {
    &&& 0 <= i < s.paths.len()
    &&& forall|j: int|
        0 <= j < i ==> (#[trigger] s.paths[j]).fields.path_id != s.paths[i].fields.path_id
}

/// Whether some path has a path ID.
pub open spec fn has_path(s: SenderView, id: u64) -> bool {
    exists|i: int| 0 <= i < s.paths.len() && (#[trigger] s.paths[i]).fields.path_id == id
}

/// Some path with a path ID is the first one.
proof fn lemma_some_first(s: SenderView, id: u64, i: int)
    requires
        0 <= i < s.paths.len(),
        s.paths[i].fields.path_id == id,
    ensures
        is_first_with_id(s.paths, id, first_with_id(s.paths, id)),
        has_path_id(s.paths, id),
    decreases i,
{
    if exists|j: int| 0 <= j < i && (#[trigger] s.paths[j]).fields.path_id == id {
        let j = choose|j: int| 0 <= j < i && (#[trigger] s.paths[j]).fields.path_id == id;
        lemma_some_first(s, id, j);
    } else {
        assert(is_first_with_id(s.paths, id, i));
    }
}

/// The first path with a path ID is known by its position.
proof fn lemma_first(s: SenderView, id: u64, i: int)
    requires
        is_first(s, i),
        s.paths[i].fields.path_id == id,
    ensures
        first_with_id(s.paths, id) == i,
        has_path_id(s.paths, id),
{
    lemma_some_first(s, id, i);
    let c = first_with_id(s.paths, id);
    if i < c {
        assert(s.paths[i].fields.path_id != id);
    }
}

/// Whether a queue names a path ID.
pub open spec fn queued(queue: Seq<(u64, u64)>, id: u64) -> bool {
    exists|k: int| 0 <= k < queue.len() && (#[trigger] queue[k]).0 == id
}

/// What becomes of the abandonment of a path: it is to be told where it was, or where a
/// frame was lost that tells it and none was acknowledged.
pub open spec fn abandon_rearmed(s: SenderView, t: SenderView, lost: Seq<u64>, i: int) -> bool {
    let x = s.paths[i].fields;
    &&& t.paths[i].need_ack == s.paths[i].need_ack
    &&& t.paths[i].fields == (PathFields {
        abandon: AbandonState {
            pending: x.abandon.pending || (!x.abandon.acked && is_first(s, i) && lost.contains(
                x.path_id,
            )),
            ..x.abandon
        },
        ..x
    })
}

/// What becomes of the status of a path: it is to be told where it was, or where the
/// latest frame that tells it was lost and not acknowledged.
pub open spec fn status_rearmed(
    s: SenderView,
    t: SenderView,
    lost: Seq<(u64, u64)>,
    i: int,
) -> bool {
    let x = s.paths[i].fields;
    &&& t.paths[i].need_ack == s.paths[i].need_ack
    &&& t.paths[i].fields == (PathFields {
        status: StatusState {
            pending: x.status.pending || (!x.status.acked && is_first(s, i) && lost.contains(
                (x.path_id, x.status.seq_num),
            )),
            ..x.status
        },
        ..x
    })
}

/// Whether some more of a sequence contains an element.
proof fn lemma_contains_last<T>(q: Seq<T>, x: T)
    requires
        q.len() > 0,
    ensures
        q.contains(x) == (q.drop_last().contains(x) || q.last() == x),
{
    let front = q.drop_last();
    if front.contains(x) {
        let k = choose|k: int| 0 <= k < front.len() && front[k] == x;
        assert(q[k] == x);
    }
    if q.last() == x {
        assert(q[q.len() - 1] == x);
    }
    if q.contains(x) && q.last() != x {
        let k = choose|k: int| 0 <= k < q.len() && q[k] == x;
        assert(front[k] == x);
    }
}

/// Which path is the first one with its path ID depends on the path IDs alone.
proof fn lemma_same_first(s: SenderView, t: SenderView, i: int)
    requires
        s.paths.len() == t.paths.len(),
        forall|j: int|
            0 <= j < s.paths.len() ==> (#[trigger] t.paths[j]).fields.path_id
                == s.paths[j].fields.path_id,
    ensures
        is_first(t, i) == is_first(s, i),
{
    if is_first(s, i) {
        assert forall|j: int| 0 <= j < i implies (#[trigger] t.paths[j]).fields.path_id
            != t.paths[i].fields.path_id by {
            assert(s.paths[j].fields.path_id != s.paths[i].fields.path_id);
        }
    }
    if is_first(t, i) {
        assert forall|j: int| 0 <= j < i implies (#[trigger] s.paths[j]).fields.path_id
            != s.paths[i].fields.path_id by {
            assert(t.paths[j].fields.path_id != t.paths[i].fields.path_id);
        }
    }
}

/// Which path is found for a path ID.
proof fn lemma_found(t: SenderView, id: u64, i: int)
    requires
        0 <= i < t.paths.len(),
    ensures
        has_path_id(t.paths, id) == has_path(t, id),
        has_path(t, id) ==> 0 <= first_with_id(t.paths, id) < t.paths.len(),
        has_path(t, id) && first_with_id(t.paths, id) == i <==> is_first(t, i)
            && t.paths[i].fields.path_id == id,
{
    if has_path(t, id) {
        let w = choose|w: int| 0 <= w < t.paths.len() && (#[trigger] t.paths[w]).fields.path_id == id;
        lemma_some_first(t, id, w);
        if is_first(t, i) && t.paths[i].fields.path_id == id {
            lemma_first(t, id, i);
        }
    }
}

/// What one lost PATH_ABANDON frame does to a path.
proof fn lemma_abandon_one(t: SenderView, id: u64, i: int)
    requires
        0 <= i < t.paths.len(),
    ensures
        ({
            let u = rearm_abandon(t, id);
            let x = t.paths[i].fields;
            &&& u.paths.len() == t.paths.len()
            &&& u.paths[i].need_ack == t.paths[i].need_ack
            &&& u.paths[i].fields == (PathFields {
                abandon: AbandonState {
                    pending: x.abandon.pending || (!x.abandon.acked && is_first(t, i) && x.path_id
                        == id),
                    ..x.abandon
                },
                ..x
            })
        }),
{
    lemma_found(t, id, i);
}

/// What one lost PATH_STATUS frame does to a path.
proof fn lemma_status_one(t: SenderView, id: u64, seq_num: u64, i: int)
    requires
        0 <= i < t.paths.len(),
    ensures
        ({
            let u = rearm_status(t, id, seq_num);
            let x = t.paths[i].fields;
            &&& u.paths.len() == t.paths.len()
            &&& u.paths[i].need_ack == t.paths[i].need_ack
            &&& u.paths[i].fields == (PathFields {
                status: StatusState {
                    pending: x.status.pending || (!x.status.acked && is_first(t, i) && x.path_id
                        == id && x.status.seq_num == seq_num),
                    ..x.status
                },
                ..x
            })
        }),
{
    lemma_found(t, id, i);
}

/// What one lost PATH_ABANDON frame does to the rest.
proof fn lemma_abandon_rest(t: SenderView, id: u64)
    ensures
        ({
            let u = rearm_abandon(t, id);
            &&& u.paths.len() == t.paths.len()
            &&& u == (SenderView { paths: u.paths, abandon_queue: u.abandon_queue, ..t })
            &&& u.abandon_queue == if !has_path(t, id) && t.abandoned.contains(id) && !queued(
                t.abandon_queue,
                id,
            ) {
                t.abandon_queue.push((id, 0u64))
            } else {
                t.abandon_queue
            }
        }),
{
    if t.paths.len() > 0 {
        lemma_found(t, id, 0);
    }
    assert(has_path_id(t.paths, id) == has_path(t, id));
    assert(queued(t.abandon_queue, id) == exists|k: int|
        0 <= k < t.abandon_queue.len() && (#[trigger] t.abandon_queue[k]).0 == id);
}

/// What lost PATH_ABANDON frames do to a path.
proof fn lemma_abandons_rearmed(s: SenderView, lost: Seq<u64>, i: int)
    requires
        0 <= i < s.paths.len(),
    ensures
        rearm_abandons(s, lost).paths.len() == s.paths.len(),
        abandon_rearmed(s, rearm_abandons(s, lost), lost, i),
    decreases lost.len(),
{
    if lost.len() > 0 {
        let front = lost.drop_last();
        let t = rearm_abandons(s, front);
        lemma_abandons_rearmed(s, front, i);
        assert forall|j: int| 0 <= j < s.paths.len() implies (#[trigger] t.paths[j]).fields.path_id
            == s.paths[j].fields.path_id by {
            lemma_abandons_rearmed(s, front, j);
        }
        lemma_same_first(s, t, i);
        lemma_abandon_one(t, lost.last(), i);
        lemma_contains_last(lost, s.paths[i].fields.path_id);
    }
}

/// What lost PATH_ABANDON frames do to the rest.
proof fn lemma_abandons_queued(s: SenderView, lost: Seq<u64>)
    ensures
        ({
            let t = rearm_abandons(s, lost);
            &&& t.paths.len() == s.paths.len()
            &&& t == (SenderView { paths: t.paths, abandon_queue: t.abandon_queue, ..s })
            &&& s.abandon_queue.len() <= t.abandon_queue.len()
            &&& forall|k: int|
                0 <= k < s.abandon_queue.len() ==> #[trigger] t.abandon_queue[k]
                    == s.abandon_queue[k]
            &&& forall|k: int|
                s.abandon_queue.len() <= k < t.abandon_queue.len() ==> queued_for(
                    s,
                    lost,
                    #[trigger] t.abandon_queue[k],
                )
        }),
    decreases lost.len(),
{
    if lost.len() > 0 {
        let front = lost.drop_last();
        let id = lost.last();
        lemma_abandons_queued(s, front);
        let t = rearm_abandons(s, front);
        let u = rearm_abandon(t, id);
        lemma_abandon_rest(t, id);
        lemma_has_path_same(s, front, id);
        assert forall|k: int| s.abandon_queue.len() <= k < u.abandon_queue.len() implies queued_for(
            s,
            lost,
            #[trigger] u.abandon_queue[k],
        ) by {
            lemma_contains_last(lost, u.abandon_queue[k].0);
            if k < t.abandon_queue.len() {
                assert(u.abandon_queue[k] == t.abandon_queue[k]);
                assert(queued_for(s, front, t.abandon_queue[k]));
            } else if queued(s.abandon_queue, id) {
                let m = choose|m: int|
                    0 <= m < s.abandon_queue.len() && (#[trigger] s.abandon_queue[m]).0 == id;
                assert(t.abandon_queue[m].0 == id);
            }
        }
    }
}

/// Whether a queue entry is one for a lost frame of an abandoned path ID without a path,
/// which was not queued.
pub open spec fn queued_for(s: SenderView, lost: Seq<u64>, entry: (u64, u64)) -> bool {
    &&& entry.1 == 0
    &&& lost.contains(entry.0)
    &&& s.abandoned.contains(entry.0)
    &&& !has_path(s, entry.0)
    &&& !queued(s.abandon_queue, entry.0)
}

/// The path IDs stay.
proof fn lemma_has_path_same(s: SenderView, lost: Seq<u64>, id: u64)
    ensures
        has_path(rearm_abandons(s, lost), id) == has_path(s, id),
{
    let t = rearm_abandons(s, lost);
    lemma_abandons_len(s, lost);
    if has_path(s, id) {
        let i = choose|i: int| 0 <= i < s.paths.len() && (#[trigger] s.paths[i]).fields.path_id == id;
        lemma_abandons_rearmed(s, lost, i);
        assert(t.paths[i].fields.path_id == id);
    }
    if has_path(t, id) {
        let i = choose|i: int| 0 <= i < t.paths.len() && (#[trigger] t.paths[i]).fields.path_id == id;
        lemma_abandons_rearmed(s, lost, i);
        assert(s.paths[i].fields.path_id == id);
    }
}

/// The number of paths stays.
proof fn lemma_abandons_len(s: SenderView, lost: Seq<u64>)
    ensures
        rearm_abandons(s, lost).paths.len() == s.paths.len(),
    decreases lost.len(),
{
    if lost.len() > 0 {
        lemma_abandons_len(s, lost.drop_last());
        lemma_abandon_rest(rearm_abandons(s, lost.drop_last()), lost.last());
    }
}

/// A lost PATH_ABANDON frame of an abandoned path ID without a path is queued.
proof fn lemma_abandons_all_queued(s: SenderView, lost: Seq<u64>, id: u64)
    requires
        lost.contains(id),
        !has_path(s, id),
        s.abandoned.contains(id),
    ensures
        queued(rearm_abandons(s, lost).abandon_queue, id),
    decreases lost.len(),
{
    let front = lost.drop_last();
    let t = rearm_abandons(s, front);
    let u = rearm_abandon(t, lost.last());
    lemma_abandon_rest(t, lost.last());
    lemma_contains_last(lost, id);
    lemma_has_path_same(s, front, id);
    lemma_abandons_queued(s, front);
    if front.contains(id) {
        lemma_abandons_all_queued(s, front, id);
        let m = choose|m: int| 0 <= m < t.abandon_queue.len() && (#[trigger] t.abandon_queue[m]).0 == id;
        assert(u.abandon_queue[m].0 == id);
    } else if !queued(t.abandon_queue, id) {
        assert(u.abandon_queue[t.abandon_queue.len() as int].0 == id);
    }
}

/// What lost PATH_STATUS frames do to a path.
proof fn lemma_statuses_rearmed(s: SenderView, lost: Seq<(u64, u64)>, i: int)
    requires
        0 <= i < s.paths.len(),
    ensures
        rearm_statuses(s, lost).paths.len() == s.paths.len(),
        status_rearmed(s, rearm_statuses(s, lost), lost, i),
    decreases lost.len(),
{
    if lost.len() > 0 {
        let front = lost.drop_last();
        let t = rearm_statuses(s, front);
        lemma_statuses_rearmed(s, front, i);
        assert forall|j: int| 0 <= j < s.paths.len() implies (#[trigger] t.paths[j]).fields.path_id
            == s.paths[j].fields.path_id by {
            lemma_statuses_rearmed(s, front, j);
        }
        lemma_same_first(s, t, i);
        lemma_status_one(t, lost.last().0, lost.last().1, i);
        lemma_contains_last(lost, (s.paths[i].fields.path_id, s.paths[i].fields.status.seq_num));
    }
}

/// What lost PATH_STATUS frames leave alone.
proof fn lemma_statuses_rest(s: SenderView, lost: Seq<(u64, u64)>)
    ensures
        rearm_statuses(s, lost).paths.len() == s.paths.len(),
        rearm_statuses(s, lost) == (SenderView { paths: rearm_statuses(s, lost).paths, ..s }),
    decreases lost.len(),
{
    if lost.len() > 0 {
        lemma_statuses_rest(s, lost.drop_last());
        let t = rearm_statuses(s, lost.drop_last());
        if t.paths.len() > 0 {
            lemma_found(t, lost.last().0, 0);
        }
    }
}

/// Whether the connection IDs of a path ID are retired without a frame: it was
/// abandoned, or a path with it is being.
pub open spec fn is_gone(s: SenderView, id: u64) -> bool {
    ||| exists|k: int| 0 <= k < s.abandoned.len() && #[trigger] s.abandoned[k] == id
    ||| exists|i: int|
        0 <= i < s.paths.len() && (#[trigger] s.paths[i]).fields.path_id == id
            && s.paths[i].fields.mp_closing
}

/// Whether a path ID is gone does not depend on what is pending.
proof fn lemma_gone(s: SenderView, id: u64)
    ensures
        implicitly_retired(s, id) == is_gone(s, id),
{
    if s.abandoned.contains(id) {
        let k = choose|k: int| 0 <= k < s.abandoned.len() && s.abandoned[k] == id;
        assert(s.abandoned[k] == id);
    }
}

/// What lost PATH_RETIRE_CONNECTION_ID frames do.
proof fn lemma_retires_rearmed(s: SenderView, lost: Seq<(u64, u64)>)
    ensures
        ({
            let (t, r) = rearm_retires(s, lost);
            &&& t == (SenderView { ids: IdsView { mp_retire: t.ids.mp_retire, ..s.ids }, ..s })
            &&& r is Ok ==> forall|k: (u64, u64)| #[trigger]
                t.ids.mp_retire.contains(k) == (s.ids.mp_retire.contains(k) || (lost.contains(k)
                    && !is_gone(s, k.0)))
            &&& r matches Err(e) ==> e == Error::IdLimit
        }),
    decreases lost.len(),
{
    if lost.len() > 0 {
        let front = lost.drop_last();
        lemma_retires_rearmed(s, front);
        let (t, r) = rearm_retires(s, front);
        let (u, r2) = rearm_retires(s, lost);
        lemma_gone(t, lost.last().0);
        assert(is_gone(t, lost.last().0) == is_gone(s, lost.last().0));
        if r2 is Ok {
            assert forall|k: (u64, u64)| #[trigger]
                u.ids.mp_retire.contains(k) == (s.ids.mp_retire.contains(k) || (lost.contains(k)
                    && !is_gone(s, k.0))) by {
                lemma_contains_last(lost, k);
                assert(t.ids.mp_retire.contains(k) == (s.ids.mp_retire.contains(k) || (
                front.contains(k) && !is_gone(s, k.0))));
            }
        }
    }
}

/// What lost RETIRE_CONNECTION_ID frames do.
proof fn lemma_legacy_retires_rearmed(s: SenderView, lost: Seq<u64>)
    ensures
        ({
            let (t, r) = rearm_legacy_retires(s, lost);
            &&& t == (SenderView { ids: IdsView { retire: t.ids.retire, ..s.ids }, ..s })
            &&& r is Ok ==> forall|k: u64| #[trigger]
                t.ids.retire.contains(k) == (s.ids.retire.contains(k) || (lost.contains(k)
                    && !is_gone(s, 0)))
            &&& r matches Err(e) ==> e == Error::IdLimit
        }),
    decreases lost.len(),
{
    if lost.len() > 0 {
        let front = lost.drop_last();
        lemma_legacy_retires_rearmed(s, front);
        let (t, r) = rearm_legacy_retires(s, front);
        let (u, r2) = rearm_legacy_retires(s, lost);
        lemma_gone(t, 0);
        assert(is_gone(t, 0) == is_gone(s, 0));
        if r2 is Ok {
            assert forall|k: u64| #[trigger]
                u.ids.retire.contains(k) == (s.ids.retire.contains(k) || (lost.contains(k)
                    && !is_gone(s, 0))) by {
                lemma_contains_last(lost, k);
                assert(t.ids.retire.contains(k) == (s.ids.retire.contains(k) || (front.contains(k)
                    && !is_gone(s, 0))));
            }
        }
    }
}

/// Once all lost frames are known, each path whose PATH_ABANDON frame was lost and never
/// acknowledged tells it again, each whose latest PATH_STATUS frame was lost and not
/// acknowledged tells its status again, and nothing else about a path changes. An
/// abandoned path ID without a path gets its PATH_ABANDON frame into the queue, once and
/// without an error.
pub proof fn law_lost_path_frames_are_rearmed(s: SenderView, d: DeferredView, i: int, id: u64)
    ensures
        ({
            let t = deferred_done(s, d).0;
            &&& t.paths.len() == s.paths.len()
            &&& 0 <= i < s.paths.len() ==> {
                let x = s.paths[i].fields;
                &&& t.paths[i].need_ack == s.paths[i].need_ack
                &&& t.paths[i].fields == (PathFields {
                    abandon: AbandonState {
                        pending: x.abandon.pending || (!x.abandon.acked && is_first(s, i)
                            && d.abandon.contains(x.path_id)),
                        ..x.abandon
                    },
                    status: StatusState {
                        pending: x.status.pending || (!x.status.acked && is_first(s, i)
                            && d.status.contains((x.path_id, x.status.seq_num))),
                        ..x.status
                    },
                    ..x
                })
            }
            &&& d.abandon.contains(id) && !has_path(s, id) && s.abandoned.contains(id) ==> queued(
                t.abandon_queue,
                id,
            )
            &&& forall|k: int|
                0 <= k < s.abandon_queue.len() ==> k < t.abandon_queue.len()
                    && #[trigger] t.abandon_queue[k] == s.abandon_queue[k]
            &&& forall|k: int|
                s.abandon_queue.len() <= k < t.abandon_queue.len() ==> queued_for(
                    s,
                    d.abandon,
                    #[trigger] t.abandon_queue[k],
                )
            &&& t == (SenderView {
                paths: t.paths,
                abandon_queue: t.abandon_queue,
                ids: IdsView { retire: t.ids.retire, mp_retire: t.ids.mp_retire, ..s.ids },
                ..s
            })
        }),
{
    let s1 = rearm_abandons(s, d.abandon);
    let s2 = rearm_statuses(s1, d.status);
    lemma_abandons_queued(s, d.abandon);
    lemma_statuses_rest(s1, d.status);
    lemma_retires_rearmed(s2, d.retire);
    let s3 = rearm_retires(s2, d.retire).0;
    lemma_legacy_retires_rearmed(s3, d.legacy_retire);
    if 0 <= i < s.paths.len() {
        lemma_abandons_rearmed(s, d.abandon, i);
        lemma_statuses_rearmed(s1, d.status, i);
        assert forall|j: int| 0 <= j < s.paths.len() implies (#[trigger] s1.paths[j]).fields.path_id
            == s.paths[j].fields.path_id by {
            lemma_abandons_rearmed(s, d.abandon, j);
        }
        lemma_same_first(s, s1, i);
    }
    if d.abandon.contains(id) && !has_path(s, id) && s.abandoned.contains(id) {
        lemma_abandons_all_queued(s, d.abandon, id);
    }
}

/// A retirement whose frame was lost is pending again, unless its path is gone or being
/// abandoned, where it needs none; retirements that were pending stay so, and no other
/// is added. That fails only where too many are pending.
pub proof fn law_lost_retirements_are_rearmed(s: SenderView, d: DeferredView, k: (u64, u64), n: u64)
    ensures
        ({
            let (t, r) = deferred_done(s, d);
            &&& r is Ok ==> t.ids.mp_retire.contains(k) == (s.ids.mp_retire.contains(k) || (
            d.retire.contains(k) && !is_gone(s, k.0)))
            &&& r is Ok ==> t.ids.retire.contains(n) == (s.ids.retire.contains(n) || (
            d.legacy_retire.contains(n) && !is_gone(s, 0)))
            &&& r matches Err(e) ==> e == Error::IdLimit
        }),
{
    let s1 = rearm_abandons(s, d.abandon);
    let s2 = rearm_statuses(s1, d.status);
    lemma_abandons_queued(s, d.abandon);
    lemma_statuses_rest(s1, d.status);
    lemma_retires_rearmed(s2, d.retire);
    let s3 = rearm_retires(s2, d.retire).0;
    lemma_legacy_retires_rearmed(s3, d.legacy_retire);
    lemma_gone_same(s, s1, d, k.0);
    lemma_gone_same(s, s1, d, 0);
    assert(is_gone(s3, 0) == is_gone(s2, 0));
}

/// What is done about lost abandonments and statuses does not make a path ID gone.
proof fn lemma_gone_same(s: SenderView, s1: SenderView, d: DeferredView, id: u64)
    requires
        s1 == rearm_abandons(s, d.abandon),
    ensures
        is_gone(rearm_statuses(s1, d.status), id) == is_gone(s, id),
{
    let s2 = rearm_statuses(s1, d.status);
    lemma_abandons_queued(s, d.abandon);
    lemma_statuses_rest(s1, d.status);
    assert forall|i: int| 0 <= i < s.paths.len() implies (#[trigger] s2.paths[i]).fields.path_id
        == s.paths[i].fields.path_id && s2.paths[i].fields.mp_closing
        == s.paths[i].fields.mp_closing by {
        lemma_abandons_rearmed(s, d.abandon, i);
        lemma_statuses_rearmed(s1, d.status, i);
    }
    assert(s2.abandoned == s.abandoned);
    if is_gone(s, id) && !(exists|k: int|
        0 <= k < s.abandoned.len() && #[trigger] s.abandoned[k] == id) {
        let i = choose|i: int|
            0 <= i < s.paths.len() && (#[trigger] s.paths[i]).fields.path_id == id
                && s.paths[i].fields.mp_closing;
        assert(s2.paths[i].fields.path_id == id);
    }
    if is_gone(s2, id) && !(exists|k: int|
        0 <= k < s2.abandoned.len() && #[trigger] s2.abandoned[k] == id) {
        let i = choose|i: int|
            0 <= i < s2.paths.len() && (#[trigger] s2.paths[i]).fields.path_id == id
                && s2.paths[i].fields.mp_closing;
        assert(s.paths[i].fields.path_id == id);
    }
}

/// A frame about blocked paths that was lost is sent again with what holds now, and only
/// where what it said still holds.
pub proof fn law_lost_blocked_frames_say_what_holds(
    l: PathLimits,
    d: DeferredView,
    max_path_id: u64,
    path_id: u64,
    next_seq: u64,
)
    ensures
        rearm_blocked(l, d, NewPathOutcome::Possible) == l,
        rearm_blocked(l, d, NewPathOutcome::Exhausted { max_path_id }) == (PathLimits {
            paths_blocked_pending: if d.paths_blocked {
                Some(max_path_id)
            } else {
                l.paths_blocked_pending
            },
            ..l
        }),
        rearm_blocked(l, d, NewPathOutcome::NoCid { path_id, next_seq }) == (PathLimits {
            cids_blocked_path: if d.cids_blocked {
                Some(path_id)
            } else {
                l.cids_blocked_path
            },
            cids_blocked_seq: if d.cids_blocked {
                next_seq
            } else {
                l.cids_blocked_seq
            },
            ..l
        }),
{
}

} // verus!
