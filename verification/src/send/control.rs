//! Acknowledgements and frames about paths.

use crate::frame::{Frame, FrameView};
use crate::packet::Type;
use crate::path::PathAppStatus;
use crate::send::packing::{Packing, PackingView};
use crate::send::state::{
    lemma_valid_with_conn, AbandonState, ConnFields, PathFields, PathLimits, Sender, SenderView,
    StatusState,
};
use vstd::arithmetic::power2::pow2;
use vstd::prelude::*;

verus! {

/// An acknowledgement delay of some microseconds, scaled by an exponent.
pub open spec fn scaled_delay(micros: u64, exponent: u32) -> u64 {
    (micros as nat / pow2(exponent as nat)) as u64
}

/// Scales an acknowledgement delay.
pub fn scale_delay(micros: u64, exponent: u32) -> (r: u64)
    requires
        exponent < 64,
    ensures
        r == scaled_delay(micros, exponent),
{
    proof {
        vstd::bits::lemma_u64_shr_is_div(micros, exponent as u64);
    }
    micros >> (exponent as u64)
}

/// What an ACK frame depends on besides the state.
#[derive(Clone, Copy, Debug)]
pub struct AckInputs {
    /// The type of the packet.
    pub ty: Type,
    /// Whether an acknowledgement has to be elicited.
    pub elicit_required: bool,
    /// The microseconds since the largest packet number was received.
    pub elapsed_micros: u64,
    /// The congestion window space for the payload of the packet.
    pub cwnd_available: usize,
}

/// The ACK frame that acknowledges everything there is to acknowledge.
pub open spec fn ack_frame(s: SenderView, elapsed_micros: u64) -> FrameView {
    FrameView::ACK {
        ack_delay: scaled_delay(elapsed_micros, s.conn.config.ack_delay_exponent),
        ranges: s.need_ack,
        ecn_counts: None,
    }
}

/// Whether an ACK frame is wanted on the path at `pid`: there is something to
/// acknowledge and a reason to, and the connection is not being closed, but by the
/// application during the handshake.
pub open spec fn ack_wanted(s: SenderView, pid: int, a: AckInputs) -> bool {
    &&& s.need_ack.len() > 0
    &&& s.conn.ack_elicited || a.elicit_required
    &&& s.local_error is None || (a.ty == Type::Handshake && s.local_error.unwrap().is_app)
    &&& s.path(pid).can_send
    // Where a PING frame has to be sent, there has to be congestion window space
    // for both.
    &&& s.conn.ack_elicited || ack_frame(s, a.elapsed_micros).wire_len() < a.cwnd_available
}

/// The state and the packet once an ACK frame was added where it is wanted and
/// finds room.
#[verifier::opaque]
pub open spec fn ack_stage(s: SenderView, p: PackingView, pid: int, a: AckInputs) -> (
    SenderView,
    PackingView,
) {
    let f = ack_frame(s, a.elapsed_micros);
    if ack_wanted(s, pid, a) && p.has_room(f) {
        (s.with_conn(ConnFields { ack_elicited: false, ..s.conn }), p.with(f))
    } else {
        (s, p)
    }
}

/// What a stage makes of the path at position `i`: the state and the packet.
pub open spec fn path_ack_step(s: SenderView, p: PackingView, i: int) -> (SenderView, PackingView) {
    let x = s.paths[i];
    let f = FrameView::PathAck {
        path_id: x.fields.path_id,
        ack_delay: scaled_delay(x.fields.rx_elapsed_micros, s.conn.config.ack_delay_exponent),
        ranges: x.need_ack,
        ecn_counts: None,
    };
    if x.need_ack.len() > 0 && x.fields.ack_elicited && p.has_room(f) {
        (s.with_path(i, PathFields { ack_elicited: false, ..x.fields }), p.with(f))
    } else {
        (s, p)
    }
}

/// PATH_ACK frames for the first `n` paths: each acknowledges all there is to
/// acknowledge on its path, where it finds room.
pub open spec fn path_acks(s: SenderView, p: PackingView, n: nat) -> (SenderView, PackingView)
    decreases n,
{
    if n == 0 {
        (s, p)
    } else {
        let (t, q) = path_acks(s, p, (n - 1) as nat);
        path_ack_step(t, q, n - 1)
    }
}

/// A PATH_ABANDON frame for the path at position `i`, where one is pending.
pub open spec fn abandon_step(s: SenderView, p: PackingView, i: int) -> (SenderView, PackingView) {
    let x = s.path(i);
    let f = FrameView::PathAbandon { path_id: x.path_id, error_code: x.abandon.error_code };
    if x.abandon.pending && p.has_room(f) {
        (
            s.with_path(
                i,
                PathFields {
                    abandon: AbandonState { pending: false, sent: true, ..x.abandon },
                    ..x
                },
            ),
            p.with(f).eliciting(),
        )
    } else {
        (s, p)
    }
}

/// PATH_ABANDON frames for the first `n` paths.
pub open spec fn path_abandons(s: SenderView, p: PackingView, n: nat) -> (SenderView, PackingView)
    decreases n,
{
    if n == 0 {
        (s, p)
    } else {
        let (t, q) = path_abandons(s, p, (n - 1) as nat);
        abandon_step(t, q, n - 1)
    }
}

/// PATH_ABANDON frames for path IDs without a path: those that find no room stay
/// in the queue.
pub open spec fn queued_abandons(queue: Seq<(u64, u64)>, p: PackingView) -> (
    Seq<(u64, u64)>,
    PackingView,
)
    decreases queue.len(),
{
    if queue.len() == 0 {
        (queue, p)
    } else {
        let (kept, q) = queued_abandons(queue.drop_last(), p);
        let (id, code) = queue.last();
        let f = FrameView::PathAbandon { path_id: id, error_code: code };
        if q.has_room(f) {
            (kept, q.with(f).eliciting())
        } else {
            (kept.push((id, code)), q)
        }
    }
}

/// A PATH_STATUS frame for the path at position `i`, where one is pending.
pub open spec fn status_step(s: SenderView, p: PackingView, i: int) -> (SenderView, PackingView) {
    let x = s.path(i);
    let f = match x.app_status {
        PathAppStatus::Available => FrameView::PathStatusAvailable {
            path_id: x.path_id,
            seq_num: x.status.seq_num,
        },
        PathAppStatus::Backup => FrameView::PathStatusBackup {
            path_id: x.path_id,
            seq_num: x.status.seq_num,
        },
    };
    if x.status.pending && p.has_room(f) {
        (
            s.with_path(i, PathFields { status: StatusState { pending: false, ..x.status }, ..x }),
            p.with(f).eliciting(),
        )
    } else {
        (s, p)
    }
}

/// PATH_STATUS frames for the first `n` paths.
pub open spec fn path_statuses(s: SenderView, p: PackingView, n: nat) -> (SenderView, PackingView)
    decreases n,
{
    if n == 0 {
        (s, p)
    } else {
        let (t, q) = path_statuses(s, p, (n - 1) as nat);
        status_step(t, q, n - 1)
    }
}

/// A PATHS_BLOCKED frame, where one is pending.
pub open spec fn paths_blocked_stage(l: PathLimits, p: PackingView) -> (PathLimits, PackingView) {
    match l.paths_blocked_pending {
        Some(path_id) if p.has_room(FrameView::PathsBlocked { path_id }) => (
            PathLimits { paths_blocked_pending: None, ..l },
            p.with(FrameView::PathsBlocked { path_id }).eliciting(),
        ),
        _ => (l, p),
    }
}

/// A PATH_CIDS_BLOCKED frame, where one is pending.
pub open spec fn cids_blocked_stage(l: PathLimits, p: PackingView) -> (PathLimits, PackingView) {
    let f = |path_id: u64|
        FrameView::PathCidsBlocked { path_id, seq_num: l.cids_blocked_seq };
    match l.cids_blocked_path {
        Some(path_id) if p.has_room(f(path_id)) => (
            PathLimits { cids_blocked_path: None, ..l },
            p.with(f(path_id)).eliciting(),
        ),
        _ => (l, p),
    }
}

/// A MAX_PATH_ID frame, where one is pending.
pub open spec fn max_path_id_stage(l: PathLimits, p: PackingView) -> (PathLimits, PackingView) {
    match l.max_path_id_pending {
        Some(path_id) if p.has_room(FrameView::MaxPathId { path_id }) => (
            PathLimits {
                max_path_id_pending: None,
                max_path_id_sent: Some(path_id),
                max_path_id_acked: false,
                ..l
            },
            p.with(FrameView::MaxPathId { path_id }).eliciting(),
        ),
        _ => (l, p),
    }
}

/// The frames about how many paths there can be.
pub open spec fn limits_stage(l: PathLimits, p: PackingView) -> (PathLimits, PackingView) {
    let (l1, p1) = paths_blocked_stage(l, p);
    let (l2, p2) = cids_blocked_stage(l1, p1);
    max_path_id_stage(l2, p2)
}

/// The frames about paths, in 1-RTT packets of connections with several of them.
#[verifier::opaque]
pub open spec fn path_stage(s: SenderView, p: PackingView) -> (SenderView, PackingView) {
    let n = s.paths.len();
    let (s1, p1) = path_acks(s, p, n);
    let (s2, p2) = path_abandons(s1, p1, n);
    let (queue, p3) = queued_abandons(s2.abandon_queue, p2);
    let s3 = SenderView { abandon_queue: queue, ..s2 };
    let (s4, p4) = path_statuses(s3, p3, n);
    let (limits, p5) = limits_stage(s4.conn.limits, p4);
    (s4.with_conn(ConnFields { limits, ..s4.conn }), p5)
}

/// The packet once its room is limited by the congestion window, given the room it
/// had before anything that is not limited by it.
pub open spec fn limited_by_cwnd(p: PackingView, cwnd_available: usize, left_before: usize) -> PackingView {
    let used = left_before - p.fields.left;
    let allowed: int = if cwnd_available >= used {
        cwnd_available - used
    } else {
        0
    };
    if allowed < p.fields.left {
        p.with_left(allowed as usize)
    } else {
        p
    }
}

/// Acknowledgements and frames about paths, in their order; what follows them is
/// limited by the congestion window.
pub open spec fn control_stage(s: SenderView, p: PackingView, pid: int, a: AckInputs) -> (
    SenderView,
    PackingView,
) {
    let (s1, p1) = ack_stage(s, p, pid, a);
    let (s2, p2) = if s1.conn.config.multipath_enabled && a.ty == Type::Short {
        path_stage(s1, p1)
    } else {
        (s1, p1)
    };
    (s2, limited_by_cwnd(p2, a.cwnd_available, p.fields.left))
}

/// The stages leave the number of paths alone, and the room does not grow.
proof fn lemma_path_acks_len(s: SenderView, p: PackingView, n: nat)
    requires
        n <= s.paths.len(),
    ensures
        path_acks(s, p, n).0.paths.len() == s.paths.len(),
        path_acks(s, p, n).1.fields.left <= p.fields.left,
    decreases n,
{
    if n > 0 {
        lemma_path_acks_len(s, p, (n - 1) as nat);
    }
}

/// The stages leave the number of paths alone, and the room does not grow.
proof fn lemma_path_abandons_len(s: SenderView, p: PackingView, n: nat)
    requires
        n <= s.paths.len(),
    ensures
        path_abandons(s, p, n).0.paths.len() == s.paths.len(),
        path_abandons(s, p, n).1.fields.left <= p.fields.left,
    decreases n,
{
    if n > 0 {
        lemma_path_abandons_len(s, p, (n - 1) as nat);
    }
}

/// The stages leave the number of paths alone, and the room does not grow.
proof fn lemma_path_statuses_len(s: SenderView, p: PackingView, n: nat)
    requires
        n <= s.paths.len(),
    ensures
        path_statuses(s, p, n).0.paths.len() == s.paths.len(),
        path_statuses(s, p, n).1.fields.left <= p.fields.left,
    decreases n,
{
    if n > 0 {
        lemma_path_statuses_len(s, p, (n - 1) as nat);
    }
}

/// The room does not grow.
proof fn lemma_queued_abandons_left(queue: Seq<(u64, u64)>, p: PackingView)
    ensures
        queued_abandons(queue, p).1.fields.left <= p.fields.left,
    decreases queue.len(),
{
    if queue.len() > 0 {
        lemma_queued_abandons_left(queue.drop_last(), p);
    }
}

/// The room does not grow.
pub proof fn lemma_ack_stage_left(s: SenderView, p: PackingView, pid: int, a: AckInputs)
    ensures
        ack_stage(s, p, pid, a).1.fields.left <= p.fields.left,
        ack_stage(s, p, pid, a).0.paths.len() == s.paths.len(),
{
    reveal(ack_stage);
}

/// The room does not grow.
pub proof fn lemma_path_stage_left(s: SenderView, p: PackingView)
    ensures
        path_stage(s, p).1.fields.left <= p.fields.left,
        path_stage(s, p).0.paths.len() == s.paths.len(),
{
    reveal(path_stage);
    let n = s.paths.len();
    lemma_path_acks_len(s, p, n);
    let (s1, p1) = path_acks(s, p, n);
    lemma_path_abandons_len(s1, p1, n);
    let (s2, p2) = path_abandons(s1, p1, n);
    lemma_queued_abandons_left(s2.abandon_queue, p2);
    let (queue, p3) = queued_abandons(s2.abandon_queue, p2);
    lemma_path_statuses_len(SenderView { abandon_queue: queue, ..s2 }, p3, n);
}

impl Sender {
    /// Creates the ACK frame.
    ///
    /// When we need to explicitly elicit an ACK via PING later, go ahead and
    /// generate an ACK (if there's anything to ACK) since we're going to send a
    /// packet with PING anyways, even if we haven't received anything ACK
    /// eliciting.
    fn add_ack(&mut self, pk: &mut Packing, pid: usize, a: AckInputs)
        requires
            old(self).wf(),
            old(pk)@.valid(),
            pid < old(self)@.paths.len(),
        ensures
            final(self).wf(),
            final(pk)@.valid(),
            (final(self)@, final(pk)@) == ack_stage(old(self)@, old(pk)@, pid as int, a),
    {
        proof {
            reveal(ack_stage);
        }
        let app_handshake_close: bool = match &self.local_error {
            Some(e) => a.ty == Type::Handshake && e.is_app,
            None => false,
        };
        let may: bool = self.local_error.is_none() || app_handshake_close;
        if self.need_ack.len() > 0 && (self.conn.ack_elicited || a.elicit_required) && may
            && self.paths[pid].fields.can_send {
            proof {
                reveal(SenderView::valid);
            }
            let frame = Frame::ACK {
                ack_delay: scale_delay(a.elapsed_micros, self.conn.config.ack_delay_exponent),
                ranges: self.need_ack.clone(),
                ecn_counts: None,
            };
            assert(frame@ == ack_frame(self@, a.elapsed_micros));
            // When a PING frame needs to be sent, avoid sending the ACK if there is
            // not enough cwnd available for both (note that PING frames are always
            // 1 byte, so we just need to check that the ACK's length is lower than
            // cwnd).
            if self.conn.ack_elicited || frame.wire_len() < a.cwnd_available as u128 {
                // ACK-only packets are not congestion controlled so ACKs must be
                // bundled considering the buffer capacity only, and not the
                // available cwnd.
                if pk.push(frame) {
                    let mut c: ConnFields = self.conn;
                    c.ack_elicited = false;
                    self.set_conn(c);
                }
            }
        }
    }

    /// Creates the PATH_ACK frame of the path at position `i`, if any.
    fn add_path_ack(&mut self, pk: &mut Packing, i: usize)
        requires
            old(self).wf(),
            old(pk)@.valid(),
            i < old(self)@.paths.len(),
        ensures
            final(self).wf(),
            final(pk)@.valid(),
            (final(self)@, final(pk)@) == path_ack_step(old(self)@, old(pk)@, i as int),
    {
        assert(self@.paths[i as int] == self.paths@[i as int]@);
        if self.paths[i].need_ack.len() > 0 && self.paths[i].fields.ack_elicited {
            proof {
                reveal(SenderView::valid);
                assert(crate::ranges::canonical(self@.paths[i as int].need_ack));
            }
            let mut x: PathFields = self.paths[i].fields;
            let frame = Frame::PathAck {
                path_id: x.path_id,
                ack_delay: scale_delay(x.rx_elapsed_micros, self.conn.config.ack_delay_exponent),
                ranges: self.paths[i].need_ack.clone(),
                ecn_counts: None,
            };
            if pk.push(frame) {
                x.ack_elicited = false;
                self.set_path(i, x);
            }
        }
    }

    /// Creates the PATH_ABANDON frame of the path at position `i`, if any.
    fn add_path_abandon(&mut self, pk: &mut Packing, i: usize)
        requires
            old(self).wf(),
            old(pk)@.valid(),
            i < old(self)@.paths.len(),
        ensures
            final(self).wf(),
            final(pk)@.valid(),
            (final(self)@, final(pk)@) == abandon_step(old(self)@, old(pk)@, i as int),
    {
        assert(self@.paths[i as int] == self.paths@[i as int]@);
        let mut x: PathFields = self.paths[i].fields;
        if x.abandon.pending {
            let frame = Frame::PathAbandon {
                path_id: x.path_id,
                error_code: x.abandon.error_code,
            };
            if pk.push_eliciting(frame) {
                x.abandon.pending = false;
                x.abandon.sent = true;
                self.set_path(i, x);
            }
        }
    }

    /// Creates the PATH_ABANDON frames that are queued at the connection level:
    /// echoes for path IDs without a live path and retransmissions for paths whose
    /// state was already deleted.
    fn add_queued_abandons(&mut self, pk: &mut Packing)
        requires
            old(self).wf(),
            old(pk)@.valid(),
        ensures
            final(self).wf(),
            final(pk)@.valid(),
            ({
                let (queue, p) = queued_abandons(old(self)@.abandon_queue, old(pk)@);
                final(self)@ == (SenderView { abandon_queue: queue, ..old(self)@ }) && final(pk)@
                    == p
            }),
    {
        let ghost queue = self.abandon_queue@;
        let ghost p = pk@;
        let mut kept: Vec<(u64, u64)> = Vec::new();
        let mut i: usize = 0;
        assert(queue.take(0) =~= Seq::empty());
        assert(kept@ =~= Seq::empty());
        while i < self.abandon_queue.len()
            invariant
                i <= queue.len(),
                *self == *old(self),
                queue == self.abandon_queue@,
                pk@.valid(),
                (kept@, pk@) == queued_abandons(queue.take(i as int), p),
            decreases queue.len() - i,
        {
            proof {
                assert(queue.take(i + 1).drop_last() =~= queue.take(i as int));
                assert(queue.take(i + 1).last() == queue[i as int]);
            }
            let (id, code) = self.abandon_queue[i];
            if !pk.push_eliciting(Frame::PathAbandon { path_id: id, error_code: code }) {
                kept.push((id, code));
            }
            i += 1;
        }
        assert(queue.take(i as int) =~= queue);
        self.abandon_queue = kept;
        proof {
            lemma_valid_with_conn(old(self)@, self@);
        }
    }

    /// Creates the PATH_STATUS frame of the path at position `i`, if any.
    fn add_path_status(&mut self, pk: &mut Packing, i: usize)
        requires
            old(self).wf(),
            old(pk)@.valid(),
            i < old(self)@.paths.len(),
        ensures
            final(self).wf(),
            final(pk)@.valid(),
            (final(self)@, final(pk)@) == status_step(old(self)@, old(pk)@, i as int),
    {
        assert(self@.paths[i as int] == self.paths@[i as int]@);
        let mut x: PathFields = self.paths[i].fields;
        if x.status.pending {
            let frame = match x.app_status {
                PathAppStatus::Available => Frame::PathStatusAvailable {
                    path_id: x.path_id,
                    seq_num: x.status.seq_num,
                },
                PathAppStatus::Backup => Frame::PathStatusBackup {
                    path_id: x.path_id,
                    seq_num: x.status.seq_num,
                },
            };
            if pk.push_eliciting(frame) {
                x.status.pending = false;
                self.set_path(i, x);
            }
        }
    }

    /// Creates the frames about how many paths there can be. One-shot: what is
    /// pending is cleared once the frame is built.
    fn add_path_limits(&mut self, pk: &mut Packing)
        requires
            old(self).wf(),
            old(pk)@.valid(),
        ensures
            final(self).wf(),
            final(pk)@.valid(),
            ({
                let (limits, p) = limits_stage(old(self)@.conn.limits, old(pk)@);
                final(self)@ == old(self)@.with_conn(ConnFields { limits, ..old(self)@.conn })
                    && final(pk)@ == p
            }),
    {
        let mut l: PathLimits = self.conn.limits;
        if let Some(path_id) = l.paths_blocked_pending {
            if pk.push_eliciting(Frame::PathsBlocked { path_id }) {
                l.paths_blocked_pending = None;
            }
        }
        if let Some(path_id) = l.cids_blocked_path {
            if pk.push_eliciting(
                Frame::PathCidsBlocked { path_id, seq_num: l.cids_blocked_seq },
            ) {
                l.cids_blocked_path = None;
            }
        }
        if let Some(path_id) = l.max_path_id_pending {
            if pk.push_eliciting(Frame::MaxPathId { path_id }) {
                l.max_path_id_pending = None;
                // The pending value can only grow, so the frame just built always
                // carries the most recent value.
                l.max_path_id_sent = Some(path_id);
                l.max_path_id_acked = false;
            }
        }
        let mut c: ConnFields = self.conn;
        c.limits = l;
        self.set_conn(c);
    }

    /// Creates the frames about paths.
    fn add_path_frames(&mut self, pk: &mut Packing)
        requires
            old(self).wf(),
            old(pk)@.valid(),
        ensures
            final(self).wf(),
            final(pk)@.valid(),
            (final(self)@, final(pk)@) == path_stage(old(self)@, old(pk)@),
    {
        proof {
            reveal(path_stage);
        }
        let n: usize = self.paths.len();
        let ghost s = self@;
        let ghost p = pk@;
        // PATH_ACK frames for any path can be sent on any path.
        let mut i: usize = 0;
        while i < n
            invariant
                i <= n,
                n == s.paths.len(),
                self.wf(),
                pk@.valid(),
                (self@, pk@) == path_acks(s, p, i as nat),
                self@.paths.len() == n,
            decreases n - i,
        {
            self.add_path_ack(pk, i);
            i += 1;
        }
        let ghost s1 = self@;
        let ghost p1 = pk@;
        let mut j: usize = 0;
        while j < n
            invariant
                j <= n,
                self.wf(),
                pk@.valid(),
                (self@, pk@) == path_abandons(s1, p1, j as nat),
                self@.paths.len() == n,
            decreases n - j,
        {
            self.add_path_abandon(pk, j);
            j += 1;
        }
        self.add_queued_abandons(pk);
        let ghost s3 = self@;
        let ghost p3 = pk@;
        let mut k: usize = 0;
        while k < n
            invariant
                k <= n,
                self.wf(),
                pk@.valid(),
                (self@, pk@) == path_statuses(s3, p3, k as nat),
                self@.paths.len() == n,
            decreases n - k,
        {
            self.add_path_status(pk, k);
            k += 1;
        }
        self.add_path_limits(pk);
    }

    /// Creates acknowledgements and frames about paths, and limits the packet by
    /// the congestion window for what follows them.
    pub fn add_control_frames(&mut self, pk: &mut Packing, pid: usize, a: AckInputs)
        requires
            old(self).wf(),
            old(pk)@.valid(),
            pid < old(self)@.paths.len(),
        ensures
            final(self).wf(),
            final(pk)@.valid(),
            (final(self)@, final(pk)@) == control_stage(old(self)@, old(pk)@, pid as int, a),
            final(self)@.paths.len() == old(self)@.paths.len(),
    {
        let left_before: usize = pk.fields.left;
        proof {
            lemma_ack_stage_left(self@, pk@, pid as int, a);
        }
        self.add_ack(pk, pid, a);
        if self.conn.config.multipath_enabled && a.ty == Type::Short {
            proof {
                lemma_path_stage_left(self@, pk@);
            }
            self.add_path_frames(pk);
        }
        limit_by_cwnd(pk, a.cwnd_available, left_before);
    }
}

/// Limits the room of a packet by the congestion window, given the room it had
/// before anything that is not limited by it.
fn limit_by_cwnd(pk: &mut Packing, cwnd_available: usize, left_before: usize)
    requires
        old(pk)@.valid(),
        old(pk)@.fields.left <= left_before,
    ensures
        final(pk)@.valid(),
        final(pk)@ == limited_by_cwnd(old(pk)@, cwnd_available, left_before),
{
    let used: usize = left_before - pk.fields.left;
    let allowed: usize = cwnd_available.saturating_sub(used);
    if allowed < pk.fields.left {
        pk.fields.left = allowed;
    }
}

} // verus!
