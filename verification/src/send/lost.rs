//! What is done about frames that were lost.

use crate::cid::entries::has_seq;
use crate::cid::model::{marked, IdsView};
use crate::cid::ConnectionIdentifiers;
use crate::frame::{Frame, FrameView};
use crate::send::lists::{IdList, PairList};
use crate::send::state::{
    lemma_valid_with_conn, ConnFields, FlowState, HandshakeDone, PathFields, PathLimits, SendStats,
    Sender, SenderView,
};
use vstd::prelude::*;

verus! {

/// What is known of the stream that a lost frame names.
#[derive(Clone, Copy, Debug, PartialEq, Eq, Structural)]
pub struct StreamFacts {
    /// Whether the stream exists.
    pub exists: bool,
    /// Whether its send side was stopped.
    pub send_stopped: bool,
    /// Whether its final size is known.
    pub recv_fin: bool,
}

impl StreamFacts {
    /// Whether data of the stream can be sent: it exists and was not stopped.
    pub open spec fn sends(self) -> bool {
        self.exists && !self.send_stopped
    }

    /// Whether data of the stream can be sent. This might not be so for a stream
    /// whose data was buffered but not yet flushed on the wire when a STOP_SENDING
    /// frame was received.
    pub fn is_sending(&self) -> (r: bool)
        ensures
            r == self.sends(),
    {
        self.exists && !self.send_stopped
    }

    /// Whether the limit of the stream can still be raised; a stream that doesn't
    /// exist anymore leaves the set of those whose limit is to be.
    pub fn takes_limit(&self) -> (r: bool)
        ensures
            r == self.exists,
    {
        self.exists
    }
}

/// What remains to be done about a lost frame.
#[derive(Clone, Copy, Debug, PartialEq, Eq, Structural)]
pub enum LostAction {
    /// Nothing.
    Nothing,
    /// Retransmit data of the handshake.
    RetransmitCrypto {
        /// The offset of the data.
        offset: u64,
        /// The length of the data.
        length: usize,
    },
    /// Retransmit data of a stream.
    RetransmitStream {
        /// The stream.
        stream_id: u64,
        /// The offset of the data.
        offset: u64,
        /// The length of the data.
        length: usize,
        /// Whether the stream ends with the data.
        fin: bool,
    },
    /// Send RESET_STREAM again.
    ResetStream {
        /// The stream.
        stream_id: u64,
        /// The error code.
        error_code: u64,
        /// The final size.
        final_size: u64,
    },
    /// Send STOP_SENDING again.
    StopSending {
        /// The stream.
        stream_id: u64,
        /// The error code.
        error_code: u64,
    },
    /// Send MAX_STREAM_DATA again.
    MaxStreamData {
        /// The stream.
        stream_id: u64,
    },
    /// A probe of the path MTU failed.
    FailedProbe {
        /// Its size.
        size: usize,
    },
}

/// What is done about lost frames once all of them are known.
pub struct Deferred {
    /// The path IDs of lost PATH_ABANDON frames.
    pub abandon: IdList,
    /// The path IDs and sequence numbers of lost PATH_STATUS frames.
    pub status: PairList,
    /// The path IDs and sequence numbers of lost PATH_RETIRE_CONNECTION_ID frames.
    pub retire: PairList,
    /// The sequence numbers of lost RETIRE_CONNECTION_ID frames.
    pub legacy_retire: IdList,
    /// Whether a PATHS_BLOCKED frame was lost.
    pub paths_blocked: bool,
    /// Whether a PATH_CIDS_BLOCKED frame was lost.
    pub cids_blocked: bool,
}

/// What is deferred.
pub struct DeferredView {
    /// The path IDs of lost PATH_ABANDON frames.
    pub abandon: Seq<u64>,
    /// The path IDs and sequence numbers of lost PATH_STATUS frames.
    pub status: Seq<(u64, u64)>,
    /// The path IDs and sequence numbers of lost PATH_RETIRE_CONNECTION_ID frames.
    pub retire: Seq<(u64, u64)>,
    /// The sequence numbers of lost RETIRE_CONNECTION_ID frames.
    pub legacy_retire: Seq<u64>,
    /// Whether a PATHS_BLOCKED frame was lost.
    pub paths_blocked: bool,
    /// Whether a PATH_CIDS_BLOCKED frame was lost.
    pub cids_blocked: bool,
}

impl View for Deferred {
    type V = DeferredView;

    open spec fn view(&self) -> DeferredView {
        DeferredView {
            abandon: self.abandon@,
            status: self.status@,
            retire: self.retire@,
            legacy_retire: self.legacy_retire@,
            paths_blocked: self.paths_blocked,
            cids_blocked: self.cids_blocked,
        }
    }
}

impl Deferred {
    /// Nothing is deferred.
    pub fn new() -> (r: Self)
        ensures
            r@ == (DeferredView {
                abandon: Seq::empty(),
                status: Seq::empty(),
                retire: Seq::empty(),
                legacy_retire: Seq::empty(),
                paths_blocked: false,
                cids_blocked: false,
            }),
    {
        Deferred {
            abandon: IdList::new(),
            status: PairList::new(),
            retire: PairList::new(),
            legacy_retire: IdList::new(),
            paths_blocked: false,
            cids_blocked: false,
        }
    }
}

impl SendStats {
    /// Whether a retransmission of `length` bytes can be counted.
    pub open spec fn can_count(self, length: usize) -> bool {
        self.stream_retrans_bytes + length <= u64::MAX && self.retrans_count < u64::MAX
    }

    /// The counts with a retransmission of `length` bytes.
    pub open spec fn counting(self, length: usize) -> SendStats {
        SendStats {
            stream_retrans_bytes: (self.stream_retrans_bytes + length) as u64,
            retrans_count: (self.retrans_count + 1) as u64,
            ..self
        }
    }
}

/// Whether a retransmission of `length` bytes on the path at `pid` can be
/// counted.
pub open spec fn countable(s: SenderView, pid: int, length: usize) -> bool {
    s.conn.stats.can_count(length) && s.path(pid).stats.can_count(length)
}

/// The state once a retransmission of `length` bytes on the path at `pid` was
/// counted.
pub open spec fn counted(s: SenderView, pid: int, length: usize) -> SenderView {
    s.with_path(
        pid,
        PathFields { stats: s.path(pid).stats.counting(length), ..s.path(pid) },
    ).with_conn(ConnFields { stats: s.conn.stats.counting(length), ..s.conn })
}

/// What lost data of the path at `pid` makes of the state, and whether it is
/// retransmitted. Data of a closed stream is not.
pub open spec fn lost_stream_data(
    s: SenderView,
    pid: int,
    length: usize,
    facts: StreamFacts,
) -> (SenderView, bool) {
    if facts.sends() {
        let t = counted(s, pid, length);
        (
            t.with_conn(
                ConnFields { pending_reinjection_path: Some(s.path(pid).path_id), ..t.conn },
            ),
            true,
        )
    } else {
        let left: usize = if s.conn.tx_buffered >= length {
            (s.conn.tx_buffered - length) as usize
        } else {
            0
        };
        (s.with_conn(ConnFields { tx_buffered: left, ..s.conn }), false)
    }
}

/// What the loss of a frame about the stream limits or the handshake makes of the
/// plain values: it is to be sent again, HANDSHAKE_DONE only where it was never
/// acknowledged.
pub open spec fn lost_flag_frame(c: ConnFields, f: FrameView) -> ConnFields {
    match f {
        FrameView::ACK { .. } => ConnFields { ack_elicited: true, ..c },
        FrameView::HandshakeDone => ConnFields {
            handshake_done: HandshakeDone {
                sent: c.handshake_done.sent && c.handshake_done.acked,
                ..c.handshake_done
            },
            ..c
        },
        FrameView::MaxData { .. } => ConnFields {
            flow: FlowState { send_max_data: true, ..c.flow },
            ..c
        },
        FrameView::MaxStreamsUni { .. } => ConnFields {
            flow: FlowState { send_max_streams_uni: true, ..c.flow },
            ..c
        },
        FrameView::MaxStreamsBidi { .. } => ConnFields {
            flow: FlowState { send_max_streams_bidi: true, ..c.flow },
            ..c
        },
        // Only the latest limit is sent again, unless it was acknowledged.
        FrameView::MaxPathId { path_id } => if c.limits.max_path_id_sent == Some(path_id)
            && !c.limits.max_path_id_acked {
            ConnFields {
                limits: PathLimits { max_path_id_pending: Some(path_id), ..c.limits },
                ..c
            }
        } else {
            c
        },
        _ => c,
    }
}

/// What the loss of a frame that announces a connection ID makes of the
/// connection IDs: it is announced again, on a path only where the peer has not
/// retired it in the meantime.
pub open spec fn lost_cid_frame(ids: IdsView, f: FrameView) -> IdsView {
    match f {
        FrameView::NewConnectionId { seq_num, .. } => IdsView {
            advertise: marked(ids.advertise, seq_num, true),
            ..ids
        },
        FrameView::PathNewConnectionId { path_id, seq_num, .. } => if has_seq(
            ids.scids_of(path_id),
            seq_num,
        ) {
            IdsView { mp_advertise: marked(ids.mp_advertise, (path_id, seq_num), true), ..ids }
        } else {
            ids
        },
        _ => ids,
    }
}

/// What the loss of a frame adds to what is deferred.
pub open spec fn deferring(d: DeferredView, f: FrameView) -> DeferredView {
    match f {
        FrameView::PathAbandon { path_id, .. } => DeferredView {
            abandon: d.abandon.push(path_id),
            ..d
        },
        FrameView::PathStatusAvailable { path_id, seq_num } => DeferredView {
            status: d.status.push((path_id, seq_num)),
            ..d
        },
        FrameView::PathStatusBackup { path_id, seq_num } => DeferredView {
            status: d.status.push((path_id, seq_num)),
            ..d
        },
        FrameView::PathsBlocked { .. } => DeferredView { paths_blocked: true, ..d },
        FrameView::PathCidsBlocked { .. } => DeferredView { cids_blocked: true, ..d },
        FrameView::RetireConnectionId { seq_num } => DeferredView {
            legacy_retire: d.legacy_retire.push(seq_num),
            ..d
        },
        FrameView::PathRetireConnectionId { path_id, seq_num } => DeferredView {
            retire: d.retire.push((path_id, seq_num)),
            ..d
        },
        _ => d,
    }
}

/// What remains to be done about a lost frame that carries no data.
pub open spec fn lost_action(f: FrameView, facts: StreamFacts) -> LostAction {
    match f {
        FrameView::ResetStream { stream_id, error_code, final_size } => LostAction::ResetStream {
            stream_id,
            error_code,
            final_size,
        },
        FrameView::StopSending { stream_id, error_code } => if facts.exists && !facts.recv_fin {
            LostAction::StopSending { stream_id, error_code }
        } else {
            LostAction::Nothing
        },
        FrameView::MaxStreamData { stream_id, .. } => if facts.exists {
            LostAction::MaxStreamData { stream_id }
        } else {
            LostAction::Nothing
        },
        FrameView::Ping { mtu_probe: Some(size) } => LostAction::FailedProbe { size },
        _ => LostAction::Nothing,
    }
}

/// What a lost frame of the path at `pid` makes of the state and of what is
/// deferred, and what remains to be done about it.
pub open spec fn lost_frame(
    s: SenderView,
    d: DeferredView,
    pid: int,
    f: FrameView,
    facts: StreamFacts,
) -> (SenderView, DeferredView, LostAction) {
    match f {
        FrameView::CryptoHeader { offset, length } => (
            counted(s, pid, length),
            d,
            LostAction::RetransmitCrypto { offset, length },
        ),
        FrameView::StreamHeader { stream_id, offset, length, fin } => {
            let (t, again) = lost_stream_data(s, pid, length, facts);
            (
                t,
                d,
                if again {
                    LostAction::RetransmitStream { stream_id, offset, length, fin }
                } else {
                    LostAction::Nothing
                },
            )
        },
        _ => (
            SenderView {
                conn: lost_flag_frame(s.conn, f),
                ids: lost_cid_frame(s.ids, f),
                ..s
            },
            deferring(d, f),
            lost_action(f, facts),
        ),
    }
}

/// The length of the data that is retransmitted because of a lost frame.
pub open spec fn retransmitted(f: FrameView, facts: StreamFacts) -> Option<usize> {
    match f {
        FrameView::CryptoHeader { length, .. } => Some(length),
        FrameView::StreamHeader { length, .. } => if facts.sends() {
            Some(length)
        } else {
            None
        },
        _ => None,
    }
}

/// Counts a retransmission.
fn count(stats: &mut SendStats, length: usize)
    requires
        old(stats).can_count(length),
    ensures
        *final(stats) == old(stats).counting(length),
{
    stats.stream_retrans_bytes = stats.stream_retrans_bytes + length as u64;
    stats.retrans_count = stats.retrans_count + 1;
}

/// Puts off what is done about a lost frame until all of them are known.
fn defer(deferred: &mut Deferred, lost: &Frame)
    ensures
        final(deferred)@ == deferring(old(deferred)@, lost@),
{
    match lost {
        Frame::PathAbandon { path_id, .. } => {
            deferred.abandon.push(*path_id);
        },
        Frame::PathStatusAvailable { path_id, seq_num } => {
            deferred.status.push((*path_id, *seq_num));
        },
        Frame::PathStatusBackup { path_id, seq_num } => {
            deferred.status.push((*path_id, *seq_num));
        },
        Frame::PathsBlocked { .. } => {
            deferred.paths_blocked = true;
        },
        Frame::PathCidsBlocked { .. } => {
            deferred.cids_blocked = true;
        },
        Frame::RetireConnectionId { seq_num } => {
            deferred.legacy_retire.push(*seq_num);
        },
        Frame::PathRetireConnectionId { path_id, seq_num } => {
            deferred.retire.push((*path_id, *seq_num));
        },
        _ => {},
    }
}

/// Asks for lost frames about the stream limits or the handshake to be sent again.
fn rearm_flags(c: &mut ConnFields, lost: &Frame)
    ensures
        *final(c) == lost_flag_frame(*old(c), lost@),
{
    match lost {
        Frame::ACK { .. } => {
            c.ack_elicited = true;
        },
        Frame::HandshakeDone => {
            // Only if it hasn't been acked at least once already.
            if !c.handshake_done.acked {
                c.handshake_done.sent = false;
            }
        },
        Frame::MaxData { .. } => {
            c.flow.send_max_data = true;
        },
        Frame::MaxStreamsUni { .. } => {
            c.flow.send_max_streams_uni = true;
        },
        Frame::MaxStreamsBidi { .. } => {
            c.flow.send_max_streams_bidi = true;
        },
        Frame::MaxPathId { path_id } => {
            // MAX_PATH_ID frames SHOULD be retransmitted when lost,
            // unless a more recent MAX_PATH_ID frame has been sent (or the value
            // was acknowledged) in the meantime.
            let latest: bool = match c.limits.max_path_id_sent {
                Some(sent) => sent == *path_id,
                None => false,
            };
            if latest && !c.limits.max_path_id_acked {
                c.limits.max_path_id_pending = Some(*path_id);
            }
        },
        _ => {},
    }
}

/// Announces connection IDs again whose announcement was lost.
fn readvertise(ids: &mut ConnectionIdentifiers, lost: &Frame)
    requires
        old(ids).wf(),
    ensures
        final(ids).wf(),
        final(ids)@ == lost_cid_frame(old(ids)@, lost@),
{
    match lost {
        Frame::NewConnectionId { seq_num, .. } => {
            ids.mark_advertise_new_scid_seq(*seq_num, true);
        },
        Frame::PathNewConnectionId { path_id, seq_num, .. } => {
            // Only if it is still in the per-path pool: the peer may have retired
            // it in the meantime.
            if ids.mp_get_scid(*path_id, *seq_num).is_ok() {
                ids.mp_mark_advertise_new_scid(*path_id, *seq_num, true);
            }
        },
        _ => {},
    }
}

/// Says what remains to be done about a lost frame that carries no data.
fn remaining_action(lost: &Frame, facts: StreamFacts) -> (r: LostAction)
    ensures
        r == lost_action(lost@, facts),
{
    match lost {
        Frame::ResetStream { stream_id, error_code, final_size } => LostAction::ResetStream {
            stream_id: *stream_id,
            error_code: *error_code,
            final_size: *final_size,
        },
        Frame::StopSending { stream_id, error_code } => {
            // Only needed if the stream is still active and not FIN'd: if the
            // application has the final size there is no need to retransmit.
            if facts.exists && !facts.recv_fin {
                LostAction::StopSending { stream_id: *stream_id, error_code: *error_code }
            } else {
                LostAction::Nothing
            }
        },
        Frame::MaxStreamData { stream_id, .. } => {
            if facts.exists {
                LostAction::MaxStreamData { stream_id: *stream_id }
            } else {
                LostAction::Nothing
            }
        },
        Frame::Ping { mtu_probe } => {
            match mtu_probe {
                Some(size) => LostAction::FailedProbe { size: *size },
                None => LostAction::Nothing,
            }
        },
        _ => LostAction::Nothing,
    }
}

impl Sender {
    /// Counts a retransmission of `length` bytes on the path at `pid`.
    fn count_retransmission(&mut self, pid: usize, length: usize)
        requires
            old(self).wf(),
            pid < old(self)@.paths.len(),
            countable(old(self)@, pid as int, length),
        ensures
            final(self).wf(),
            final(self)@ == counted(old(self)@, pid as int, length),
    {
        let mut p: PathFields = self.paths[pid].fields;
        count(&mut p.stats, length);
        self.set_path(pid, p);
        let mut c: ConnFields = self.conn;
        count(&mut c.stats, length);
        self.set_conn(c);
    }

    /// Does what can be done about lost data of a stream, and says whether it is
    /// to be retransmitted.
    fn on_lost_stream_data(&mut self, pid: usize, length: usize, facts: StreamFacts) -> (r: bool)
        requires
            old(self).wf(),
            pid < old(self)@.paths.len(),
            facts.sends() ==> countable(old(self)@, pid as int, length),
        ensures
            final(self).wf(),
            (final(self)@, r) == lost_stream_data(old(self)@, pid as int, length, facts),
    {
        if facts.is_sending() {
            let path_id: u64 = self.paths[pid].fields.path_id;
            self.count_retransmission(pid, length);
            let mut c: ConnFields = self.conn;
            c.pending_reinjection_path = Some(path_id);
            self.set_conn(c);
            true
        } else {
            // Data on a closed stream will not be retransmitted or acked after it
            // is declared lost.
            let mut c: ConnFields = self.conn;
            c.tx_buffered = c.tx_buffered.saturating_sub(length);
            self.set_conn(c);
            false
        }
    }

    /// Does what can be done about a frame that was lost on the path at `pid`, and
    /// says what remains to be done.
    pub fn on_lost_frame(
        &mut self,
        pid: usize,
        lost: &Frame,
        facts: StreamFacts,
        deferred: &mut Deferred,
    ) -> (r: LostAction)
        requires
            old(self).wf(),
            pid < old(self)@.paths.len(),
            retransmitted(lost@, facts) matches Some(n) ==> countable(old(self)@, pid as int, n),
        ensures
            final(self).wf(),
            (final(self)@, final(deferred)@, r) == lost_frame(
                old(self)@,
                old(deferred)@,
                pid as int,
                lost@,
                facts,
            ),
    {
        match lost {
            Frame::CryptoHeader { offset, length } => {
                self.count_retransmission(pid, *length);
                LostAction::RetransmitCrypto { offset: *offset, length: *length }
            },
            Frame::StreamHeader { stream_id, offset, length, fin } => {
                if self.on_lost_stream_data(pid, *length, facts) {
                    LostAction::RetransmitStream {
                        stream_id: *stream_id,
                        offset: *offset,
                        length: *length,
                        fin: *fin,
                    }
                } else {
                    LostAction::Nothing
                }
            },
            _ => {
                let mut c: ConnFields = self.conn;
                rearm_flags(&mut c, lost);
                self.set_conn(c);
                readvertise(&mut self.ids, lost);
                proof {
                    lemma_valid_with_conn(old(self)@, self@);
                }
                defer(deferred, lost);
                remaining_action(lost, facts)
            },
        }
    }
}

/// Whether a stream whose data is retransmitted is put into the queue of streams
/// to flush: it has something to send now, be it just its end, and it was not in
/// the queue.
pub fn should_queue_flushable(was_flushable: bool, is_flushable: bool, length: usize, fin: bool) -> (r:
    bool)
    ensures
        r == ((is_flushable || (length == 0 && fin)) && !was_flushable),
{
    let empty_fin: bool = length == 0 && fin;
    (is_flushable || empty_fin) && !was_flushable
}

} // verus!
