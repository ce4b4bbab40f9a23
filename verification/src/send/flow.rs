//! HANDSHAKE_DONE, flow control and closing a connection.

use crate::frame::{Frame, FrameView};
use crate::packet::{copied, Type};
use crate::send::packing::{Packing, PackingView};
use crate::send::state::{
    ConnFields, ConnectionError, ErrorView, FlowState, HandshakeDone, Sender, SenderView, Timers,
};
use vstd::prelude::*;

verus! {

/// The state and the packet once HANDSHAKE_DONE was added: a server sends it once
/// the handshake completed.
pub open spec fn handshake_done_stage(c: ConnFields, p: PackingView) -> (ConnFields, PackingView) {
    if c.config.handshake_completed && !c.handshake_done.sent && c.config.is_server && p.has_room(
        FrameView::HandshakeDone,
    ) {
        (
            ConnFields { handshake_done: HandshakeDone { sent: true, ..c.handshake_done }, ..c },
            p.with(FrameView::HandshakeDone).eliciting(),
        )
    } else {
        (c, p)
    }
}

/// The plain values, the packet and whether the frame was added, where a MAX_STREAMS
/// frame for bidirectional streams is due.
pub open spec fn max_streams_bidi_stage(c: ConnFields, p: PackingView, due: bool, max: u64) -> (
    ConnFields,
    PackingView,
    bool,
) {
    let f = FrameView::MaxStreamsBidi { max };
    if (due || c.flow.send_max_streams_bidi) && p.has_room(f) {
        (
            ConnFields { flow: FlowState { send_max_streams_bidi: false, ..c.flow }, ..c },
            p.with(f).eliciting(),
            true,
        )
    } else {
        (c, p, false)
    }
}

/// The plain values, the packet and whether the frame was added, where a MAX_STREAMS
/// frame for unidirectional streams is due.
pub open spec fn max_streams_uni_stage(c: ConnFields, p: PackingView, due: bool, max: u64) -> (
    ConnFields,
    PackingView,
    bool,
) {
    let f = FrameView::MaxStreamsUni { max };
    if (due || c.flow.send_max_streams_uni) && p.has_room(f) {
        (
            ConnFields { flow: FlowState { send_max_streams_uni: false, ..c.flow }, ..c },
            p.with(f).eliciting(),
            true,
        )
    } else {
        (c, p, false)
    }
}

/// One more, as far as it can be counted.
pub open spec fn one_more(n: u64) -> u64 {
    if n < u64::MAX {
        (n + 1) as u64
    } else {
        n
    }
}

/// The plain values and the packet, with a DATA_BLOCKED frame where one is to be
/// sent.
pub open spec fn data_blocked_stage(c: ConnFields, p: PackingView) -> (ConnFields, PackingView) {
    match c.flow.blocked_limit {
        Some(limit) if p.has_room(FrameView::DataBlocked { limit }) => (
            ConnFields {
                flow: FlowState {
                    blocked_limit: None,
                    data_blocked_sent_count: one_more(c.flow.data_blocked_sent_count),
                    ..c.flow
                },
                ..c
            },
            p.with(FrameView::DataBlocked { limit }).eliciting(),
        ),
        _ => (c, p),
    }
}

/// The plain values, the packet and whether the frame was added, where a MAX_DATA
/// frame is due.
pub open spec fn max_data_stage(c: ConnFields, p: PackingView, due: bool, max: u64) -> (
    ConnFields,
    PackingView,
    bool,
) {
    let f = FrameView::MaxData { max };
    let wanted = due || c.flow.send_max_data;
    if wanted && p.has_room(f) {
        (
            ConnFields { flow: FlowState { send_max_data: false, ..c.flow }, ..c },
            p.with(f).eliciting(),
            true,
        )
    } else {
        (ConnFields { flow: FlowState { send_max_data: wanted, ..c.flow }, ..c }, p, false)
    }
}

/// The plain values, the packet and whether the frame was added, for a
/// STREAM_DATA_BLOCKED frame.
pub open spec fn stream_data_blocked_stage(
    c: ConnFields,
    p: PackingView,
    stream_id: u64,
    limit: u64,
) -> (ConnFields, PackingView, bool) {
    let f = FrameView::StreamDataBlocked { stream_id, limit };
    if p.has_room(f) {
        (
            ConnFields {
                flow: FlowState {
                    stream_data_blocked_sent_count: one_more(
                        c.flow.stream_data_blocked_sent_count,
                    ),
                    ..c.flow
                },
                ..c
            },
            p.with(f).eliciting(),
            true,
        )
    } else {
        (c, p, false)
    }
}

impl Sender {
    /// Creates a HANDSHAKE_DONE frame as needed. It must only go on the active path.
    pub fn add_handshake_done(&mut self, pk: &mut Packing)
        requires
            old(self).wf(),
            old(pk)@.valid(),
        ensures
            final(self).wf(),
            final(pk)@.valid(),
            ({
                let (c, p) = handshake_done_stage(old(self)@.conn, old(pk)@);
                final(self)@ == old(self)@.with_conn(c) && final(pk)@ == p
            }),
    {
        let mut c: ConnFields = self.conn;
        if c.config.handshake_completed && !c.handshake_done.sent && c.config.is_server {
            if pk.push_eliciting(Frame::HandshakeDone) {
                c.handshake_done.sent = true;
            }
        }
        self.set_conn(c);
    }

    /// Creates a MAX_STREAMS frame for bidirectional streams where the limit is due
    /// to be raised or the frame was lost, and says whether it found room.
    pub fn add_max_streams_bidi(&mut self, pk: &mut Packing, due: bool, max: u64) -> (r: bool)
        requires
            old(self).wf(),
            old(pk)@.valid(),
        ensures
            final(self).wf(),
            final(pk)@.valid(),
            ({
                let (c, p, ok) = max_streams_bidi_stage(old(self)@.conn, old(pk)@, due, max);
                final(self)@ == old(self)@.with_conn(c) && final(pk)@ == p && r == ok
            }),
    {
        let mut c: ConnFields = self.conn;
        let mut sent: bool = false;
        if due || c.flow.send_max_streams_bidi {
            if pk.push_eliciting(Frame::MaxStreamsBidi { max }) {
                c.flow.send_max_streams_bidi = false;
                sent = true;
            }
        }
        self.set_conn(c);
        sent
    }

    /// Creates a MAX_STREAMS frame for unidirectional streams where the limit is due
    /// to be raised or the frame was lost, and says whether it found room.
    pub fn add_max_streams_uni(&mut self, pk: &mut Packing, due: bool, max: u64) -> (r: bool)
        requires
            old(self).wf(),
            old(pk)@.valid(),
        ensures
            final(self).wf(),
            final(pk)@.valid(),
            ({
                let (c, p, ok) = max_streams_uni_stage(old(self)@.conn, old(pk)@, due, max);
                final(self)@ == old(self)@.with_conn(c) && final(pk)@ == p && r == ok
            }),
    {
        let mut c: ConnFields = self.conn;
        let mut sent: bool = false;
        if due || c.flow.send_max_streams_uni {
            if pk.push_eliciting(Frame::MaxStreamsUni { max }) {
                c.flow.send_max_streams_uni = false;
                sent = true;
            }
        }
        self.set_conn(c);
        sent
    }

    /// Creates a DATA_BLOCKED frame as needed.
    pub fn add_data_blocked(&mut self, pk: &mut Packing)
        requires
            old(self).wf(),
            old(pk)@.valid(),
        ensures
            final(self).wf(),
            final(pk)@.valid(),
            ({
                let (c, p) = data_blocked_stage(old(self)@.conn, old(pk)@);
                final(self)@ == old(self)@.with_conn(c) && final(pk)@ == p
            }),
    {
        let mut c: ConnFields = self.conn;
        if let Some(limit) = c.flow.blocked_limit {
            if pk.push_eliciting(Frame::DataBlocked { limit }) {
                c.flow.blocked_limit = None;
                c.flow.data_blocked_sent_count = c.flow.data_blocked_sent_count.saturating_add(1);
            }
        }
        self.set_conn(c);
    }

    /// Creates a MAX_DATA frame where the limit is due to be raised or the frame was
    /// lost, and says whether it found room. Where it did not, it stays wanted.
    pub fn add_max_data(&mut self, pk: &mut Packing, due: bool, max: u64) -> (r: bool)
        requires
            old(self).wf(),
            old(pk)@.valid(),
        ensures
            final(self).wf(),
            final(pk)@.valid(),
            ({
                let (c, p, ok) = max_data_stage(old(self)@.conn, old(pk)@, due, max);
                final(self)@ == old(self)@.with_conn(c) && final(pk)@ == p && r == ok
            }),
    {
        let mut c: ConnFields = self.conn;
        let mut sent: bool = false;
        if due {
            c.flow.send_max_data = true;
        }
        if c.flow.send_max_data {
            if pk.push_eliciting(Frame::MaxData { max }) {
                c.flow.send_max_data = false;
                sent = true;
            }
        }
        self.set_conn(c);
        sent
    }

    /// Creates a STREAM_DATA_BLOCKED frame, and says whether it found room.
    pub fn add_stream_data_blocked(&mut self, pk: &mut Packing, stream_id: u64, limit: u64) -> (r:
        bool)
        requires
            old(self).wf(),
            old(pk)@.valid(),
        ensures
            final(self).wf(),
            final(pk)@.valid(),
            ({
                let (c, p, ok) = stream_data_blocked_stage(
                    old(self)@.conn,
                    old(pk)@,
                    stream_id,
                    limit,
                );
                final(self)@ == old(self)@.with_conn(c) && final(pk)@ == p && r == ok
            }),
    {
        let mut c: ConnFields = self.conn;
        let sent: bool = pk.push_eliciting(Frame::StreamDataBlocked { stream_id, limit });
        if sent {
            c.flow.stream_data_blocked_sent_count =
                c.flow.stream_data_blocked_sent_count.saturating_add(1);
        }
        self.set_conn(c);
        sent
    }
}

/// The frame that closes a connection for the given error in a packet of the given
/// type: an error of the application is told in 1-RTT packets only.
pub open spec fn close_frame(e: ErrorView, ty: Type) -> Option<FrameView> {
    if !e.is_app {
        Some(
            FrameView::ConnectionClose {
                error_code: e.error_code,
                frame_type: 0,
                reason: e.reason,
            },
        )
    } else if ty == Type::Short {
        Some(FrameView::ApplicationClose { error_code: e.error_code, reason: e.reason })
    } else {
        None
    }
}

/// The plain values and the packet once the connection was closed, where it is to be
/// on the path at `pid`: on the active one, or on the only one. It then drains for
/// three times the PTO.
pub open spec fn close_stage(
    s: SenderView,
    p: PackingView,
    pid: int,
    ty: Type,
    now: u128,
    pto: u128,
) -> (ConnFields, PackingView) {
    if s.path(pid).active || s.paths.len() == 1 {
        match s.local_error {
            Some(e) => match close_frame(e, ty) {
                Some(f) if p.has_room(f) => (
                    ConnFields {
                        timers: Timers {
                            draining: Some((now + 3 * pto) as u128),
                            ..s.conn.timers
                        },
                        ..s.conn
                    },
                    p.with(f).eliciting(),
                ),
                _ => (s.conn, p),
            },
            None => (s.conn, p),
        }
    } else {
        (s.conn, p)
    }
}

/// The frame that closes a connection.
fn make_close_frame(e: &ConnectionError, ty: Type) -> (r: Option<Frame>)
    ensures
        match close_frame(e@, ty) {
            Some(f) => r matches Some(x) && x@ == f,
            None => r is None,
        },
{
    let reason = copied(e.reason.as_slice());
    if !e.is_app {
        Some(Frame::ConnectionClose { error_code: e.error_code, frame_type: 0, reason })
    } else if ty == Type::Short {
        Some(Frame::ApplicationClose { error_code: e.error_code, reason })
    } else {
        None
    }
}

/// Whether MAX_DATA is due: an update is wanted, and the limit is below the next one.
pub fn max_data_due(should_update: bool, max: u64, next: u64) -> (r: bool)
    ensures
        r == (should_update && max < next),
{
    should_update && max < next
}

impl Sender {
    /// The PTO that scales the closing period: the largest one among all paths with
    /// multipath, that of the sending path otherwise.
    pub fn closing_pto(&self, path_pto: u128, max_pto: u128) -> (r: u128)
        ensures
            r == if self@.conn.config.multipath_enabled {
                max_pto
            } else {
                path_pto
            },
    {
        if self.conn.config.multipath_enabled {
            max_pto
        } else {
            path_pto
        }
    }

    /// Creates a CONNECTION_CLOSE frame as needed. Try to send this only on the
    /// active path, unless it is the last one available.
    pub fn add_close(&mut self, pk: &mut Packing, pid: usize, ty: Type, now: u128, pto: u128)
        requires
            old(self).wf(),
            old(pk)@.valid(),
            pid < old(self)@.paths.len(),
            now + 3 * pto <= u128::MAX,
        ensures
            final(self).wf(),
            final(pk)@.valid(),
            ({
                let (c, p) = close_stage(old(self)@, old(pk)@, pid as int, ty, now, pto);
                final(self)@ == old(self)@.with_conn(c) && final(pk)@ == p
            }),
    {
        assert(self@.paths[pid as int] == self.paths@[pid as int]@);
        let mut c: ConnFields = self.conn;
        if self.paths[pid].fields.active || self.paths.len() == 1 {
            if let Some(e) = &self.local_error {
                if let Some(frame) = make_close_frame(e, ty) {
                    if pk.push_eliciting(frame) {
                        c.timers.draining = Some(now + 3 * pto);
                    }
                }
            }
        }
        self.set_conn(c);
    }
}

} // verus!
