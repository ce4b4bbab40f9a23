//! What the send pipeline knows of a connection.

use crate::cid::model::IdsView;
use crate::cid::ConnectionIdentifiers;
use crate::path::PathAppStatus;
use crate::ranges::{canonical, RangeSet};
use vstd::prelude::*;

verus! {

/// What was sent, on a path or on all of them.
#[derive(Clone, Copy, Debug, PartialEq, Eq, Structural)]
pub struct SendStats {
    /// The number of stream bytes that were retransmitted.
    pub stream_retrans_bytes: u64,
    /// The number of retransmissions.
    pub retrans_count: u64,
    /// The number of datagrams that were sent.
    pub dgram_sent_count: u64,
    /// The number of packets that were sent.
    pub sent_count: u64,
    /// The number of bytes that were sent.
    pub sent_bytes: u64,
}

/// Telling the peer that a path is abandoned.
#[derive(Clone, Copy, Debug, PartialEq, Eq, Structural)]
pub struct AbandonState {
    /// Whether a PATH_ABANDON frame is to be sent.
    pub pending: bool,
    /// Whether a PATH_ABANDON frame was sent.
    pub sent: bool,
    /// Whether a PATH_ABANDON frame was acknowledged.
    pub acked: bool,
    /// The error code of that frame.
    pub error_code: u64,
}

/// Telling the peer how a path is to be used.
#[derive(Clone, Copy, Debug, PartialEq, Eq, Structural)]
pub struct StatusState {
    /// Whether a PATH_STATUS frame is to be sent.
    pub pending: bool,
    /// Whether the peer acknowledged the latest status.
    pub acked: bool,
    /// The sequence number of the latest status.
    pub seq_num: u64,
}

/// What is known of a path apart from the packets to acknowledge on it.
#[derive(Clone, Copy, Debug)]
pub struct PathFields {
    /// The multipath path ID.
    pub path_id: u64,
    /// Whether it is the active path.
    pub active: bool,
    /// Whether data can be sent on it.
    pub can_send: bool,
    /// Whether it has been validated.
    pub validated: bool,
    /// Whether it is being abandoned.
    pub mp_closing: bool,
    /// Telling the peer so.
    pub abandon: AbandonState,
    /// How the application wants it to be used.
    pub app_status: PathAppStatus,
    /// Telling the peer so.
    pub status: StatusState,
    /// The next packet number of its own packet number space.
    pub mp_next_pkt_num: u64,
    /// The sequence number of the destination connection ID it uses.
    pub active_dcid_seq: Option<u64>,
    /// The sequence number of the source connection ID it uses.
    pub active_scid_seq: Option<u64>,
    /// Whether its connection IDs come from the pools of its path ID.
    pub mp_per_path_cids: bool,
    /// Whether packets that elicit an acknowledgement were received on it.
    pub ack_elicited: bool,
    /// The microseconds since the largest packet number was received on it.
    pub rx_elapsed_micros: u64,
    /// Whether an ack-eliciting frame was asked for.
    pub needs_ack_eliciting: bool,
    /// What was sent on it.
    pub stats: SendStats,
    /// The number of bytes that may be sent before the peer is validated.
    pub max_send_bytes: usize,
}

/// A path.
pub struct SendPath {
    /// What is known of it apart from the packets to acknowledge.
    pub fields: PathFields,
    /// The packets to acknowledge.
    pub need_ack: RangeSet,
}

/// What a path holds.
pub struct PathView {
    /// What is known of it apart from the packets to acknowledge.
    pub fields: PathFields,
    /// The packets to acknowledge.
    pub need_ack: Seq<(u64, u64)>,
}

impl View for SendPath {
    type V = PathView;

    open spec fn view(&self) -> PathView {
        PathView { fields: self.fields, need_ack: self.need_ack@ }
    }
}

/// What does not change while packets are sent.
#[derive(Clone, Copy, Debug, PartialEq, Eq, Structural)]
pub struct Config {
    /// Whether the multipath extension is in use.
    pub multipath_enabled: bool,
    /// Whether it is the server's side.
    pub is_server: bool,
    /// Whether the handshake completed.
    pub handshake_completed: bool,
    /// The exponent that acknowledgement delays are scaled by.
    pub ack_delay_exponent: u32,
}

/// Telling the peer that the handshake is done.
#[derive(Clone, Copy, Debug, PartialEq, Eq, Structural)]
pub struct HandshakeDone {
    /// Whether HANDSHAKE_DONE was sent.
    pub sent: bool,
    /// Whether HANDSHAKE_DONE was acknowledged.
    pub acked: bool,
}

/// Flow control frames.
#[derive(Clone, Copy, Debug, PartialEq, Eq)]
pub struct FlowState {
    /// Whether MAX_DATA is to be sent.
    pub send_max_data: bool,
    /// Whether MAX_STREAMS for unidirectional streams is to be sent.
    pub send_max_streams_uni: bool,
    /// Whether MAX_STREAMS for bidirectional streams is to be sent.
    pub send_max_streams_bidi: bool,
    /// The limit to name in a DATA_BLOCKED frame to send.
    pub blocked_limit: Option<u64>,
    /// The number of DATA_BLOCKED frames that were sent.
    pub data_blocked_sent_count: u64,
    /// The number of STREAM_DATA_BLOCKED frames that were sent.
    pub stream_data_blocked_sent_count: u64,
}

/// Frames about how many paths there can be.
#[derive(Clone, Copy, Debug, PartialEq, Eq)]
pub struct PathLimits {
    /// The latest MAX_PATH_ID that was sent.
    pub max_path_id_sent: Option<u64>,
    /// Whether it was acknowledged.
    pub max_path_id_acked: bool,
    /// The MAX_PATH_ID to send.
    pub max_path_id_pending: Option<u64>,
    /// The limit to name in a PATHS_BLOCKED frame to send.
    pub paths_blocked_pending: Option<u64>,
    /// The path of a PATH_CIDS_BLOCKED frame to send.
    pub cids_blocked_path: Option<u64>,
    /// The sequence number of that frame.
    pub cids_blocked_seq: u64,
}

/// Timers, in nanoseconds.
#[derive(Clone, Copy, Debug, PartialEq, Eq)]
pub struct Timers {
    /// When the connection stops draining.
    pub draining: Option<u128>,
    /// When the connection is idle for too long.
    pub idle: Option<u128>,
}

/// What is known of a connection apart from its paths, its connection IDs and the
/// packets to acknowledge.
#[derive(Clone, Copy, Debug)]
pub struct ConnFields {
    /// What does not change.
    pub config: Config,
    /// Telling the peer that the handshake is done.
    pub handshake_done: HandshakeDone,
    /// Flow control frames.
    pub flow: FlowState,
    /// Frames about how many paths there can be.
    pub limits: PathLimits,
    /// What was sent.
    pub stats: SendStats,
    /// Timers.
    pub timers: Timers,
    /// Whether packets that elicit an acknowledgement were received.
    pub ack_elicited: bool,
    /// The next packet number of the shared packet number space.
    pub next_pkt_num: u64,
    /// The packet number that was skipped last.
    pub skipped_pkt_num: Option<u64>,
    /// The number of bytes that are buffered for sending.
    pub tx_buffered: usize,
    /// The path on which stream data was lost last.
    pub pending_reinjection_path: Option<u64>,
    /// Whether datagrams are preferred to stream data.
    pub emit_dgram: bool,
    /// Whether an ack-eliciting packet was sent since one was received.
    pub ack_eliciting_sent: bool,
}

/// Why a connection is closed.
pub struct ConnectionError {
    /// Whether the application closed it.
    pub is_app: bool,
    /// The error code.
    pub error_code: u64,
    /// The reason.
    pub reason: Vec<u8>,
}

/// What a connection error holds.
pub struct ErrorView {
    /// Whether the application closed it.
    pub is_app: bool,
    /// The error code.
    pub error_code: u64,
    /// The reason.
    pub reason: Seq<u8>,
}

impl View for ConnectionError {
    type V = ErrorView;

    open spec fn view(&self) -> ErrorView {
        ErrorView { is_app: self.is_app, error_code: self.error_code, reason: self.reason@ }
    }
}

/// The send side of a connection.
pub struct Sender {
    /// What is known of it apart from what follows.
    pub conn: ConnFields,
    /// The paths; a path is known by its position.
    pub paths: Vec<SendPath>,
    /// The path IDs whose state was deleted after they were abandoned.
    pub abandoned: Vec<u64>,
    /// PATH_ABANDON frames to send for path IDs without a path, as (path ID, error
    /// code) pairs.
    pub abandon_queue: Vec<(u64, u64)>,
    /// The packets to acknowledge.
    pub need_ack: RangeSet,
    /// Why the connection is being closed, if it is.
    pub local_error: Option<ConnectionError>,
    /// The connection IDs.
    pub ids: ConnectionIdentifiers,
}

/// What the send side of a connection holds.
pub struct SenderView {
    /// What is known of it apart from what follows.
    pub conn: ConnFields,
    /// The paths.
    pub paths: Seq<PathView>,
    /// The path IDs whose state was deleted after they were abandoned.
    pub abandoned: Seq<u64>,
    /// PATH_ABANDON frames to send for path IDs without a path.
    pub abandon_queue: Seq<(u64, u64)>,
    /// The packets to acknowledge.
    pub need_ack: Seq<(u64, u64)>,
    /// Why the connection is being closed, if it is.
    pub local_error: Option<ErrorView>,
    /// The connection IDs.
    pub ids: IdsView,
}

/// The paths of a sequence, each by what it holds.
pub open spec fn path_views(ps: Seq<SendPath>) -> Seq<PathView> {
    ps.map_values(|p: SendPath| p@)
}

impl View for Sender {
    type V = SenderView;

    open spec fn view(&self) -> SenderView {
        SenderView {
            conn: self.conn,
            paths: path_views(self.paths@),
            abandoned: self.abandoned@,
            abandon_queue: self.abandon_queue@,
            need_ack: self.need_ack@,
            local_error: match self.local_error {
                Some(e) => Some(e@),
                None => None,
            },
            ids: self.ids@,
        }
    }
}

impl SenderView {
    /// The sets of packet numbers are in canonical form, and delays can be scaled.
    #[verifier::opaque]
    pub open spec fn valid(self) -> bool {
        &&& canonical(self.need_ack)
        &&& forall|i: int| 0 <= i < self.paths.len() ==> canonical(#[trigger] self.paths[i].need_ack)
        &&& self.conn.config.ack_delay_exponent < 64
    }

    /// The state with other plain values.
    pub open spec fn with_conn(self, conn: ConnFields) -> SenderView {
        SenderView { conn, ..self }
    }

    /// The state with other plain values of the path at position `i`.
    pub open spec fn with_path(self, i: int, fields: PathFields) -> SenderView {
        SenderView { paths: self.paths.update(i, PathView { fields, ..self.paths[i] }), ..self }
    }

    /// The plain values of the path at position `i`.
    pub open spec fn path(self, i: int) -> PathFields {
        self.paths[i].fields
    }
}

/// Plain values and connection IDs do not matter for what holds of the state, but
/// for the exponent of delays.
pub proof fn lemma_valid_with_conn(s: SenderView, t: SenderView)
    requires
        s.valid(),
        s.need_ack == t.need_ack,
        s.paths == t.paths,
        s.conn.config == t.conn.config,
    ensures
        t.valid(),
{
    reveal(SenderView::valid);
}

impl Sender {
    /// What holds of the send side between calls.
    pub open spec fn wf(&self) -> bool {
        self.ids.wf() && self@.valid()
    }

    /// The send side of a connection that has no path yet.
    pub fn new(conn: ConnFields, ids: ConnectionIdentifiers) -> (r: Self)
        requires
            ids.wf(),
            conn.config.ack_delay_exponent < 64,
        ensures
            r.wf(),
            r@ == (SenderView {
                conn,
                paths: Seq::empty(),
                abandoned: Seq::empty(),
                abandon_queue: Seq::empty(),
                need_ack: Seq::empty(),
                local_error: None,
                ids: ids@,
            }),
    {
        let r = Sender {
            conn,
            paths: Vec::new(),
            abandoned: Vec::new(),
            abandon_queue: Vec::new(),
            need_ack: RangeSet::default(),
            local_error: None,
            ids,
        };
        proof {
            reveal(SenderView::valid);
            assert(r@.paths =~= Seq::empty());
        }
        r
    }

    /// Adds a path on which there is nothing to acknowledge.
    pub fn add_path(&mut self, fields: PathFields)
        requires
            old(self).wf(),
        ensures
            final(self).wf(),
            final(self)@ == (SenderView {
                paths: old(self)@.paths.push(PathView { fields, need_ack: Seq::empty() }),
                ..old(self)@
            }),
    {
        self.paths.push(SendPath { fields, need_ack: RangeSet::default() });
        proof {
            reveal(SenderView::valid);
            assert(self@.paths =~= old(self)@.paths.push(
                PathView { fields, need_ack: Seq::empty() },
            ));
        }
    }

    /// Replaces the plain values of the connection.
    pub fn set_conn(&mut self, conn: ConnFields)
        requires
            old(self).wf(),
            conn.config == old(self)@.conn.config,
        ensures
            final(self).wf(),
            final(self)@ == old(self)@.with_conn(conn),
    {
        self.conn = conn;
        proof {
            lemma_valid_with_conn(old(self)@, self@);
        }
    }

    /// Replaces the plain values of a path.
    pub fn set_path(&mut self, i: usize, fields: PathFields)
        requires
            i < old(self)@.paths.len(),
            old(self).wf(),
        ensures
            final(self).wf(),
            final(self)@ == old(self)@.with_path(i as int, fields),
    {
        self.paths[i].fields = fields;
        proof {
            let before = old(self)@;
            assert(self@.paths =~= before.with_path(i as int, fields).paths);
            reveal(SenderView::valid);
        }
    }
}

} // verus!
