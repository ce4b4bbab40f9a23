//! QUIC frames.

use crate::ranges::RangeSet;

use vstd::prelude::*;

verus! {

/// The ECN counts of an acknowledgement.
#[derive(Clone, Copy, Debug, Default, PartialEq, Eq, Structural)]
pub struct EcnCounts {
    /// Packets received with the ECT(0) codepoint.
    pub ect0_count: u64,
    /// Packets received with the ECT(1) codepoint.
    pub ect1_count: u64,
    /// Packets received with the ECN-CE codepoint.
    pub ecn_ce_count: u64,
}

/// A QUIC frame.
#[allow(inconsistent_fields)]
#[derive(Debug, PartialEq, Eq)]
pub enum Frame {
    /// PADDING.
    Padding {
        /// The number of bytes.
        len: usize,
    },
    /// PING.
    Ping {
        /// The size of the packet, where it probes the path MTU.
        mtu_probe: Option<usize>,
    },
    /// ACK.
    ACK {
        /// The delay, scaled.
        ack_delay: u64,
        /// The acknowledged packet numbers.
        ranges: RangeSet,
        /// The ECN counts, if any.
        ecn_counts: Option<EcnCounts>,
    },
    /// RESET_STREAM.
    ResetStream {
        /// The stream.
        stream_id: u64,
        /// The error code.
        error_code: u64,
        /// The final size of the stream.
        final_size: u64,
    },
    /// STOP_SENDING.
    StopSending {
        /// The stream.
        stream_id: u64,
        /// The error code.
        error_code: u64,
    },
    /// CRYPTO, without its data.
    CryptoHeader {
        /// The offset of the data.
        offset: u64,
        /// The length of the data.
        length: usize,
    },
    /// STREAM, without its data.
    StreamHeader {
        /// The stream.
        stream_id: u64,
        /// The offset of the data.
        offset: u64,
        /// The length of the data.
        length: usize,
        /// Whether the stream ends with the data.
        fin: bool,
    },
    /// MAX_DATA.
    MaxData {
        /// The limit.
        max: u64,
    },
    /// MAX_STREAM_DATA.
    MaxStreamData {
        /// The stream.
        stream_id: u64,
        /// The limit.
        max: u64,
    },
    /// MAX_STREAMS for bidirectional streams.
    MaxStreamsBidi {
        /// The limit.
        max: u64,
    },
    /// MAX_STREAMS for unidirectional streams.
    MaxStreamsUni {
        /// The limit.
        max: u64,
    },
    /// DATA_BLOCKED.
    DataBlocked {
        /// The limit.
        limit: u64,
    },
    /// STREAM_DATA_BLOCKED.
    StreamDataBlocked {
        /// The stream.
        stream_id: u64,
        /// The limit.
        limit: u64,
    },
    /// NEW_CONNECTION_ID.
    NewConnectionId {
        /// The sequence number of the connection ID.
        seq_num: u64,
        /// Lower sequence numbers are to be retired.
        retire_prior_to: u64,
        /// The connection ID.
        conn_id: Vec<u8>,
        /// Its stateless reset token.
        reset_token: [u8; 16],
    },
    /// RETIRE_CONNECTION_ID.
    RetireConnectionId {
        /// The sequence number of the connection ID.
        seq_num: u64,
    },
    /// PATH_CHALLENGE.
    PathChallenge {
        /// The data to echo.
        data: [u8; 8],
    },
    /// PATH_RESPONSE.
    PathResponse {
        /// The echoed data.
        data: [u8; 8],
    },
    /// CONNECTION_CLOSE for an error of the transport.
    ConnectionClose {
        /// The error code.
        error_code: u64,
        /// The type of the frame that caused it.
        frame_type: u64,
        /// Why the connection is closed.
        reason: Vec<u8>,
    },
    /// CONNECTION_CLOSE for an error of the application.
    ApplicationClose {
        /// The error code.
        error_code: u64,
        /// Why the connection is closed.
        reason: Vec<u8>,
    },
    /// HANDSHAKE_DONE.
    HandshakeDone,
    /// DATAGRAM, without its data.
    DatagramHeader {
        /// The length of the data.
        length: usize,
    },
    /// PATH_ACK.
    PathAck {
        /// The path of the acknowledged packets.
        path_id: u64,
        /// The delay, scaled.
        ack_delay: u64,
        /// The acknowledged packet numbers.
        ranges: RangeSet,
        /// The ECN counts, if any.
        ecn_counts: Option<EcnCounts>,
    },
    /// PATH_ABANDON.
    PathAbandon {
        /// The path.
        path_id: u64,
        /// The error code.
        error_code: u64,
    },
    /// PATH_STATUS_AVAILABLE.
    PathStatusAvailable {
        /// The path.
        path_id: u64,
        /// The sequence number of the status.
        seq_num: u64,
    },
    /// PATH_STATUS_BACKUP.
    PathStatusBackup {
        /// The path.
        path_id: u64,
        /// The sequence number of the status.
        seq_num: u64,
    },
    /// PATH_NEW_CONNECTION_ID.
    PathNewConnectionId {
        /// The path the connection ID is for.
        path_id: u64,
        /// The sequence number of the connection ID on that path.
        seq_num: u64,
        /// Lower sequence numbers of that path are to be retired.
        retire_prior_to: u64,
        /// The connection ID.
        conn_id: Vec<u8>,
        /// Its stateless reset token.
        reset_token: u128,
    },
    /// PATH_RETIRE_CONNECTION_ID.
    PathRetireConnectionId {
        /// The path the connection ID is for.
        path_id: u64,
        /// The sequence number of the connection ID on that path.
        seq_num: u64,
    },
    /// MAX_PATH_ID.
    MaxPathId {
        /// The limit.
        path_id: u64,
    },
    /// PATHS_BLOCKED.
    PathsBlocked {
        /// The limit.
        path_id: u64,
    },
    /// PATH_CIDS_BLOCKED.
    PathCidsBlocked {
        /// The path.
        path_id: u64,
        /// The next expected sequence number.
        seq_num: u64,
    },
}

/// What a frame holds.
#[allow(inconsistent_fields)]
pub enum FrameView {
    /// See [`Frame::Padding`].
    Padding { len: usize },
    /// See [`Frame::Ping`].
    Ping { mtu_probe: Option<usize> },
    /// See [`Frame::ACK`].
    ACK { ack_delay: u64, ranges: Seq<(u64, u64)>, ecn_counts: Option<EcnCounts> },
    /// See [`Frame::ResetStream`].
    ResetStream { stream_id: u64, error_code: u64, final_size: u64 },
    /// See [`Frame::StopSending`].
    StopSending { stream_id: u64, error_code: u64 },
    /// See [`Frame::CryptoHeader`].
    CryptoHeader { offset: u64, length: usize },
    /// See [`Frame::StreamHeader`].
    StreamHeader { stream_id: u64, offset: u64, length: usize, fin: bool },
    /// See [`Frame::MaxData`].
    MaxData { max: u64 },
    /// See [`Frame::MaxStreamData`].
    MaxStreamData { stream_id: u64, max: u64 },
    /// See [`Frame::MaxStreamsBidi`].
    MaxStreamsBidi { max: u64 },
    /// See [`Frame::MaxStreamsUni`].
    MaxStreamsUni { max: u64 },
    /// See [`Frame::DataBlocked`].
    DataBlocked { limit: u64 },
    /// See [`Frame::StreamDataBlocked`].
    StreamDataBlocked { stream_id: u64, limit: u64 },
    /// See [`Frame::NewConnectionId`].
    NewConnectionId {
        seq_num: u64,
        retire_prior_to: u64,
        conn_id: Seq<u8>,
        reset_token: Seq<u8>,
    },
    /// See [`Frame::RetireConnectionId`].
    RetireConnectionId { seq_num: u64 },
    /// See [`Frame::PathChallenge`].
    PathChallenge { data: Seq<u8> },
    /// See [`Frame::PathResponse`].
    PathResponse { data: Seq<u8> },
    /// See [`Frame::ConnectionClose`].
    ConnectionClose { error_code: u64, frame_type: u64, reason: Seq<u8> },
    /// See [`Frame::ApplicationClose`].
    ApplicationClose { error_code: u64, reason: Seq<u8> },
    /// See [`Frame::HandshakeDone`].
    HandshakeDone,
    /// See [`Frame::DatagramHeader`].
    DatagramHeader { length: usize },
    /// See [`Frame::PathAck`].
    PathAck {
        path_id: u64,
        ack_delay: u64,
        ranges: Seq<(u64, u64)>,
        ecn_counts: Option<EcnCounts>,
    },
    /// See [`Frame::PathAbandon`].
    PathAbandon { path_id: u64, error_code: u64 },
    /// See [`Frame::PathStatusAvailable`].
    PathStatusAvailable { path_id: u64, seq_num: u64 },
    /// See [`Frame::PathStatusBackup`].
    PathStatusBackup { path_id: u64, seq_num: u64 },
    /// See [`Frame::PathNewConnectionId`].
    PathNewConnectionId {
        path_id: u64,
        seq_num: u64,
        retire_prior_to: u64,
        conn_id: Seq<u8>,
        reset_token: u128,
    },
    /// See [`Frame::PathRetireConnectionId`].
    PathRetireConnectionId { path_id: u64, seq_num: u64 },
    /// See [`Frame::MaxPathId`].
    MaxPathId { path_id: u64 },
    /// See [`Frame::PathsBlocked`].
    PathsBlocked { path_id: u64 },
    /// See [`Frame::PathCidsBlocked`].
    PathCidsBlocked { path_id: u64, seq_num: u64 },
}

impl View for Frame {
    type V = FrameView;

    open spec fn view(&self) -> FrameView {
        match *self {
            Frame::Padding { len } => FrameView::Padding { len },
            Frame::Ping { mtu_probe } => FrameView::Ping { mtu_probe },
            Frame::ACK { ack_delay, ranges, ecn_counts } => FrameView::ACK {
                ack_delay,
                ranges: ranges@,
                ecn_counts,
            },
            Frame::ResetStream { stream_id, error_code, final_size } => FrameView::ResetStream {
                stream_id,
                error_code,
                final_size,
            },
            Frame::StopSending { stream_id, error_code } => FrameView::StopSending {
                stream_id,
                error_code,
            },
            Frame::CryptoHeader { offset, length } => FrameView::CryptoHeader { offset, length },
            Frame::StreamHeader { stream_id, offset, length, fin } => FrameView::StreamHeader {
                stream_id,
                offset,
                length,
                fin,
            },
            Frame::MaxData { max } => FrameView::MaxData { max },
            Frame::MaxStreamData { stream_id, max } => FrameView::MaxStreamData { stream_id, max },
            Frame::MaxStreamsBidi { max } => FrameView::MaxStreamsBidi { max },
            Frame::MaxStreamsUni { max } => FrameView::MaxStreamsUni { max },
            Frame::DataBlocked { limit } => FrameView::DataBlocked { limit },
            Frame::StreamDataBlocked { stream_id, limit } => FrameView::StreamDataBlocked {
                stream_id,
                limit,
            },
            Frame::NewConnectionId { seq_num, retire_prior_to, conn_id, reset_token } =>
                FrameView::NewConnectionId {
                    seq_num,
                    retire_prior_to,
                    conn_id: conn_id@,
                    reset_token: reset_token@,
                },
            Frame::RetireConnectionId { seq_num } => FrameView::RetireConnectionId { seq_num },
            Frame::PathChallenge { data } => FrameView::PathChallenge { data: data@ },
            Frame::PathResponse { data } => FrameView::PathResponse { data: data@ },
            Frame::ConnectionClose { error_code, frame_type, reason } => FrameView::ConnectionClose {
                error_code,
                frame_type,
                reason: reason@,
            },
            Frame::ApplicationClose { error_code, reason } => FrameView::ApplicationClose {
                error_code,
                reason: reason@,
            },
            Frame::HandshakeDone => FrameView::HandshakeDone,
            Frame::DatagramHeader { length } => FrameView::DatagramHeader { length },
            Frame::PathAck { path_id, ack_delay, ranges, ecn_counts } => FrameView::PathAck {
                path_id,
                ack_delay,
                ranges: ranges@,
                ecn_counts,
            },
            Frame::PathAbandon { path_id, error_code } => FrameView::PathAbandon {
                path_id,
                error_code,
            },
            Frame::PathStatusAvailable { path_id, seq_num } => FrameView::PathStatusAvailable {
                path_id,
                seq_num,
            },
            Frame::PathStatusBackup { path_id, seq_num } => FrameView::PathStatusBackup {
                path_id,
                seq_num,
            },
            Frame::PathNewConnectionId {
                path_id,
                seq_num,
                retire_prior_to,
                conn_id,
                reset_token,
            } => FrameView::PathNewConnectionId {
                path_id,
                seq_num,
                retire_prior_to,
                conn_id: conn_id@,
                reset_token,
            },
            Frame::PathRetireConnectionId { path_id, seq_num } =>
                FrameView::PathRetireConnectionId { path_id, seq_num },
            Frame::MaxPathId { path_id } => FrameView::MaxPathId { path_id },
            Frame::PathsBlocked { path_id } => FrameView::PathsBlocked { path_id },
            Frame::PathCidsBlocked { path_id, seq_num } => FrameView::PathCidsBlocked {
                path_id,
                seq_num,
            },
        }
    }
}

} // verus!
