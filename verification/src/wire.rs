//! How many bytes frames take.

use crate::buffer::{joined, varint_fields, varint_len};
use crate::bytes::lemma_be_bytes_len;
use crate::frame::{EcnCounts, Frame, FrameView};
use crate::multipath::frame_laws::law_path_new_connection_id_fields;
use crate::multipath::frames::{
    ack_list, ack_type, ack_varints, path_ack_varints, path_new_connection_id_fields,
    MAX_PATH_ID_TYPE, PATHS_BLOCKED_TYPE, PATH_ABANDON_TYPE, PATH_CIDS_BLOCKED_TYPE,
    PATH_NEW_CONNECTION_ID_TYPE, PATH_RETIRE_CONNECTION_ID_TYPE, PATH_STATUS_AVAILABLE_TYPE,
    PATH_STATUS_BACKUP_TYPE,
};
use crate::ranges::{canonical, RangeSet};
use crate::varint::{lemma_varint_len, varint_size, MAX_VAR_INT};
use vstd::prelude::*;

verus! {

/// How many bytes variable-length integers take.
pub open spec fn sizes(vs: Seq<u64>) -> nat
    decreases vs.len(),
{
    if vs.len() == 0 {
        0
    } else {
        sizes(vs.drop_last()) + varint_size(vs.last())
    }
}

/// Variable-length integers take as many bytes as they are written with.
pub proof fn lemma_sizes(vs: Seq<u64>)
    ensures
        sizes(vs) == joined(varint_fields(vs)).len(),
        sizes(vs) <= 8 * vs.len(),
    decreases vs.len(),
{
    if vs.len() > 0 {
        lemma_sizes(vs.drop_last());
        lemma_varint_len(vs.last());
        assert(varint_fields(vs).drop_last() =~= varint_fields(vs.drop_last()));
    }
}

/// How many bytes a few integers take.
pub proof fn lemma_sizes_few(a: u64, b: u64, c: u64)
    ensures
        sizes(seq![a]) == varint_size(a),
        sizes(seq![a, b]) == varint_size(a) + varint_size(b),
        sizes(seq![a, b, c]) == varint_size(a) + varint_size(b) + varint_size(c),
{
    assert(seq![a].drop_last() =~= Seq::empty());
    assert(seq![a, b].drop_last() =~= seq![a]);
    assert(seq![a, b, c].drop_last() =~= seq![a, b]);
    reveal_with_fuel(sizes, 4);
}

/// How many bytes some integers and some more take.
pub proof fn lemma_sizes_add(a: Seq<u64>, b: Seq<u64>)
    ensures
        sizes(a + b) == sizes(a) + sizes(b),
    decreases b.len(),
{
    if b.len() == 0 {
        assert(a + b =~= a);
    } else {
        lemma_sizes_add(a, b.drop_last());
        assert((a + b).drop_last() =~= a + b.drop_last());
        assert((a + b).last() == b.last());
    }
}

impl FrameView {
    /// Whether the frame can be sent: an acknowledgement acknowledges something.
    pub open spec fn valid(self) -> bool {
        match self {
            FrameView::ACK { ranges, .. } => canonical(ranges) && ranges.len() > 0,
            FrameView::PathAck { ranges, .. } => canonical(ranges) && ranges.len() > 0,
            _ => true,
        }
    }

    /// How many bytes the frame takes. The length of the data of CRYPTO, STREAM
    /// and DATAGRAM frames always takes two bytes.
    pub open spec fn wire_len(self) -> nat {
        match self {
            FrameView::Padding { len } => len as nat,
            FrameView::Ping { .. } => 1,
            FrameView::ACK { ack_delay, ranges, ecn_counts } => 1 + sizes(
                ack_varints(ack_delay, ranges, ecn_counts),
            ),
            FrameView::ResetStream { stream_id, error_code, final_size } => 1 + varint_size(
                stream_id,
            ) + varint_size(error_code) + varint_size(final_size),
            FrameView::StopSending { stream_id, error_code } => 1 + varint_size(stream_id)
                + varint_size(error_code),
            FrameView::CryptoHeader { offset, length } => 1 + varint_size(offset) + 2
                + length as nat,
            FrameView::StreamHeader { stream_id, offset, length, .. } => 1 + varint_size(stream_id)
                + varint_size(offset) + 2 + length as nat,
            FrameView::MaxData { max } => 1 + varint_size(max),
            FrameView::MaxStreamData { stream_id, max } => 1 + varint_size(stream_id)
                + varint_size(max),
            FrameView::MaxStreamsBidi { max } => 1 + varint_size(max),
            FrameView::MaxStreamsUni { max } => 1 + varint_size(max),
            FrameView::DataBlocked { limit } => 1 + varint_size(limit),
            FrameView::StreamDataBlocked { stream_id, limit } => 1 + varint_size(stream_id)
                + varint_size(limit),
            FrameView::NewConnectionId { seq_num, retire_prior_to, conn_id, .. } => 1 + varint_size(
                seq_num,
            ) + varint_size(retire_prior_to) + 1 + conn_id.len() + 16,
            FrameView::RetireConnectionId { seq_num } => 1 + varint_size(seq_num),
            FrameView::PathChallenge { .. } => 1 + 8,
            FrameView::PathResponse { .. } => 1 + 8,
            FrameView::ConnectionClose { error_code, frame_type, reason } => 1 + varint_size(
                error_code,
            ) + varint_size(frame_type) + varint_size(reason.len() as u64) + reason.len(),
            FrameView::ApplicationClose { error_code, reason } => 1 + varint_size(error_code)
                + varint_size(reason.len() as u64) + reason.len(),
            FrameView::HandshakeDone => 1,
            FrameView::DatagramHeader { length } => 1 + 2 + length as nat,
            FrameView::PathAck { path_id, ack_delay, ranges, ecn_counts } => varint_size(
                ack_type(ecn_counts),
            ) + varint_size(path_id) + sizes(ack_varints(ack_delay, ranges, ecn_counts)),
            FrameView::PathAbandon { path_id, error_code } => varint_size(PATH_ABANDON_TYPE)
                + varint_size(path_id) + varint_size(error_code),
            FrameView::PathStatusAvailable { path_id, seq_num } => varint_size(
                PATH_STATUS_AVAILABLE_TYPE,
            ) + varint_size(path_id) + varint_size(seq_num),
            FrameView::PathStatusBackup { path_id, seq_num } => varint_size(PATH_STATUS_BACKUP_TYPE)
                + varint_size(path_id) + varint_size(seq_num),
            FrameView::PathNewConnectionId { path_id, seq_num, retire_prior_to, conn_id, .. } =>
                varint_size(PATH_NEW_CONNECTION_ID_TYPE) + varint_size(path_id) + varint_size(
                    seq_num,
                ) + varint_size(retire_prior_to) + 1 + conn_id.len() + 16,
            FrameView::PathRetireConnectionId { path_id, seq_num } => varint_size(
                PATH_RETIRE_CONNECTION_ID_TYPE,
            ) + varint_size(path_id) + varint_size(seq_num),
            FrameView::MaxPathId { path_id } => varint_size(MAX_PATH_ID_TYPE) + varint_size(
                path_id,
            ),
            FrameView::PathsBlocked { path_id } => varint_size(PATHS_BLOCKED_TYPE) + varint_size(
                path_id,
            ),
            FrameView::PathCidsBlocked { path_id, seq_num } => varint_size(PATH_CIDS_BLOCKED_TYPE)
                + varint_size(path_id) + varint_size(seq_num),
        }
    }
}

/// How many bytes a number takes as a variable-length integer. Numbers that are
/// too large for one count as eight bytes.
pub fn size_of_varint(v: u64) -> (r: u128)
    ensures
        r == varint_size(v),
        1 <= r <= 8,
{
    if v <= MAX_VAR_INT {
        varint_len(v) as u128
    } else {
        8
    }
}

/// How many bytes the integers of an acknowledgement take.
fn ack_len(ack_delay: u64, ranges: &RangeSet, ecn_counts: &Option<EcnCounts>) -> (r: u128)
    requires
        canonical(ranges@),
        ranges@.len() > 0,
    ensures
        r == sizes(ack_varints(ack_delay, ranges@, *ecn_counts)),
        r <= 8 * usize::MAX,
{
    let vs = ack_list(ack_delay, ranges, ecn_counts);
    let mut n: u128 = 0;
    let mut i: usize = 0;
    assert(vs@.take(0) =~= Seq::empty());
    while i < vs.len()
        invariant
            i <= vs@.len(),
            n == sizes(vs@.take(i as int)),
            n <= 8 * i,
        decreases vs@.len() - i,
    {
        proof {
            assert(vs@.take(i + 1).drop_last() =~= vs@.take(i as int));
        }
        n = n + size_of_varint(vs[i]);
        i += 1;
    }
    assert(vs@.take(i as int) =~= vs@);
    n
}

impl Frame {
    /// How many bytes the frame takes.
    pub fn wire_len(&self) -> (r: u128)
        requires
            self@.valid(),
        ensures
            r == self@.wire_len(),
    {
        match self {
            Frame::Padding { len } => *len as u128,
            Frame::Ping { .. } => 1,
            Frame::ACK { ack_delay, ranges, ecn_counts } => 1 + ack_len(
                *ack_delay,
                ranges,
                ecn_counts,
            ),
            Frame::ResetStream { stream_id, error_code, final_size } => 1 + size_of_varint(
                *stream_id,
            ) + size_of_varint(*error_code) + size_of_varint(*final_size),
            Frame::StopSending { stream_id, error_code } => 1 + size_of_varint(*stream_id)
                + size_of_varint(*error_code),
            Frame::CryptoHeader { offset, length } => 1 + size_of_varint(*offset) + 2
                + *length as u128,
            Frame::StreamHeader { stream_id, offset, length, .. } => 1 + size_of_varint(*stream_id)
                + size_of_varint(*offset) + 2 + *length as u128,
            Frame::MaxData { max } => 1 + size_of_varint(*max),
            Frame::MaxStreamData { stream_id, max } => 1 + size_of_varint(*stream_id)
                + size_of_varint(*max),
            Frame::MaxStreamsBidi { max } => 1 + size_of_varint(*max),
            Frame::MaxStreamsUni { max } => 1 + size_of_varint(*max),
            Frame::DataBlocked { limit } => 1 + size_of_varint(*limit),
            Frame::StreamDataBlocked { stream_id, limit } => 1 + size_of_varint(*stream_id)
                + size_of_varint(*limit),
            Frame::NewConnectionId { seq_num, retire_prior_to, conn_id, .. } => 1 + size_of_varint(
                *seq_num,
            ) + size_of_varint(*retire_prior_to) + 1 + conn_id.len() as u128 + 16,
            Frame::RetireConnectionId { seq_num } => 1 + size_of_varint(*seq_num),
            Frame::PathChallenge { .. } => 1 + 8,
            Frame::PathResponse { .. } => 1 + 8,
            Frame::ConnectionClose { error_code, frame_type, reason } => 1 + size_of_varint(
                *error_code,
            ) + size_of_varint(*frame_type) + size_of_varint(reason.len() as u64)
                + reason.len() as u128,
            Frame::ApplicationClose { error_code, reason } => 1 + size_of_varint(*error_code)
                + size_of_varint(reason.len() as u64) + reason.len() as u128,
            Frame::HandshakeDone => 1,
            Frame::DatagramHeader { length } => 1 + 2 + *length as u128,
            Frame::PathAck { path_id, ack_delay, ranges, ecn_counts } => 1 + size_of_varint(
                *path_id,
            ) + ack_len(*ack_delay, ranges, ecn_counts),
            Frame::PathAbandon { path_id, error_code } => 2 + size_of_varint(*path_id)
                + size_of_varint(*error_code),
            Frame::PathStatusAvailable { path_id, seq_num } => 2 + size_of_varint(*path_id)
                + size_of_varint(*seq_num),
            Frame::PathStatusBackup { path_id, seq_num } => 2 + size_of_varint(*path_id)
                + size_of_varint(*seq_num),
            Frame::PathNewConnectionId { path_id, seq_num, retire_prior_to, conn_id, .. } => 2
                + size_of_varint(*path_id) + size_of_varint(*seq_num) + size_of_varint(
                *retire_prior_to,
            ) + 1 + conn_id.len() as u128 + 16,
            Frame::PathRetireConnectionId { path_id, seq_num } => 2 + size_of_varint(*path_id)
                + size_of_varint(*seq_num),
            Frame::MaxPathId { path_id } => 2 + size_of_varint(*path_id),
            Frame::PathsBlocked { path_id } => 2 + size_of_varint(*path_id),
            Frame::PathCidsBlocked { path_id, seq_num } => 2 + size_of_varint(*path_id)
                + size_of_varint(*seq_num),
        }
    }
}

/// A PATH_ACK frame takes as many bytes as its encoder writes.
pub proof fn law_path_ack_wire_len(
    path_id: u64,
    ack_delay: u64,
    ranges: Seq<(u64, u64)>,
    ecn_counts: Option<EcnCounts>,
)
    ensures
        (FrameView::PathAck { path_id, ack_delay, ranges, ecn_counts }).wire_len() == joined(
            varint_fields(
                seq![ack_type(ecn_counts)] + path_ack_varints(
                    path_id,
                    ack_delay,
                    ranges,
                    ecn_counts,
                ),
            ),
        ).len(),
{
    let ty = ack_type(ecn_counts);
    let body = ack_varints(ack_delay, ranges, ecn_counts);
    let all = seq![ty] + path_ack_varints(path_id, ack_delay, ranges, ecn_counts);
    assert(all =~= seq![ty, path_id] + body);
    lemma_sizes(all);
    lemma_sizes_add(seq![ty, path_id], body);
    lemma_sizes_few(ty, path_id, 0);
}

/// The multipath frames that consist of integers take as many bytes as their
/// encoders write.
pub proof fn law_path_frames_wire_len(path_id: u64, n: u64)
    ensures
        (FrameView::PathAbandon { path_id, error_code: n }).wire_len() == joined(
            varint_fields(seq![PATH_ABANDON_TYPE, path_id, n]),
        ).len(),
        (FrameView::PathStatusAvailable { path_id, seq_num: n }).wire_len() == joined(
            varint_fields(seq![PATH_STATUS_AVAILABLE_TYPE, path_id, n]),
        ).len(),
        (FrameView::PathStatusBackup { path_id, seq_num: n }).wire_len() == joined(
            varint_fields(seq![PATH_STATUS_BACKUP_TYPE, path_id, n]),
        ).len(),
        (FrameView::PathRetireConnectionId { path_id, seq_num: n }).wire_len() == joined(
            varint_fields(seq![PATH_RETIRE_CONNECTION_ID_TYPE, path_id, n]),
        ).len(),
        (FrameView::PathCidsBlocked { path_id, seq_num: n }).wire_len() == joined(
            varint_fields(seq![PATH_CIDS_BLOCKED_TYPE, path_id, n]),
        ).len(),
        (FrameView::MaxPathId { path_id }).wire_len() == joined(
            varint_fields(seq![MAX_PATH_ID_TYPE, path_id]),
        ).len(),
        (FrameView::PathsBlocked { path_id }).wire_len() == joined(
            varint_fields(seq![PATHS_BLOCKED_TYPE, path_id]),
        ).len(),
{
    lemma_sizes(seq![PATH_ABANDON_TYPE, path_id, n]);
    lemma_sizes(seq![PATH_STATUS_AVAILABLE_TYPE, path_id, n]);
    lemma_sizes(seq![PATH_STATUS_BACKUP_TYPE, path_id, n]);
    lemma_sizes(seq![PATH_RETIRE_CONNECTION_ID_TYPE, path_id, n]);
    lemma_sizes(seq![PATH_CIDS_BLOCKED_TYPE, path_id, n]);
    lemma_sizes(seq![MAX_PATH_ID_TYPE, path_id]);
    lemma_sizes(seq![PATHS_BLOCKED_TYPE, path_id]);
    lemma_sizes_few(PATH_ABANDON_TYPE, path_id, n);
    lemma_sizes_few(PATH_STATUS_AVAILABLE_TYPE, path_id, n);
    lemma_sizes_few(PATH_STATUS_BACKUP_TYPE, path_id, n);
    lemma_sizes_few(PATH_RETIRE_CONNECTION_ID_TYPE, path_id, n);
    lemma_sizes_few(PATH_CIDS_BLOCKED_TYPE, path_id, n);
    lemma_sizes_few(MAX_PATH_ID_TYPE, path_id, n);
    lemma_sizes_few(PATHS_BLOCKED_TYPE, path_id, n);
}

/// A PATH_NEW_CONNECTION_ID frame takes as many bytes as its encoder writes.
pub proof fn law_path_new_connection_id_wire_len(
    path_id: u64,
    seq_num: u64,
    retire_prior_to: u64,
    conn_id: Seq<u8>,
    reset_token: u128,
)
    ensures
        (FrameView::PathNewConnectionId {
            path_id,
            seq_num,
            retire_prior_to,
            conn_id,
            reset_token,
        }).wire_len() == joined(
            path_new_connection_id_fields(path_id, seq_num, retire_prior_to, conn_id, reset_token),
        ).len(),
{
    let ty = PATH_NEW_CONNECTION_ID_TYPE;
    law_path_new_connection_id_fields(path_id, seq_num, retire_prior_to, conn_id, reset_token);
    lemma_varint_len(ty);
    lemma_sizes(seq![path_id, seq_num, retire_prior_to]);
    lemma_sizes_few(path_id, seq_num, retire_prior_to);
    lemma_be_bytes_len(reset_token as nat, 16);
}

/// How many bytes a type and fields take that are variable-length integers.
pub open spec fn written_len(vs: Seq<u64>) -> nat {
    joined(varint_fields(vs)).len()
}

/// A type of one byte and a few integers take as many bytes as they are written with.
proof fn lemma_written_len(ty: u64, a: u64, b: u64, c: u64)
    requires
        ty < 0x40,
    ensures
        written_len(seq![ty]) == 1,
        written_len(seq![ty, a]) == 1 + varint_size(a),
        written_len(seq![ty, a, b]) == 1 + varint_size(a) + varint_size(b),
        written_len(seq![ty, a, b, c]) == 1 + varint_size(a) + varint_size(b) + varint_size(c),
{
    lemma_sizes(seq![ty]);
    lemma_sizes(seq![ty, a]);
    lemma_sizes(seq![ty, a, b]);
    lemma_sizes(seq![ty, a, b, c]);
    lemma_sizes_few(ty, a, b);
    assert(seq![ty, a, b, c].drop_last() =~= seq![ty, a, b]);
}

/// The frames that consist of integers take as many bytes as their type and their fields
/// are written with.
pub proof fn law_integer_frames_wire_len(a: u64, b: u64, c: u64)
    ensures
        (FrameView::Ping { mtu_probe: None }).wire_len() == written_len(seq![0x01]),
        (FrameView::HandshakeDone).wire_len() == written_len(seq![0x1e]),
        (FrameView::ResetStream { stream_id: a, error_code: b, final_size: c }).wire_len()
            == written_len(seq![0x04, a, b, c]),
        (FrameView::StopSending { stream_id: a, error_code: b }).wire_len() == written_len(
            seq![0x05, a, b],
        ),
        (FrameView::MaxData { max: a }).wire_len() == written_len(seq![0x10, a]),
        (FrameView::MaxStreamData { stream_id: a, max: b }).wire_len() == written_len(
            seq![0x11, a, b],
        ),
        (FrameView::MaxStreamsBidi { max: a }).wire_len() == written_len(seq![0x12, a]),
        (FrameView::MaxStreamsUni { max: a }).wire_len() == written_len(seq![0x13, a]),
        (FrameView::DataBlocked { limit: a }).wire_len() == written_len(seq![0x14, a]),
        (FrameView::StreamDataBlocked { stream_id: a, limit: b }).wire_len() == written_len(
            seq![0x15, a, b],
        ),
        (FrameView::RetireConnectionId { seq_num: a }).wire_len() == written_len(seq![0x19, a]),
{
    lemma_written_len(0x01, a, b, c);
    lemma_written_len(0x1e, a, b, c);
    lemma_written_len(0x04, a, b, c);
    lemma_written_len(0x05, a, b, c);
    lemma_written_len(0x10, a, b, c);
    lemma_written_len(0x11, a, b, c);
    lemma_written_len(0x12, a, b, c);
    lemma_written_len(0x13, a, b, c);
    lemma_written_len(0x14, a, b, c);
    lemma_written_len(0x15, a, b, c);
    lemma_written_len(0x19, a, b, c);
}

/// The frames with bytes of their own take as many as their type, their integers and those
/// bytes. CRYPTO, STREAM and DATAGRAM frames give the length of their data in two bytes.
pub proof fn law_frames_with_bytes_wire_len(
    a: u64,
    b: u64,
    len: usize,
    fin: bool,
    cid: Seq<u8>,
    token: Seq<u8>,
    data: Seq<u8>,
    reason: Seq<u8>,
)
    requires
        token.len() == 16,
        data.len() == 8,
    ensures
        (FrameView::Padding { len }).wire_len() == len,
        (FrameView::CryptoHeader { offset: a, length: len }).wire_len() == written_len(
            seq![0x06, a],
        ) + 2 + len,
        (FrameView::StreamHeader { stream_id: a, offset: b, length: len, fin }).wire_len()
            == written_len(seq![0x0e, a, b]) + 2 + len,
        (FrameView::DatagramHeader { length: len }).wire_len() == written_len(seq![0x31]) + 2 + len,
        (FrameView::NewConnectionId {
            seq_num: a,
            retire_prior_to: b,
            conn_id: cid,
            reset_token: token,
        }).wire_len() == written_len(seq![0x18, a, b]) + 1 + cid.len() + token.len(),
        (FrameView::PathChallenge { data }).wire_len() == written_len(seq![0x1a]) + data.len(),
        (FrameView::PathResponse { data }).wire_len() == written_len(seq![0x1b]) + data.len(),
        (FrameView::ConnectionClose { error_code: a, frame_type: b, reason }).wire_len()
            == written_len(seq![0x1c, a, b, reason.len() as u64]) + reason.len(),
        (FrameView::ApplicationClose { error_code: a, reason }).wire_len() == written_len(
            seq![0x1d, a, reason.len() as u64],
        ) + reason.len(),
{
    let r = reason.len() as u64;
    lemma_written_len(0x06, a, b, r);
    lemma_written_len(0x0e, a, b, r);
    lemma_written_len(0x31, a, b, r);
    lemma_written_len(0x18, a, b, r);
    lemma_written_len(0x1a, a, b, r);
    lemma_written_len(0x1b, a, b, r);
    lemma_written_len(0x1c, a, b, r);
    lemma_written_len(0x1d, a, r, r);
}

/// An ACK frame takes as many bytes as its type and its integers are written with.
pub proof fn law_ack_wire_len(
    ack_delay: u64,
    ranges: Seq<(u64, u64)>,
    ecn_counts: Option<EcnCounts>,
)
    ensures
        (FrameView::ACK { ack_delay, ranges, ecn_counts }).wire_len() == written_len(
            seq![0x02] + ack_varints(ack_delay, ranges, ecn_counts),
        ),
{
    let body = ack_varints(ack_delay, ranges, ecn_counts);
    lemma_sizes(seq![0x02] + body);
    lemma_sizes_add(seq![0x02], body);
    lemma_sizes_few(0x02, 0, 0);
}

} // verus!
