//! How multipath frames are laid out, which bytes are refused, and how nonces are made.

use crate::bytes::{be_bytes, be_value, lemma_be_bytes_len};
use crate::error::Error;
use crate::frame::EcnCounts;
use crate::multipath::frame_laws::{
    lemma_read_first, lemma_read_pair, lemma_read_triple, varints_bytes,
};
use crate::multipath::frames::{
    ack_ranges_parsed, ack_type, cid_and_token_parsed, gap_varints, pair_parsed, path_ack_parsed,
    path_ack_varints, path_id_parsed, path_new_connection_id_parsed, triple_parsed, varint_parsed,
    Parsed,
    MAX_PATH_ID_TYPE, PATHS_BLOCKED_TYPE, PATH_ABANDON_TYPE, PATH_ACK_ECN_TYPE, PATH_ACK_TYPE,
    PATH_CIDS_BLOCKED_TYPE, PATH_NEW_CONNECTION_ID_TYPE, PATH_RETIRE_CONNECTION_ID_TYPE,
    PATH_STATUS_AVAILABLE_TYPE, PATH_STATUS_BACKUP_TYPE,
};
use crate::multipath::pktns::nonce_mp;
use crate::varint::{varint_at, MAX_VAR_INT};
use vstd::prelude::*;

verus! {

/// The types of the multipath frames.
pub proof fn law_frame_types()
    ensures
        PATH_ACK_TYPE == 0x3e,
        PATH_ACK_ECN_TYPE == 0x3f,
        PATH_ABANDON_TYPE == 0x3e75,
        PATH_STATUS_BACKUP_TYPE == 0x3e76,
        PATH_STATUS_AVAILABLE_TYPE == 0x3e77,
        PATH_NEW_CONNECTION_ID_TYPE == 0x3e78,
        PATH_RETIRE_CONNECTION_ID_TYPE == 0x3e79,
        MAX_PATH_ID_TYPE == 0x3e7a,
        PATHS_BLOCKED_TYPE == 0x3e7b,
        PATH_CIDS_BLOCKED_TYPE == 0x3e7c,
{
}

/// The gap and the length of the `k`th range below the highest.
proof fn lemma_gap(rs: Seq<(u64, u64)>, k: int)
    requires
        rs.len() > 0,
    ensures
        gap_varints(rs).len() == 2 * (rs.len() - 1),
        0 <= k < rs.len() - 1 ==> gap_varints(rs)[2 * k] == (rs[rs.len() - 1 - k].0 - rs[rs.len()
            - 2 - k].1 - 1) as u64 && gap_varints(rs)[2 * k + 1] == (rs[rs.len() - 2 - k].1 - 1
            - rs[rs.len() - 2 - k].0) as u64,
    decreases rs.len(),
{
    if rs.len() >= 2 {
        lemma_gap(rs.drop_last(), k - 1);
        let head = seq![
            (rs[rs.len() - 1].0 - rs[rs.len() - 2].1 - 1) as u64,
            (rs[rs.len() - 2].1 - 1 - rs[rs.len() - 2].0) as u64,
        ];
        let tail = gap_varints(rs.drop_last());
        assert(gap_varints(rs) == head + tail);
        if 0 < k < rs.len() - 1 {
            assert((head + tail)[2 * k] == tail[2 * (k - 1)]);
            assert((head + tail)[2 * k + 1] == tail[2 * (k - 1) + 1]);
        }
    }
}

/// A PATH_ACK frame names, after its type, the path, the largest acknowledged number, the
/// delay, how many ranges are below the highest, and the length of the highest; then for
/// each range below, from the highest down, the gap above it and its length, both less one
/// as no gap and no range is empty; and last the three ECN counts where there are any.
pub proof fn law_path_ack_layout(
    path_id: u64,
    delay: u64,
    rs: Seq<(u64, u64)>,
    ecn: Option<EcnCounts>,
    k: int,
)
    requires
        rs.len() > 0,
    ensures
        ({
            let vs = path_ack_varints(path_id, delay, rs, ecn);
            let n = rs.len() as int;
            let top = rs[n - 1];
            &&& vs[0] == path_id
            &&& vs[1] == (top.1 - 1) as u64
            &&& vs[2] == delay
            &&& vs[3] == (n - 1) as u64
            &&& vs[4] == (top.1 - 1 - top.0) as u64
            &&& 0 <= k < n - 1 ==> vs[5 + 2 * k] == (rs[n - 1 - k].0 - rs[n - 2 - k].1 - 1) as u64
                && vs[6 + 2 * k] == (rs[n - 2 - k].1 - rs[n - 2 - k].0 - 1) as u64
            &&& match ecn {
                Some(c) => vs.len() == 3 + 2 * n + 3 && vs[3 + 2 * n] == c.ect0_count && vs[4 + 2
                    * n] == c.ect1_count && vs[5 + 2 * n] == c.ecn_ce_count && ack_type(ecn) == 0x3f,
                None => vs.len() == 3 + 2 * n && ack_type(ecn) == 0x3e,
            }
        }),
{
    lemma_gap(rs, k);
}

/// A PATH_ACK frame is refused for its ranges.
proof fn lemma_ack_refused(
    s: Seq<u8>,
    t: Seq<u8>,
    u: Seq<u8>,
    head: (u64, u64, u64),
    counts: (u64, u64),
    has_ecn: bool,
)
    requires
        triple_parsed(s) == (Parsed { rest: t, result: Ok::<(u64, u64, u64), Error>(head) }),
        pair_parsed(t) == (Parsed { rest: u, result: Ok::<(u64, u64), Error>(counts) }),
        ack_ranges_parsed(u, head.1, counts.0, counts.1).result == Err::<Seq<(u64, u64)>, Error>(
            Error::InvalidFrame,
        ),
    ensures
        path_ack_parsed(s, has_ecn).result == Err::<
            (u64, u64, Seq<(u64, u64)>, Option<EcnCounts>),
            Error,
        >(Error::InvalidFrame),
{
}

/// The ranges are refused of which the second would go below zero.
proof fn lemma_ranges_refused(
    u: Seq<u8>,
    v: Seq<u8>,
    w: Seq<u8>,
    largest: u64,
    count: u64,
    first: u64,
    gap: u64,
    second: u64,
)
    requires
        varint_parsed(u) == (Parsed { rest: v, result: Ok::<u64, Error>(gap) }),
        varint_parsed(v) == (Parsed { rest: w, result: Ok::<u64, Error>(second) }),
        count > 0,
        first <= largest,
        largest - first < gap + 2 + second,
    ensures
        ack_ranges_parsed(u, largest, count, first).result == Err::<Seq<(u64, u64)>, Error>(
            Error::InvalidFrame,
        ),
{
}

/// A PATH_ACK frame is refused whose highest range is longer than its largest number,
/// whatever follows.
pub proof fn law_path_ack_first_range_stays_above_zero(
    path_id: u64,
    largest: u64,
    delay: u64,
    count: u64,
    first: u64,
    vs: Seq<u64>,
    rest: Seq<u8>,
    has_ecn: bool,
)
    requires
        path_id <= MAX_VAR_INT,
        delay <= MAX_VAR_INT,
        count <= MAX_VAR_INT,
        largest < first <= MAX_VAR_INT,
    ensures
        path_ack_parsed(
            varints_bytes(seq![path_id, largest, delay] + (seq![count, first] + vs)) + rest,
            has_ecn,
        ).result == Err::<(u64, u64, Seq<(u64, u64)>, Option<EcnCounts>), Error>(
            Error::InvalidFrame,
        ),
{
    let b = seq![count, first] + vs;
    let s = varints_bytes(seq![path_id, largest, delay] + b) + rest;
    let t = varints_bytes(b) + rest;
    let u = varints_bytes(vs) + rest;
    assert(triple_parsed(s) == (Parsed {
        rest: t,
        result: Ok::<(u64, u64, u64), Error>((path_id, largest, delay)),
    })) by {
        lemma_read_triple(path_id, largest, delay, b, rest);
    }
    assert(pair_parsed(t) == (Parsed {
        rest: u,
        result: Ok::<(u64, u64), Error>((count, first)),
    })) by {
        lemma_read_pair(count, first, vs, rest);
    }
    lemma_ack_refused(s, t, u, (path_id, largest, delay), (count, first), has_ecn);
}

/// A PATH_ACK frame is refused whose second range would go below zero, whatever follows: it
/// ends two numbers and the gap below the start of the first, and has a length itself.
pub proof fn law_path_ack_next_range_stays_above_zero(
    path_id: u64,
    largest: u64,
    delay: u64,
    count: u64,
    first: u64,
    gap: u64,
    second: u64,
    vs: Seq<u64>,
    rest: Seq<u8>,
    has_ecn: bool,
)
    requires
        path_id <= MAX_VAR_INT,
        delay <= MAX_VAR_INT,
        0 < count <= MAX_VAR_INT,
        first <= largest <= MAX_VAR_INT,
        gap <= MAX_VAR_INT,
        second <= MAX_VAR_INT,
        largest - first < gap + 2 + second,
    ensures
        path_ack_parsed(
            varints_bytes(
                seq![path_id, largest, delay] + (seq![count, first] + (seq![gap] + (seq![second]
                    + vs))),
            ) + rest,
            has_ecn,
        ).result == Err::<(u64, u64, Seq<(u64, u64)>, Option<EcnCounts>), Error>(
            Error::InvalidFrame,
        ),
{
    let d = seq![second] + vs;
    let c = seq![gap] + d;
    let b = seq![count, first] + c;
    let s = varints_bytes(seq![path_id, largest, delay] + b) + rest;
    let t = varints_bytes(b) + rest;
    let u = varints_bytes(c) + rest;
    let v = varints_bytes(d) + rest;
    let w = varints_bytes(vs) + rest;
    assert(triple_parsed(s) == (Parsed {
        rest: t,
        result: Ok::<(u64, u64, u64), Error>((path_id, largest, delay)),
    })) by {
        lemma_read_triple(path_id, largest, delay, b, rest);
    }
    assert(pair_parsed(t) == (Parsed {
        rest: u,
        result: Ok::<(u64, u64), Error>((count, first)),
    })) by {
        lemma_read_pair(count, first, c, rest);
    }
    assert(varint_parsed(u) == (Parsed { rest: v, result: Ok::<u64, Error>(gap) })) by {
        lemma_read_first(gap, d, rest);
    }
    assert(varint_parsed(v) == (Parsed { rest: w, result: Ok::<u64, Error>(second) })) by {
        lemma_read_first(second, vs, rest);
    }
    lemma_ranges_refused(u, v, w, largest, count, first, gap, second);
    lemma_ack_refused(s, t, u, (path_id, largest, delay), (count, first), has_ecn);
}

/// Where a frame ends before its integers do, it is refused: as too short, but a MAX_PATH_ID
/// or PATHS_BLOCKED frame as invalid.
pub proof fn law_frames_cut_short(s: Seq<u8>, has_ecn: bool)
    ensures
        varint_at(s) is None ==> path_id_parsed(s).result == Err::<u64, Error>(Error::InvalidFrame)
            && pair_parsed(s).result == Err::<(u64, u64), Error>(Error::BufferTooShort)
            && triple_parsed(s).result == Err::<(u64, u64, u64), Error>(Error::BufferTooShort)
            && path_ack_parsed(s, has_ecn).result == Err::<
            (u64, u64, Seq<(u64, u64)>, Option<EcnCounts>),
            Error,
        >(Error::BufferTooShort) && path_new_connection_id_parsed(s).result == Err::<
            (u64, u64, u64, u8, Seq<u8>, u128),
            Error,
        >(Error::BufferTooShort),
        varint_at(s) matches Some((x, n)) ==> varint_at(s.skip(n as int)) is None ==> pair_parsed(
            s,
        ).result == Err::<(u64, u64), Error>(Error::BufferTooShort) && triple_parsed(s).result
            == Err::<(u64, u64, u64), Error>(Error::BufferTooShort),
{
}

/// A connection ID with its reset token has its length in front, then its bytes and then
/// sixteen bytes of token; where there are fewer bytes than that, they are too short.
pub proof fn law_cid_and_token_layout(s: Seq<u8>)
    ensures
        ({
            let r = cid_and_token_parsed(s);
            if s.len() == 0 || s.len() < 17 + s[0] {
                r.result == Err::<(u8, Seq<u8>, u128), Error>(Error::BufferTooShort)
            } else {
                &&& r.result == Ok::<(u8, Seq<u8>, u128), Error>(
                    (
                        s[0],
                        s.subrange(1, 1 + s[0]),
                        be_value(s.subrange(1 + s[0], 17 + s[0])) as u128,
                    ),
                )
                &&& r.rest == s.skip(17 + s[0])
            }
        }),
{
    if s.len() > 0 && s.len() >= 17 + s[0] {
        let n = s[0] as int;
        let t = s.skip(1);
        assert(t.take(n) =~= s.subrange(1, 1 + n));
        assert(t.skip(n).take(16) =~= s.subrange(1 + n, 17 + n));
        assert(t.skip(n).skip(16) =~= s.skip(17 + n));
    }
}

/// The first four bytes of the initialisation vector are combined with the path ID and the
/// other eight with the packet number, both with the most significant byte first.
pub proof fn law_nonce_layout(iv: Seq<u8>, pkt_num: u64, path_id: u32, i: int)
    requires
        iv.len() == 12,
        0 <= i < 12,
    ensures
        nonce_mp(iv, pkt_num, path_id).len() == 12,
        i < 4 ==> nonce_mp(iv, pkt_num, path_id)[i] == iv[i] ^ be_bytes(path_id as nat, 4)[i],
        i >= 4 ==> nonce_mp(iv, pkt_num, path_id)[i] == iv[i] ^ be_bytes(pkt_num as nat, 8)[i - 4],
{
    lemma_be_bytes_len(path_id as nat, 4);
    lemma_be_bytes_len(pkt_num as nat, 8);
}

} // verus!
