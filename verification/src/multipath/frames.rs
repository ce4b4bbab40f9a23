//! Multipath-specific frame parsing and generation.
//!
//! Frame type codes:
//!   PATH_ACK:                    0x3e / 0x3f (with ECN)
//!   PATH_ABANDON:                0x3e75
//!   PATH_STATUS_BACKUP:          0x3e76
//!   PATH_STATUS_AVAILABLE:       0x3e77
//!   PATH_NEW_CONNECTION_ID:      0x3e78
//!   PATH_RETIRE_CONNECTION_ID:   0x3e79
//!   MAX_PATH_ID:                 0x3e7a
//!   PATHS_BLOCKED:               0x3e7b
//!   PATH_CIDS_BLOCKED:           0x3e7c

use crate::buffer::{
    get_bytes, get_u8, get_varint, lemma_put_all, octets_rest, put_all, put_bytes, put_u8,
    put_varints, sink_of, varint_fields, writable, Sink,
};
use crate::bytes::{be_bytes, be_value, u128_from_be, u128_to_be};
use crate::error::Error;
use crate::frame::EcnCounts;
use crate::ranges::{
    canonical, covers, law_canonical_form_is_unique, lemma_prepend_covers, RangeSet,
};
use crate::varint::{lemma_varint_bounded, varint_at, MAX_VAR_INT};
use octets::{Octets, OctetsMut};
use vstd::prelude::*;

verus! {

/// PATH_ACK.
pub const PATH_ACK_TYPE: u64 = 0x3e;

/// PATH_ACK with ECN counts.
pub const PATH_ACK_ECN_TYPE: u64 = 0x3f;

/// PATH_ABANDON.
pub const PATH_ABANDON_TYPE: u64 = 0x3e75;

/// PATH_STATUS_BACKUP.
pub const PATH_STATUS_BACKUP_TYPE: u64 = 0x3e76;

/// PATH_STATUS_AVAILABLE.
pub const PATH_STATUS_AVAILABLE_TYPE: u64 = 0x3e77;

/// PATH_NEW_CONNECTION_ID.
pub const PATH_NEW_CONNECTION_ID_TYPE: u64 = 0x3e78;

/// PATH_RETIRE_CONNECTION_ID.
pub const PATH_RETIRE_CONNECTION_ID_TYPE: u64 = 0x3e79;

/// MAX_PATH_ID.
pub const MAX_PATH_ID_TYPE: u64 = 0x3e7a;

/// PATHS_BLOCKED.
pub const PATHS_BLOCKED_TYPE: u64 = 0x3e7b;

/// PATH_CIDS_BLOCKED.
pub const PATH_CIDS_BLOCKED_TYPE: u64 = 0x3e7c;

/// PATH_ABANDON error code: the path is abandoned without error.
pub const PATH_ABANDON_NO_ERROR: u64 = 0x0;

/// PATH_ABANDON error code: the path is abandoned at the application's request.
pub const APPLICATION_ABANDON_PATH: u64 = 0x3e;

/// PATH_ABANDON error code: cannot allocate sufficient resources to use the
/// path.
pub const PATH_RESOURCE_LIMIT_REACHED: u64 = 0x3e75;

/// PATH_ABANDON error code: the path is abandoned due to an unstable interface
/// or poor performance.
pub const PATH_UNSTABLE_OR_POOR: u64 = 0x3e76;

/// PATH_ABANDON error code: no connection ID is available for the path.
pub const NO_CID_AVAILABLE_FOR_PATH: u64 = 0x3e77;

/// Returns true if the given frame type is a multipath frame.
pub fn is_multipath_frame_type(ty: u64) -> (r: bool)
    ensures
        r == (0x3e <= ty <= 0x3f || 0x3e75 <= ty <= 0x3e7c),
{
    match ty {
        PATH_ACK_TYPE
        | PATH_ACK_ECN_TYPE
        | PATH_ABANDON_TYPE
        | PATH_STATUS_BACKUP_TYPE
        | PATH_STATUS_AVAILABLE_TYPE
        | PATH_NEW_CONNECTION_ID_TYPE
        | PATH_RETIRE_CONNECTION_ID_TYPE
        | MAX_PATH_ID_TYPE
        | PATHS_BLOCKED_TYPE
        | PATH_CIDS_BLOCKED_TYPE => true,
        _ => false,
    }
}

/// What reading a frame gives: the bytes that are left unread, and the frame or
/// the error.
pub struct Parsed<T> {
    /// The bytes that are left.
    pub rest: Seq<u8>,
    /// The outcome.
    pub result: Result<T, Error>,
}

/// One variable-length integer.
pub open spec fn varint_parsed(s: Seq<u8>) -> Parsed<u64> {
    match varint_at(s) {
        Some((v, n)) => Parsed { rest: s.skip(n as int), result: Ok(v) },
        None => Parsed { rest: s, result: Err(Error::BufferTooShort) },
    }
}

/// Two variable-length integers.
pub open spec fn pair_parsed(s: Seq<u8>) -> Parsed<(u64, u64)> {
    let a = varint_parsed(s);
    match a.result {
        Ok(x) => {
            let b = varint_parsed(a.rest);
            match b.result {
                Ok(y) => Parsed { rest: b.rest, result: Ok((x, y)) },
                Err(e) => Parsed { rest: b.rest, result: Err(e) },
            }
        },
        Err(e) => Parsed { rest: a.rest, result: Err(e) },
    }
}

/// Three variable-length integers.
pub open spec fn triple_parsed(s: Seq<u8>) -> Parsed<(u64, u64, u64)> {
    let a = pair_parsed(s);
    match a.result {
        Ok((x, y)) => {
            let b = varint_parsed(a.rest);
            match b.result {
                Ok(z) => Parsed { rest: b.rest, result: Ok((x, y, z)) },
                Err(e) => Parsed { rest: b.rest, result: Err(e) },
            }
        },
        Err(e) => Parsed { rest: a.rest, result: Err(e) },
    }
}

/// Reads one variable-length integer.
fn read_varint(b: &mut Octets) -> (r: Result<u64, Error>)
    ensures
        (Parsed { rest: octets_rest(*final(b)), result: r }) == varint_parsed(octets_rest(*old(b))),
        r matches Ok(v) ==> v <= MAX_VAR_INT,
{
    proof {
        lemma_varint_bounded(octets_rest(*b));
    }
    match get_varint(b) {
        Ok(v) => Ok(v),
        Err(_) => Err(Error::BufferTooShort),
    }
}

/// Reads two variable-length integers.
fn read_pair(b: &mut Octets) -> (r: Result<(u64, u64), Error>)
    ensures
        (Parsed { rest: octets_rest(*final(b)), result: r }) == pair_parsed(octets_rest(*old(b))),
        r matches Ok((x, y)) ==> x <= MAX_VAR_INT && y <= MAX_VAR_INT,
{
    let x = match read_varint(b) {
        Ok(x) => x,
        Err(e) => {
            return Err(e);
        },
    };
    match read_varint(b) {
        Ok(y) => Ok((x, y)),
        Err(e) => Err(e),
    }
}

/// Reads three variable-length integers.
fn read_triple(b: &mut Octets) -> (r: Result<(u64, u64, u64), Error>)
    ensures
        (Parsed { rest: octets_rest(*final(b)), result: r }) == triple_parsed(octets_rest(*old(b))),
        r matches Ok((x, y, z)) ==> x <= MAX_VAR_INT && y <= MAX_VAR_INT && z <= MAX_VAR_INT,
{
    let (x, y) = match read_pair(b) {
        Ok(p) => p,
        Err(e) => {
            return Err(e);
        },
    };
    match read_varint(b) {
        Ok(z) => Ok((x, y, z)),
        Err(e) => Err(e),
    }
}

/// `count` more acknowledged ranges below `smallest`, in increasing order. Each
/// is given by the gap to the range above it and by its length.
pub open spec fn blocks_parsed(s: Seq<u8>, count: nat, smallest: u64) -> Parsed<Seq<(u64, u64)>>
    decreases count,
{
    if count == 0 {
        Parsed { rest: s, result: Ok(Seq::empty()) }
    } else {
        let g = varint_parsed(s);
        match g.result {
            Err(e) => Parsed { rest: g.rest, result: Err(e) },
            Ok(gap) => if smallest < gap + 2 {
                Parsed { rest: g.rest, result: Err(Error::InvalidFrame) }
            } else {
                let largest = (smallest - gap - 2) as u64;
                let l = varint_parsed(g.rest);
                match l.result {
                    Err(e) => Parsed { rest: l.rest, result: Err(e) },
                    Ok(block) => if largest < block {
                        Parsed { rest: l.rest, result: Err(Error::InvalidFrame) }
                    } else {
                        let start = (largest - block) as u64;
                        let below = blocks_parsed(l.rest, (count - 1) as nat, start);
                        match below.result {
                            Err(e) => Parsed { rest: below.rest, result: Err(e) },
                            Ok(rs) => Parsed {
                                rest: below.rest,
                                result: Ok(rs.push((start, (largest + 1) as u64))),
                            },
                        }
                    },
                }
            },
        }
    }
}

/// The ranges that the counts and blocks of an acknowledgement give.
pub open spec fn ack_ranges_parsed(s: Seq<u8>, largest: u64, count: u64, block: u64) -> Parsed<
    Seq<(u64, u64)>,
> {
    if largest < block {
        Parsed { rest: s, result: Err(Error::InvalidFrame) }
    } else {
        let smallest = (largest - block) as u64;
        let below = blocks_parsed(s, count as nat, smallest);
        match below.result {
            Err(e) => Parsed { rest: below.rest, result: Err(e) },
            Ok(rs) => Parsed {
                rest: below.rest,
                result: Ok(rs.push((smallest, (largest + 1) as u64))),
            },
        }
    }
}

/// The ECN counts of an acknowledgement that has them.
pub open spec fn ecn_parsed(s: Seq<u8>, has_ecn: bool) -> Parsed<Option<EcnCounts>> {
    if !has_ecn {
        Parsed { rest: s, result: Ok(None) }
    } else {
        let c = triple_parsed(s);
        match c.result {
            Err(e) => Parsed { rest: c.rest, result: Err(e) },
            Ok((ect0_count, ect1_count, ecn_ce_count)) => Parsed {
                rest: c.rest,
                result: Ok(Some(EcnCounts { ect0_count, ect1_count, ecn_ce_count })),
            },
        }
    }
}

/// A PATH_ACK frame after its type: the path, the delay, the acknowledged ranges
/// and the ECN counts.
pub open spec fn path_ack_parsed(s: Seq<u8>, has_ecn: bool) -> Parsed<
    (u64, u64, Seq<(u64, u64)>, Option<EcnCounts>),
> {
    let a = triple_parsed(s);
    match a.result {
        Err(e) => Parsed { rest: a.rest, result: Err(e) },
        Ok((path_id, largest, delay)) => {
            let b = pair_parsed(a.rest);
            match b.result {
                Err(e) => Parsed { rest: b.rest, result: Err(e) },
                Ok((count, block)) => {
                    let c = ack_ranges_parsed(b.rest, largest, count, block);
                    match c.result {
                        Err(e) => Parsed { rest: c.rest, result: Err(e) },
                        Ok(ranges) => {
                            let d = ecn_parsed(c.rest, has_ecn);
                            match d.result {
                                Err(e) => Parsed { rest: d.rest, result: Err(e) },
                                Ok(ecn) => Parsed {
                                    rest: d.rest,
                                    result: Ok((path_id, delay, ranges, ecn)),
                                },
                            }
                        },
                    }
                },
            }
        },
    }
}

/// Adds the numbers from `start` to `end - 1`, all below the ones in `ranges` and
/// not next to them.
fn prepend_range(ranges: &mut RangeSet, start: u64, end: u64)
    requires
        old(ranges).wf(),
        start < end,
        old(ranges)@.len() > 0 ==> end < old(ranges)@[0].0,
    ensures
        final(ranges).wf(),
        final(ranges)@ == seq![(start, end)] + old(ranges)@,
{
    ranges.insert(start..end);
    proof {
        let before = old(ranges)@;
        let want = seq![(start, end)] + before;
        assert forall|i: int, j: int| 0 <= i < j < want.len() implies (#[trigger] want[i]).1 < (
        #[trigger] want[j]).0 by {
            if i == 0 {
                if j > 1 {
                    assert(before[0].1 < before[j - 1].0);
                    assert(before[0].0 < before[0].1);
                }
            } else {
                assert(before[i - 1].1 < before[j - 1].0);
            }
        }
        assert(canonical(want));
        assert forall|x: int| covers(ranges@, x) == covers(want, x) by {
            lemma_prepend_covers(before, (start, end), x);
            assert(covers(ranges@, x) == (covers(before, x) || start <= x < end));
        }
        law_canonical_form_is_unique(ranges@, want);
    }
}

/// Parse a PATH_ACK frame from bytes. The frame type has already been consumed.
pub fn parse_path_ack(b: &mut Octets, has_ecn: bool) -> (r: Result<
    (u64, u64, RangeSet, Option<EcnCounts>),
    Error,
>)
    ensures
        ({
            let p = path_ack_parsed(octets_rest(*old(b)), has_ecn);
            &&& octets_rest(*final(b)) == p.rest
            &&& match r {
                Ok((path_id, delay, ranges, ecn)) => ranges.wf() && p.result == Ok::<
                    (u64, u64, Seq<(u64, u64)>, Option<EcnCounts>),
                    Error,
                >((path_id, delay, ranges@, ecn)),
                Err(e) => p.result == Err::<
                    (u64, u64, Seq<(u64, u64)>, Option<EcnCounts>),
                    Error,
                >(e),
            }
        }),
{
    let (path_id, largest_ack, ack_delay) = match read_triple(b) {
        Ok(t) => t,
        Err(e) => {
            return Err(e);
        },
    };
    let (block_count, ack_block) = match read_pair(b) {
        Ok(p) => p,
        Err(e) => {
            return Err(e);
        },
    };
    if largest_ack < ack_block {
        return Err(Error::InvalidFrame);
    }
    let ghost s = octets_rest(*b);
    let first: u64 = largest_ack - ack_block;
    let mut smallest_ack: u64 = first;
    let mut ranges = RangeSet::default();
    prepend_range(&mut ranges, smallest_ack, largest_ack + 1);
    let ghost top = (first, (largest_ack + 1) as u64);
    let ghost mut above = seq![top];
    assert(ranges@ =~= above);
    let mut left: u64 = block_count;
    let ghost all = blocks_parsed(s, block_count as nat, first);
    while left > 0
        invariant
            ranges.wf(),
            ranges@.len() > 0,
            ranges@[0].0 == smallest_ack,
            above.len() > 0,
            ranges@ == above,
            smallest_ack <= MAX_VAR_INT,
            all == blocks_parsed(s, block_count as nat, first),
            all.rest == blocks_parsed(octets_rest(*b), left as nat, smallest_ack).rest,
            match blocks_parsed(octets_rest(*b), left as nat, smallest_ack).result {
                Ok(rs) => all.result matches Ok(q) && q.push(top) =~= rs + above,
                Err(e) => all.result == Err::<Seq<(u64, u64)>, Error>(e),
            },
            ({
                let a = triple_parsed(octets_rest(*old(b)));
                let c = pair_parsed(a.rest);
                &&& a.result == Ok::<(u64, u64, u64), Error>((path_id, largest_ack, ack_delay))
                &&& c.result == Ok::<(u64, u64), Error>((block_count, ack_block))
                &&& c.rest == s
            }),
            largest_ack >= ack_block,
            first == largest_ack - ack_block,
            top == (first, (largest_ack + 1) as u64),
        decreases left,
    {
        let ghost now = blocks_parsed(octets_rest(*b), left as nat, smallest_ack);
        let gap = match read_varint(b) {
            Ok(g) => g,
            Err(e) => {
                return Err(e);
            },
        };
        if smallest_ack < gap + 2 {
            return Err(Error::InvalidFrame);
        }
        let largest: u64 = smallest_ack - gap - 2;
        let block = match read_varint(b) {
            Ok(v) => v,
            Err(e) => {
                return Err(e);
            },
        };
        if largest < block {
            return Err(Error::InvalidFrame);
        }
        smallest_ack = largest - block;
        prepend_range(&mut ranges, smallest_ack, largest + 1);
        left -= 1;
        proof {
            let r = (smallest_ack, (largest + 1) as u64);
            let was = above;
            above = seq![r] + above;
            let below = blocks_parsed(octets_rest(*b), left as nat, smallest_ack);
            if below.result is Ok {
                let rs = below.result->Ok_0;
                assert(rs.push(r) + was =~= rs + above);
            }
        }
    }
    proof {
        assert(all.rest == octets_rest(*b));
        let q = all.result->Ok_0;
        assert(Seq::<(u64, u64)>::empty() + above =~= above);
        assert(ranges@ == q.push(top));
    }
    let ecn_counts = if has_ecn {
        match read_triple(b) {
            Ok((ect0_count, ect1_count, ecn_ce_count)) => Some(
                EcnCounts { ect0_count, ect1_count, ecn_ce_count },
            ),
            Err(e) => {
                return Err(e);
            },
        }
    } else {
        None
    };
    Ok((path_id, ack_delay, ranges, ecn_counts))
}

/// The gaps and lengths of all the ranges but the highest, from the highest of
/// them on.
pub open spec fn gap_varints(rs: Seq<(u64, u64)>) -> Seq<u64>
    decreases rs.len(),
{
    if rs.len() < 2 {
        Seq::empty()
    } else {
        let above = rs[rs.len() - 1];
        let r = rs[rs.len() - 2];
        seq![(above.0 - r.1 - 1) as u64, (r.1 - 1 - r.0) as u64] + gap_varints(rs.drop_last())
    }
}

/// The ECN counts, where there are any.
pub open spec fn ecn_varints(ecn: Option<EcnCounts>) -> Seq<u64> {
    match ecn {
        Some(c) => seq![c.ect0_count, c.ect1_count, c.ecn_ce_count],
        None => Seq::empty(),
    }
}

/// The type of an acknowledgement with or without ECN counts.
pub open spec fn ack_type(ecn: Option<EcnCounts>) -> u64 {
    if ecn is Some {
        PATH_ACK_ECN_TYPE
    } else {
        PATH_ACK_TYPE
    }
}

/// What an acknowledgement consists of: the largest number, the delay, the number
/// of ranges below the highest, and the ranges, with the ECN counts.
pub open spec fn ack_varints(
    ack_delay: u64,
    rs: Seq<(u64, u64)>,
    ecn: Option<EcnCounts>,
) -> Seq<u64> {
    let top = rs.last();
    seq![
        (top.1 - 1) as u64,
        ack_delay,
        (rs.len() - 1) as u64,
        (top.1 - 1 - top.0) as u64,
    ] + gap_varints(rs) + ecn_varints(ecn)
}

/// What a PATH_ACK frame consists of after its type.
pub open spec fn path_ack_varints(
    path_id: u64,
    ack_delay: u64,
    rs: Seq<(u64, u64)>,
    ecn: Option<EcnCounts>,
) -> Seq<u64> {
    seq![path_id] + ack_varints(ack_delay, rs, ecn)
}

/// What becomes of a buffer, and what is returned, when fields are written to
/// it: the number of bytes, or an error where they do not all find room.
pub open spec fn encoded(s: Sink, fields: Seq<Seq<u8>>) -> (Sink, Result<usize, Error>) {
    let (t, ok) = put_all(s, fields);
    (
        t,
        if ok {
            Ok((s.room.len() - t.room.len()) as usize)
        } else {
            Err(Error::BufferTooShort)
        },
    )
}

/// Writes variable-length integers, and returns the number of bytes they take.
fn encode_varints(b: &mut OctetsMut, vs: &[u64]) -> (r: Result<usize, Error>)
    requires
        forall|i: int| 0 <= i < vs@.len() ==> (#[trigger] vs@[i]) <= MAX_VAR_INT,
    ensures
        (sink_of(*final(b)), r) == encoded(sink_of(*old(b)), varint_fields(vs@)),
{
    let before: usize = writable(b);
    let ok: bool = put_varints(b, vs);
    proof {
        lemma_put_all(sink_of(*old(b)), varint_fields(vs@));
    }
    if !ok {
        return Err(Error::BufferTooShort);
    }
    Ok(before - writable(b))
}

/// Whether a range set can be acknowledged: its numbers fit.
pub open spec fn ranges_fit(rs: Seq<(u64, u64)>) -> bool {
    canonical(rs) && (rs.len() > 0 ==> rs.last().1 - 1 <= MAX_VAR_INT)
}

/// Whether the ECN counts fit.
pub open spec fn ecn_fits(ecn: Option<EcnCounts>) -> bool {
    ecn matches Some(c) ==> c.ect0_count <= MAX_VAR_INT && c.ect1_count <= MAX_VAR_INT
        && c.ecn_ce_count <= MAX_VAR_INT
}

/// The numbers of gaps and lengths fit where the ranges do.
proof fn lemma_range_bounds(rs: Seq<(u64, u64)>, i: int)
    requires
        ranges_fit(rs),
        0 <= i < rs.len(),
    ensures
        rs[i].0 < rs[i].1,
        rs[i].1 - 1 <= MAX_VAR_INT,
        i + 1 < rs.len() ==> rs[i].1 < rs[i + 1].0,
{
    if i < rs.len() - 1 {
        assert(rs[i].1 < rs[rs.len() - 1].0);
        assert(rs[rs.len() - 1].0 < rs[rs.len() - 1].1);
    }
}

/// Ranges that neither overlap nor touch start at twice their position or above.
pub proof fn lemma_range_start(rs: Seq<(u64, u64)>, i: int)
    requires
        canonical(rs),
        0 <= i < rs.len(),
    ensures
        rs[i].0 >= 2 * i,
    decreases i,
{
    if i > 0 {
        lemma_range_start(rs, i - 1);
        assert(rs[i - 1].0 < rs[i - 1].1);
        assert(rs[i - 1].1 < rs[i].0);
    }
}

/// The variable-length integers of an acknowledgement.
pub fn ack_list(ack_delay: u64, ranges: &RangeSet, ecn_counts: &Option<EcnCounts>) -> (r: Vec<u64>)
    requires
        canonical(ranges@),
        ranges@.len() > 0,
    ensures
        r@ == ack_varints(ack_delay, ranges@, *ecn_counts),
        ack_delay <= MAX_VAR_INT && ranges_fit(ranges@) && ecn_fits(*ecn_counts) ==> forall|i: int|
            0 <= i < r@.len() ==> (#[trigger] r@[i]) <= MAX_VAR_INT,
{
    let n: usize = ranges.len();
    let ghost rs = ranges@;
    let ghost fit = ack_delay <= MAX_VAR_INT && ranges_fit(ranges@) && ecn_fits(*ecn_counts);
    let top: (u64, u64) = ranges.range(n - 1);
    proof {
        assert(rs[n - 1].0 < rs[n - 1].1);
        lemma_range_start(rs, n - 1);
    }
    let mut vs: Vec<u64> = Vec::new();
    vs.push(top.1 - 1);
    vs.push(ack_delay);
    vs.push((n - 1) as u64);
    vs.push(top.1 - 1 - top.0);
    let ghost head = vs@;
    let mut prev_smallest: u64 = top.0;
    let mut i: usize = n - 1;
    assert(rs.take(n as int) =~= rs);
    assert(head + gap_varints(rs) =~= vs@ + gap_varints(rs.take(i + 1)));
    while i > 0
        invariant
            i < n,
            n == rs.len(),
            rs == ranges@,
            canonical(rs),
            fit ==> ranges_fit(rs),
            prev_smallest == rs[i as int].0,
            fit ==> forall|k: int| 0 <= k < vs@.len() ==> (#[trigger] vs@[k]) <= MAX_VAR_INT,
            head + gap_varints(rs) == vs@ + gap_varints(rs.take(i + 1)),
        decreases i,
    {
        let ghost before = vs@;
        let ghost upper = rs.take(i + 1);
        let block: (u64, u64) = ranges.range(i - 1);
        proof {
            assert(rs[i - 1].0 < rs[i - 1].1);
            assert(rs[i - 1].1 < rs[i as int].0);
            if fit {
                lemma_range_bounds(rs, i - 1);
                lemma_range_bounds(rs, i as int);
            }
        }
        let gap: u64 = prev_smallest - block.1 - 1;
        let len: u64 = block.1 - 1 - block.0;
        vs.push(gap);
        vs.push(len);
        prev_smallest = block.0;
        i -= 1;
        proof {
            assert(upper.drop_last() =~= rs.take(i + 1));
            assert(gap_varints(upper) =~= seq![gap, len] + gap_varints(rs.take(i + 1)));
            assert(vs@ =~= before + seq![gap, len]);
            assert(before + (seq![gap, len] + gap_varints(rs.take(i + 1))) =~= vs@ + gap_varints(
                rs.take(i + 1),
            ));
        }
    }
    assert(vs@ =~= head + gap_varints(rs));
    if let Some(ecn) = ecn_counts {
        vs.push(ecn.ect0_count);
        vs.push(ecn.ect1_count);
        vs.push(ecn.ecn_ce_count);
    }
    assert(vs@ =~= ack_varints(ack_delay, rs, *ecn_counts));
    vs
}

/// Encode a PATH_ACK frame to bytes.
pub fn encode_path_ack(
    b: &mut OctetsMut,
    path_id: u64,
    ack_delay: u64,
    ranges: &RangeSet,
    ecn_counts: &Option<EcnCounts>,
) -> (r: Result<usize, Error>)
    requires
        ranges@.len() > 0 ==> path_id <= MAX_VAR_INT,
        ranges@.len() > 0 ==> ack_delay <= MAX_VAR_INT,
        ranges@.len() > 0 ==> ranges_fit(ranges@),
        ranges@.len() > 0 ==> ecn_fits(*ecn_counts),
    ensures
        ranges@.len() == 0 ==> r == Err::<usize, Error>(Error::InvalidFrame) && sink_of(*final(b))
            == sink_of(*old(b)),
        ranges@.len() > 0 ==> (sink_of(*final(b)), r) == encoded(
            sink_of(*old(b)),
            varint_fields(
                seq![ack_type(*ecn_counts)] + path_ack_varints(
                    path_id,
                    ack_delay,
                    ranges@,
                    *ecn_counts,
                ),
            ),
        ),
{
    if ranges.len() == 0 {
        return Err(Error::InvalidFrame);
    }
    let ty: u64 = if ecn_counts.is_some() {
        PATH_ACK_ECN_TYPE
    } else {
        PATH_ACK_TYPE
    };
    let list = ack_list(ack_delay, ranges, ecn_counts);
    let mut vs: Vec<u64> = Vec::new();
    vs.push(ty);
    vs.push(path_id);
    let mut i: usize = 0;
    while i < list.len()
        invariant
            i <= list@.len(),
            vs@ == seq![ty, path_id] + list@.take(i as int),
        decreases list@.len() - i,
    {
        vs.push(list[i]);
        i += 1;
        assert(vs@ =~= seq![ty, path_id] + list@.take(i as int));
    }
    proof {
        assert(list@.take(i as int) =~= list@);
        assert(vs@ =~= seq![ack_type(*ecn_counts)] + path_ack_varints(
            path_id,
            ack_delay,
            ranges@,
            *ecn_counts,
        ));
        assert forall|k: int| 0 <= k < vs@.len() implies (#[trigger] vs@[k]) <= MAX_VAR_INT by {
            if k >= 2 {
                assert(vs@[k] == list@[k - 2]);
            }
        }
    }
    encode_varints(b, vs.as_slice())
}

/// Parse a PATH_ABANDON frame: the path and the error code. The frame type has
/// already been consumed.
pub fn parse_path_abandon(b: &mut Octets) -> (r: Result<(u64, u64), Error>)
    ensures
        (Parsed { rest: octets_rest(*final(b)), result: r }) == pair_parsed(octets_rest(*old(b))),
{
    read_pair(b)
}

/// Encode a PATH_ABANDON frame.
pub fn encode_path_abandon(b: &mut OctetsMut, path_id: u64, error_code: u64) -> (r: Result<
    usize,
    Error,
>)
    requires
        path_id <= MAX_VAR_INT,
        error_code <= MAX_VAR_INT,
    ensures
        (sink_of(*final(b)), r) == encoded(
            sink_of(*old(b)),
            varint_fields(seq![PATH_ABANDON_TYPE, path_id, error_code]),
        ),
{
    encode_triple(b, PATH_ABANDON_TYPE, path_id, error_code)
}

/// Writes three variable-length integers.
fn encode_triple(b: &mut OctetsMut, x: u64, y: u64, z: u64) -> (r: Result<usize, Error>)
    requires
        x <= MAX_VAR_INT,
        y <= MAX_VAR_INT,
        z <= MAX_VAR_INT,
    ensures
        (sink_of(*final(b)), r) == encoded(sink_of(*old(b)), varint_fields(seq![x, y, z])),
{
    let vs: [u64; 3] = [x, y, z];
    assert(vs@ =~= seq![x, y, z]);
    encode_varints(b, vs.as_slice())
}

/// Writes two variable-length integers.
fn encode_pair(b: &mut OctetsMut, x: u64, y: u64) -> (r: Result<usize, Error>)
    requires
        x <= MAX_VAR_INT,
        y <= MAX_VAR_INT,
    ensures
        (sink_of(*final(b)), r) == encoded(sink_of(*old(b)), varint_fields(seq![x, y])),
{
    let vs: [u64; 2] = [x, y];
    assert(vs@ =~= seq![x, y]);
    encode_varints(b, vs.as_slice())
}

/// Parse a PATH_STATUS frame: the path and the sequence number. The frame type
/// has already been consumed.
pub fn parse_path_status(b: &mut Octets) -> (r: Result<(u64, u64), Error>)
    ensures
        (Parsed { rest: octets_rest(*final(b)), result: r }) == pair_parsed(octets_rest(*old(b))),
{
    read_pair(b)
}

/// Encode a PATH_STATUS_AVAILABLE frame.
pub fn encode_path_status_available(b: &mut OctetsMut, path_id: u64, seq_num: u64) -> (r: Result<
    usize,
    Error,
>)
    requires
        path_id <= MAX_VAR_INT,
        seq_num <= MAX_VAR_INT,
    ensures
        (sink_of(*final(b)), r) == encoded(
            sink_of(*old(b)),
            varint_fields(seq![PATH_STATUS_AVAILABLE_TYPE, path_id, seq_num]),
        ),
{
    encode_triple(b, PATH_STATUS_AVAILABLE_TYPE, path_id, seq_num)
}

/// Encode a PATH_STATUS_BACKUP frame.
pub fn encode_path_status_backup(b: &mut OctetsMut, path_id: u64, seq_num: u64) -> (r: Result<
    usize,
    Error,
>)
    requires
        path_id <= MAX_VAR_INT,
        seq_num <= MAX_VAR_INT,
    ensures
        (sink_of(*final(b)), r) == encoded(
            sink_of(*old(b)),
            varint_fields(seq![PATH_STATUS_BACKUP_TYPE, path_id, seq_num]),
        ),
{
    encode_triple(b, PATH_STATUS_BACKUP_TYPE, path_id, seq_num)
}

/// One variable-length integer whose absence makes the frame invalid.
pub open spec fn path_id_parsed(s: Seq<u8>) -> Parsed<u64> {
    match varint_at(s) {
        Some((v, n)) => Parsed { rest: s.skip(n as int), result: Ok(v) },
        None => Parsed { rest: s, result: Err(Error::InvalidFrame) },
    }
}

/// Parse a MAX_PATH_ID frame. The frame type has already been consumed.
pub fn parse_max_path_id(b: &mut Octets) -> (r: Result<u64, Error>)
    ensures
        (Parsed { rest: octets_rest(*final(b)), result: r }) == path_id_parsed(
            octets_rest(*old(b)),
        ),
{
    match get_varint(b) {
        Ok(v) => Ok(v),
        Err(_) => Err(Error::InvalidFrame),
    }
}

/// Encode a MAX_PATH_ID frame.
pub fn encode_max_path_id(b: &mut OctetsMut, path_id: u64) -> (r: Result<usize, Error>)
    requires
        path_id <= MAX_VAR_INT,
    ensures
        (sink_of(*final(b)), r) == encoded(
            sink_of(*old(b)),
            varint_fields(seq![MAX_PATH_ID_TYPE, path_id]),
        ),
{
    encode_pair(b, MAX_PATH_ID_TYPE, path_id)
}

/// Parse a PATHS_BLOCKED frame. The frame type has already been consumed.
pub fn parse_paths_blocked(b: &mut Octets) -> (r: Result<u64, Error>)
    ensures
        (Parsed { rest: octets_rest(*final(b)), result: r }) == path_id_parsed(
            octets_rest(*old(b)),
        ),
{
    match get_varint(b) {
        Ok(v) => Ok(v),
        Err(_) => Err(Error::InvalidFrame),
    }
}

/// Encode a PATHS_BLOCKED frame.
pub fn encode_paths_blocked(b: &mut OctetsMut, path_id: u64) -> (r: Result<usize, Error>)
    requires
        path_id <= MAX_VAR_INT,
    ensures
        (sink_of(*final(b)), r) == encoded(
            sink_of(*old(b)),
            varint_fields(seq![PATHS_BLOCKED_TYPE, path_id]),
        ),
{
    encode_pair(b, PATHS_BLOCKED_TYPE, path_id)
}

/// A connection ID with its length in front of it, and a reset token.
pub open spec fn cid_and_token_parsed(s: Seq<u8>) -> Parsed<(u8, Seq<u8>, u128)> {
    let too_short = |rest: Seq<u8>|
        Parsed::<(u8, Seq<u8>, u128)> { rest, result: Err(Error::BufferTooShort) };
    if s.len() == 0 {
        too_short(s)
    } else {
        let n = s[0];
        let t = s.skip(1);
        if t.len() < n {
            too_short(t)
        } else {
            let u = t.skip(n as int);
            if u.len() < 16 {
                too_short(u)
            } else {
                Parsed {
                    rest: u.skip(16),
                    result: Ok((n, t.take(n as int), be_value(u.take(16)) as u128)),
                }
            }
        }
    }
}

/// A PATH_NEW_CONNECTION_ID frame after its type: the path, the sequence number,
/// the retire prior to, the length of the connection ID, the connection ID and
/// the reset token.
pub open spec fn path_new_connection_id_parsed(s: Seq<u8>) -> Parsed<
    (u64, u64, u64, u8, Seq<u8>, u128),
> {
    let a = triple_parsed(s);
    match a.result {
        Err(e) => Parsed { rest: a.rest, result: Err(e) },
        Ok((path_id, seq_num, retire_prior_to)) => {
            let c = cid_and_token_parsed(a.rest);
            match c.result {
                Err(e) => Parsed { rest: c.rest, result: Err(e) },
                Ok((n, cid, token)) => Parsed {
                    rest: c.rest,
                    result: Ok((path_id, seq_num, retire_prior_to, n, cid, token)),
                },
            }
        },
    }
}

/// Parse a PATH_NEW_CONNECTION_ID frame. The frame type has already been
/// consumed.
pub fn parse_path_new_connection_id(b: &mut Octets) -> (r: Result<
    (u64, u64, u64, u8, Vec<u8>, u128),
    Error,
>)
    ensures
        ({
            let p = path_new_connection_id_parsed(octets_rest(*old(b)));
            &&& octets_rest(*final(b)) == p.rest
            &&& match r {
                Ok((path_id, seq_num, retire_prior_to, cid_len, cid, token)) => p.result == Ok::<
                    (u64, u64, u64, u8, Seq<u8>, u128),
                    Error,
                >((path_id, seq_num, retire_prior_to, cid_len, cid@, token)),
                Err(e) => p.result == Err::<(u64, u64, u64, u8, Seq<u8>, u128), Error>(e),
            }
        }),
{
    let (path_id, seq_num, retire_prior_to) = match read_triple(b) {
        Ok(t) => t,
        Err(e) => {
            return Err(e);
        },
    };
    let cid_len: u8 = match get_u8(b) {
        Ok(n) => n,
        Err(_) => {
            return Err(Error::BufferTooShort);
        },
    };
    let cid = match get_bytes(b, cid_len as usize) {
        Ok(c) => c,
        Err(_) => {
            return Err(Error::BufferTooShort);
        },
    };
    // The reset token takes 16 bytes, the most significant one first.
    let token_bytes = match get_bytes(b, 16) {
        Ok(t) => t,
        Err(_) => {
            return Err(Error::BufferTooShort);
        },
    };
    let reset_token: u128 = u128_from_be(token_bytes.as_slice());
    Ok((path_id, seq_num, retire_prior_to, cid_len, cid, reset_token))
}

/// The fields of a PATH_NEW_CONNECTION_ID frame.
pub open spec fn path_new_connection_id_fields(
    path_id: u64,
    seq_num: u64,
    retire_prior_to: u64,
    conn_id: Seq<u8>,
    reset_token: u128,
) -> Seq<Seq<u8>> {
    varint_fields(seq![PATH_NEW_CONNECTION_ID_TYPE, path_id, seq_num, retire_prior_to]) + seq![
        seq![conn_id.len() as u8],
        conn_id,
        be_bytes(reset_token as nat, 16),
    ]
}

/// Encode a PATH_NEW_CONNECTION_ID frame.
pub fn encode_path_new_connection_id(
    b: &mut OctetsMut,
    path_id: u64,
    seq_num: u64,
    retire_prior_to: u64,
    conn_id: &[u8],
    reset_token: u128,
) -> (r: Result<usize, Error>)
    requires
        path_id <= MAX_VAR_INT,
        seq_num <= MAX_VAR_INT,
        retire_prior_to <= MAX_VAR_INT,
    ensures
        (sink_of(*final(b)), r) == encoded(
            sink_of(*old(b)),
            path_new_connection_id_fields(
                path_id,
                seq_num,
                retire_prior_to,
                conn_id@,
                reset_token,
            ),
        ),
{
    let before: usize = writable(b);
    let vs: [u64; 4] = [PATH_NEW_CONNECTION_ID_TYPE, path_id, seq_num, retire_prior_to];
    let token = u128_to_be(reset_token);
    let len: u8 = #[verifier::truncate] (conn_id.len() as u8);
    let ghost s = sink_of(*b);
    let ghost fs = varint_fields(vs@);
    let ghost all = path_new_connection_id_fields(
        path_id,
        seq_num,
        retire_prior_to,
        conn_id@,
        reset_token,
    );
    proof {
        assert(vs@ =~= seq![PATH_NEW_CONNECTION_ID_TYPE, path_id, seq_num, retire_prior_to]);
        lemma_put_all(s, all);
        assert(all.take(4) =~= fs);
        assert(all.take(5) =~= fs.push(seq![len]));
        assert(all.take(6) =~= fs.push(seq![len]).push(conn_id@));
        assert(all =~= fs.push(seq![len]).push(conn_id@).push(token@));
        assert(fs.push(seq![len]).drop_last() =~= fs);
        assert(fs.push(seq![len]).push(conn_id@).drop_last() =~= fs.push(seq![len]));
        assert(all.drop_last() =~= fs.push(seq![len]).push(conn_id@));
    }
    if !put_varints(b, vs.as_slice()) {
        proof {
            crate::buffer::lemma_put_all_stops(s, all, 4);
        }
        return Err(Error::BufferTooShort);
    }
    if put_u8(b, len).is_err() {
        proof {
            crate::buffer::lemma_put_all_stops(s, all, 5);
        }
        return Err(Error::BufferTooShort);
    }
    assert(put_all(s, fs.push(seq![len])) == (sink_of(*b), true));
    if put_bytes(b, conn_id).is_err() {
        proof {
            crate::buffer::lemma_put_all_stops(s, all, 6);
        }
        return Err(Error::BufferTooShort);
    }
    assert(put_all(s, fs.push(seq![len]).push(conn_id@)) == (sink_of(*b), true));
    if put_bytes(b, token.as_slice()).is_err() {
        return Err(Error::BufferTooShort);
    }
    Ok(before - writable(b))
}

/// Parse a PATH_RETIRE_CONNECTION_ID frame: the path and the sequence number.
/// The frame type has already been consumed.
pub fn parse_path_retire_connection_id(b: &mut Octets) -> (r: Result<(u64, u64), Error>)
    ensures
        (Parsed { rest: octets_rest(*final(b)), result: r }) == pair_parsed(octets_rest(*old(b))),
{
    read_pair(b)
}

/// Encode a PATH_RETIRE_CONNECTION_ID frame.
pub fn encode_path_retire_connection_id(b: &mut OctetsMut, path_id: u64, seq_num: u64) -> (r:
    Result<usize, Error>)
    requires
        path_id <= MAX_VAR_INT,
        seq_num <= MAX_VAR_INT,
    ensures
        (sink_of(*final(b)), r) == encoded(
            sink_of(*old(b)),
            varint_fields(seq![PATH_RETIRE_CONNECTION_ID_TYPE, path_id, seq_num]),
        ),
{
    encode_triple(b, PATH_RETIRE_CONNECTION_ID_TYPE, path_id, seq_num)
}

/// Parse a PATH_CIDS_BLOCKED frame: the path and the sequence number. The frame
/// type has already been consumed.
pub fn parse_path_cids_blocked(b: &mut Octets) -> (r: Result<(u64, u64), Error>)
    ensures
        (Parsed { rest: octets_rest(*final(b)), result: r }) == pair_parsed(octets_rest(*old(b))),
{
    read_pair(b)
}

/// Encode a PATH_CIDS_BLOCKED frame.
pub fn encode_path_cids_blocked(b: &mut OctetsMut, path_id: u64, seq_num: u64) -> (r: Result<
    usize,
    Error,
>)
    requires
        path_id <= MAX_VAR_INT,
        seq_num <= MAX_VAR_INT,
    ensures
        (sink_of(*final(b)), r) == encoded(
            sink_of(*old(b)),
            varint_fields(seq![PATH_CIDS_BLOCKED_TYPE, path_id, seq_num]),
        ),
{
    encode_triple(b, PATH_CIDS_BLOCKED_TYPE, path_id, seq_num)
}

} // verus!
