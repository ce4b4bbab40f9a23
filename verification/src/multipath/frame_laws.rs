//! What is encoded is what is parsed.

use crate::buffer::{
    joined, lemma_joined_add, lemma_joined_one, lemma_put_all, put, varint_fields, Sink,
};
use crate::bytes::{be_bytes, lemma_be_bytes_len, lemma_be_value_of_bytes, lemma_pow256_values};
use crate::error::Error;
use crate::frame::EcnCounts;
use crate::multipath::frames::{
    ack_ranges_parsed, blocks_parsed, cid_and_token_parsed, ecn_fits, ecn_parsed, ecn_varints,
    encoded, gap_varints, lemma_range_start, pair_parsed, path_ack_parsed, path_ack_varints,
    path_id_parsed, path_new_connection_id_fields, path_new_connection_id_parsed, ranges_fit,
    triple_parsed, varint_parsed, Parsed, PATH_NEW_CONNECTION_ID_TYPE,
};
use crate::ranges::canonical;
use crate::varint::{
    lemma_varint_len, lemma_varint_roundtrip, varint_bytes, varint_size, MAX_VAR_INT,
};
use vstd::prelude::*;

verus! {

/// The bytes of variable-length integers one after the other.
pub open spec fn varints_bytes(vs: Seq<u64>) -> Seq<u8> {
    joined(varint_fields(vs))
}

/// The bytes of some integers and some more.
pub proof fn lemma_varints_add(a: Seq<u64>, b: Seq<u64>)
    ensures
        varints_bytes(a + b) == varints_bytes(a) + varints_bytes(b),
{
    assert(varint_fields(a + b) =~= varint_fields(a) + varint_fields(b));
    lemma_joined_add(varint_fields(a), varint_fields(b));
}

/// Reading the first of some integers leaves the others.
pub proof fn lemma_read_first(v: u64, vs: Seq<u64>, rest: Seq<u8>)
    requires
        v <= MAX_VAR_INT,
    ensures
        varint_parsed(varints_bytes(seq![v] + vs) + rest) == (Parsed {
            rest: varints_bytes(vs) + rest,
            result: Ok(v),
        }),
        varints_bytes(seq![v] + vs) == varint_bytes(v) + varints_bytes(vs),
{
    lemma_varints_add(seq![v], vs);
    assert(varint_fields(seq![v]) =~= seq![varint_bytes(v)]);
    lemma_joined_one(varint_bytes(v));
    let s = varints_bytes(seq![v] + vs) + rest;
    let after = varints_bytes(vs) + rest;
    assert(s =~= varint_bytes(v) + after);
    lemma_varint_roundtrip(v, after);
    lemma_varint_len(v);
    assert(s.skip(varint_size(v) as int) =~= after);
}

/// Reading two of some integers leaves the others.
pub proof fn lemma_read_pair(x: u64, y: u64, vs: Seq<u64>, rest: Seq<u8>)
    requires
        x <= MAX_VAR_INT,
        y <= MAX_VAR_INT,
    ensures
        pair_parsed(varints_bytes(seq![x, y] + vs) + rest) == (Parsed {
            rest: varints_bytes(vs) + rest,
            result: Ok((x, y)),
        }),
{
    assert(seq![x, y] + vs =~= seq![x] + (seq![y] + vs));
    lemma_read_first(x, seq![y] + vs, rest);
    lemma_read_first(y, vs, rest);
}

/// Reading three of some integers leaves the others.
pub proof fn lemma_read_triple(x: u64, y: u64, z: u64, vs: Seq<u64>, rest: Seq<u8>)
    requires
        x <= MAX_VAR_INT,
        y <= MAX_VAR_INT,
        z <= MAX_VAR_INT,
    ensures
        triple_parsed(varints_bytes(seq![x, y, z] + vs) + rest) == (Parsed {
            rest: varints_bytes(vs) + rest,
            result: Ok((x, y, z)),
        }),
{
    assert(seq![x, y, z] + vs =~= seq![x, y] + (seq![z] + vs));
    lemma_read_pair(x, y, seq![z] + vs, rest);
    lemma_read_first(z, vs, rest);
}

/// The gaps and lengths of ranges give those ranges back.
proof fn lemma_read_blocks(rs: Seq<(u64, u64)>, vs: Seq<u64>, rest: Seq<u8>)
    requires
        ranges_fit(rs),
        rs.len() > 0,
    ensures
        blocks_parsed(
            varints_bytes(gap_varints(rs) + vs) + rest,
            (rs.len() - 1) as nat,
            rs.last().0,
        ) == (Parsed { rest: varints_bytes(vs) + rest, result: Ok(rs.drop_last()) }),
    decreases rs.len(),
{
    let n = rs.len();
    if n == 1 {
        assert(gap_varints(rs) + vs =~= vs);
        assert(rs.drop_last() =~= Seq::empty());
    } else {
        let above = rs[n - 1];
        let r = rs[n - 2];
        let low = rs.drop_last();
        assert(rs[n - 2].1 < rs[n - 1].0);
        assert(rs[n - 2].0 < rs[n - 2].1);
        assert(rs[n - 1].0 < rs[n - 1].1);
        let gap = (above.0 - r.1 - 1) as u64;
        let len = (r.1 - 1 - r.0) as u64;
        assert(canonical(low)) by {
            assert forall|i: int| 0 <= i < low.len() implies (#[trigger] low[i]).0 < low[i].1 by {
                assert(low[i] == rs[i]);
            }
            assert forall|i: int, j: int| 0 <= i < j < low.len() implies (#[trigger] low[i]).1 < (
            #[trigger] low[j]).0 by {
                assert(low[i] == rs[i] && low[j] == rs[j]);
            }
        }
        let more = gap_varints(low) + vs;
        assert(gap_varints(rs) + vs =~= seq![gap] + (seq![len] + more));
        lemma_read_first(gap, seq![len] + more, rest);
        lemma_read_first(len, more, rest);
        lemma_read_blocks(low, vs, rest);
        assert(low.drop_last().push(r) =~= low);
    }
}

/// A PATH_ACK frame is parsed in four steps.
proof fn lemma_path_ack_steps(
    s: Seq<u8>,
    t: Seq<u8>,
    u: Seq<u8>,
    v: Seq<u8>,
    rest: Seq<u8>,
    head: (u64, u64, u64),
    counts: (u64, u64),
    rs: Seq<(u64, u64)>,
    ecn: Option<EcnCounts>,
)
    requires
        triple_parsed(s) == (Parsed { rest: t, result: Ok::<(u64, u64, u64), Error>(head) }),
        pair_parsed(t) == (Parsed { rest: u, result: Ok::<(u64, u64), Error>(counts) }),
        ack_ranges_parsed(u, head.1, counts.0, counts.1) == (Parsed {
            rest: v,
            result: Ok::<Seq<(u64, u64)>, Error>(rs),
        }),
        ecn_parsed(v, ecn is Some) == (Parsed {
            rest,
            result: Ok::<Option<EcnCounts>, Error>(ecn),
        }),
    ensures
        path_ack_parsed(s, ecn is Some) == (Parsed {
            rest,
            result: Ok::<(u64, u64, Seq<(u64, u64)>, Option<EcnCounts>), Error>(
                (head.0, head.2, rs, ecn),
            ),
        }),
{
}

/// The ECN counts are read back.
proof fn lemma_read_ecn(ecn: Option<EcnCounts>, rest: Seq<u8>)
    requires
        ecn_fits(ecn),
    ensures
        ecn_parsed(varints_bytes(ecn_varints(ecn)) + rest, ecn is Some) == (Parsed {
            rest,
            result: Ok::<Option<EcnCounts>, Error>(ecn),
        }),
{
    assert(varint_fields(Seq::empty()) =~= Seq::empty());
    assert(varints_bytes(Seq::empty()) + rest =~= rest);
    match ecn {
        Some(c) => {
            assert(ecn_varints(ecn) =~= seq![c.ect0_count, c.ect1_count, c.ecn_ce_count]
                + Seq::<u64>::empty());
            lemma_read_triple(c.ect0_count, c.ect1_count, c.ecn_ce_count, Seq::empty(), rest);
        },
        None => {},
    }
}

/// The ranges are read back.
proof fn lemma_read_ack_ranges(rs: Seq<(u64, u64)>, vs: Seq<u64>, rest: Seq<u8>)
    requires
        ranges_fit(rs),
        rs.len() > 0,
    ensures
        ack_ranges_parsed(
            varints_bytes(gap_varints(rs) + vs) + rest,
            (rs.last().1 - 1) as u64,
            (rs.len() - 1) as u64,
            (rs.last().1 - 1 - rs.last().0) as u64,
        ) == (Parsed {
            rest: varints_bytes(vs) + rest,
            result: Ok::<Seq<(u64, u64)>, Error>(rs),
        }),
{
    let n = rs.len();
    lemma_range_start(rs, n - 1);
    assert(rs[n - 1].0 < rs[n - 1].1);
    lemma_read_blocks(rs, vs, rest);
    assert(rs.drop_last().push(rs.last()) =~= rs);
}

/// Parsing the bytes of a PATH_ACK frame gives back what was encoded, and leaves
/// what follows.
#[verifier::rlimit(30)]
pub proof fn law_path_ack_roundtrip(
    path_id: u64,
    ack_delay: u64,
    rs: Seq<(u64, u64)>,
    ecn: Option<EcnCounts>,
    rest: Seq<u8>,
)
    requires
        path_id <= MAX_VAR_INT,
        ack_delay <= MAX_VAR_INT,
        ranges_fit(rs),
        rs.len() > 0,
        ecn_fits(ecn),
    ensures
        path_ack_parsed(
            varints_bytes(path_ack_varints(path_id, ack_delay, rs, ecn)) + rest,
            ecn is Some,
        ) == (Parsed { rest, result: Ok((path_id, ack_delay, rs, ecn)) }),
{
    let top = rs.last();
    let ev = ecn_varints(ecn);
    let tail = gap_varints(rs) + ev;
    let vs = path_ack_varints(path_id, ack_delay, rs, ecn);
    let head = (path_id, (top.1 - 1) as u64, ack_delay);
    let counts = ((rs.len() - 1) as u64, (top.1 - 1 - top.0) as u64);
    assert(head.1 <= MAX_VAR_INT && counts.0 <= MAX_VAR_INT && counts.1 <= MAX_VAR_INT) by {
        lemma_range_start(rs, rs.len() - 1);
        assert(rs[rs.len() - 1].0 < rs[rs.len() - 1].1);
    }
    assert(vs =~= seq![head.0, head.1, head.2] + (seq![counts.0, counts.1] + tail));
    let s = varints_bytes(vs) + rest;
    let t = varints_bytes(seq![counts.0, counts.1] + tail) + rest;
    let u = varints_bytes(tail) + rest;
    let v = varints_bytes(ev) + rest;
    assert(triple_parsed(s) == (Parsed {
        rest: t,
        result: Ok::<(u64, u64, u64), Error>(head),
    })) by {
        lemma_read_triple(head.0, head.1, head.2, seq![counts.0, counts.1] + tail, rest);
    }
    assert(pair_parsed(t) == (Parsed { rest: u, result: Ok::<(u64, u64), Error>(counts) })) by {
        lemma_read_pair(counts.0, counts.1, tail, rest);
    }
    assert(ack_ranges_parsed(u, head.1, counts.0, counts.1) == (Parsed {
        rest: v,
        result: Ok::<Seq<(u64, u64)>, Error>(rs),
    })) by {
        lemma_read_ack_ranges(rs, ev, rest);
    }
    lemma_read_ecn(ecn, rest);
    lemma_path_ack_steps(s, t, u, v, rest, head, counts, rs, ecn);
}

/// Parsing the bytes of a frame of two integers (PATH_ABANDON, PATH_STATUS,
/// PATH_RETIRE_CONNECTION_ID, PATH_CIDS_BLOCKED) gives back what was encoded, and
/// leaves what follows.
pub proof fn law_pair_roundtrip(x: u64, y: u64, rest: Seq<u8>)
    requires
        x <= MAX_VAR_INT,
        y <= MAX_VAR_INT,
    ensures
        pair_parsed(varints_bytes(seq![x, y]) + rest) == (Parsed { rest, result: Ok((x, y)) }),
{
    assert(seq![x, y] + Seq::<u64>::empty() =~= seq![x, y]);
    lemma_read_pair(x, y, Seq::empty(), rest);
    assert(varint_fields(Seq::empty()) =~= Seq::empty());
    assert(varints_bytes(Seq::empty()) + rest =~= rest);
}

/// Parsing the bytes of a MAX_PATH_ID or a PATHS_BLOCKED frame gives back what
/// was encoded, and leaves what follows.
pub proof fn law_path_id_roundtrip(path_id: u64, rest: Seq<u8>)
    requires
        path_id <= MAX_VAR_INT,
    ensures
        path_id_parsed(varints_bytes(seq![path_id]) + rest) == (Parsed {
            rest,
            result: Ok(path_id),
        }),
{
    assert(seq![path_id] + Seq::<u64>::empty() =~= seq![path_id]);
    lemma_read_first(path_id, Seq::empty(), rest);
    assert(varint_fields(Seq::empty()) =~= Seq::empty());
    assert(varints_bytes(Seq::empty()) + rest =~= rest);
}

/// The bytes of a PATH_NEW_CONNECTION_ID frame after its type.
pub open spec fn path_new_connection_id_bytes(
    path_id: u64,
    seq_num: u64,
    retire_prior_to: u64,
    conn_id: Seq<u8>,
    reset_token: u128,
) -> Seq<u8> {
    varints_bytes(seq![path_id, seq_num, retire_prior_to]) + (seq![conn_id.len() as u8] + conn_id
        + be_bytes(reset_token as nat, 16))
}

/// A connection ID and its reset token are read back.
proof fn lemma_read_cid_and_token(conn_id: Seq<u8>, reset_token: u128, rest: Seq<u8>)
    requires
        conn_id.len() <= u8::MAX,
    ensures
        cid_and_token_parsed(
            (seq![conn_id.len() as u8] + conn_id + be_bytes(reset_token as nat, 16)) + rest,
        ) == (Parsed {
            rest,
            result: Ok::<(u8, Seq<u8>, u128), Error>((conn_id.len() as u8, conn_id, reset_token)),
        }),
{
    let len = conn_id.len() as u8;
    let token = be_bytes(reset_token as nat, 16);
    let t = (seq![len] + conn_id + token) + rest;
    lemma_be_bytes_len(reset_token as nat, 16);
    assert(t[0] == len);
    assert(t.skip(1) =~= conn_id + (token + rest));
    assert(t.skip(1).take(len as int) =~= conn_id);
    let u = t.skip(1).skip(len as int);
    assert(u =~= token + rest);
    assert(u.take(16) =~= token);
    assert(u.skip(16) =~= rest);
    lemma_pow256_values();
    lemma_be_value_of_bytes(reset_token as nat, 16);
}

/// The fields of a PATH_NEW_CONNECTION_ID frame are its type followed by the
/// bytes that are parsed.
pub proof fn law_path_new_connection_id_fields(
    path_id: u64,
    seq_num: u64,
    retire_prior_to: u64,
    conn_id: Seq<u8>,
    reset_token: u128,
)
    ensures
        joined(
            path_new_connection_id_fields(path_id, seq_num, retire_prior_to, conn_id, reset_token),
        ) == varint_bytes(PATH_NEW_CONNECTION_ID_TYPE) + path_new_connection_id_bytes(
            path_id,
            seq_num,
            retire_prior_to,
            conn_id,
            reset_token,
        ),
{
    let len = conn_id.len() as u8;
    let token = be_bytes(reset_token as nat, 16);
    let three = seq![path_id, seq_num, retire_prior_to];
    let tail = seq![len] + conn_id + token;
    let ty = PATH_NEW_CONNECTION_ID_TYPE;
    assert(seq![ty, path_id, seq_num, retire_prior_to] =~= seq![ty] + three);
    lemma_read_first(ty, three, Seq::empty());
    lemma_joined_add(varint_fields(seq![ty] + three), seq![seq![len], conn_id, token]);
    assert(seq![seq![len], conn_id, token] =~= seq![seq![len]] + (seq![conn_id] + seq![token]));
    lemma_joined_add(seq![seq![len]], seq![conn_id] + seq![token]);
    lemma_joined_add(seq![conn_id], seq![token]);
    lemma_joined_one(seq![len]);
    lemma_joined_one(conn_id);
    lemma_joined_one(token);
    assert(joined(seq![seq![len], conn_id, token]) =~= tail);
    assert((varint_bytes(ty) + varints_bytes(three)) + tail =~= varint_bytes(ty) + (varints_bytes(
        three,
    ) + tail));
}

/// Parsing the bytes of a PATH_NEW_CONNECTION_ID frame gives back what was
/// encoded, and leaves what follows. The length of a connection ID takes one
/// byte.
pub proof fn law_path_new_connection_id_roundtrip(
    path_id: u64,
    seq_num: u64,
    retire_prior_to: u64,
    conn_id: Seq<u8>,
    reset_token: u128,
    rest: Seq<u8>,
)
    requires
        path_id <= MAX_VAR_INT,
        seq_num <= MAX_VAR_INT,
        retire_prior_to <= MAX_VAR_INT,
        conn_id.len() <= u8::MAX,
    ensures
        path_new_connection_id_parsed(
            path_new_connection_id_bytes(path_id, seq_num, retire_prior_to, conn_id, reset_token)
                + rest,
        ) == (Parsed {
            rest,
            result: Ok(
                (path_id, seq_num, retire_prior_to, conn_id.len() as u8, conn_id, reset_token),
            ),
        }),
{
    let three = seq![path_id, seq_num, retire_prior_to];
    let tail = seq![conn_id.len() as u8] + conn_id + be_bytes(reset_token as nat, 16);
    let s = path_new_connection_id_bytes(path_id, seq_num, retire_prior_to, conn_id, reset_token)
        + rest;
    let t = tail + rest;
    assert(three + Seq::<u64>::empty() =~= three);
    lemma_read_triple(path_id, seq_num, retire_prior_to, Seq::empty(), t);
    assert(s =~= varints_bytes(three) + t);
    assert(varint_fields(Seq::empty()) =~= Seq::empty());
    assert(varints_bytes(Seq::empty()) + t =~= t);
    lemma_read_cid_and_token(conn_id, reset_token, rest);
    lemma_path_new_connection_id_steps(
        s,
        t,
        rest,
        (path_id, seq_num, retire_prior_to),
        (conn_id.len() as u8, conn_id, reset_token),
    );
}

/// A PATH_NEW_CONNECTION_ID frame is parsed in two steps.
proof fn lemma_path_new_connection_id_steps(
    s: Seq<u8>,
    t: Seq<u8>,
    rest: Seq<u8>,
    head: (u64, u64, u64),
    tail: (u8, Seq<u8>, u128),
)
    requires
        triple_parsed(s) == (Parsed { rest: t, result: Ok::<(u64, u64, u64), Error>(head) }),
        cid_and_token_parsed(t) == (Parsed {
            rest,
            result: Ok::<(u8, Seq<u8>, u128), Error>(tail),
        }),
    ensures
        path_new_connection_id_parsed(s) == (Parsed {
            rest,
            result: Ok::<(u64, u64, u64, u8, Seq<u8>, u128), Error>(
                (head.0, head.1, head.2, tail.0, tail.1, tail.2),
            ),
        }),
{
}

/// What an encoder writes where there is room: the fields one after the other,
/// with the number of their bytes, and nothing but them. Where there is not, the
/// encoder says so.
pub proof fn law_encoded_is_joined(s: Sink, fields: Seq<Seq<u8>>)
    requires
        s.room.len() <= usize::MAX,
    ensures
        joined(fields).len() <= s.room.len() ==> encoded(s, fields) == (
            put(s, joined(fields)),
            Ok::<usize, Error>(joined(fields).len() as usize),
        ),
        joined(fields).len() > s.room.len() ==> encoded(s, fields).1 == Err::<usize, Error>(
            Error::BufferTooShort,
        ),
{
    lemma_put_all(s, fields);
}

/// A frame of variable-length integers starts with its type.
pub proof fn law_frame_starts_with_type(ty: u64, vs: Seq<u64>)
    requires
        ty <= MAX_VAR_INT,
    ensures
        joined(varint_fields(seq![ty] + vs)) == varint_bytes(ty) + varints_bytes(vs),
{
    lemma_read_first(ty, vs, Seq::empty());
}

} // verus!
