//! What a parser reports of a capsule that arrives in pieces.

use crate::buffer::{joined, lemma_joined_add, lemma_joined_one};
use crate::capsule::capsule_fields;
use crate::capsule::parser::{law_parser_makes_progress, step, CapsuleEvent, ParseState, ParserView};
use crate::varint::{
    lemma_varint_len, lemma_varint_prefix, lemma_varint_roundtrip, varint_at, varint_bytes,
    varint_size, MAX_VAR_INT,
};
use vstd::prelude::*;

verus! {

/// The bytes of pieces one after the other.
pub open spec fn stream_of(pieces: Seq<Seq<u8>>) -> Seq<u8>
    decreases pieces.len(),
{
    if pieces.len() == 0 {
        Seq::empty()
    } else {
        pieces[0] + stream_of(pieces.skip(1))
    }
}

/// What a parser reports that is fed pieces one after the other: the events other
/// than `Pending`, each with the number of bytes that it consumed.
pub open spec fn reports(p: ParserView, pieces: Seq<Seq<u8>>) -> Seq<(CapsuleEvent, int)>
    decreases
            pieces.len(),
            if pieces.len() > 0 {
                pieces[0].len()
            } else {
                0
            },
{
    if pieces.len() == 0 {
        Seq::empty()
    } else {
        let d = pieces[0];
        let (q, e, n) = step(p, d);
        if n <= 0 || n > d.len() {
            reports(q, pieces.skip(1))
        } else if e == CapsuleEvent::Pending {
            reports(q, pieces.update(0, d.skip(n)))
        } else {
            seq![(e, n)] + reports(q, pieces.update(0, d.skip(n)))
        }
    }
}

/// The number of bytes that some reports consumed.
pub open spec fn consumed(rs: Seq<(CapsuleEvent, int)>) -> int
    decreases rs.len(),
{
    if rs.len() == 0 {
        0
    } else {
        rs[0].1 + consumed(rs.skip(1))
    }
}

/// Whether reports are those of `left` bytes of a value: chunks, each of the length
/// that it consumed, and one end.
pub open spec fn is_value(rs: Seq<(CapsuleEvent, int)>, left: int) -> bool {
    &&& rs.len() >= 1
    &&& rs.last().0 == CapsuleEvent::Done
    &&& forall|i: int|
        0 <= i < rs.len() ==> 0 < (#[trigger] rs[i]).1 && rs[i].1 <= usize::MAX
    &&& forall|i: int|
        0 <= i < rs.len() - 1 ==> (#[trigger] rs[i]).0 == (CapsuleEvent::ValueChunk {
            offset: 0,
            len: rs[i].1 as usize,
        })
    &&& consumed(rs) == left
}

/// Whether reports are those of a capsule from its length on: one header and then its
/// value, or just one end where it has none.
pub open spec fn is_capsule(rs: Seq<(CapsuleEvent, int)>, capsule_type: u64, len: u64) -> bool {
    if len == 0 {
        rs.len() == 1 && rs[0].0 == CapsuleEvent::Done
    } else {
        &&& rs.len() >= 1
        &&& rs[0].0 == (CapsuleEvent::Header { capsule_type, value_len: len })
        &&& is_value(rs.skip(1), len as int)
    }
}

/// Feeding the first `n` bytes of the first piece takes them from the stream.
proof fn lemma_stream_step(pieces: Seq<Seq<u8>>, n: int)
    requires
        pieces.len() > 0,
        0 <= n <= pieces[0].len(),
    ensures
        stream_of(pieces.update(0, pieces[0].skip(n))) == stream_of(pieces).skip(n),
        stream_of(pieces) == pieces[0] + stream_of(pieces.skip(1)),
{
    let after = pieces.update(0, pieces[0].skip(n));
    assert(after.skip(1) =~= pieces.skip(1));
    assert(stream_of(after) =~= stream_of(pieces).skip(n));
}

/// Pieces without bytes give no reports.
proof fn lemma_no_reports(p: ParserView, pieces: Seq<Seq<u8>>)
    requires
        stream_of(pieces).len() == 0,
    ensures
        reports(p, pieces) == Seq::<(CapsuleEvent, int)>::empty(),
    decreases pieces.len(),
{
    if pieces.len() > 0 {
        lemma_stream_step(pieces, 0);
        assert(pieces[0].len() == 0);
        lemma_no_reports(p, pieces.skip(1));
    }
}

/// The reports of a value, of which some bytes may have been consumed before.
proof fn lemma_value_reports(p: ParserView, pieces: Seq<Seq<u8>>)
    requires
        p.valid(),
        p.state == ParseState::Value,
        stream_of(pieces).len() == p.value_len - p.value_read,
        forall|i: int| 0 <= i < pieces.len() ==> (#[trigger] pieces[i]).len() <= usize::MAX,
    ensures
        is_value(reports(p, pieces), p.value_len - p.value_read),
    decreases
            pieces.len(),
            if pieces.len() > 0 {
                pieces[0].len()
            } else {
                0
            },
{
    let left = p.value_len - p.value_read;
    let d = pieces[0];
    lemma_stream_step(pieces, 0);
    let (q, e, n) = step(p, d);
    if d.len() == 0 {
        assert(stream_of(pieces) =~= stream_of(pieces.skip(1)));
        lemma_value_reports(p, pieces.skip(1));
    } else {
        law_parser_makes_progress(p, d);
        lemma_stream_step(pieces, n);
        let later = pieces.update(0, d.skip(n));
        let rest = reports(q, later);
        let rs = seq![(e, n)] + rest;
        assert(rs.skip(1) =~= rest);
        assert(rs[0] == (e, n));
        if e == CapsuleEvent::Done {
            lemma_no_reports(q, later);
            assert(consumed(rest) == 0);
        } else {
            lemma_value_reports(q, later);
            assert(rs.last() == rest.last());
            assert forall|i: int| 0 <= i < rs.len() implies 0 < (#[trigger] rs[i]).1 && rs[i].1
                <= usize::MAX by {
                if i > 0 {
                    assert(rs[i] == rest[i - 1]);
                }
            }
            assert forall|i: int| 0 <= i < rs.len() - 1 implies (#[trigger] rs[i]).0 == (
            CapsuleEvent::ValueChunk { offset: 0, len: rs[i].1 as usize }) by {
                if i > 0 {
                    assert(rs[i] == rest[i - 1]);
                }
            }
        }
    }
}

/// The reports of a capsule from its length on, of which some bytes may have been
/// seen before.
proof fn lemma_length_reports(p: ParserView, len: u64, value: Seq<u8>, pieces: Seq<Seq<u8>>)
    requires
        p.valid(),
        p.state == ParseState::Length,
        len == value.len(),
        len <= MAX_VAR_INT,
        p.partial + stream_of(pieces) == varint_bytes(len) + value,
        forall|i: int| 0 <= i < pieces.len() ==> (#[trigger] pieces[i]).len() <= usize::MAX,
    ensures
        is_capsule(reports(p, pieces), p.capsule_type, len),
    decreases
            pieces.len(),
            if pieces.len() > 0 {
                pieces[0].len()
            } else {
                0
            },
{
    lemma_varint_roundtrip(len, value);
    lemma_varint_len(len);
    if pieces.len() == 0 {
        assert(p.partial + stream_of(pieces) =~= p.partial);
    } else {
        let d = pieces[0];
        let rest = stream_of(pieces.skip(1));
        lemma_stream_step(pieces, 0);
        if d.len() == 0 {
            assert(stream_of(pieces) =~= rest);
            lemma_length_reports(p, len, value, pieces.skip(1));
        } else {
            let (q, e, n) = step(p, d);
            law_parser_makes_progress(p, d);
            lemma_stream_step(pieces, n);
            let later = pieces.update(0, d.skip(n));
            assert(p.partial + stream_of(pieces) =~= (p.partial + d) + rest);
            if varint_at(p.partial + d) is Some {
                lemma_varint_prefix(p.partial + d, rest);
                assert(n == varint_size(len) - p.partial.len());
                assert(stream_of(pieces).skip(n) =~= (p.partial + stream_of(pieces)).skip(
                    varint_size(len) as int,
                ));
                assert((varint_bytes(len) + value).skip(varint_size(len) as int) =~= value);
                let rs = seq![(e, n)] + reports(q, later);
                assert(rs.skip(1) =~= reports(q, later));
                if len == 0 {
                    lemma_no_reports(q, later);
                } else {
                    lemma_value_reports(q, later);
                }
            } else {
                assert(q.partial + stream_of(later) =~= p.partial + stream_of(pieces));
                lemma_length_reports(q, len, value, later);
            }
        }
    }
}

/// The reports of a capsule, of which some bytes may have been seen before.
proof fn lemma_type_reports(
    p: ParserView,
    capsule_type: u64,
    value: Seq<u8>,
    pieces: Seq<Seq<u8>>,
)
    requires
        p.valid(),
        p.state == ParseState::Type,
        capsule_type <= MAX_VAR_INT,
        value.len() <= MAX_VAR_INT,
        p.partial + stream_of(pieces) == varint_bytes(capsule_type) + (varint_bytes(
            value.len() as u64,
        ) + value),
        forall|i: int| 0 <= i < pieces.len() ==> (#[trigger] pieces[i]).len() <= usize::MAX,
    ensures
        is_capsule(reports(p, pieces), capsule_type, value.len() as u64),
    decreases
            pieces.len(),
            if pieces.len() > 0 {
                pieces[0].len()
            } else {
                0
            },
{
    let len = value.len() as u64;
    let tail = varint_bytes(len) + value;
    lemma_varint_roundtrip(capsule_type, tail);
    lemma_varint_len(capsule_type);
    if pieces.len() == 0 {
        assert(p.partial + stream_of(pieces) =~= p.partial);
    } else {
        let d = pieces[0];
        let rest = stream_of(pieces.skip(1));
        lemma_stream_step(pieces, 0);
        if d.len() == 0 {
            assert(stream_of(pieces) =~= rest);
            lemma_type_reports(p, capsule_type, value, pieces.skip(1));
        } else {
            let (q, e, n) = step(p, d);
            law_parser_makes_progress(p, d);
            lemma_stream_step(pieces, n);
            let later = pieces.update(0, d.skip(n));
            assert(p.partial + stream_of(pieces) =~= (p.partial + d) + rest);
            if varint_at(p.partial + d) is Some {
                lemma_varint_prefix(p.partial + d, rest);
                let size = varint_size(capsule_type) as int;
                assert(n == size - p.partial.len());
                assert(stream_of(pieces).skip(n) =~= (p.partial + stream_of(pieces)).skip(size));
                assert((varint_bytes(capsule_type) + tail).skip(size) =~= tail);
                assert(q.partial + stream_of(later) =~= tail);
                lemma_length_reports(q, len, value, later);
            } else {
                assert(q.partial + stream_of(later) =~= p.partial + stream_of(pieces));
                lemma_type_reports(q, capsule_type, value, later);
            }
        }
    }
}

/// However an encoded capsule is cut into pieces, what is reported of it is one header
/// with its type and length, then chunks of its value and then one end, where the
/// lengths of the chunks and of what comes with the end sum to that of the value. A
/// capsule without a value is reported by its end alone.
pub proof fn law_capsule_is_reported_in_order(
    p: ParserView,
    capsule_type: u64,
    value: Seq<u8>,
    pieces: Seq<Seq<u8>>,
)
    requires
        p.valid(),
        p.state == ParseState::Type,
        p.partial.len() == 0,
        capsule_type <= MAX_VAR_INT,
        value.len() <= MAX_VAR_INT,
        stream_of(pieces) == joined(capsule_fields(capsule_type, value)),
        forall|i: int| 0 <= i < pieces.len() ==> (#[trigger] pieces[i]).len() <= usize::MAX,
    ensures
        is_capsule(reports(p, pieces), capsule_type, value.len() as u64),
{
    let t = varint_bytes(capsule_type);
    let l = varint_bytes(value.len() as u64);
    let fields = capsule_fields(capsule_type, value);
    assert(fields =~= seq![t] + (seq![l] + seq![value]));
    lemma_joined_add(seq![t], seq![l] + seq![value]);
    lemma_joined_add(seq![l], seq![value]);
    lemma_joined_one(t);
    lemma_joined_one(l);
    lemma_joined_one(value);
    assert(p.partial + stream_of(pieces) =~= t + (l + value));
    lemma_type_reports(p, capsule_type, value, pieces);
}

} // verus!
