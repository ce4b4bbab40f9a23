//! HTTP Capsule Protocol and CONNECT-IP capsule types.
//!
//! This module provides encoding and decoding of capsules, as well as the
//! CONNECT-IP capsule types.
//!
//! A capsule is a variable-length frame on an HTTP data stream, encoded as:
//!
//! ```text
//! Capsule {
//!   Capsule Type (i),
//!   Capsule Value Length (i),
//!   Capsule Value (..),
//! }
//! ```
//!
//! where `(i)` denotes a variable-length integer.

use crate::buffer::{
    has_room, joined, lemma_put_all, lemma_put_all_add, lemma_put_one, put, put_all, put_bytes_at,
    put_varint_at, sink_at,
};
use crate::varint::{lemma_varint_len, varint_bytes, MAX_VAR_INT};
use octets::BufferTooShortError;
use vstd::prelude::*;

pub mod connect_ip;
pub mod entry_laws;
pub mod events;
pub mod laws;
pub mod parser;

verus! {

/// Errors raised when encoding or decoding capsules.
#[derive(Clone, Copy, Debug, PartialEq, Eq, Structural)]
pub enum CapsuleError {
    /// The provided buffer is too short.
    BufferTooShort,
    /// The capsule (or its CONNECT-IP payload) is malformed.
    InvalidCapsule,
}

impl From<BufferTooShortError> for CapsuleError {
    fn from(e: BufferTooShortError) -> (r: Self) {
        CapsuleError::BufferTooShort
    }
}

impl vstd::std_specs::convert::FromSpecImpl<BufferTooShortError> for CapsuleError {
    open spec fn obeys_from_spec() -> bool {
        true
    }

    open spec fn from_spec(e: BufferTooShortError) -> Self {
        CapsuleError::BufferTooShort
    }
}

/// DATAGRAM capsule type.
pub const DATAGRAM_CAPSULE: u64 = 0x00;

/// ADDRESS_ASSIGN capsule type.
pub const ADDRESS_ASSIGN_CAPSULE: u64 = 0x01;

/// ADDRESS_REQUEST capsule type.
pub const ADDRESS_REQUEST_CAPSULE: u64 = 0x02;

/// ROUTE_ADVERTISEMENT capsule type.
pub const ROUTE_ADVERTISEMENT_CAPSULE: u64 = 0x03;

/// What writing `fields` at `off` makes of a slice, and what is returned: the
/// offset after them, or an error once one of them finds no room.
pub open spec fn wrote(
    before: Seq<u8>,
    off: int,
    fields: Seq<Seq<u8>>,
    after: Seq<u8>,
    r: Result<usize, CapsuleError>,
) -> bool {
    let (t, ok) = put_all(sink_at(before, off), fields);
    &&& after == t.done + t.room
    &&& after.len() == before.len()
    &&& match r {
        Ok(n) => ok && n == t.done.len() && n <= after.len() && sink_at(after, n as int) == t,
        Err(e) => !ok && e == CapsuleError::BufferTooShort,
    }
}

/// Writing one field.
pub proof fn lemma_wrote_one(
    before: Seq<u8>,
    off: usize,
    f: Seq<u8>,
    after: Seq<u8>,
    r: Result<usize, BufferTooShortError>,
)
    requires
        off <= before.len(),
        after.len() == before.len(),
        match r {
            Ok(n) => has_room(sink_at(before, off as int), f) && n == off + f.len() && sink_at(
                after,
                n as int,
            ) == put(sink_at(before, off as int), f),
            Err(_) => !has_room(sink_at(before, off as int), f) && after == before,
        },
    ensures
        wrote(
            before,
            off as int,
            seq![f],
            after,
            match r {
                Ok(n) => Ok(n),
                Err(_) => Err(CapsuleError::BufferTooShort),
            },
        ),
{
    let s = sink_at(before, off as int);
    lemma_put_one(s, f);
    assert(before.take(off as int) + before.skip(off as int) =~= before);
    match r {
        Ok(n) => {
            let t = put(s, f);
            assert(after.take(n as int) + after.skip(n as int) =~= after);
            assert(t.room.len() == before.len() - n);
            assert(sink_at(after, n as int).room == t.room);
        },
        Err(_) => {},
    }
}

/// Writing some fields and then some more is writing all of them.
pub proof fn lemma_wrote_more(
    a: Seq<u8>,
    off: int,
    f: Seq<Seq<u8>>,
    b: Seq<u8>,
    m: usize,
    g: Seq<Seq<u8>>,
    c: Seq<u8>,
    r: Result<usize, CapsuleError>,
)
    requires
        wrote(a, off, f, b, Ok(m)),
        wrote(b, m as int, g, c, r),
    ensures
        wrote(a, off, f + g, c, r),
{
    lemma_put_all_add(sink_at(a, off), f, g);
}

/// Once some fields find no room, those after them are not written.
pub proof fn lemma_wrote_stops(
    a: Seq<u8>,
    off: int,
    f: Seq<Seq<u8>>,
    b: Seq<u8>,
    e: CapsuleError,
    g: Seq<Seq<u8>>,
)
    requires
        wrote(a, off, f, b, Err(e)),
    ensures
        wrote(a, off, f + g, b, Err(e)),
{
    lemma_put_all_add(sink_at(a, off), f, g);
}

/// Writes a variable-length integer.
pub(crate) fn write_varint(buf: &mut [u8], off: usize, v: u64) -> (r: Result<usize, CapsuleError>)
    requires
        v <= MAX_VAR_INT,
        off <= old(buf)@.len(),
    ensures
        wrote(old(buf)@, off as int, seq![varint_bytes(v)], final(buf)@, r),
{
    proof {
        lemma_varint_len(v);
    }
    let w = put_varint_at(buf, off, v);
    proof {
        lemma_wrote_one(old(buf)@, off, varint_bytes(v), buf@, w);
    }
    match w {
        Ok(n) => Ok(n),
        Err(e) => Err(CapsuleError::from(e)),
    }
}

/// Writes bytes.
pub(crate) fn write_bytes(buf: &mut [u8], off: usize, v: &[u8]) -> (r: Result<
    usize,
    CapsuleError,
>)
    requires
        off <= old(buf)@.len(),
    ensures
        wrote(old(buf)@, off as int, seq![v@], final(buf)@, r),
{
    let w = put_bytes_at(buf, off, v);
    proof {
        lemma_wrote_one(old(buf)@, off, v@, buf@, w);
    }
    match w {
        Ok(n) => Ok(n),
        Err(e) => Err(CapsuleError::from(e)),
    }
}

/// The header of a capsule.
pub open spec fn header_fields(capsule_type: u64, value_len: u64) -> Seq<Seq<u8>> {
    seq![varint_bytes(capsule_type), varint_bytes(value_len)]
}

/// Encode a capsule header (type + value length) into `buf`.
///
/// Returns the number of bytes written.
pub fn encode_capsule_header(buf: &mut [u8], capsule_type: u64, value_len: u64) -> (r: Result<
    usize,
    CapsuleError,
>)
    requires
        capsule_type <= MAX_VAR_INT,
        value_len <= MAX_VAR_INT,
    ensures
        wrote(old(buf)@, 0, header_fields(capsule_type, value_len), final(buf)@, r),
{
    let ghost t = seq![varint_bytes(capsule_type)];
    let ghost l = seq![varint_bytes(value_len)];
    proof {
        assert(header_fields(capsule_type, value_len) =~= t + l);
    }
    let ghost a = buf@;
    let off: usize = match write_varint(buf, 0, capsule_type) {
        Ok(n) => n,
        Err(e) => {
            proof {
                lemma_wrote_stops(a, 0, t, buf@, e, l);
            }
            return Err(e);
        },
    };
    let ghost b = buf@;
    let r = write_varint(buf, off, value_len);
    proof {
        lemma_wrote_more(a, 0, t, b, off, l, buf@, r);
    }
    r
}

/// A complete capsule.
pub open spec fn capsule_fields(capsule_type: u64, value: Seq<u8>) -> Seq<Seq<u8>> {
    header_fields(capsule_type, value.len() as u64).push(value)
}

/// Encode a complete capsule (header + value) into `buf`.
///
/// Returns the total number of bytes written (header + value).
pub fn encode_capsule(buf: &mut [u8], capsule_type: u64, value: &[u8]) -> (r: Result<
    usize,
    CapsuleError,
>)
    requires
        capsule_type <= MAX_VAR_INT,
        value@.len() <= MAX_VAR_INT,
    ensures
        wrote(old(buf)@, 0, capsule_fields(capsule_type, value@), final(buf)@, r),
{
    let ghost h = header_fields(capsule_type, value@.len() as u64);
    proof {
        assert(capsule_fields(capsule_type, value@) =~= h + seq![value@]);
    }
    let ghost a = buf@;
    let off: usize = match encode_capsule_header(buf, capsule_type, value.len() as u64) {
        Ok(n) => n,
        Err(e) => {
            proof {
                lemma_wrote_stops(a, 0, h, buf@, e, seq![value@]);
            }
            return Err(e);
        },
    };
    let ghost b = buf@;
    let r = write_bytes(buf, off, value);
    proof {
        lemma_wrote_more(a, 0, h, b, off, seq![value@], buf@, r);
    }
    r
}

/// What is written where there is room for all the fields: the fields one after
/// the other, at the start of the buffer, and nothing else. Where there is not,
/// the encoder says so.
pub proof fn law_encoded_capsule(
    before: Seq<u8>,
    fields: Seq<Seq<u8>>,
    after: Seq<u8>,
    r: Result<usize, CapsuleError>,
)
    requires
        wrote(before, 0, fields, after, r),
    ensures
        r is Ok == (joined(fields).len() <= before.len()),
        r matches Ok(n) ==> n == joined(fields).len() && after == joined(fields) + before.skip(
            n as int,
        ),
        r matches Err(e) ==> e == CapsuleError::BufferTooShort,
{
    let s = sink_at(before, 0);
    lemma_put_all(s, fields);
    assert(s.room =~= before);
    assert(s.done =~= Seq::empty());
    if r is Ok {
        assert(s.done + joined(fields) =~= joined(fields));
    }
}

} // verus!
