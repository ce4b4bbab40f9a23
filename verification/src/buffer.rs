//! Reading from and writing to byte buffers.

use crate::varint::{two_byte_varint, varint_at, varint_bytes, varint_size, MAX_VAR_INT};
use octets::{BufferTooShortError, Octets, OctetsMut};
use vstd::prelude::*;

verus! {

/// A reader of bytes.
#[verifier::external_type_specification]
#[verifier::external_body]
pub struct ExOctets<'a>(octets::Octets<'a>);

/// A writer of bytes.
#[verifier::external_type_specification]
#[verifier::external_body]
pub struct ExOctetsMut<'a>(octets::OctetsMut<'a>);

/// What the buffer operations fail with.
#[verifier::external_type_specification]
#[verifier::external_body]
pub struct ExBufferTooShortError(octets::BufferTooShortError);

/// The bytes that a reader has not read yet.
pub uninterp spec fn octets_rest(b: Octets<'_>) -> Seq<u8>;

/// The bytes of a writer's buffer before its offset.
pub uninterp spec fn octets_mut_done(b: OctetsMut<'_>) -> Seq<u8>;

/// The bytes of a writer's buffer from its offset on.
pub uninterp spec fn octets_mut_room(b: OctetsMut<'_>) -> Seq<u8>;

/// Calls `Octets::with_slice`: nothing of the slice has been read.
#[verifier::external_body]
pub(crate) fn reader<'a>(buf: &'a [u8]) -> (r: Octets<'a>)
    ensures
        octets_rest(r) == buf@,
{
    Octets::with_slice(buf)
}

/// Calls `Octets::cap`: the number of bytes that have not been read.
#[verifier::external_body]
pub(crate) fn unread(b: &Octets) -> (r: usize)
    ensures
        r == octets_rest(*b).len(),
{
    b.cap()
}

/// Calls `Octets::get_u8`: reads one byte, or fails and reads nothing where
/// there is none.
#[verifier::external_body]
pub(crate) fn get_u8(b: &mut Octets) -> (r: Result<u8, BufferTooShortError>)
    ensures
        octets_rest(*old(b)).len() == 0 ==> r is Err && octets_rest(*final(b)) == octets_rest(
            *old(b),
        ),
        octets_rest(*old(b)).len() > 0 ==> r is Ok && r->Ok_0 == octets_rest(*old(b))[0]
            && octets_rest(*final(b)) == octets_rest(*old(b)).skip(1),
{
    b.get_u8()
}

/// Calls `Octets::get_varint`: reads one variable-length integer, or fails and
/// reads nothing where the bytes end before it does.
#[verifier::external_body]
pub(crate) fn get_varint(b: &mut Octets) -> (r: Result<u64, BufferTooShortError>)
    ensures
        match varint_at(octets_rest(*old(b))) {
            Some((v, n)) => r is Ok && r->Ok_0 == v && octets_rest(*final(b)) == octets_rest(
                *old(b),
            ).skip(n as int),
            None => r is Err && octets_rest(*final(b)) == octets_rest(*old(b)),
        },
{
    b.get_varint()
}

/// Calls `Octets::get_bytes`, and `Octets::to_vec` on what it gives: reads `len`
/// bytes, or fails and reads nothing where there are fewer.
#[verifier::external_body]
pub(crate) fn get_bytes(b: &mut Octets, len: usize) -> (r: Result<Vec<u8>, BufferTooShortError>)
    ensures
        octets_rest(*old(b)).len() < len ==> r is Err && octets_rest(*final(b)) == octets_rest(
            *old(b),
        ),
        octets_rest(*old(b)).len() >= len ==> r is Ok && r->Ok_0@ == octets_rest(*old(b)).take(
            len as int,
        ) && octets_rest(*final(b)) == octets_rest(*old(b)).skip(len as int),
{
    Ok(b.get_bytes(len)?.to_vec())
}

/// Calls `OctetsMut::cap`: the number of bytes that can still be written.
#[verifier::external_body]
pub(crate) fn writable(b: &OctetsMut) -> (r: usize)
    ensures
        r == octets_mut_room(*b).len(),
{
    b.cap()
}

/// A buffer that is being written: what is done, and the room that is left with
/// the bytes that are in it.
pub struct Sink {
    /// The bytes before the offset.
    pub done: Seq<u8>,
    /// The bytes from the offset on.
    pub room: Seq<u8>,
}

/// What a writer's buffer holds.
pub open spec fn sink_of(b: OctetsMut<'_>) -> Sink {
    Sink { done: octets_mut_done(b), room: octets_mut_room(b) }
}

/// Whether `f` can be written.
pub open spec fn has_room(s: Sink, f: Seq<u8>) -> bool {
    f.len() <= s.room.len()
}

/// The buffer once `f` is written.
pub open spec fn put(s: Sink, f: Seq<u8>) -> Sink {
    Sink { done: s.done + f, room: s.room.skip(f.len() as int) }
}

/// The buffer once `f` is written, or as it was where there is no room for it.
pub open spec fn try_put(s: Sink, f: Seq<u8>) -> Sink {
    if has_room(s, f) {
        put(s, f)
    } else {
        s
    }
}

/// Calls `OctetsMut::put_varint`: writes a variable-length integer, or fails and
/// writes nothing where there is no room for it.
#[verifier::external_body]
pub(crate) fn put_varint(b: &mut OctetsMut, v: u64) -> (r: Result<(), BufferTooShortError>)
    requires
        v <= MAX_VAR_INT,
    ensures
        r is Ok == has_room(sink_of(*old(b)), varint_bytes(v)),
        octets_mut_done(*final(b)) == try_put(sink_of(*old(b)), varint_bytes(v)).done,
        octets_mut_room(*final(b)) == try_put(sink_of(*old(b)), varint_bytes(v)).room,
{
    b.put_varint(v)?;
    Ok(())
}

/// Calls `OctetsMut::put_u8`: writes one byte, or fails and writes nothing where
/// there is no room for it.
#[verifier::external_body]
pub(crate) fn put_u8(b: &mut OctetsMut, v: u8) -> (r: Result<(), BufferTooShortError>)
    ensures
        r is Ok == has_room(sink_of(*old(b)), seq![v]),
        octets_mut_done(*final(b)) == try_put(sink_of(*old(b)), seq![v]).done,
        octets_mut_room(*final(b)) == try_put(sink_of(*old(b)), seq![v]).room,
{
    b.put_u8(v)?;
    Ok(())
}

/// Calls `OctetsMut::put_bytes`: writes the bytes, or fails and writes nothing
/// where there is no room for them.
#[verifier::external_body]
pub(crate) fn put_bytes(b: &mut OctetsMut, v: &[u8]) -> (r: Result<(), BufferTooShortError>)
    ensures
        r is Ok == has_room(sink_of(*old(b)), v@),
        octets_mut_done(*final(b)) == try_put(sink_of(*old(b)), v@).done,
        octets_mut_room(*final(b)) == try_put(sink_of(*old(b)), v@).room,
{
    b.put_bytes(v)
}

/// The buffer once the leading fields that find room are written one after the
/// other, and whether all of them did.
pub open spec fn put_all(s: Sink, fields: Seq<Seq<u8>>) -> (Sink, bool)
    decreases fields.len(),
{
    if fields.len() == 0 {
        (s, true)
    } else {
        let (t, ok) = put_all(s, fields.drop_last());
        if ok && has_room(t, fields.last()) {
            (put(t, fields.last()), true)
        } else {
            (t, false)
        }
    }
}

/// Once a field finds no room, nothing more is written.
pub proof fn lemma_put_all_stops(s: Sink, fields: Seq<Seq<u8>>, k: int)
    requires
        0 <= k <= fields.len(),
        !put_all(s, fields.take(k)).1,
    ensures
        put_all(s, fields) == put_all(s, fields.take(k)),
    decreases fields.len() - k,
{
    if k == fields.len() {
        assert(fields.take(k) =~= fields);
    } else {
        let front = fields.drop_last();
        assert(front.take(k) =~= fields.take(k));
        lemma_put_all_stops(s, front, k);
    }
}

/// Writing some fields and then some more is writing all of them.
pub proof fn lemma_put_all_add(s: Sink, a: Seq<Seq<u8>>, b: Seq<Seq<u8>>)
    ensures
        put_all(s, a + b) == (if put_all(s, a).1 {
            put_all(put_all(s, a).0, b)
        } else {
            put_all(s, a)
        }),
    decreases b.len(),
{
    if b.len() == 0 {
        assert(a + b =~= a);
    } else {
        lemma_put_all_add(s, a, b.drop_last());
        assert((a + b).drop_last() =~= a + b.drop_last());
        assert((a + b).last() == b.last());
    }
}

/// Writing one field.
pub proof fn lemma_put_one(s: Sink, f: Seq<u8>)
    ensures
        put_all(s, seq![f]) == (try_put(s, f), has_room(s, f)),
{
    assert(seq![f].drop_last() =~= Seq::empty());
    assert(put_all(s, Seq::empty()) == (s, true));
}

/// The fields one after the other.
pub open spec fn joined(fields: Seq<Seq<u8>>) -> Seq<u8>
    decreases fields.len(),
{
    if fields.len() == 0 {
        Seq::empty()
    } else {
        joined(fields.drop_last()) + fields.last()
    }
}

/// Joining some fields and some more.
pub proof fn lemma_joined_add(a: Seq<Seq<u8>>, b: Seq<Seq<u8>>)
    ensures
        joined(a + b) == joined(a) + joined(b),
    decreases b.len(),
{
    if b.len() == 0 {
        assert(a + b =~= a);
        assert(joined(a) + joined(b) =~= joined(a));
    } else {
        lemma_joined_add(a, b.drop_last());
        assert((a + b).drop_last() =~= a + b.drop_last());
        assert((a + b).last() == b.last());
        assert(joined(a) + joined(b) =~= (joined(a) + joined(b.drop_last())) + b.last());
    }
}

/// Joining one field.
pub proof fn lemma_joined_one(f: Seq<u8>)
    ensures
        joined(seq![f]) == f,
{
    assert(seq![f].drop_last() =~= Seq::empty());
    assert(joined(Seq::empty()) =~= Seq::empty());
    assert(joined(seq![f]) =~= f);
}

/// All the fields are written exactly where the room suffices for all of them,
/// and then they stand one after the other; otherwise what is written is the
/// start of that.
pub proof fn lemma_put_all(s: Sink, fields: Seq<Seq<u8>>)
    ensures
        put_all(s, fields).1 == (joined(fields).len() <= s.room.len()),
        put_all(s, fields).1 ==> put_all(s, fields).0 == put(s, joined(fields)),
        ({
            let t = put_all(s, fields).0;
            let n = t.done.len() - s.done.len();
            &&& 0 <= n <= joined(fields).len()
            &&& t.done == s.done + joined(fields).take(n)
            &&& t.room == s.room.skip(n)
            &&& n <= s.room.len()
        }),
    decreases fields.len(),
{
    if fields.len() == 0 {
        assert(put(s, Seq::empty()).done =~= s.done);
        assert(put(s, Seq::empty()).room =~= s.room);
        assert(s.done + joined(fields).take(0) =~= s.done);
        assert(s.room.skip(0) =~= s.room);
    } else {
        let front = fields.drop_last();
        let last = fields.last();
        lemma_put_all(s, front);
        let (t, ok) = put_all(s, front);
        let n = t.done.len() - s.done.len();
        let all = joined(front) + last;
        assert(all.take(n) =~= joined(front).take(n));
        if ok && has_room(t, last) {
            assert(joined(front).take(n) =~= joined(front));
            assert(t.done + last =~= s.done + all);
            assert(t.room.skip(last.len() as int) =~= s.room.skip(all.len() as int));
            assert(all.take(all.len() as int) =~= all);
        }
    }
}

/// The fields of a list of variable-length integers.
pub open spec fn varint_fields(vs: Seq<u64>) -> Seq<Seq<u8>> {
    vs.map_values(|v: u64| varint_bytes(v))
}

/// Writes variable-length integers one after the other, and stops at the first
/// one that finds no room.
pub fn put_varints(b: &mut OctetsMut, vs: &[u64]) -> (r: bool)
    requires
        forall|i: int| 0 <= i < vs@.len() ==> (#[trigger] vs@[i]) <= MAX_VAR_INT,
    ensures
        (sink_of(*final(b)), r) == put_all(sink_of(*old(b)), varint_fields(vs@)),
{
    let ghost s = sink_of(*b);
    let ghost fields = varint_fields(vs@);
    let mut i: usize = 0;
    assert(fields.take(0) =~= Seq::empty());
    while i < vs.len()
        invariant
            i <= vs@.len(),
            fields == varint_fields(vs@),
            s == sink_of(*old(b)),
            forall|j: int| 0 <= j < vs@.len() ==> (#[trigger] vs@[j]) <= MAX_VAR_INT,
            put_all(s, fields.take(i as int)) == (sink_of(*b), true),
        decreases vs@.len() - i,
    {
        let v: u64 = vs[i];
        proof {
            assert(fields[i as int] == varint_bytes(v));
            assert(fields.take(i + 1).drop_last() =~= fields.take(i as int));
            assert(fields.take(i + 1).last() == fields[i as int]);
        }
        if put_varint(b, v).is_err() {
            proof {
                lemma_put_all_stops(s, fields, i + 1);
            }
            return false;
        }
        i += 1;
    }
    assert(fields.take(i as int) =~= fields);
    true
}

/// A slice that has been written up to `off`.
pub open spec fn sink_at(buf: Seq<u8>, off: int) -> Sink {
    Sink { done: buf.take(off), room: buf.skip(off) }
}

/// Calls `OctetsMut::with_slice`, `OctetsMut::skip`, `OctetsMut::put_varint` and
/// `OctetsMut::off`: writes a variable-length integer at `off` and returns the
/// offset after it, or fails and writes nothing where there is no room for it.
#[verifier::external_body]
pub(crate) fn put_varint_at(buf: &mut [u8], off: usize, v: u64) -> (r: Result<
    usize,
    BufferTooShortError,
>)
    requires
        v <= MAX_VAR_INT,
        off <= old(buf)@.len(),
    ensures
        final(buf)@.len() == old(buf)@.len(),
        match r {
            Ok(n) => has_room(sink_at(old(buf)@, off as int), varint_bytes(v)) && n == off
                + varint_size(v) && sink_at(final(buf)@, n as int) == put(
                sink_at(old(buf)@, off as int),
                varint_bytes(v),
            ),
            Err(_) => !has_room(sink_at(old(buf)@, off as int), varint_bytes(v)) && final(buf)@
                == old(buf)@,
        },
{
    let mut b = OctetsMut::with_slice(buf);
    b.skip(off)?;
    b.put_varint(v)?;
    Ok(b.off())
}

/// Calls `OctetsMut::with_slice`, `OctetsMut::skip`, `OctetsMut::put_u8` and
/// `OctetsMut::off`: writes one byte at `off` and returns the offset after it, or
/// fails and writes nothing where there is no room for it.
#[verifier::external_body]
pub(crate) fn put_u8_at(buf: &mut [u8], off: usize, v: u8) -> (r: Result<
    usize,
    BufferTooShortError,
>)
    requires
        off <= old(buf)@.len(),
    ensures
        final(buf)@.len() == old(buf)@.len(),
        match r {
            Ok(n) => has_room(sink_at(old(buf)@, off as int), seq![v]) && n == off + 1 && sink_at(
                final(buf)@,
                n as int,
            ) == put(sink_at(old(buf)@, off as int), seq![v]),
            Err(_) => !has_room(sink_at(old(buf)@, off as int), seq![v]) && final(buf)@
                == old(buf)@,
        },
{
    let mut b = OctetsMut::with_slice(buf);
    b.skip(off)?;
    b.put_u8(v)?;
    Ok(b.off())
}

/// Calls `OctetsMut::with_slice`, `OctetsMut::skip`, `OctetsMut::put_bytes` and
/// `OctetsMut::off`: writes the bytes at `off` and returns the offset after them,
/// or fails and writes nothing where there is no room for them.
#[verifier::external_body]
pub(crate) fn put_bytes_at(buf: &mut [u8], off: usize, v: &[u8]) -> (r: Result<
    usize,
    BufferTooShortError,
>)
    requires
        off <= old(buf)@.len(),
    ensures
        final(buf)@.len() == old(buf)@.len(),
        match r {
            Ok(n) => has_room(sink_at(old(buf)@, off as int), v@) && n == off + v@.len() && sink_at(
                final(buf)@,
                n as int,
            ) == put(sink_at(old(buf)@, off as int), v@),
            Err(_) => !has_room(sink_at(old(buf)@, off as int), v@) && final(buf)@ == old(buf)@,
        },
{
    let mut b = OctetsMut::with_slice(buf);
    b.skip(off)?;
    b.put_bytes(v)?;
    Ok(b.off())
}

/// Calls `OctetsMut::with_slice`, `OctetsMut::skip`, `OctetsMut::put_varint_with_len`
/// with a length of two and `OctetsMut::off`: writes a number into two bytes at
/// `off` and returns the offset after them, or fails and writes nothing where there
/// is no room for them.
#[verifier::external_body]
pub(crate) fn put_two_byte_varint_at(buf: &mut [u8], off: usize, v: u64) -> (r: Result<
    usize,
    BufferTooShortError,
>)
    ensures
        final(buf)@.len() == old(buf)@.len(),
        match r {
            Ok(n) => off + 2 <= old(buf)@.len() && n == off + 2 && sink_at(final(buf)@, n as int)
                == put(sink_at(old(buf)@, off as int), two_byte_varint(v)),
            Err(_) => off + 2 > old(buf)@.len() && final(buf)@ == old(buf)@,
        },
{
    let mut b = OctetsMut::with_slice(buf);
    b.skip(off)?;
    b.put_varint_with_len(v, 2)?;
    Ok(b.off())
}

/// Calls `octets::varint_len`: how many bytes a variable-length integer takes.
#[verifier::external_body]
pub(crate) fn varint_len(v: u64) -> (r: usize)
    requires
        v <= MAX_VAR_INT,
    ensures
        r == varint_size(v),
{
    octets::varint_len(v)
}

} // verus!
