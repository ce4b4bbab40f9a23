//! Incremental capsule parsing from a stream.

use crate::buffer::{get_varint, joined, lemma_joined_add, lemma_joined_one, reader, unread};
use crate::capsule::{capsule_fields, CapsuleError};
use crate::varint::{
    lemma_varint_bounded, lemma_varint_len, lemma_varint_prefix, lemma_varint_roundtrip, varint_at,
    varint_bytes, MAX_VAR_INT,
};
use vstd::prelude::*;

verus! {

/// Parser state for incremental capsule parsing from a stream.
#[derive(Debug, Clone, Copy, PartialEq, Eq, Structural)]
pub enum ParseState {
    /// Waiting for the capsule type varint.
    Type,
    /// Waiting for the capsule value length varint.
    Length,
    /// Reading capsule value bytes.
    Value,
}

/// Event returned by [`CapsuleParser::parse`].
#[derive(Debug, Clone, Copy, PartialEq, Eq, Structural)]
pub enum CapsuleEvent {
    /// Nothing to report yet: the type was read, or not enough data is there for
    /// the type or the length. Feed what follows.
    Pending,
    /// Capsule header has been fully parsed. The capsule type and value length
    /// are available via [`CapsuleParser::capsule_type`] and
    /// [`CapsuleParser::remaining`].
    Header {
        /// The capsule type identifier.
        capsule_type: u64,
        /// The length of the capsule value in bytes.
        value_len: u64,
    },
    /// A chunk of value data is available in the input buffer at the given
    /// offset and length.
    ValueChunk {
        /// Offset within the input slice where the chunk begins.
        offset: usize,
        /// Number of value bytes in this chunk.
        len: usize,
    },
    /// The capsule has been fully consumed and the parser has been reset to
    /// accept the next capsule.
    Done,
}

/// What a parser holds.
pub struct ParserView {
    /// What comes next.
    pub state: ParseState,
    /// The bytes of a varint whose last one has not been seen.
    pub partial: Seq<u8>,
    /// The type of the current capsule.
    pub capsule_type: u64,
    /// The length of its value.
    pub value_len: u64,
    /// The number of value bytes that were consumed.
    pub value_read: u64,
}

impl ParserView {
    /// What holds between calls.
    pub open spec fn valid(self) -> bool {
        &&& varint_at(self.partial) is None
        &&& self.value_read <= self.value_len
        &&& self.state == ParseState::Value ==> self.partial.len() == 0 && self.value_read
            < self.value_len
    }
}

/// A parser that has seen nothing.
pub open spec fn fresh() -> ParserView {
    ParserView {
        state: ParseState::Type,
        partial: Seq::empty(),
        capsule_type: 0,
        value_len: 0,
        value_read: 0,
    }
}

/// What a complete type or length makes of a parser, and the event it gives.
pub open spec fn with_varint(p: ParserView, v: u64) -> (ParserView, CapsuleEvent) {
    let q = ParserView { partial: Seq::empty(), ..p };
    if p.state == ParseState::Type {
        (
            ParserView { state: ParseState::Length, capsule_type: v, ..q },
            CapsuleEvent::Pending,
        )
    } else if v == 0 {
        (
            ParserView { state: ParseState::Type, value_len: 0, value_read: 0, ..q },
            CapsuleEvent::Done,
        )
    } else {
        (
            ParserView { state: ParseState::Value, value_len: v, value_read: 0, ..q },
            CapsuleEvent::Header { capsule_type: p.capsule_type, value_len: v },
        )
    }
}

/// What feeding `data` makes of a parser: the parser, the event it gives, and
/// the number of bytes it consumes.
pub open spec fn step(p: ParserView, data: Seq<u8>) -> (ParserView, CapsuleEvent, int) {
    if data.len() == 0 {
        (p, CapsuleEvent::Pending, 0)
    } else if p.state == ParseState::Value {
        let left = p.value_len - p.value_read;
        if data.len() >= left {
            (
                ParserView { state: ParseState::Type, value_read: p.value_len, ..p },
                CapsuleEvent::Done,
                left,
            )
        } else {
            (
                ParserView { value_read: (p.value_read + data.len()) as u64, ..p },
                CapsuleEvent::ValueChunk { offset: 0, len: data.len() as usize },
                data.len() as int,
            )
        }
    } else {
        match varint_at(p.partial + data) {
            Some((v, n)) => {
                let (q, e) = with_varint(p, v);
                (q, e, n - p.partial.len())
            },
            None => (
                ParserView { partial: p.partial + data, ..p },
                CapsuleEvent::Pending,
                data.len() as int,
            ),
        }
    }
}

/// Incremental capsule parser.
///
/// This parser handles partial reads, buffering varint bytes internally until a
/// complete type or length field can be decoded.
#[derive(Debug)]
pub struct CapsuleParser {
    state: ParseState,
    /// Buffer for accumulating varint bytes across partial reads.
    hdr_buf: Vec<u8>,
    capsule_type: u64,
    value_len: u64,
    value_read: u64,
}

impl View for CapsuleParser {
    type V = ParserView;

    closed spec fn view(&self) -> ParserView {
        ParserView {
            state: self.state,
            partial: self.hdr_buf@,
            capsule_type: self.capsule_type,
            value_len: self.value_len,
            value_read: self.value_read,
        }
    }
}

/// The varint at the start of a slice and the number of its bytes.
fn leading_varint(data: &[u8]) -> (r: Option<(u64, usize)>)
    ensures
        match r {
            Some((v, n)) => varint_at(data@) == Some((v, n as nat)),
            None => varint_at(data@) is None,
        },
{
    let mut b = reader(data);
    match get_varint(&mut b) {
        Ok(v) => {
            proof {
                lemma_varint_bounded(data@);
            }
            let n: usize = data.len() - unread(&b);
            Some((v, n))
        },
        Err(_) => None,
    }
}

impl CapsuleParser {
    /// Create a new parser ready to read the first capsule.
    pub fn new() -> (r: Self)
        ensures
            r@ == fresh(),
            r@.valid(),
    {
        let r = CapsuleParser {
            state: ParseState::Type,
            hdr_buf: Vec::new(),
            capsule_type: 0,
            value_len: 0,
            value_read: 0,
        };
        assert(r@.partial =~= Seq::empty());
        r
    }

    /// Returns the capsule type of the capsule currently being parsed.
    ///
    /// Only meaningful after a [`CapsuleEvent::Header`] has been returned.
    pub fn capsule_type(&self) -> (r: u64)
        ensures
            r == self@.capsule_type,
    {
        self.capsule_type
    }

    /// Returns the number of value bytes remaining to be read.
    pub fn remaining(&self) -> (r: u64)
        requires
            self@.valid(),
        ensures
            r == self@.value_len - self@.value_read,
    {
        self.value_len - self.value_read
    }

    /// Returns the current parser state.
    pub fn state(&self) -> (r: &ParseState)
        ensures
            *r == self@.state,
    {
        &self.state
    }

    /// Returns `true` if the parser is in the middle of parsing a capsule.
    ///
    /// If the receive side of a stream is terminated cleanly and this returns
    /// `true`, the last capsule was truncated and MUST be treated as a malformed
    /// message.
    pub fn is_in_progress(&self) -> (r: bool)
        ensures
            r == (self@.state != ParseState::Type || self@.partial.len() > 0),
    {
        match self.state {
            ParseState::Type => self.hdr_buf.len() > 0,
            ParseState::Length | ParseState::Value => true,
        }
    }

    /// Feed data to the parser.
    ///
    /// Returns a `(CapsuleEvent, usize)` tuple where the `usize` is the number
    /// of bytes consumed from `data`. The caller should advance its read
    /// position by that amount and call `parse` again with the remaining data
    /// until all of it is consumed.
    pub fn parse(&mut self, data: &[u8]) -> (r: Result<(CapsuleEvent, usize), CapsuleError>)
        requires
            old(self)@.valid(),
        ensures
            final(self)@.valid(),
            r matches Ok((event, consumed)) && (final(self)@, event, consumed as int) == step(
                old(self)@,
                data@,
            ),
    {
        if data.len() == 0 {
            return Ok((CapsuleEvent::Pending, 0));
        }
        match self.state {
            ParseState::Type => self.parse_varint(data, true),
            ParseState::Length => self.parse_varint(data, false),
            ParseState::Value => self.parse_value(data),
        }
    }

    /// Try to parse a varint from accumulated + new data.
    ///
    /// When `is_type` is true we are parsing the capsule type field; otherwise
    /// we are parsing the value length field.
    fn parse_varint(&mut self, data: &[u8], is_type: bool) -> (r: Result<
        (CapsuleEvent, usize),
        CapsuleError,
    >)
        requires
            old(self)@.valid(),
            data@.len() > 0,
            old(self)@.state != ParseState::Value,
            is_type == (old(self)@.state == ParseState::Type),
        ensures
            final(self)@.valid(),
            r matches Ok((event, consumed)) && (final(self)@, event, consumed as int) == step(
                old(self)@,
                data@,
            ),
    {
        let ghost p = self@;
        // If we have no accumulated bytes, try fast-path: parse directly from
        // the input.
        if self.hdr_buf.len() == 0 {
            assert(p.partial + data@ =~= data@);
            match leading_varint(data) {
                Some((val, consumed)) => {
                    assert(self@.partial =~= Seq::empty());
                    return Ok(self.varint_complete(val, consumed, is_type));
                },
                None => {
                    // Not enough data; buffer what we have.
                    self.hdr_buf.extend_from_slice(data);
                    assert(self@.partial =~= data@);
                    return Ok((CapsuleEvent::Pending, data.len()));
                },
            }
        }
        // Slow path: we have accumulated partial varint bytes. Append one byte
        // at a time until we can decode.
        let mut consumed: usize = 0;
        assert(p.partial + data@.take(0) =~= p.partial);
        while consumed < data.len()
            invariant
                consumed <= data@.len(),
                p == old(self)@,
                p.valid(),
                p.state != ParseState::Value,
                is_type == (p.state == ParseState::Type),
                p.partial.len() > 0,
                data@.len() > 0,
                self@ == (ParserView { partial: p.partial + data@.take(consumed as int), ..p }),
                varint_at(self@.partial) is None,
            decreases data@.len() - consumed,
        {
            let ghost before = self@.partial;
            self.hdr_buf.push(data[consumed]);
            consumed += 1;
            let ghost now = self@.partial;
            proof {
                assert(now =~= p.partial + data@.take(consumed as int));
                assert(now + data@.skip(consumed as int) =~= p.partial + data@);
                assert(now[0] == p.partial[0]);
            }
            match leading_varint(self.hdr_buf.as_slice()) {
                Some((val, n)) => {
                    proof {
                        lemma_varint_prefix(now, data@.skip(consumed as int));
                        // The last byte completed it.
                        assert(before.len() < n);
                        assert(n == now.len());
                    }
                    self.hdr_buf.clear();
                    assert(self@.partial =~= Seq::empty());
                    return Ok(self.varint_complete(val, consumed, is_type));
                },
                None => {
                    // A varint is at most 8 bytes, so that it cannot be missing
                    // any from a buffer of that size.
                    if self.hdr_buf.len() > 8 {
                        return Err(CapsuleError::InvalidCapsule);
                    }
                },
            }
        }
        // Consumed all input but still not enough for the varint.
        assert(data@.take(consumed as int) =~= data@);
        Ok((CapsuleEvent::Pending, consumed))
    }

    /// Handle a successfully decoded varint.
    fn varint_complete(&mut self, val: u64, consumed: usize, is_type: bool) -> (r: (
        CapsuleEvent,
        usize,
    ))
        requires
            old(self)@.partial.len() == 0,
            old(self)@.state != ParseState::Value,
            old(self)@.value_read <= old(self)@.value_len,
            is_type == (old(self)@.state == ParseState::Type),
        ensures
            final(self)@.valid(),
            (final(self)@, r.0) == with_varint(old(self)@, val),
            r.1 == consumed,
    {
        assert(self@.partial =~= Seq::empty());
        if is_type {
            self.capsule_type = val;
            self.state = ParseState::Length;
            (CapsuleEvent::Pending, consumed)
        } else {
            self.value_len = val;
            self.value_read = 0;
            if self.value_len == 0 {
                // Zero-length value: go straight to Done.
                self.state = ParseState::Type;
                (CapsuleEvent::Done, consumed)
            } else {
                self.state = ParseState::Value;
                (
                    CapsuleEvent::Header {
                        capsule_type: self.capsule_type,
                        value_len: self.value_len,
                    },
                    consumed,
                )
            }
        }
    }

    /// Consume value bytes from the input.
    fn parse_value(&mut self, data: &[u8]) -> (r: Result<(CapsuleEvent, usize), CapsuleError>)
        requires
            old(self)@.valid(),
            data@.len() > 0,
            old(self)@.state == ParseState::Value,
        ensures
            final(self)@.valid(),
            r matches Ok((event, consumed)) && (final(self)@, event, consumed as int) == step(
                old(self)@,
                data@,
            ),
    {
        let remaining: u64 = self.value_len - self.value_read;
        let chunk: usize = if data.len() as u64 >= remaining {
            remaining as usize
        } else {
            data.len()
        };
        self.value_read = self.value_read + chunk as u64;
        if self.value_read == self.value_len {
            // Value fully consumed; reset for next capsule.
            self.state = ParseState::Type;
            Ok((CapsuleEvent::Done, chunk))
        } else {
            Ok((CapsuleEvent::ValueChunk { offset: 0, len: chunk }, chunk))
        }
    }

    /// Reset the parser to its initial state.
    pub fn reset(&mut self)
        ensures
            final(self)@ == fresh(),
            final(self)@.valid(),
    {
        self.state = ParseState::Type;
        self.hdr_buf.clear();
        self.capsule_type = 0;
        self.value_len = 0;
        self.value_read = 0;
        assert(self@.partial =~= Seq::empty());
    }
}

impl Default for CapsuleParser {
    fn default() -> (r: Self)
        ensures
            r@ == fresh(),
            r@.valid(),
    {
        CapsuleParser::new()
    }
}

/// The state of a parser that was fed all of `data`.
pub open spec fn feed(p: ParserView, data: Seq<u8>) -> ParserView
    decreases data.len(),
{
    let (q, e, n) = step(p, data);
    if n <= 0 || n > data.len() {
        q
    } else {
        feed(q, data.skip(n))
    }
}

/// The types of the capsules that a parser completes while it is fed all of
/// `data`.
pub open spec fn completed(p: ParserView, data: Seq<u8>) -> Seq<u64>
    decreases data.len(),
{
    let (q, e, n) = step(p, data);
    if n <= 0 || n > data.len() {
        Seq::empty()
    } else {
        (if e == CapsuleEvent::Done {
            seq![q.capsule_type]
        } else {
            Seq::empty()
        }) + completed(q, data.skip(n))
    }
}

/// A parser that is fed some data consumes some of it, and no more than there
/// is; it stays valid.
pub proof fn law_parser_makes_progress(p: ParserView, data: Seq<u8>)
    requires
        p.valid(),
    ensures
        step(p, data).0.valid(),
        data.len() > 0 ==> 0 < step(p, data).2 <= data.len(),
        data.len() == 0 ==> step(p, data) == (p, CapsuleEvent::Pending, 0int),
{
    if data.len() > 0 && p.state != ParseState::Value {
        let all = p.partial + data;
        if p.partial.len() > 0 {
            assert(all[0] == p.partial[0]);
        }
        match varint_at(all) {
            Some((v, n)) => {
                assert(n > p.partial.len());
            },
            None => {},
        }
    }
}

/// Whether a parser stops where the first piece ends, without completing anything, and
/// goes on with the second one as it does with both.
spec fn stops_between(p: ParserView, a: Seq<u8>, b: Seq<u8>) -> bool {
    let (q, e, n) = step(p, a);
    let whole = step(p, a + b);
    let next = step(q, b);
    &&& n == a.len()
    &&& e != CapsuleEvent::Done
    &&& next.0 == whole.0
    &&& next.2 + n == whole.2
    &&& (next.1 == CapsuleEvent::Done) == (whole.1 == CapsuleEvent::Done)
}

/// What a parser makes of a piece it makes of more than that too, unless it stops where the
/// piece ends.
proof fn lemma_step_of_both(p: ParserView, a: Seq<u8>, b: Seq<u8>)
    requires
        p.valid(),
        a.len() > 0,
        b.len() > 0,
    ensures
        step(p, a + b) == step(p, a) || stops_between(p, a, b),
{
    law_parser_makes_progress(p, a);
    let (q, e, n) = step(p, a);
    if p.state != ParseState::Value {
        assert(p.partial + (a + b) =~= (p.partial + a) + b);
        if varint_at(p.partial + a) is Some {
            lemma_varint_prefix(p.partial + a, b);
        } else {
            assert(q.partial + b =~= p.partial + (a + b));
        }
    }
}

/// A piece that is consumed to its end leaves the parser where its step does.
proof fn lemma_fed_to_its_end(p: ParserView, a: Seq<u8>)
    requires
        p.valid(),
        a.len() > 0,
        step(p, a).2 == a.len(),
        step(p, a).1 != CapsuleEvent::Done,
    ensures
        feed(p, a) == step(p, a).0,
        completed(p, a) == Seq::<u64>::empty(),
{
    law_parser_makes_progress(p, a);
    let (q, e, n) = step(p, a);
    assert(a.skip(n) =~= Seq::empty());
    law_parser_makes_progress(q, Seq::empty());
    assert(feed(q, Seq::empty()) == q);
    assert(completed(q, Seq::empty()) =~= Seq::empty());
    assert(completed(p, a) =~= Seq::empty());
}

/// How a stream is cut into pieces does not matter: feeding one piece after the
/// other leaves the parser where feeding them at once does, and completes the
/// same capsules.
#[verifier::rlimit(40)]
pub proof fn law_parser_ignores_chunking(p: ParserView, a: Seq<u8>, b: Seq<u8>)
    requires
        p.valid(),
    ensures
        feed(p, a + b) == feed(feed(p, a), b),
        completed(p, a + b) == completed(p, a) + completed(feed(p, a), b),
    decreases a.len(),
{
    law_parser_makes_progress(p, a);
    law_parser_makes_progress(p, a + b);
    if a.len() == 0 {
        assert(a + b =~= b);
        assert(completed(p, a) + completed(p, b) =~= completed(p, b));
    } else {
        let (q, e, n) = step(p, a);
        let whole = step(p, a + b);
        if b.len() == 0 {
            assert(a + b =~= a);
        } else {
            lemma_step_of_both(p, a, b);
        }
        if whole == (q, e, n) {
            assert((a + b).skip(n) =~= a.skip(n) + b);
            law_parser_ignores_chunking(q, a.skip(n), b);
            let first = if e == CapsuleEvent::Done {
                seq![q.capsule_type]
            } else {
                Seq::empty()
            };
            assert(first + (completed(q, a.skip(n)) + completed(feed(q, a.skip(n)), b)) =~= (first
                + completed(q, a.skip(n))) + completed(feed(q, a.skip(n)), b));
        } else {
            // The first piece was consumed to its end, without an event.
            lemma_fed_to_its_end(p, a);
            law_parser_makes_progress(q, b);
            assert(Seq::<u64>::empty() + completed(q, b) =~= completed(q, b));
            assert((a + b).skip(whole.2) =~= b.skip(step(q, b).2));
        }
    }
}

/// Parsing an encoded capsule gives its type and the length of its value, and
/// consumes it to its end; what follows is the next capsule.
pub proof fn law_encoded_capsule_is_parsed(
    p: ParserView,
    capsule_type: u64,
    value: Seq<u8>,
    rest: Seq<u8>,
)
    requires
        p.valid(),
        p.state == ParseState::Type,
        p.partial.len() == 0,
        capsule_type <= MAX_VAR_INT,
        value.len() <= MAX_VAR_INT,
    ensures
        ({
            let bytes = joined(capsule_fields(capsule_type, value)) + rest;
            let (p1, e1, n1) = step(p, bytes);
            let (p2, e2, n2) = step(p1, bytes.skip(n1));
            let end = ParserView {
                state: ParseState::Type,
                partial: Seq::empty(),
                capsule_type,
                value_len: value.len() as u64,
                value_read: value.len() as u64,
            };
            &&& e1 == CapsuleEvent::Pending
            &&& if value.len() == 0 {
                &&& (p2, e2) == (end, CapsuleEvent::Done)
                &&& bytes.skip(n1).skip(n2) == rest
            } else {
                let (p3, e3, n3) = step(p2, bytes.skip(n1).skip(n2));
                &&& e2 == (CapsuleEvent::Header { capsule_type, value_len: value.len() as u64 })
                &&& bytes.skip(n1).skip(n2) == value + rest
                &&& (p3, e3) == (end, CapsuleEvent::Done)
                &&& bytes.skip(n1).skip(n2).skip(n3) == rest
            }
        }),
{
    let len = value.len() as u64;
    let t = varint_bytes(capsule_type);
    let l = varint_bytes(len);
    let fields = capsule_fields(capsule_type, value);
    assert(fields =~= seq![t] + (seq![l] + seq![value]));
    lemma_joined_add(seq![t], seq![l] + seq![value]);
    lemma_joined_add(seq![l], seq![value]);
    lemma_joined_one(t);
    lemma_joined_one(l);
    lemma_joined_one(value);
    let bytes = joined(fields) + rest;
    assert(bytes =~= t + (l + (value + rest)));
    lemma_varint_len(capsule_type);
    lemma_varint_len(len);
    lemma_varint_roundtrip(capsule_type, l + (value + rest));
    lemma_varint_roundtrip(len, value + rest);
    assert(p.partial + bytes =~= bytes);
    let (p1, e1, n1) = step(p, bytes);
    assert(n1 == t.len());
    let after = bytes.skip(n1);
    assert(after =~= l + (value + rest));
    assert(p1.partial + after =~= after);
    let (p2, e2, n2) = step(p1, after);
    assert(n2 == l.len());
    assert(after.skip(n2) =~= value + rest);
    if value.len() == 0 {
        assert(value + rest =~= rest);
    } else {
        let (p3, e3, n3) = step(p2, value + rest);
        assert((value + rest).skip(n3) =~= rest);
    }
}

} // verus!
