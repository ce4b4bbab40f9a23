//! HTTP/3 datagrams and the headers that announce them.

use crate::buffer::{get_varint, put_varint_at, reader, sink_at, unread};
use crate::error::Error;
use crate::packet::{copied, same_bytes};
use crate::varint::{
    lemma_varint_bounded, lemma_varint_len, lemma_varint_roundtrip, varint_at, varint_bytes,
    varint_size, MAX_VAR_INT,
};
use vstd::prelude::*;

pub mod laws;

verus! {

/// `capsule-protocol`: the structured field that says whether the Capsule
/// Protocol is in use on the stream.
pub const CAPSULE_PROTOCOL_HEADER_NAME: [u8; 16] = [
    99, 97, 112, 115, 117, 108, 101, 45, 112, 114, 111, 116, 111, 99, 111, 108,
];

/// `?1`: the value that says that it is.
pub const CAPSULE_PROTOCOL_HEADER_VALUE: [u8; 2] = [63, 49];

/// `content-length`.
pub const CONTENT_LENGTH: [u8; 14] = [
    99, 111, 110, 116, 101, 110, 116, 45, 108, 101, 110, 103, 116, 104,
];

/// `content-type`.
pub const CONTENT_TYPE: [u8; 12] = [99, 111, 110, 116, 101, 110, 116, 45, 116, 121, 112, 101];

/// `transfer-encoding`.
pub const TRANSFER_ENCODING: [u8; 17] = [
    116, 114, 97, 110, 115, 102, 101, 114, 45, 101, 110, 99, 111, 100, 105, 110, 103,
];

/// `:method`.
pub const METHOD: [u8; 7] = [58, 109, 101, 116, 104, 111, 100];

/// `:protocol`.
pub const PROTOCOL: [u8; 9] = [58, 112, 114, 111, 116, 111, 99, 111, 108];

/// `datagram-flow-id`.
pub const DATAGRAM_FLOW_ID: [u8; 16] = [
    100, 97, 116, 97, 103, 114, 97, 109, 45, 102, 108, 111, 119, 45, 105, 100,
];

/// `CONNECT-UDP`.
pub const CONNECT_UDP_METHOD: [u8; 11] = [67, 79, 78, 78, 69, 67, 84, 45, 85, 68, 80];

/// `CONNECT`.
pub const CONNECT_METHOD: [u8; 7] = [67, 79, 78, 78, 69, 67, 84];

/// `connect-udp`.
pub const CONNECT_UDP_PROTOCOL: [u8; 11] = [99, 111, 110, 110, 101, 99, 116, 45, 117, 100, 112];

/// The maximum valid Quarter Stream ID value. Quarter Stream IDs larger
/// than 2^60-1 are invalid.
pub const MAX_QUARTER_STREAM_ID: u64 = 0x0fff_ffff_ffff_ffff;

/// An HTTP header.
#[derive(Debug)]
pub struct Header {
    name: Vec<u8>,
    value: Vec<u8>,
}

/// What a header holds.
pub struct HeaderView {
    /// The name.
    pub name: Seq<u8>,
    /// The value.
    pub value: Seq<u8>,
}

impl View for Header {
    type V = HeaderView;

    closed spec fn view(&self) -> HeaderView {
        HeaderView { name: self.name@, value: self.value@ }
    }
}

impl Header {
    /// Creates a header with copies of the name and the value.
    pub fn new(name: &[u8], value: &[u8]) -> (r: Self)
        ensures
            r@ == (HeaderView { name: name@, value: value@ }),
    {
        Header { name: copied(name), value: copied(value) }
    }

    /// The name.
    pub fn name(&self) -> (r: &[u8])
        ensures
            r@ == self@.name,
    {
        self.name.as_slice()
    }

    /// The value.
    pub fn value(&self) -> (r: &[u8])
        ensures
            r@ == self@.value,
    {
        self.value.as_slice()
    }
}

/// The headers of a sequence, each by what it holds.
pub open spec fn header_views(hs: Seq<Header>) -> Seq<HeaderView> {
    hs.map_values(|h: Header| h@)
}

/// The value of the last header with the given name, if any.
pub open spec fn last_value(hs: Seq<HeaderView>, name: Seq<u8>) -> Option<Seq<u8>>
    decreases hs.len(),
{
    if hs.len() == 0 {
        None
    } else if hs.last().name == name {
        Some(hs.last().value)
    } else {
        last_value(hs.drop_last(), name)
    }
}

/// Whether a header of the given name may not come with the Capsule Protocol.
pub open spec fn is_forbidden(name: Seq<u8>) -> bool {
    name == CONTENT_LENGTH@ || name == CONTENT_TYPE@ || name == TRANSFER_ENCODING@
}

/// Whether headers that may not come together do: the Capsule Protocol is in use
/// and a forbidden one is there.
pub open spec fn capsule_conflict(hs: Seq<HeaderView>) -> bool {
    &&& last_value(hs, CAPSULE_PROTOCOL_HEADER_NAME@) == Some(CAPSULE_PROTOCOL_HEADER_VALUE@)
    &&& exists|i: int| 0 <= i < hs.len() && is_forbidden(#[trigger] hs[i].name)
}

/// The names are different.
proof fn lemma_names_differ()
    ensures
        !is_forbidden(CAPSULE_PROTOCOL_HEADER_NAME@),
        METHOD@ != PROTOCOL@,
        METHOD@ != DATAGRAM_FLOW_ID@,
        PROTOCOL@ != DATAGRAM_FLOW_ID@,
{
    assert(CAPSULE_PROTOCOL_HEADER_NAME@.len() == 16);
    assert(CONTENT_LENGTH@.len() == 14);
    assert(CONTENT_TYPE@.len() == 12);
    assert(TRANSFER_ENCODING@.len() == 17);
    assert(METHOD@.len() == 7);
    assert(PROTOCOL@.len() == 9);
    assert(DATAGRAM_FLOW_ID@.len() == 16);
}

/// Returns `true` if the headers indicate Capsule Protocol usage but also
/// contain Content-Length, Content-Type, or Transfer-Encoding, which is
/// forbidden.
pub fn has_capsule_header_conflict(headers: &[Header]) -> (r: bool)
    ensures
        r == capsule_conflict(header_views(headers@)),
{
    let ghost hs = header_views(headers@);
    let mut has_capsule_protocol: bool = false;
    let mut has_forbidden: bool = false;
    let mut i: usize = 0;
    proof {
        lemma_names_differ();
        assert(hs.take(0) =~= Seq::empty());
    }
    while i < headers.len()
        invariant
            i <= headers@.len(),
            hs == header_views(headers@),
            !is_forbidden(CAPSULE_PROTOCOL_HEADER_NAME@),
            has_capsule_protocol == (last_value(
                hs.take(i as int),
                CAPSULE_PROTOCOL_HEADER_NAME@,
            ) == Some(CAPSULE_PROTOCOL_HEADER_VALUE@)),
            has_forbidden == exists|j: int| 0 <= j < i && is_forbidden(#[trigger] hs[j].name),
        decreases headers@.len() - i,
    {
        let h = &headers[i];
        proof {
            assert(hs[i as int] == h@);
            assert(hs.take(i + 1).drop_last() =~= hs.take(i as int));
            assert(hs.take(i + 1).last() == h@);
        }
        if same_bytes(h.name(), CAPSULE_PROTOCOL_HEADER_NAME.as_slice()) {
            has_capsule_protocol = same_bytes(
                h.value(),
                CAPSULE_PROTOCOL_HEADER_VALUE.as_slice(),
            );
        } else if same_bytes(h.name(), CONTENT_LENGTH.as_slice()) || same_bytes(
            h.name(),
            CONTENT_TYPE.as_slice(),
        ) || same_bytes(h.name(), TRANSFER_ENCODING.as_slice()) {
            has_forbidden = true;
            assert(is_forbidden(hs[i as int].name));
        }
        i += 1;
    }
    assert(hs.take(i as int) =~= hs);
    has_capsule_protocol && has_forbidden
}

/// Whether a byte is a decimal digit.
pub open spec fn is_digit(b: u8) -> bool {
    48 <= b <= 57
}

/// The number that decimal digits stand for.
pub open spec fn decimal_value(s: Seq<u8>) -> nat
    decreases s.len(),
{
    if s.len() == 0 {
        0
    } else {
        (decimal_value(s.drop_last()) * 10 + (s.last() - 48)) as nat
    }
}

/// The digits of a number, which may have a plus sign in front of them.
pub open spec fn digits_of(s: Seq<u8>) -> Seq<u8> {
    if s.len() > 0 && s[0] == 43 {
        s.skip(1)
    } else {
        s
    }
}

/// The 64-bit number that `s` spells in decimal, if it does.
pub open spec fn decimal(s: Seq<u8>) -> Option<u64> {
    let ds = digits_of(s);
    if ds.len() > 0 && (forall|i: int| 0 <= i < ds.len() ==> is_digit(#[trigger] ds[i]))
        && decimal_value(ds) <= u64::MAX {
        Some(decimal_value(ds) as u64)
    } else {
        None
    }
}

/// More digits do not make a number smaller.
proof fn lemma_decimal_monotonic(s: Seq<u8>, i: int)
    requires
        0 <= i <= s.len(),
        forall|j: int| 0 <= j < s.len() ==> is_digit(#[trigger] s[j]),
    ensures
        decimal_value(s.take(i)) <= decimal_value(s),
    decreases s.len() - i,
{
    if i < s.len() {
        lemma_decimal_monotonic(s, i + 1);
        let t = s.take(i + 1);
        assert(t.drop_last() =~= s.take(i));
        assert(t.last() == s[i]);
    } else {
        assert(s.take(i) =~= s);
    }
}

/// Reads a decimal 64-bit number.
pub fn parse_decimal(s: &[u8]) -> (r: Option<u64>)
    ensures
        r == decimal(s@),
{
    let ghost ds = digits_of(s@);
    let first: usize = if s.len() > 0 && s[0] == 43 {
        1
    } else {
        0
    };
    assert(ds =~= s@.skip(first as int));
    if first >= s.len() {
        return None;
    }
    let mut v: u64 = 0;
    let mut i: usize = first;
    assert(ds.take(0) =~= Seq::empty());
    while i < s.len()
        invariant
            first <= i <= s@.len(),
            ds == s@.skip(first as int),
            ds == digits_of(s@),
            ds.len() > 0,
            forall|j: int| 0 <= j < i - first ==> is_digit(#[trigger] ds[j]),
            v == decimal_value(ds.take(i - first)),
        decreases s@.len() - i,
    {
        let ghost k = i - first;
        assert(ds[k] == s@[i as int]);
        let b: u8 = s[i];
        if b < 48 || b > 57 {
            assert(!is_digit(ds[k]));
            return None;
        }
        proof {
            let t = ds.take(k + 1);
            assert(t.drop_last() =~= ds.take(k));
            assert(t.last() == ds[k]);
            assert(decimal_value(t) == v * 10 + (b - 48));
        }
        let d: u64 = (b - 48) as u64;
        let next: Option<u64> = match v.checked_mul(10) {
            Some(w) => w.checked_add(d),
            None => None,
        };
        match next {
            Some(w) => {
                v = w;
            },
            None => {
                proof {
                    if forall|j: int| 0 <= j < ds.len() ==> is_digit(#[trigger] ds[j]) {
                        lemma_decimal_monotonic(ds, k + 1);
                    }
                }
                return None;
            },
        }
        i += 1;
        assert(ds.take(i - first) =~= ds.take(k + 1));
    }
    assert(ds.take(i - first) =~= ds);
    Some(v)
}

/// The flow ID that the headers give: that of the last header for it.
pub open spec fn flow_id_of(hs: Seq<HeaderView>) -> Option<u64> {
    match last_value(hs, DATAGRAM_FLOW_ID@) {
        Some(v) => decimal(v),
        None => None,
    }
}

/// Whether the headers tell enough: the method, and the flow ID or the protocol.
pub open spec fn is_enough(hs: Seq<HeaderView>) -> bool {
    &&& last_value(hs, METHOD@) is Some
    &&& flow_id_of(hs) is Some || last_value(hs, PROTOCOL@) is Some
}

/// Whether exactly the first `n` headers are looked at: the shortest start that
/// tells enough, or all of them.
pub open spec fn is_relevant_count(hs: Seq<HeaderView>, n: int) -> bool {
    &&& 0 <= n <= hs.len()
    &&& forall|k: int| 0 <= k < n ==> !#[trigger] is_enough(hs.take(k))
    &&& n < hs.len() ==> is_enough(hs.take(n))
}

/// The headers that are looked at.
pub open spec fn relevant(hs: Seq<HeaderView>) -> Seq<HeaderView> {
    hs.take(choose|n: int| is_relevant_count(hs, n))
}

/// The flow ID of datagrams that belong to a request stream.
pub open spec fn flow_id(stream_id: u64, hs: Seq<HeaderView>) -> Option<u64> {
    let rs = relevant(hs);
    if last_value(rs, METHOD@) == Some(CONNECT_UDP_METHOD@) && flow_id_of(rs) is Some {
        flow_id_of(rs)
    } else if last_value(rs, METHOD@) == Some(CONNECT_METHOD@) && last_value(rs, PROTOCOL@) == Some(
        CONNECT_UDP_PROTOCOL@,
    ) {
        Some((stream_id / 4) as u64)
    } else {
        None
    }
}

/// The headers that are looked at are those that satisfy their description.
pub proof fn lemma_relevant(hs: Seq<HeaderView>, n: int)
    requires
        is_relevant_count(hs, n),
    ensures
        relevant(hs) == hs.take(n),
{
    let c = choose|c: int| is_relevant_count(hs, c);
    if c < n {
        assert(!is_enough(hs.take(c)));
    }
    if n < c {
        assert(!is_enough(hs.take(n)));
    }
}

/// Extracts the DATAGRAM flow ID proxied over the given `stream_id`, or `None` if
/// this is not a proxy request.
pub fn extract_flow_id(stream_id: u64, headers: &[Header]) -> (r: Option<u64>)
    ensures
        r == flow_id(stream_id, header_views(headers@)),
{
    let ghost hs = header_views(headers@);
    let mut method: Option<Vec<u8>> = None;
    let mut datagram_flow_id: Option<u64> = None;
    let mut protocol: Option<Vec<u8>> = None;
    let mut i: usize = 0;
    let mut enough: bool = false;
    proof {
        lemma_names_differ();
        assert(hs.take(0) =~= Seq::empty());
    }
    while i < headers.len() && !enough
        invariant
            i <= headers@.len(),
            hs == header_views(headers@),
            METHOD@ != PROTOCOL@,
            METHOD@ != DATAGRAM_FLOW_ID@,
            PROTOCOL@ != DATAGRAM_FLOW_ID@,
            match method {
                Some(m) => last_value(hs.take(i as int), METHOD@) == Some(m@),
                None => last_value(hs.take(i as int), METHOD@) is None,
            },
            match protocol {
                Some(p) => last_value(hs.take(i as int), PROTOCOL@) == Some(p@),
                None => last_value(hs.take(i as int), PROTOCOL@) is None,
            },
            datagram_flow_id == flow_id_of(hs.take(i as int)),
            enough == is_enough(hs.take(i as int)),
            forall|k: int| 0 <= k < i ==> !#[trigger] is_enough(hs.take(k)),
        decreases headers@.len() - i,
    {
        let h = &headers[i];
        proof {
            assert(hs[i as int] == h@);
            assert(hs.take(i + 1).drop_last() =~= hs.take(i as int));
            assert(hs.take(i + 1).last() == h@);
        }
        if same_bytes(h.name(), METHOD.as_slice()) {
            method = Some(copied(h.value()));
        } else if same_bytes(h.name(), PROTOCOL.as_slice()) {
            protocol = Some(copied(h.value()));
        } else if same_bytes(h.name(), DATAGRAM_FLOW_ID.as_slice()) {
            datagram_flow_id = parse_decimal(h.value());
        }
        // We have all of the information needed to get a flow_id or
        // quarter_stream_id
        enough = method.is_some() && (datagram_flow_id.is_some() || protocol.is_some());
        i += 1;
    }
    proof {
        lemma_relevant(hs, i as int);
    }
    let is_connect_udp: bool = match &method {
        Some(m) => same_bytes(m.as_slice(), CONNECT_UDP_METHOD.as_slice()),
        None => false,
    };
    let is_connect: bool = match &method {
        Some(m) => same_bytes(m.as_slice(), CONNECT_METHOD.as_slice()),
        None => false,
    };
    let is_udp_protocol: bool = match &protocol {
        Some(p) => same_bytes(p.as_slice(), CONNECT_UDP_PROTOCOL.as_slice()),
        None => false,
    };
    // The CONNECT-UDP method
    if is_connect_udp && datagram_flow_id.is_some() {
        datagram_flow_id
    // Extended CONNECT for UDP
    } else if is_connect && is_udp_protocol {
        // Quarter Stream ID
        Some(stream_id / 4)
    } else {
        None
    }
}

/// An HTTP/3 datagram with its flow ID in front of it.
pub fn with_flow_id(flow_id: u64, payload: &[u8]) -> (r: Vec<u8>)
    requires
        flow_id <= MAX_VAR_INT,
    ensures
        r@ == varint_bytes(flow_id) + payload@,
{
    let mut prefix: Vec<u8> = vec![0, 0, 0, 0, 0, 0, 0, 0];
    let ghost zeros = prefix@;
    let mut r: Vec<u8> = Vec::new();
    proof {
        lemma_varint_len(flow_id);
    }
    if let Ok(n) = put_varint_at(prefix.as_mut_slice(), 0, flow_id) {
        proof {
            assert(sink_at(prefix@, n as int).done == zeros.take(0) + varint_bytes(flow_id));
            assert(prefix@.take(n as int) =~= varint_bytes(flow_id));
        }
        let mut i: usize = 0;
        while i < n
            invariant
                i <= n <= prefix@.len(),
                r@ == prefix@.take(i as int),
            decreases n - i,
        {
            r.push(prefix[i]);
            i += 1;
            assert(r@ =~= prefix@.take(i as int));
        }
    }
    r.extend_from_slice(payload);
    assert(r@ =~= varint_bytes(flow_id) + payload@);
    r
}

/// What a received datagram consists of: the flow ID and the payload.
pub open spec fn h3_dgram(s: Seq<u8>) -> Result<(u64, Seq<u8>), Error> {
    match varint_at(s) {
        Some((v, n)) => if v > MAX_QUARTER_STREAM_ID {
            Err(Error::InvalidFrame)
        } else {
            Ok((v, s.skip(n as int)))
        },
        None => Err(Error::InvalidFrame),
    }
}

/// Splits a received HTTP/3 datagram into its flow ID and its payload.
///
/// Returns `InvalidFrame` if the Quarter Stream ID is malformed or exceeds 2^60-1.
pub fn split_h3_dgram(dgram: &[u8]) -> (r: Result<(u64, Vec<u8>), Error>)
    ensures
        match h3_dgram(dgram@) {
            Ok((id, payload)) => r matches Ok((i, p)) && i == id && p@ == payload,
            Err(e) => r matches Err(x) && x == e,
        },
{
    let mut buf = reader(dgram);
    // A payload too short to parse Quarter Stream ID MUST be
    // treated as H3_DATAGRAM_ERROR.
    let flow_id: u64 = match get_varint(&mut buf) {
        Ok(v) => v,
        Err(_) => {
            return Err(Error::InvalidFrame);
        },
    };
    // A Quarter Stream ID > 2^60-1 MUST be treated as
    // H3_DATAGRAM_ERROR.
    if flow_id > MAX_QUARTER_STREAM_ID {
        return Err(Error::InvalidFrame);
    }
    proof {
        lemma_varint_bounded(dgram@);
    }
    let advance: usize = dgram.len() - unread(&buf);
    let mut payload: Vec<u8> = Vec::new();
    let mut i: usize = advance;
    while i < dgram.len()
        invariant
            advance <= i <= dgram@.len(),
            payload@ == dgram@.subrange(advance as int, i as int),
        decreases dgram@.len() - i,
    {
        payload.push(dgram[i]);
        i += 1;
        assert(payload@ =~= dgram@.subrange(advance as int, i as int));
    }
    assert(payload@ =~= dgram@.skip(advance as int));
    Ok((flow_id, payload))
}

/// A datagram that was sent with a valid flow ID is received with that flow ID
/// and its payload.
pub proof fn law_datagram_roundtrip(flow_id: u64, payload: Seq<u8>)
    requires
        flow_id <= MAX_QUARTER_STREAM_ID,
    ensures
        h3_dgram(varint_bytes(flow_id) + payload) == Ok::<(u64, Seq<u8>), Error>(
            (flow_id, payload),
        ),
{
    lemma_varint_roundtrip(flow_id, payload);
    lemma_varint_len(flow_id);
    assert((varint_bytes(flow_id) + payload).skip(varint_size(flow_id) as int) =~= payload);
}

/// The Quarter Stream ID of a stream is always a valid flow ID.
pub proof fn law_quarter_stream_id_is_valid(stream_id: u64)
    requires
        stream_id <= MAX_VAR_INT,
    ensures
        stream_id / 4 <= MAX_QUARTER_STREAM_ID,
{
}

} // verus!
