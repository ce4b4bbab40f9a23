//! CONNECT-IP capsule payloads.

use crate::buffer::{
    get_bytes, get_u8, get_varint, octets_rest, put_u8_at, reader, unread, varint_len,
};
use crate::bytes::u128_from_be;
use crate::capsule::{
    encode_capsule_header, header_fields, lemma_wrote_more, lemma_wrote_one, lemma_wrote_stops,
    write_bytes, write_varint, wrote, CapsuleError, ADDRESS_ASSIGN_CAPSULE, ADDRESS_REQUEST_CAPSULE,
    ROUTE_ADVERTISEMENT_CAPSULE,
};
use crate::net::{addr_len, IpAddr, IpView};
use crate::packet::copied;
use crate::varint::{lemma_varint_bounded, varint_at, varint_bytes, varint_size, MAX_VAR_INT};
use vstd::arithmetic::power2::{lemma_pow2_adds, lemma_pow2_pos, lemma_pow2_unfold, pow2};
use vstd::prelude::*;

verus! {

/// IP version 4 on the wire.
pub const IP_VERSION_4: u8 = 4;

/// IP version 6 on the wire.
pub const IP_VERSION_6: u8 = 6;

/// Length of an IPv4 address in bytes.
const IPV4_LEN: usize = 4;

/// Length of an IPv6 address in bytes.
const IPV6_LEN: usize = 16;

/// An assigned or requested IP address prefix, used in ADDRESS_ASSIGN and
/// ADDRESS_REQUEST capsules.
///
/// Wire format of an Assigned Address:
///
/// ```text
/// Assigned Address {
///   Request ID (i),
///   IP Version (8),
///   IP Address (32..128),
///   IP Prefix Length (8),
/// }
/// ```
#[derive(Debug, Clone, Copy, PartialEq, Eq)]
pub struct AddressEntry {
    /// Identifier for this address assignment/request.
    pub request_id: u64,
    /// The IP address (v4 or v6).
    pub ip_prefix: IpAddr,
    /// The prefix length (0-32 for IPv4, 0-128 for IPv6).
    pub prefix_length: u8,
}

/// What an address entry holds.
pub struct AddressView {
    /// The identifier.
    pub request_id: u64,
    /// The address.
    pub ip: IpView,
    /// The prefix length.
    pub prefix_length: u8,
}

impl View for AddressEntry {
    type V = AddressView;

    open spec fn view(&self) -> AddressView {
        AddressView {
            request_id: self.request_id,
            ip: self.ip_prefix@,
            prefix_length: self.prefix_length,
        }
    }
}

/// A route entry in a ROUTE_ADVERTISEMENT capsule.
///
/// Wire format:
///
/// ```text
/// IP Address Range {
///   IP Version (8),
///   Start IP Address (32..128),
///   End IP Address (32..128),
///   IP Protocol (8),
/// }
/// ```
#[derive(Debug, Clone, Copy, PartialEq, Eq)]
pub struct RouteEntry {
    /// Start of the IP address range (inclusive).
    pub start_ip: IpAddr,
    /// End of the IP address range (inclusive).
    pub end_ip: IpAddr,
    /// IP protocol number (0 means all protocols).
    pub ip_protocol: u8,
}

/// What a route entry holds.
pub struct RouteView {
    /// The first address.
    pub start: IpView,
    /// The last address.
    pub end: IpView,
    /// The protocol.
    pub ip_protocol: u8,
}

impl View for RouteEntry {
    type V = RouteView;

    open spec fn view(&self) -> RouteView {
        RouteView { start: self.start_ip@, end: self.end_ip@, ip_protocol: self.ip_protocol }
    }
}

/// The entries of a sequence, each by what it holds.
pub open spec fn address_views(es: Seq<AddressEntry>) -> Seq<AddressView> {
    es.map_values(|e: AddressEntry| e@)
}

/// The entries of a sequence, each by what it holds.
pub open spec fn route_views(es: Seq<RouteEntry>) -> Seq<RouteView> {
    es.map_values(|e: RouteEntry| e@)
}

/// Whether the bits of an address that its prefix does not cover are all zero.
pub open spec fn prefix_is_clean(ip: IpView, prefix_length: u8) -> bool {
    prefix_length < ip.bits() ==> ip.value() % pow2((ip.bits() - prefix_length) as nat) == 0
}

/// The bytes of an address.
fn ip_octets(ip: &IpAddr) -> (r: Vec<u8>)
    ensures
        r@ == ip@.bytes,
        r@.len() == addr_len(ip@.version),
{
    match ip {
        IpAddr::V4(a) => copied(a.as_slice()),
        IpAddr::V6(a) => copied(a.as_slice()),
    }
}

/// The address as a number.
fn ip_value(ip: &IpAddr) -> (r: u128)
    ensures
        r == ip@.value(),
{
    match ip {
        IpAddr::V4(a) => u128_from_be(a.as_slice()),
        IpAddr::V6(a) => u128_from_be(a.as_slice()),
    }
}

/// The version of an address.
fn ip_version(ip: &IpAddr) -> (r: u8)
    ensures
        r == ip@.version,
        r == 4 || r == 6,
        ip@.valid(),
{
    match ip {
        IpAddr::V4(_) => IP_VERSION_4,
        IpAddr::V6(_) => IP_VERSION_6,
    }
}

/// Whether the `k` lowest bits of `v` are zero.
fn low_bits_zero(v: u128, k: u8) -> (r: bool)
    ensures
        r == (v as nat % pow2(k as nat) == 0),
{
    let mut left: u128 = v;
    let mut i: u8 = 0;
    proof {
        vstd::arithmetic::power2::lemma2_to64();
        assert(v as nat == left as nat * pow2(0));
    }
    while i < k
        invariant
            i <= k,
            v as nat == left as nat * pow2(i as nat),
        decreases k - i,
    {
        proof {
            lemma_pow2_unfold((i + 1) as nat);
            lemma_pow2_pos(i as nat);
            lemma_pow2_pos(k as nat);
            lemma_pow2_adds(i as nat, (k - i) as nat);
            lemma_pow2_unfold((k - i) as nat);
        }
        if left % 2 != 0 {
            proof {
                if v as nat % pow2(k as nat) == 0 {
                    let c = v as nat / pow2(k as nat);
                    let p = pow2(i as nat);
                    let h = pow2((k - i - 1) as nat);
                    vstd::arithmetic::div_mod::lemma_fundamental_div_mod(
                        v as int,
                        pow2(k as nat) as int,
                    );
                    assert(v == pow2(k as nat) * c);
                    assert(pow2(k as nat) == p * (2 * h));
                    assert(left as nat * p == (2 * (h * c)) * p) by (nonlinear_arith)
                        requires
                            v as nat == left as nat * p,
                            v as nat == (p * (2 * h)) * c,
                    ;
                    assert(left as nat == 2 * (h * c)) by (nonlinear_arith)
                        requires
                            left as nat * p == (2 * (h * c)) * p,
                            p > 0,
                    ;
                }
            }
            return false;
        }
        proof {
            let half = (left / 2) as nat;
            assert(left == 2 * half);
            assert(left as nat * pow2(i as nat) == half * (2 * pow2(i as nat))) by (nonlinear_arith)
                requires
                    left as nat == 2 * half,
            ;
        }
        left = left / 2;
        i += 1;
    }
    proof {
        lemma_pow2_pos(k as nat);
        vstd::arithmetic::div_mod::lemma_mod_multiples_basic(left as int, pow2(k as nat) as int);
    }
    true
}

/// Validates that IP address bits below the prefix length are all zero.
fn validate_prefix_lower_bits(ip: &IpAddr, prefix_length: u8) -> (r: bool)
    ensures
        r == prefix_is_clean(ip@, prefix_length),
{
    let bits: u8 = match ip {
        IpAddr::V4(_) => 32,
        IpAddr::V6(_) => 128,
    };
    if prefix_length >= bits {
        return true;
    }
    low_bits_zero(ip_value(ip), bits - prefix_length)
}

/// The fields of an address entry.
pub open spec fn address_fields(e: AddressView) -> Seq<Seq<u8>> {
    seq![
        varint_bytes(e.request_id),
        seq![e.ip.version],
        e.ip.bytes,
        seq![e.prefix_length],
    ]
}

/// The fields of address entries one after the other.
pub open spec fn addresses_fields(es: Seq<AddressView>) -> Seq<Seq<u8>>
    decreases es.len(),
{
    if es.len() == 0 {
        Seq::empty()
    } else {
        addresses_fields(es.drop_last()) + address_fields(es.last())
    }
}

/// The fields of a route entry.
pub open spec fn route_fields(e: RouteView) -> Seq<Seq<u8>> {
    seq![seq![e.start.version], e.start.bytes, e.end.bytes, seq![e.ip_protocol]]
}

/// The fields of route entries one after the other.
pub open spec fn routes_fields(es: Seq<RouteView>) -> Seq<Seq<u8>>
    decreases es.len(),
{
    if es.len() == 0 {
        Seq::empty()
    } else {
        routes_fields(es.drop_last()) + route_fields(es.last())
    }
}

/// The number of bytes of address entries.
pub open spec fn addresses_len(es: Seq<AddressView>) -> nat
    decreases es.len(),
{
    if es.len() == 0 {
        0
    } else {
        addresses_len(es.drop_last()) + varint_size(es.last().request_id) + addr_len(
            es.last().ip.version,
        ) + 2
    }
}

/// The number of bytes of route entries.
pub open spec fn routes_len(es: Seq<RouteView>) -> nat
    decreases es.len(),
{
    if es.len() == 0 {
        0
    } else {
        routes_len(es.drop_last()) + 2 * addr_len(es.last().start.version) + 2
    }
}

/// Fewer entries take fewer bytes.
proof fn lemma_addresses_len_monotonic(es: Seq<AddressView>, i: int)
    requires
        0 <= i <= es.len(),
    ensures
        addresses_len(es.take(i)) <= addresses_len(es),
    decreases es.len() - i,
{
    if i < es.len() {
        lemma_addresses_len_monotonic(es, i + 1);
        assert(es.take(i + 1).drop_last() =~= es.take(i));
    } else {
        assert(es.take(i) =~= es);
    }
}

/// Fewer entries take fewer bytes.
proof fn lemma_routes_len_monotonic(es: Seq<RouteView>, i: int)
    requires
        0 <= i <= es.len(),
    ensures
        routes_len(es.take(i)) <= routes_len(es),
    decreases es.len() - i,
{
    if i < es.len() {
        lemma_routes_len_monotonic(es, i + 1);
        assert(es.take(i + 1).drop_last() =~= es.take(i));
    } else {
        assert(es.take(i) =~= es);
    }
}

/// Compute the wire size of an [`AddressEntry`].
fn address_entry_wire_len(entry: &AddressEntry) -> (r: usize)
    requires
        entry.request_id <= MAX_VAR_INT,
    ensures
        r == varint_size(entry.request_id) + addr_len(entry@.ip.version) + 2,
        r <= 26,
{
    let addr_len: usize = match entry.ip_prefix {
        IpAddr::V4(_) => IPV4_LEN,
        IpAddr::V6(_) => IPV6_LEN,
    };
    // request_id (varint) + ip_version (1) + address + prefix_length (1)
    varint_len(entry.request_id) + 1 + addr_len + 1
}

/// Compute the wire size of a [`RouteEntry`].
fn route_entry_wire_len(entry: &RouteEntry) -> (r: usize)
    ensures
        r == 2 * addr_len(entry@.start.version) + 2,
        r <= 34,
{
    let addr_len: usize = match entry.start_ip {
        IpAddr::V4(_) => IPV4_LEN,
        IpAddr::V6(_) => IPV6_LEN,
    };
    // ip_version (1) + start_ip + end_ip + ip_protocol (1)
    1 + addr_len + addr_len + 1
}

/// Writes one byte.
fn write_u8(buf: &mut [u8], off: usize, v: u8) -> (r: Result<usize, CapsuleError>)
    requires
        off <= old(buf)@.len(),
    ensures
        wrote(old(buf)@, off as int, seq![seq![v]], final(buf)@, r),
{
    let w = put_u8_at(buf, off, v);
    proof {
        lemma_wrote_one(old(buf)@, off, seq![v], buf@, w);
    }
    match w {
        Ok(n) => Ok(n),
        Err(e) => Err(CapsuleError::from(e)),
    }
}

/// Encode a single address entry into the buffer.
fn encode_address_entry(buf: &mut [u8], off: usize, entry: &AddressEntry) -> (r: Result<
    usize,
    CapsuleError,
>)
    requires
        entry.request_id <= MAX_VAR_INT,
        off <= old(buf)@.len(),
    ensures
        wrote(old(buf)@, off as int, address_fields(entry@), final(buf)@, r),
{
    let ghost f1 = seq![varint_bytes(entry.request_id)];
    let ghost f2 = seq![seq![entry@.ip.version]];
    let ghost f3 = seq![entry@.ip.bytes];
    let ghost f4 = seq![seq![entry.prefix_length]];
    let ghost a = buf@;
    assert(address_fields(entry@) =~= f1 + (f2 + (f3 + f4)));
    assert(address_fields(entry@) =~= (f1 + f2) + (f3 + f4));
    assert(address_fields(entry@) =~= ((f1 + f2) + f3) + f4);
    let n1: usize = match write_varint(buf, off, entry.request_id) {
        Ok(n) => n,
        Err(e) => {
            proof {
                lemma_wrote_stops(a, off as int, f1, buf@, e, f2 + (f3 + f4));
            }
            return Err(e);
        },
    };
    let ghost b1 = buf@;
    let r2 = write_u8(buf, n1, ip_version(&entry.ip_prefix));
    proof {
        lemma_wrote_more(a, off as int, f1, b1, n1, f2, buf@, r2);
    }
    let n2: usize = match r2 {
        Ok(n) => n,
        Err(e) => {
            proof {
                lemma_wrote_stops(a, off as int, f1 + f2, buf@, e, f3 + f4);
            }
            return Err(e);
        },
    };
    let ghost b2 = buf@;
    let octets = ip_octets(&entry.ip_prefix);
    let r3 = write_bytes(buf, n2, octets.as_slice());
    proof {
        lemma_wrote_more(a, off as int, f1 + f2, b2, n2, f3, buf@, r3);
    }
    let n3: usize = match r3 {
        Ok(n) => n,
        Err(e) => {
            proof {
                lemma_wrote_stops(a, off as int, (f1 + f2) + f3, buf@, e, f4);
            }
            return Err(e);
        },
    };
    let ghost b3 = buf@;
    let r4 = write_u8(buf, n3, entry.prefix_length);
    proof {
        lemma_wrote_more(a, off as int, (f1 + f2) + f3, b3, n3, f4, buf@, r4);
    }
    r4
}

/// Encode a single route entry into the buffer.
fn encode_route_entry(buf: &mut [u8], off: usize, entry: &RouteEntry) -> (r: Result<
    usize,
    CapsuleError,
>)
    requires
        off <= old(buf)@.len(),
        entry@.start.version == entry@.end.version,
    ensures
        wrote(old(buf)@, off as int, route_fields(entry@), final(buf)@, r),
{
    let ghost f1 = seq![seq![entry@.start.version]];
    let ghost f2 = seq![entry@.start.bytes];
    let ghost f3 = seq![entry@.end.bytes];
    let ghost f4 = seq![seq![entry.ip_protocol]];
    let ghost a = buf@;
    assert(route_fields(entry@) =~= f1 + (f2 + (f3 + f4)));
    assert(route_fields(entry@) =~= (f1 + f2) + (f3 + f4));
    assert(route_fields(entry@) =~= ((f1 + f2) + f3) + f4);
    let n1: usize = match write_u8(buf, off, ip_version(&entry.start_ip)) {
        Ok(n) => n,
        Err(e) => {
            proof {
                lemma_wrote_stops(a, off as int, f1, buf@, e, f2 + (f3 + f4));
            }
            return Err(e);
        },
    };
    let ghost b1 = buf@;
    let start = ip_octets(&entry.start_ip);
    let r2 = write_bytes(buf, n1, start.as_slice());
    proof {
        lemma_wrote_more(a, off as int, f1, b1, n1, f2, buf@, r2);
    }
    let n2: usize = match r2 {
        Ok(n) => n,
        Err(e) => {
            proof {
                lemma_wrote_stops(a, off as int, f1 + f2, buf@, e, f3 + f4);
            }
            return Err(e);
        },
    };
    let ghost b2 = buf@;
    let end = ip_octets(&entry.end_ip);
    let r3 = write_bytes(buf, n2, end.as_slice());
    proof {
        lemma_wrote_more(a, off as int, f1 + f2, b2, n2, f3, buf@, r3);
    }
    let n3: usize = match r3 {
        Ok(n) => n,
        Err(e) => {
            proof {
                lemma_wrote_stops(a, off as int, (f1 + f2) + f3, buf@, e, f4);
            }
            return Err(e);
        },
    };
    let ghost b3 = buf@;
    let r4 = write_u8(buf, n3, entry.ip_protocol);
    proof {
        lemma_wrote_more(a, off as int, (f1 + f2) + f3, b3, n3, f4, buf@, r4);
    }
    r4
}

/// The complete capsule of some address entries.
pub open spec fn address_capsule_fields(capsule_type: u64, es: Seq<AddressView>) -> Seq<Seq<u8>> {
    header_fields(capsule_type, addresses_len(es) as u64) + addresses_fields(es)
}

/// Whether address entries can be encoded: their request IDs and the number of
/// their bytes fit.
pub open spec fn addresses_fit(es: Seq<AddressView>) -> bool {
    &&& forall|i: int| 0 <= i < es.len() ==> (#[trigger] es[i]).request_id <= MAX_VAR_INT
    &&& addresses_len(es) <= MAX_VAR_INT
    &&& addresses_len(es) <= usize::MAX
}

/// Encodes the capsule of the given type with the given address entries.
fn encode_addresses(buf: &mut [u8], capsule_type: u64, entries: &[AddressEntry]) -> (r: Result<
    usize,
    CapsuleError,
>)
    requires
        capsule_type <= MAX_VAR_INT,
        addresses_fit(address_views(entries@)),
    ensures
        wrote(
            old(buf)@,
            0,
            address_capsule_fields(capsule_type, address_views(entries@)),
            final(buf)@,
            r,
        ),
{
    let ghost es = address_views(entries@);
    let mut value_len: usize = 0;
    let mut i: usize = 0;
    assert(es.take(0) =~= Seq::empty());
    while i < entries.len()
        invariant
            i <= entries@.len(),
            es == address_views(entries@),
            addresses_fit(es),
            value_len == addresses_len(es.take(i as int)),
        decreases entries@.len() - i,
    {
        proof {
            assert(es[i as int] == entries@[i as int]@);
            assert(es.take(i + 1).drop_last() =~= es.take(i as int));
            lemma_addresses_len_monotonic(es, i + 1);
        }
        value_len = value_len + address_entry_wire_len(&entries[i]);
        i += 1;
    }
    assert(es.take(i as int) =~= es);
    let ghost h = header_fields(capsule_type, value_len as u64);
    let ghost a = buf@;
    let mut off: usize = match encode_capsule_header(buf, capsule_type, value_len as u64) {
        Ok(n) => n,
        Err(e) => {
            proof {
                lemma_wrote_stops(a, 0, h, buf@, e, addresses_fields(es));
            }
            return Err(e);
        },
    };
    let mut k: usize = 0;
    proof {
        assert(es.take(0) =~= Seq::empty());
        assert(h + addresses_fields(es.take(0)) =~= h);
    }
    while k < entries.len()
        invariant
            k <= entries@.len(),
            es == address_views(entries@),
            addresses_fit(es),
            value_len == addresses_len(es),
            a == old(buf)@,
            h == header_fields(capsule_type, value_len as u64),
            wrote(a, 0, h + addresses_fields(es.take(k as int)), buf@, Ok(off)),
        decreases entries@.len() - k,
    {
        let ghost f = h + addresses_fields(es.take(k as int));
        let ghost g = address_fields(es[k as int]);
        let ghost b = buf@;
        proof {
            assert(es[k as int] == entries@[k as int]@);
            assert(es.take(k + 1).drop_last() =~= es.take(k as int));
            assert(f + g =~= h + addresses_fields(es.take(k + 1)));
        }
        let r = encode_address_entry(buf, off, &entries[k]);
        proof {
            lemma_wrote_more(a, 0, f, b, off, g, buf@, r);
        }
        match r {
            Ok(n) => {
                off = n;
            },
            Err(e) => {
                proof {
                    let more = lemma_addresses_split(es, k + 1);
                    lemma_wrote_stops(a, 0, f + g, buf@, e, more);
                    assert((f + g) + more =~= h + addresses_fields(es));
                }
                return Err(e);
            },
        }
        k += 1;
    }
    assert(es.take(k as int) =~= es);
    Ok(off)
}

/// The fields of the first `k` entries come first.
proof fn lemma_addresses_split(es: Seq<AddressView>, k: int) -> (more: Seq<Seq<u8>>)
    requires
        0 <= k <= es.len(),
    ensures
        addresses_fields(es) == addresses_fields(es.take(k)) + more,
    decreases es.len() - k,
{
    if k == es.len() {
        assert(es.take(k) =~= es);
        let more = Seq::<Seq<u8>>::empty();
        assert(addresses_fields(es) =~= addresses_fields(es.take(k)) + more);
        more
    } else {
        let front = es.drop_last();
        let inner = lemma_addresses_split(front, k);
        assert(front.take(k) =~= es.take(k));
        let more = inner + address_fields(es.last());
        assert(addresses_fields(es) =~= addresses_fields(es.take(k)) + more);
        more
    }
}

/// The fields of the first `k` entries come first.
proof fn lemma_routes_split(es: Seq<RouteView>, k: int) -> (more: Seq<Seq<u8>>)
    requires
        0 <= k <= es.len(),
    ensures
        routes_fields(es) == routes_fields(es.take(k)) + more,
    decreases es.len() - k,
{
    if k == es.len() {
        assert(es.take(k) =~= es);
        let more = Seq::<Seq<u8>>::empty();
        assert(routes_fields(es) =~= routes_fields(es.take(k)) + more);
        more
    } else {
        let front = es.drop_last();
        let inner = lemma_routes_split(front, k);
        assert(front.take(k) =~= es.take(k));
        let more = inner + route_fields(es.last());
        assert(routes_fields(es) =~= routes_fields(es.take(k)) + more);
        more
    }
}

/// Encode an ADDRESS_ASSIGN capsule value.
///
/// This encodes the complete capsule (header + value) into `buf`. The value
/// consists of a sequence of Assigned Address entries.
///
/// Returns the total number of bytes written.
pub fn encode_address_assign(buf: &mut [u8], entries: &[AddressEntry]) -> (r: Result<
    usize,
    CapsuleError,
>)
    requires
        addresses_fit(address_views(entries@)),
    ensures
        wrote(
            old(buf)@,
            0,
            address_capsule_fields(ADDRESS_ASSIGN_CAPSULE, address_views(entries@)),
            final(buf)@,
            r,
        ),
{
    encode_addresses(buf, ADDRESS_ASSIGN_CAPSULE, entries)
}

/// Encode an ADDRESS_REQUEST capsule value.
///
/// Same wire format as ADDRESS_ASSIGN but with a different capsule type.
///
/// Returns the total number of bytes written.
pub fn encode_address_request(buf: &mut [u8], entries: &[AddressEntry]) -> (r: Result<
    usize,
    CapsuleError,
>)
    requires
        addresses_fit(address_views(entries@)),
    ensures
        wrote(
            old(buf)@,
            0,
            address_capsule_fields(ADDRESS_REQUEST_CAPSULE, address_views(entries@)),
            final(buf)@,
            r,
        ),
{
    encode_addresses(buf, ADDRESS_REQUEST_CAPSULE, entries)
}

/// Whether the two ends of each route have the same version.
pub open spec fn routes_match(es: Seq<RouteView>) -> bool {
    forall|i: int| 0 <= i < es.len() ==> (#[trigger] es[i]).start.version == es[i].end.version
}

/// The complete capsule of some route entries.
pub open spec fn route_capsule_fields(es: Seq<RouteView>) -> Seq<Seq<u8>> {
    header_fields(ROUTE_ADVERTISEMENT_CAPSULE, routes_len(es) as u64) + routes_fields(es)
}

/// Encode a ROUTE_ADVERTISEMENT capsule.
///
/// This encodes the complete capsule (header + value) into `buf`.
///
/// Returns the total number of bytes written.
pub fn encode_route_advertisement(buf: &mut [u8], entries: &[RouteEntry]) -> (r: Result<
    usize,
    CapsuleError,
>)
    requires
        routes_len(route_views(entries@)) <= MAX_VAR_INT,
        routes_len(route_views(entries@)) <= usize::MAX,
    ensures
        !routes_match(route_views(entries@)) ==> r == Err::<usize, CapsuleError>(
            CapsuleError::InvalidCapsule,
        ) && final(buf)@ == old(buf)@,
        routes_match(route_views(entries@)) ==> wrote(
            old(buf)@,
            0,
            route_capsule_fields(route_views(entries@)),
            final(buf)@,
            r,
        ),
{
    let ghost es = route_views(entries@);
    let mut value_len: usize = 0;
    let mut i: usize = 0;
    assert(es.take(0) =~= Seq::empty());
    while i < entries.len()
        invariant
            i <= entries@.len(),
            es == route_views(entries@),
            routes_len(es) <= usize::MAX,
            buf@ == old(buf)@,
            value_len == routes_len(es.take(i as int)),
            forall|j: int| 0 <= j < i ==> (#[trigger] es[j]).start.version == es[j].end.version,
        decreases entries@.len() - i,
    {
        proof {
            assert(es[i as int] == entries@[i as int]@);
            assert(es.take(i + 1).drop_last() =~= es.take(i as int));
            lemma_routes_len_monotonic(es, i + 1);
        }
        // The two ends have to be of the same version.
        if ip_version(&entries[i].start_ip) != ip_version(&entries[i].end_ip) {
            return Err(CapsuleError::InvalidCapsule);
        }
        value_len = value_len + route_entry_wire_len(&entries[i]);
        i += 1;
    }
    assert(es.take(i as int) =~= es);
    let ghost h = header_fields(ROUTE_ADVERTISEMENT_CAPSULE, value_len as u64);
    let ghost a = buf@;
    let mut off: usize = match encode_capsule_header(
        buf,
        ROUTE_ADVERTISEMENT_CAPSULE,
        value_len as u64,
    ) {
        Ok(n) => n,
        Err(e) => {
            proof {
                lemma_wrote_stops(a, 0, h, buf@, e, routes_fields(es));
            }
            return Err(e);
        },
    };
    let mut k: usize = 0;
    proof {
        assert(es.take(0) =~= Seq::empty());
        assert(h + routes_fields(es.take(0)) =~= h);
    }
    while k < entries.len()
        invariant
            k <= entries@.len(),
            es == route_views(entries@),
            routes_match(es),
            value_len == routes_len(es),
            a == old(buf)@,
            h == header_fields(ROUTE_ADVERTISEMENT_CAPSULE, value_len as u64),
            wrote(a, 0, h + routes_fields(es.take(k as int)), buf@, Ok(off)),
        decreases entries@.len() - k,
    {
        let ghost f = h + routes_fields(es.take(k as int));
        let ghost g = route_fields(es[k as int]);
        let ghost b = buf@;
        proof {
            assert(es[k as int] == entries@[k as int]@);
            assert(es.take(k + 1).drop_last() =~= es.take(k as int));
            assert(f + g =~= h + routes_fields(es.take(k + 1)));
        }
        let r = encode_route_entry(buf, off, &entries[k]);
        proof {
            lemma_wrote_more(a, 0, f, b, off, g, buf@, r);
        }
        match r {
            Ok(n) => {
                off = n;
            },
            Err(e) => {
                proof {
                    let more = lemma_routes_split(es, k + 1);
                    lemma_wrote_stops(a, 0, f + g, buf@, e, more);
                    assert((f + g) + more =~= h + routes_fields(es));
                }
                return Err(e);
            },
        }
        k += 1;
    }
    assert(es.take(k as int) =~= es);
    Ok(off)
}

/// A version and an address of that version, and what follows them.
pub open spec fn ip_parsed(s: Seq<u8>, version: u8) -> Result<(IpView, Seq<u8>), CapsuleError> {
    let n = addr_len(version) as int;
    if s.len() < n {
        Err(CapsuleError::BufferTooShort)
    } else {
        Ok((IpView { version, bytes: s.take(n) }, s.skip(n)))
    }
}

/// The address entry at the start of `s`, and what follows it.
pub open spec fn address_parsed(s: Seq<u8>) -> Result<(AddressView, Seq<u8>), CapsuleError> {
    match varint_at(s) {
        None => Err(CapsuleError::BufferTooShort),
        Some((request_id, n)) => {
            let t = s.skip(n as int);
            if t.len() == 0 {
                Err(CapsuleError::BufferTooShort)
            } else if t[0] != 4 && t[0] != 6 {
                Err(CapsuleError::InvalidCapsule)
            } else {
                match ip_parsed(t.skip(1), t[0]) {
                    Err(e) => Err(e),
                    Ok((ip, u)) => if u.len() == 0 {
                        Err(CapsuleError::BufferTooShort)
                    } else if u[0] > ip.bits() || !prefix_is_clean(ip, u[0]) {
                        Err(CapsuleError::InvalidCapsule)
                    } else {
                        Ok((AddressView { request_id, ip, prefix_length: u[0] }, u.skip(1)))
                    },
                }
            }
        },
    }
}

/// The address entries that `s` consists of.
pub open spec fn addresses_parsed(s: Seq<u8>) -> Result<Seq<AddressView>, CapsuleError>
    decreases s.len(),
{
    if s.len() == 0 {
        Ok(Seq::empty())
    } else {
        match address_parsed(s) {
            Err(e) => Err(e),
            Ok((a, rest)) => if rest.len() >= s.len() {
                Err(CapsuleError::InvalidCapsule)
            } else {
                match addresses_parsed(rest) {
                    Err(e) => Err(e),
                    Ok(more) => Ok(seq![a] + more),
                }
            },
        }
    }
}

/// Reads an address of the given version.
fn read_ip(b: &mut octets::Octets, version: u8) -> (r: Result<IpAddr, CapsuleError>)
    requires
        version == 4 || version == 6,
    ensures
        match ip_parsed(octets_rest(*old(b)), version) {
            Ok((ip, rest)) => r matches Ok(a) && a@ == ip && octets_rest(*final(b)) == rest,
            Err(e) => r == Err::<IpAddr, CapsuleError>(e),
        },
{
    if version == IP_VERSION_4 {
        match get_bytes(b, IPV4_LEN) {
            Ok(v) => {
                let a: [u8; 4] = [v[0], v[1], v[2], v[3]];
                assert(a@ =~= v@);
                Ok(IpAddr::V4(a))
            },
            Err(e) => Err(CapsuleError::from(e)),
        }
    } else {
        match get_bytes(b, IPV6_LEN) {
            Ok(v) => {
                let a: [u8; 16] = [
                    v[0],
                    v[1],
                    v[2],
                    v[3],
                    v[4],
                    v[5],
                    v[6],
                    v[7],
                    v[8],
                    v[9],
                    v[10],
                    v[11],
                    v[12],
                    v[13],
                    v[14],
                    v[15],
                ];
                assert(a@ =~= v@);
                Ok(IpAddr::V6(a))
            },
            Err(e) => Err(CapsuleError::from(e)),
        }
    }
}

/// Reads one address entry.
fn decode_address_entry(b: &mut octets::Octets) -> (r: Result<AddressEntry, CapsuleError>)
    ensures
        match address_parsed(octets_rest(*old(b))) {
            Ok((a, rest)) => r matches Ok(e) && e@ == a && octets_rest(*final(b)) == rest
                && rest.len() < octets_rest(*old(b)).len(),
            Err(e) => r == Err::<AddressEntry, CapsuleError>(e),
        },
{
    proof {
        lemma_varint_bounded(octets_rest(*b));
    }
    let request_id: u64 = match get_varint(b) {
        Ok(v) => v,
        Err(e) => {
            return Err(CapsuleError::from(e));
        },
    };
    let version: u8 = match get_u8(b) {
        Ok(v) => v,
        Err(e) => {
            return Err(CapsuleError::from(e));
        },
    };
    if version != IP_VERSION_4 && version != IP_VERSION_6 {
        return Err(CapsuleError::InvalidCapsule);
    }
    let ip_prefix = match read_ip(b, version) {
        Ok(ip) => ip,
        Err(e) => {
            return Err(e);
        },
    };
    let prefix_length: u8 = match get_u8(b) {
        Ok(v) => v,
        Err(e) => {
            return Err(CapsuleError::from(e));
        },
    };
    // Validate prefix length.
    let max_prefix: u8 = match ip_prefix {
        IpAddr::V4(_) => 32,
        IpAddr::V6(_) => 128,
    };
    if prefix_length > max_prefix {
        return Err(CapsuleError::InvalidCapsule);
    }
    // Lower bits not covered by prefix MUST be zero.
    if !validate_prefix_lower_bits(&ip_prefix, prefix_length) {
        return Err(CapsuleError::InvalidCapsule);
    }
    Ok(AddressEntry { request_id, ip_prefix, prefix_length })
}

/// What a list of address entries stands for, or the error.
pub open spec fn address_list_is(
    r: Result<Vec<AddressEntry>, CapsuleError>,
    want: Result<Seq<AddressView>, CapsuleError>,
) -> bool {
    match r {
        Ok(v) => want == Ok::<Seq<AddressView>, CapsuleError>(address_views(v@)),
        Err(e) => want == Err::<Seq<AddressView>, CapsuleError>(e),
    }
}

/// Decode a sequence of Assigned Address entries.
fn decode_address_entries(data: &[u8]) -> (r: Result<Vec<AddressEntry>, CapsuleError>)
    ensures
        address_list_is(r, addresses_parsed(data@)),
{
    let mut b = reader(data);
    let mut entries: Vec<AddressEntry> = Vec::new();
    let ghost all = addresses_parsed(data@);
    proof {
        if let Ok(v) = all {
            assert(address_views(entries@) + v =~= v);
        }
    }
    while unread(&b) > 0
        invariant
            all == addresses_parsed(data@),
            match addresses_parsed(octets_rest(b)) {
                Ok(v) => all == Ok::<Seq<AddressView>, CapsuleError>(address_views(entries@) + v),
                Err(e) => all == Err::<Seq<AddressView>, CapsuleError>(e),
            },
        decreases octets_rest(b).len(),
    {
        let ghost before = octets_rest(b);
        let ghost had = address_views(entries@);
        match decode_address_entry(&mut b) {
            Ok(e) => {
                entries.push(e);
                proof {
                    assert(address_views(entries@) =~= had.push(e@));
                    if let Ok(more) = addresses_parsed(octets_rest(b)) {
                        assert(had + (seq![e@] + more) =~= had.push(e@) + more);
                    }
                }
            },
            Err(e) => {
                return Err(e);
            },
        }
    }
    assert(address_views(entries@) + Seq::empty() =~= address_views(entries@));
    Ok(entries)
}

/// Decode an ADDRESS_ASSIGN capsule value.
///
/// `data` should contain only the capsule value bytes (after the capsule header
/// has been stripped).
pub fn decode_address_assign(data: &[u8]) -> (r: Result<Vec<AddressEntry>, CapsuleError>)
    ensures
        address_list_is(r, addresses_parsed(data@)),
{
    decode_address_entries(data)
}

/// The address entries of a request: there is at least one, and none has
/// request ID zero.
pub open spec fn address_request_parsed(s: Seq<u8>) -> Result<Seq<AddressView>, CapsuleError> {
    match addresses_parsed(s) {
        Err(e) => Err(e),
        Ok(es) => if es.len() == 0 || exists|i: int|
            0 <= i < es.len() && (#[trigger] es[i]).request_id == 0 {
            Err(CapsuleError::InvalidCapsule)
        } else {
            Ok(es)
        },
    }
}

/// Decode an ADDRESS_REQUEST capsule value.
///
/// Same wire format as ADDRESS_ASSIGN but with additional constraints: request
/// IDs MUST NOT be zero and there MUST be at least one entry.
pub fn decode_address_request(data: &[u8]) -> (r: Result<Vec<AddressEntry>, CapsuleError>)
    ensures
        address_list_is(r, address_request_parsed(data@)),
{
    let entries = match decode_address_entries(data) {
        Ok(v) => v,
        Err(e) => {
            return Err(e);
        },
    };
    // Zero Requested Addresses MUST abort stream.
    if entries.len() == 0 {
        return Err(CapsuleError::InvalidCapsule);
    }
    // Request IDs MUST NOT be zero.
    let ghost es = address_views(entries@);
    let mut i: usize = 0;
    while i < entries.len()
        invariant
            i <= entries@.len(),
            es == address_views(entries@),
            addresses_parsed(data@) == Ok::<Seq<AddressView>, CapsuleError>(es),
            forall|j: int| 0 <= j < i ==> (#[trigger] es[j]).request_id != 0,
        decreases entries@.len() - i,
    {
        assert(es[i as int] == entries@[i as int]@);
        if entries[i].request_id == 0 {
            return Err(CapsuleError::InvalidCapsule);
        }
        i += 1;
    }
    Ok(entries)
}

/// The route entry at the start of `s`, and what follows it.
pub open spec fn route_parsed(s: Seq<u8>) -> Result<(RouteView, Seq<u8>), CapsuleError> {
    if s.len() == 0 {
        Err(CapsuleError::BufferTooShort)
    } else if s[0] != 4 && s[0] != 6 {
        Err(CapsuleError::InvalidCapsule)
    } else {
        match ip_parsed(s.skip(1), s[0]) {
            Err(e) => Err(e),
            Ok((start, t)) => match ip_parsed(t, s[0]) {
                Err(e) => Err(e),
                Ok((end, u)) => if u.len() == 0 {
                    Err(CapsuleError::BufferTooShort)
                } else if start.value() > end.value() {
                    Err(CapsuleError::InvalidCapsule)
                } else {
                    Ok((RouteView { start, end, ip_protocol: u[0] }, u.skip(1)))
                },
            },
        }
    }
}

/// The route entries that `s` consists of, in whatever order.
pub open spec fn routes_parsed(s: Seq<u8>) -> Result<Seq<RouteView>, CapsuleError>
    decreases s.len(),
{
    if s.len() == 0 {
        Ok(Seq::empty())
    } else {
        match route_parsed(s) {
            Err(e) => Err(e),
            Ok((a, rest)) => if rest.len() >= s.len() {
                Err(CapsuleError::InvalidCapsule)
            } else {
                match routes_parsed(rest) {
                    Err(e) => Err(e),
                    Ok(more) => Ok(seq![a] + more),
                }
            },
        }
    }
}

/// Whether `b` may follow `a`: by version, then by protocol, then by addresses,
/// without overlap.
pub open spec fn route_precedes(a: RouteView, b: RouteView) -> bool {
    ||| a.start.version < b.start.version
    ||| a.start.version == b.start.version && a.ip_protocol < b.ip_protocol
    ||| a.start.version == b.start.version && a.ip_protocol == b.ip_protocol && a.end.value()
        < b.start.value()
}

/// Whether each route entry may follow the one before it.
pub open spec fn routes_ordered(es: Seq<RouteView>) -> bool {
    forall|i: int|
        0 <= i < es.len() - 1 ==> route_precedes(#[trigger] es[i], es[i + 1])
}

/// The route entries of an advertisement.
pub open spec fn route_advertisement_parsed(s: Seq<u8>) -> Result<Seq<RouteView>, CapsuleError> {
    match routes_parsed(s) {
        Err(e) => Err(e),
        Ok(es) => if routes_ordered(es) {
            Ok(es)
        } else {
            Err(CapsuleError::InvalidCapsule)
        },
    }
}

/// Compare two IP addresses of the same version numerically.
fn ip_addr_le(a: &IpAddr, b: &IpAddr) -> (r: bool)
    ensures
        r == (a@.version == b@.version && a@.value() <= b@.value()),
{
    ip_version(a) == ip_version(b) && ip_value(a) <= ip_value(b)
}

/// Compare two IP addresses of the same version, returns true if a < b.
fn ip_addr_lt(a: &IpAddr, b: &IpAddr) -> (r: bool)
    ensures
        r == (a@.version == b@.version && a@.value() < b@.value()),
{
    ip_version(a) == ip_version(b) && ip_value(a) < ip_value(b)
}

/// Reads one route entry.
fn decode_route_entry(b: &mut octets::Octets) -> (r: Result<RouteEntry, CapsuleError>)
    ensures
        match route_parsed(octets_rest(*old(b))) {
            Ok((a, rest)) => r matches Ok(e) && e@ == a && octets_rest(*final(b)) == rest
                && rest.len() < octets_rest(*old(b)).len() && e@.start.version
                == e@.end.version,
            Err(e) => r == Err::<RouteEntry, CapsuleError>(e),
        },
{
    let version: u8 = match get_u8(b) {
        Ok(v) => v,
        Err(e) => {
            return Err(CapsuleError::from(e));
        },
    };
    if version != IP_VERSION_4 && version != IP_VERSION_6 {
        return Err(CapsuleError::InvalidCapsule);
    }
    let start_ip = match read_ip(b, version) {
        Ok(ip) => ip,
        Err(e) => {
            return Err(e);
        },
    };
    let end_ip = match read_ip(b, version) {
        Ok(ip) => ip,
        Err(e) => {
            return Err(e);
        },
    };
    let ip_protocol: u8 = match get_u8(b) {
        Ok(v) => v,
        Err(e) => {
            return Err(CapsuleError::from(e));
        },
    };
    // Start IP Address MUST be <= End IP Address.
    if !ip_addr_le(&start_ip, &end_ip) {
        return Err(CapsuleError::InvalidCapsule);
    }
    Ok(RouteEntry { start_ip, end_ip, ip_protocol })
}

/// What a list of route entries stands for, or the error.
pub open spec fn route_list_is(
    r: Result<Vec<RouteEntry>, CapsuleError>,
    want: Result<Seq<RouteView>, CapsuleError>,
) -> bool {
    match r {
        Ok(v) => want == Ok::<Seq<RouteView>, CapsuleError>(route_views(v@)),
        Err(e) => want == Err::<Seq<RouteView>, CapsuleError>(e),
    }
}

/// Decode a ROUTE_ADVERTISEMENT capsule value.
///
/// `data` should contain only the capsule value bytes (after the capsule header
/// has been stripped).
pub fn decode_route_advertisement(data: &[u8]) -> (r: Result<Vec<RouteEntry>, CapsuleError>)
    ensures
        route_list_is(r, route_advertisement_parsed(data@)),
{
    let mut b = reader(data);
    let mut entries: Vec<RouteEntry> = Vec::new();
    let ghost all = routes_parsed(data@);
    proof {
        if let Ok(v) = all {
            assert(route_views(entries@) + v =~= v);
        }
    }
    while unread(&b) > 0
        invariant
            all == routes_parsed(data@),
            match routes_parsed(octets_rest(b)) {
                Ok(v) => all == Ok::<Seq<RouteView>, CapsuleError>(route_views(entries@) + v),
                Err(e) => all == Err::<Seq<RouteView>, CapsuleError>(e),
            },
            routes_match(route_views(entries@)),
        decreases octets_rest(b).len(),
    {
        let ghost had = route_views(entries@);
        match decode_route_entry(&mut b) {
            Ok(e) => {
                entries.push(e);
                proof {
                    assert(route_views(entries@) =~= had.push(e@));
                    if let Ok(more) = routes_parsed(octets_rest(b)) {
                        assert(had + (seq![e@] + more) =~= had.push(e@) + more);
                    }
                }
            },
            Err(e) => {
                return Err(e);
            },
        }
    }
    let ghost es = route_views(entries@);
    assert(es + Seq::empty() =~= es);
    // Validate entry ordering.
    let mut i: usize = 1;
    while i < entries.len()
        invariant
            1 <= i,
            es == route_views(entries@),
            routes_match(es),
            routes_parsed(data@) == Ok::<Seq<RouteView>, CapsuleError>(es),
            i <= es.len() || es.len() == 0,
            forall|j: int| 0 <= j < i - 1 && j < es.len() - 1 ==> route_precedes(#[trigger] es[j], es[j + 1]),
        decreases entries@.len() - i,
    {
        let x = &entries[i - 1];
        let y = &entries[i];
        let ghost j = i - 1;
        assert(es[j] == x@ && es[j + 1] == y@);
        let x_ver: u8 = ip_version(&x.start_ip);
        let y_ver: u8 = ip_version(&y.start_ip);
        if x_ver > y_ver {
            return Err(CapsuleError::InvalidCapsule);
        }
        if x_ver == y_ver {
            if x.ip_protocol > y.ip_protocol {
                return Err(CapsuleError::InvalidCapsule);
            }
            if x.ip_protocol == y.ip_protocol && !ip_addr_lt(&x.end_ip, &y.start_ip) {
                return Err(CapsuleError::InvalidCapsule);
            }
        }
        i += 1;
    }
    Ok(entries)
}

} // verus!
