//! How capsules and their entries are laid out, and which entries are refused.

use crate::buffer::{joined, lemma_joined_add, lemma_joined_one};
use crate::bytes::be_value;
use crate::capsule::connect_ip::{
    address_capsule_fields, address_fields, address_parsed, address_request_parsed,
    addresses_fields, addresses_parsed, route_advertisement_parsed, route_capsule_fields,
    route_fields, route_parsed, routes_fields, routes_parsed, AddressView, RouteView,
};
use crate::capsule::laws::{
    address_valid, law_address_capsule_length, law_addresses_roundtrip, law_route_capsule_length,
    lemma_address_roundtrip, lemma_addresses_fields_first, lemma_joined_four,
    lemma_route_roundtrip, lemma_routes_fields_first, lemma_routes_roundtrip, route_valid,
};
use crate::capsule::{
    capsule_fields, header_fields, CapsuleError, ADDRESS_ASSIGN_CAPSULE, ADDRESS_REQUEST_CAPSULE,
    DATAGRAM_CAPSULE, ROUTE_ADVERTISEMENT_CAPSULE,
};
use crate::net::IpView;
use crate::varint::{
    lemma_varint_len, lemma_varint_roundtrip, varint_at, varint_bytes, varint_size, MAX_VAR_INT,
};
use vstd::arithmetic::power2::pow2;
use vstd::prelude::*;

verus! {

/// The bytes of an address entry: the request ID, the version, the address and the length
/// of its prefix.
pub open spec fn address_bytes(id: u64, version: u8, addr: Seq<u8>, prefix: u8) -> Seq<u8> {
    varint_bytes(id) + (seq![version] + (addr + seq![prefix]))
}

/// The bytes of a route entry: the version, the first and the last address and the protocol.
pub open spec fn route_bytes(version: u8, a: Seq<u8>, b: Seq<u8>, protocol: u8) -> Seq<u8> {
    seq![version] + (a + (b + seq![protocol]))
}

/// The types of the capsules.
pub proof fn law_capsule_types()
    ensures
        DATAGRAM_CAPSULE == 0,
        ADDRESS_ASSIGN_CAPSULE == 1,
        ADDRESS_REQUEST_CAPSULE == 2,
        ROUTE_ADVERTISEMENT_CAPSULE == 3,
{
}

/// A capsule is its type, the length of its value, and its value.
pub proof fn law_capsule_layout(capsule_type: u64, value: Seq<u8>)
    ensures
        joined(capsule_fields(capsule_type, value)) == varint_bytes(capsule_type) + (varint_bytes(
            value.len() as u64,
        ) + value),
{
    lemma_header(capsule_type, value.len() as u64);
    let h = header_fields(capsule_type, value.len() as u64);
    assert(capsule_fields(capsule_type, value) =~= h + seq![value]);
    lemma_joined_add(h, seq![value]);
    lemma_joined_one(value);
    assert(joined(capsule_fields(capsule_type, value)) =~= varint_bytes(capsule_type) + (
    varint_bytes(value.len() as u64) + value));
}

/// The header of a capsule is its type and the length of its value.
proof fn lemma_header(capsule_type: u64, len: u64)
    ensures
        joined(header_fields(capsule_type, len)) == varint_bytes(capsule_type) + varint_bytes(len),
{
    let t = varint_bytes(capsule_type);
    let l = varint_bytes(len);
    assert(header_fields(capsule_type, len) =~= seq![t] + seq![l]);
    lemma_joined_add(seq![t], seq![l]);
    lemma_joined_one(t);
    lemma_joined_one(l);
}

/// Address entries are written one after the other, each with its request ID, its version,
/// its address and the length of its prefix.
pub proof fn law_address_layout(es: Seq<AddressView>, e: AddressView)
    ensures
        joined(addresses_fields(Seq::empty())) == Seq::<u8>::empty(),
        joined(addresses_fields(es.push(e))) == joined(addresses_fields(es)) + address_bytes(
            e.request_id,
            e.ip.version,
            e.ip.bytes,
            e.prefix_length,
        ),
{
    assert(es.push(e).drop_last() =~= es);
    lemma_joined_add(addresses_fields(es), address_fields(e));
    lemma_joined_four(
        varint_bytes(e.request_id),
        seq![e.ip.version],
        e.ip.bytes,
        seq![e.prefix_length],
    );
}

/// Route entries are written one after the other, each with its version, its first and its
/// last address and its protocol.
pub proof fn law_route_layout(es: Seq<RouteView>, e: RouteView)
    ensures
        joined(routes_fields(Seq::empty())) == Seq::<u8>::empty(),
        joined(routes_fields(es.push(e))) == joined(routes_fields(es)) + route_bytes(
            e.start.version,
            e.start.bytes,
            e.end.bytes,
            e.ip_protocol,
        ),
{
    assert(es.push(e).drop_last() =~= es);
    lemma_joined_add(routes_fields(es), route_fields(e));
    lemma_joined_four(seq![e.start.version], e.start.bytes, e.end.bytes, seq![e.ip_protocol]);
}

/// The capsule of some address entries is a capsule whose value is the entries.
pub proof fn law_address_capsule_layout(capsule_type: u64, es: Seq<AddressView>)
    requires
        forall|i: int| 0 <= i < es.len() ==> (#[trigger] es[i]).ip.valid(),
    ensures
        joined(address_capsule_fields(capsule_type, es)) == joined(
            capsule_fields(capsule_type, joined(addresses_fields(es))),
        ),
{
    let value = joined(addresses_fields(es));
    law_address_capsule_length(es);
    let h = header_fields(capsule_type, value.len() as u64);
    lemma_joined_add(h, addresses_fields(es));
    lemma_header(capsule_type, value.len() as u64);
    law_capsule_layout(capsule_type, value);
    assert(joined(address_capsule_fields(capsule_type, es)) =~= joined(
        capsule_fields(capsule_type, value),
    ));
}

/// The capsule of some route entries is a capsule whose value is the entries.
pub proof fn law_route_capsule_layout(es: Seq<RouteView>)
    requires
        forall|i: int|
            0 <= i < es.len() ==> (#[trigger] es[i]).start.valid() && es[i].end.valid()
                && es[i].start.version == es[i].end.version,
    ensures
        joined(route_capsule_fields(es)) == joined(
            capsule_fields(ROUTE_ADVERTISEMENT_CAPSULE, joined(routes_fields(es))),
        ),
{
    let value = joined(routes_fields(es));
    law_route_capsule_length(es);
    let h = header_fields(ROUTE_ADVERTISEMENT_CAPSULE, value.len() as u64);
    lemma_joined_add(h, routes_fields(es));
    lemma_header(ROUTE_ADVERTISEMENT_CAPSULE, value.len() as u64);
    law_capsule_layout(ROUTE_ADVERTISEMENT_CAPSULE, value);
    assert(joined(route_capsule_fields(es)) =~= joined(
        capsule_fields(ROUTE_ADVERTISEMENT_CAPSULE, value),
    ));
}

/// An address entry is accepted exactly where its version is 4 or 6, its prefix is no
/// longer than the address, and all bits after the prefix are zero; then it is what its
/// bytes say, and what follows is left.
pub proof fn law_address_is_judged(id: u64, version: u8, addr: Seq<u8>, prefix: u8, rest: Seq<u8>)
    requires
        id <= MAX_VAR_INT,
        version == 4 ==> addr.len() == 4,
        version == 6 ==> addr.len() == 16,
    ensures
        ({
            let r = address_parsed(address_bytes(id, version, addr, prefix) + rest);
            let bits: int = if version == 4 {
                32
            } else {
                128
            };
            if version != 4 && version != 6 {
                r == Err::<(AddressView, Seq<u8>), CapsuleError>(CapsuleError::InvalidCapsule)
            } else if prefix > bits || (prefix < bits && be_value(addr) % pow2(
                (bits - prefix) as nat,
            ) != 0) {
                r == Err::<(AddressView, Seq<u8>), CapsuleError>(CapsuleError::InvalidCapsule)
            } else {
                r == Ok::<(AddressView, Seq<u8>), CapsuleError>(
                    (
                        AddressView {
                            request_id: id,
                            ip: IpView { version, bytes: addr },
                            prefix_length: prefix,
                        },
                        rest,
                    ),
                )
            }
        }),
{
    let s = address_bytes(id, version, addr, prefix) + rest;
    let t = seq![version] + (addr + (seq![prefix] + rest));
    assert(s =~= varint_bytes(id) + t);
    lemma_varint_roundtrip(id, t);
    lemma_varint_len(id);
    assert(s.skip(varint_size(id) as int) =~= t);
    let u = addr + (seq![prefix] + rest);
    assert(t.skip(1) =~= u);
    assert(t[0] == version);
    if version == 4 || version == 6 {
        let n = addr.len() as int;
        assert(u.take(n) =~= addr);
        assert(u.skip(n) =~= seq![prefix] + rest);
        assert((seq![prefix] + rest).skip(1) =~= rest);
    }
}

/// An address entry that is cut short is refused for that.
pub proof fn law_address_cut_short(id: u64, version: u8, addr: Seq<u8>, prefix: u8, n: int)
    requires
        id <= MAX_VAR_INT,
        version == 4 && addr.len() == 4 || version == 6 && addr.len() == 16,
        0 <= n < address_bytes(id, version, addr, prefix).len(),
    ensures
        address_parsed(address_bytes(id, version, addr, prefix).take(n)) == Err::<
            (AddressView, Seq<u8>),
            CapsuleError,
        >(CapsuleError::BufferTooShort),
{
    let t = seq![version] + (addr + seq![prefix]);
    let all = address_bytes(id, version, addr, prefix);
    let s = all.take(n);
    let k = varint_size(id) as int;
    lemma_varint_len(id);
    lemma_varint_roundtrip(id, t);
    if n < k {
        assert(n > 0 ==> s[0] == all[0]);
        assert(varint_at(s) is None);
    } else {
        let u = t.take(n - k);
        assert(s =~= varint_bytes(id) + u);
        lemma_varint_roundtrip(id, u);
        assert(s.skip(k) =~= u);
        if u.len() > 0 {
            assert(u[0] == version);
        }
    }
}

/// A route entry is accepted exactly where its version is 4 or 6 and its first address does
/// not come after its last one; then it is what its bytes say, and what follows is left.
pub proof fn law_route_is_judged(
    version: u8,
    a: Seq<u8>,
    b: Seq<u8>,
    protocol: u8,
    rest: Seq<u8>,
)
    requires
        version == 4 ==> a.len() == 4 && b.len() == 4,
        version == 6 ==> a.len() == 16 && b.len() == 16,
    ensures
        ({
            let r = route_parsed(route_bytes(version, a, b, protocol) + rest);
            if version != 4 && version != 6 || be_value(a) > be_value(b) {
                r == Err::<(RouteView, Seq<u8>), CapsuleError>(CapsuleError::InvalidCapsule)
            } else {
                r == Ok::<(RouteView, Seq<u8>), CapsuleError>(
                    (
                        RouteView {
                            start: IpView { version, bytes: a },
                            end: IpView { version, bytes: b },
                            ip_protocol: protocol,
                        },
                        rest,
                    ),
                )
            }
        }),
{
    let s = route_bytes(version, a, b, protocol) + rest;
    let t = a + (b + (seq![protocol] + rest));
    assert(s =~= seq![version] + t);
    assert(s[0] == version);
    assert(s.skip(1) =~= t);
    if version == 4 || version == 6 {
        let n = a.len() as int;
        assert(t.take(n) =~= a);
        let u = b + (seq![protocol] + rest);
        assert(t.skip(n) =~= u);
        assert(u.take(n) =~= b);
        assert(u.skip(n) =~= seq![protocol] + rest);
        assert((seq![protocol] + rest).skip(1) =~= rest);
    }
}

/// A route entry that is cut short is refused for that.
pub proof fn law_route_cut_short(version: u8, a: Seq<u8>, b: Seq<u8>, protocol: u8, n: int)
    requires
        version == 4 && a.len() == 4 && b.len() == 4 || version == 6 && a.len() == 16 && b.len()
            == 16,
        0 <= n < route_bytes(version, a, b, protocol).len(),
    ensures
        route_parsed(route_bytes(version, a, b, protocol).take(n)) == Err::<
            (RouteView, Seq<u8>),
            CapsuleError,
        >(CapsuleError::BufferTooShort),
{
    let s = route_bytes(version, a, b, protocol).take(n);
    if n > 0 {
        assert(s[0] == version);
    }
}

/// One entry that is refused has all the entries refused, wherever it stands.
pub proof fn law_refused_address_refuses_all(
    es: Seq<AddressView>,
    bad: Seq<u8>,
    e: CapsuleError,
)
    requires
        forall|i: int| 0 <= i < es.len() ==> address_valid(#[trigger] es[i]),
        bad.len() > 0,
        address_parsed(bad) == Err::<(AddressView, Seq<u8>), CapsuleError>(e),
    ensures
        addresses_parsed(joined(addresses_fields(es)) + bad) == Err::<
            Seq<AddressView>,
            CapsuleError,
        >(e),
    decreases es.len(),
{
    if es.len() == 0 {
        assert(joined(addresses_fields(es)) + bad =~= bad);
    } else {
        let a = es[0];
        let more = es.skip(1);
        assert(es =~= seq![a] + more);
        assert forall|i: int| 0 <= i < more.len() implies address_valid(#[trigger] more[i]) by {
            assert(more[i] == es[i + 1]);
        }
        law_refused_address_refuses_all(more, bad, e);
        lemma_addresses_fields_first(a, more);
        lemma_joined_add(address_fields(a), addresses_fields(more));
        let rest = joined(addresses_fields(more)) + bad;
        lemma_address_roundtrip(a, rest);
        assert(joined(addresses_fields(es)) + bad =~= joined(address_fields(a)) + rest);
    }
}

/// One entry that is refused has all the entries refused, wherever it stands.
pub proof fn law_refused_route_refuses_all(es: Seq<RouteView>, bad: Seq<u8>, e: CapsuleError)
    requires
        forall|i: int| 0 <= i < es.len() ==> route_valid(#[trigger] es[i]),
        bad.len() > 0,
        route_parsed(bad) == Err::<(RouteView, Seq<u8>), CapsuleError>(e),
    ensures
        route_advertisement_parsed(joined(routes_fields(es)) + bad) == Err::<
            Seq<RouteView>,
            CapsuleError,
        >(e),
    decreases es.len(),
{
    if es.len() == 0 {
        assert(joined(routes_fields(es)) + bad =~= bad);
    } else {
        let a = es[0];
        let more = es.skip(1);
        assert(es =~= seq![a] + more);
        assert forall|i: int| 0 <= i < more.len() implies route_valid(#[trigger] more[i]) by {
            assert(more[i] == es[i + 1]);
        }
        law_refused_route_refuses_all(more, bad, e);
        lemma_routes_fields_first(a, more);
        lemma_joined_add(route_fields(a), routes_fields(more));
        let rest = joined(routes_fields(more)) + bad;
        lemma_route_roundtrip(a, rest);
        assert(joined(routes_fields(es)) + bad =~= joined(route_fields(a)) + rest);
        if let Ok(rs) = routes_parsed(rest) {
            let tail = route_advertisement_parsed(rest);
            assert(tail == Err::<Seq<RouteView>, CapsuleError>(e));
            lemma_unordered_tail(a, rs);
        }
    }
}

/// Where entries are out of order, they are so with one more in front of them.
proof fn lemma_unordered_tail(a: RouteView, rs: Seq<RouteView>)
    requires
        !crate::capsule::connect_ip::routes_ordered(rs),
    ensures
        !crate::capsule::connect_ip::routes_ordered(seq![a] + rs),
{
    let all = seq![a] + rs;
    let i = choose|i: int|
        0 <= i < rs.len() - 1 && !crate::capsule::connect_ip::route_precedes(
            #[trigger] rs[i],
            rs[i + 1],
        );
    assert(all[i + 1] == rs[i] && all[i + 2] == rs[i + 1]);
    assert(!crate::capsule::connect_ip::route_precedes(all[i + 1], all[i + 1 + 1]));
}

/// A request has at least one entry, and none of its entries has the ID zero.
pub proof fn law_request_is_refused(es: Seq<AddressView>)
    requires
        forall|i: int| 0 <= i < es.len() ==> address_valid(#[trigger] es[i]),
        es.len() == 0 || exists|i: int| 0 <= i < es.len() && (#[trigger] es[i]).request_id == 0,
    ensures
        address_request_parsed(joined(addresses_fields(es))) == Err::<
            Seq<AddressView>,
            CapsuleError,
        >(CapsuleError::InvalidCapsule),
{
    law_addresses_roundtrip(es);
}

/// Routes that are out of order are refused: where one has a lower version than the one
/// before it, or the same and a lower protocol, or the same of both and does not start
/// after the other's end.
pub proof fn law_unordered_routes_are_refused(es: Seq<RouteView>, i: int)
    requires
        forall|k: int| 0 <= k < es.len() ==> route_valid(#[trigger] es[k]),
        0 <= i < es.len() - 1,
        es[i + 1].start.version < es[i].start.version || (es[i + 1].start.version
            == es[i].start.version && es[i + 1].ip_protocol < es[i].ip_protocol) || (es[i
            + 1].start.version == es[i].start.version && es[i + 1].ip_protocol == es[i].ip_protocol
            && be_value(es[i + 1].start.bytes) <= be_value(es[i].end.bytes)),
    ensures
        route_advertisement_parsed(joined(routes_fields(es))) == Err::<
            Seq<RouteView>,
            CapsuleError,
        >(CapsuleError::InvalidCapsule),
{
    lemma_routes_roundtrip(es);
    assert(!crate::capsule::connect_ip::route_precedes(es[i], es[i + 1]));
}

/// Routes that are in order are accepted: where each has a higher version than the one
/// before it, or the same and a higher protocol, or the same of both and starts after the
/// other's end.
pub proof fn law_ordered_routes_are_accepted(es: Seq<RouteView>)
    requires
        forall|k: int| 0 <= k < es.len() ==> route_valid(#[trigger] es[k]),
        forall|i: int|
            0 <= i < es.len() - 1 ==> ((#[trigger] es[i]).start.version < es[i + 1].start.version
                || (es[i].start.version == es[i + 1].start.version && (es[i].ip_protocol < es[i
                + 1].ip_protocol || (es[i].ip_protocol == es[i + 1].ip_protocol && be_value(
                es[i].end.bytes,
            ) < be_value(es[i + 1].start.bytes))))),
    ensures
        route_advertisement_parsed(joined(routes_fields(es))) == Ok::<
            Seq<RouteView>,
            CapsuleError,
        >(es),
{
    lemma_routes_roundtrip(es);
}

} // verus!
