//! What is encoded in a CONNECT-IP capsule is what is decoded from it.

use crate::buffer::{joined, lemma_joined_add, lemma_joined_one};
use crate::capsule::connect_ip::{
    address_fields, address_parsed, address_request_parsed, addresses_fields,
    addresses_len, addresses_parsed, ip_parsed, prefix_is_clean, route_advertisement_parsed,
    route_fields, route_parsed, routes_fields, routes_len, routes_ordered, routes_parsed,
    AddressView, RouteView,
};
use crate::capsule::CapsuleError;
use crate::net::{addr_len, IpView};
use crate::varint::{
    lemma_varint_len, lemma_varint_roundtrip, varint_bytes, varint_size, MAX_VAR_INT,
};
use vstd::prelude::*;

verus! {

/// An address entry that a decoder accepts.
pub open spec fn address_valid(e: AddressView) -> bool {
    &&& e.request_id <= MAX_VAR_INT
    &&& e.ip.valid()
    &&& e.prefix_length <= e.ip.bits()
    &&& prefix_is_clean(e.ip, e.prefix_length)
}

/// A route entry that a decoder accepts.
pub open spec fn route_valid(e: RouteView) -> bool {
    &&& e.start.valid()
    &&& e.end.valid()
    &&& e.start.version == e.end.version
    &&& e.start.value() <= e.end.value()
}

/// The fields of the first entry come first.
pub proof fn lemma_addresses_fields_first(a: AddressView, es: Seq<AddressView>)
    ensures
        addresses_fields(seq![a] + es) == address_fields(a) + addresses_fields(es),
    decreases es.len(),
{
    let all = seq![a] + es;
    if es.len() == 0 {
        assert(all.drop_last() =~= Seq::empty());
        assert(all.last() == a);
        assert(addresses_fields(all.drop_last()) =~= Seq::empty());
        assert(addresses_fields(all) =~= address_fields(a) + addresses_fields(es));
    } else {
        lemma_addresses_fields_first(a, es.drop_last());
        assert(all.drop_last() =~= seq![a] + es.drop_last());
        assert(all.last() == es.last());
        assert(addresses_fields(all) =~= address_fields(a) + addresses_fields(es));
    }
}

/// The fields of the first entry come first.
pub proof fn lemma_routes_fields_first(a: RouteView, es: Seq<RouteView>)
    ensures
        routes_fields(seq![a] + es) == route_fields(a) + routes_fields(es),
    decreases es.len(),
{
    let all = seq![a] + es;
    if es.len() == 0 {
        assert(all.drop_last() =~= Seq::empty());
        assert(all.last() == a);
        assert(routes_fields(all.drop_last()) =~= Seq::empty());
        assert(routes_fields(all) =~= route_fields(a) + routes_fields(es));
    } else {
        lemma_routes_fields_first(a, es.drop_last());
        assert(all.drop_last() =~= seq![a] + es.drop_last());
        assert(all.last() == es.last());
        assert(routes_fields(all) =~= route_fields(a) + routes_fields(es));
    }
}

/// Four fields one after the other.
pub proof fn lemma_joined_four(a: Seq<u8>, b: Seq<u8>, c: Seq<u8>, d: Seq<u8>)
    ensures
        joined(seq![a, b, c, d]) == a + (b + (c + d)),
{
    assert(seq![a, b, c, d] =~= seq![a] + (seq![b] + (seq![c] + seq![d])));
    lemma_joined_add(seq![a], seq![b] + (seq![c] + seq![d]));
    lemma_joined_add(seq![b], seq![c] + seq![d]);
    lemma_joined_add(seq![c], seq![d]);
    lemma_joined_one(a);
    lemma_joined_one(b);
    lemma_joined_one(c);
    lemma_joined_one(d);
}

/// An address is read back.
proof fn lemma_ip_roundtrip(ip: IpView, rest: Seq<u8>)
    requires
        ip.valid(),
    ensures
        ip_parsed(ip.bytes + rest, ip.version) == Ok::<(IpView, Seq<u8>), CapsuleError>((ip, rest)),
{
    let n = addr_len(ip.version) as int;
    assert((ip.bytes + rest).take(n) =~= ip.bytes);
    assert((ip.bytes + rest).skip(n) =~= rest);
}

/// An address entry is read back.
pub proof fn lemma_address_roundtrip(e: AddressView, rest: Seq<u8>)
    requires
        address_valid(e),
    ensures
        address_parsed(joined(address_fields(e)) + rest) == Ok::<
            (AddressView, Seq<u8>),
            CapsuleError,
        >((e, rest)),
        joined(address_fields(e)).len() == varint_size(e.request_id) + addr_len(e.ip.version) + 2,
{
    let id = varint_bytes(e.request_id);
    let v = seq![e.ip.version];
    let p = seq![e.prefix_length];
    lemma_joined_four(id, v, e.ip.bytes, p);
    lemma_varint_len(e.request_id);
    let s = joined(address_fields(e)) + rest;
    let t = v + (e.ip.bytes + (p + rest));
    assert(s =~= id + t);
    lemma_varint_roundtrip(e.request_id, t);
    assert(s.skip(varint_size(e.request_id) as int) =~= t);
    assert(t[0] == e.ip.version);
    assert(t.skip(1) =~= e.ip.bytes + (p + rest));
    lemma_ip_roundtrip(e.ip, p + rest);
    assert((p + rest)[0] == e.prefix_length);
    assert((p + rest).skip(1) =~= rest);
}

/// A route entry is read back.
pub proof fn lemma_route_roundtrip(e: RouteView, rest: Seq<u8>)
    requires
        route_valid(e),
    ensures
        route_parsed(joined(route_fields(e)) + rest) == Ok::<(RouteView, Seq<u8>), CapsuleError>(
            (e, rest),
        ),
        joined(route_fields(e)).len() == 2 * addr_len(e.start.version) + 2,
{
    let v = seq![e.start.version];
    let p = seq![e.ip_protocol];
    lemma_joined_four(v, e.start.bytes, e.end.bytes, p);
    let s = joined(route_fields(e)) + rest;
    let t = e.start.bytes + (e.end.bytes + (p + rest));
    assert(s =~= v + t);
    assert(s[0] == e.start.version);
    assert(s.skip(1) =~= t);
    lemma_ip_roundtrip(e.start, e.end.bytes + (p + rest));
    lemma_ip_roundtrip(e.end, p + rest);
    assert((p + rest)[0] == e.ip_protocol);
    assert((p + rest).skip(1) =~= rest);
}

/// The length in the header of an address capsule is the length of its value.
pub proof fn law_address_capsule_length(es: Seq<AddressView>)
    requires
        forall|i: int| 0 <= i < es.len() ==> (#[trigger] es[i]).ip.valid(),
    ensures
        joined(addresses_fields(es)).len() == addresses_len(es),
    decreases es.len(),
{
    if es.len() > 0 {
        let front = es.drop_last();
        let e = es.last();
        assert(es[es.len() - 1] == e);
        assert forall|i: int| 0 <= i < front.len() implies (#[trigger] front[i]).ip.valid() by {
            assert(front[i] == es[i]);
        }
        law_address_capsule_length(front);
        lemma_joined_add(addresses_fields(front), address_fields(e));
        lemma_varint_len(e.request_id);
        lemma_joined_four(
            varint_bytes(e.request_id),
            seq![e.ip.version],
            e.ip.bytes,
            seq![e.prefix_length],
        );
    }
}

/// The length in the header of a route capsule is the length of its value.
pub proof fn law_route_capsule_length(es: Seq<RouteView>)
    requires
        forall|i: int|
            0 <= i < es.len() ==> (#[trigger] es[i]).start.valid() && es[i].end.valid()
                && es[i].start.version == es[i].end.version,
    ensures
        joined(routes_fields(es)).len() == routes_len(es),
    decreases es.len(),
{
    if es.len() > 0 {
        let front = es.drop_last();
        let e = es.last();
        assert(es[es.len() - 1] == e);
        assert forall|i: int| 0 <= i < front.len() implies (#[trigger] front[i]).start.valid()
            && front[i].end.valid() && front[i].start.version == front[i].end.version by {
            assert(front[i] == es[i]);
        }
        law_route_capsule_length(front);
        lemma_joined_add(routes_fields(front), route_fields(e));
        lemma_joined_four(
            seq![e.start.version],
            e.start.bytes,
            e.end.bytes,
            seq![e.ip_protocol],
        );
    }
}

/// Decoding the value of an address capsule gives back the entries.
pub proof fn law_addresses_roundtrip(es: Seq<AddressView>)
    requires
        forall|i: int| 0 <= i < es.len() ==> address_valid(#[trigger] es[i]),
    ensures
        addresses_parsed(joined(addresses_fields(es))) == Ok::<Seq<AddressView>, CapsuleError>(es),
    decreases es.len(),
{
    if es.len() == 0 {
        assert(joined(addresses_fields(es)) =~= Seq::empty());
        assert(es =~= Seq::empty());
    } else {
        let a = es[0];
        let rest = es.skip(1);
        assert(es =~= seq![a] + rest);
        assert forall|i: int| 0 <= i < rest.len() implies address_valid(#[trigger] rest[i]) by {
            assert(rest[i] == es[i + 1]);
        }
        law_addresses_roundtrip(rest);
        lemma_addresses_fields_first(a, rest);
        lemma_joined_add(address_fields(a), addresses_fields(rest));
        lemma_address_roundtrip(a, joined(addresses_fields(rest)));
    }
}

/// Decoding the value of a request gives back its entries.
pub proof fn law_address_request_roundtrip(es: Seq<AddressView>)
    requires
        es.len() > 0,
        forall|i: int|
            0 <= i < es.len() ==> address_valid(#[trigger] es[i]) && es[i].request_id != 0,
    ensures
        address_request_parsed(joined(addresses_fields(es))) == Ok::<
            Seq<AddressView>,
            CapsuleError,
        >(es),
{
    law_addresses_roundtrip(es);
}

/// Route entries are read back.
pub proof fn lemma_routes_roundtrip(es: Seq<RouteView>)
    requires
        forall|i: int| 0 <= i < es.len() ==> route_valid(#[trigger] es[i]),
    ensures
        routes_parsed(joined(routes_fields(es))) == Ok::<Seq<RouteView>, CapsuleError>(es),
    decreases es.len(),
{
    if es.len() == 0 {
        assert(joined(routes_fields(es)) =~= Seq::empty());
        assert(es =~= Seq::empty());
    } else {
        let a = es[0];
        let rest = es.skip(1);
        assert(es =~= seq![a] + rest);
        assert forall|i: int| 0 <= i < rest.len() implies route_valid(#[trigger] rest[i]) by {
            assert(rest[i] == es[i + 1]);
        }
        lemma_routes_roundtrip(rest);
        lemma_routes_fields_first(a, rest);
        lemma_joined_add(route_fields(a), routes_fields(rest));
        lemma_route_roundtrip(a, joined(routes_fields(rest)));
    }
}

/// Decoding the value of a route capsule gives back the entries, where each may
/// follow the one before it.
pub proof fn law_routes_roundtrip(es: Seq<RouteView>)
    requires
        forall|i: int| 0 <= i < es.len() ==> route_valid(#[trigger] es[i]),
        routes_ordered(es),
    ensures
        route_advertisement_parsed(joined(routes_fields(es))) == Ok::<
            Seq<RouteView>,
            CapsuleError,
        >(es),
{
    lemma_routes_roundtrip(es);
}

/// What a decoder accepts: every entry is valid, and a prefix covers all the
/// bits that are set.
pub proof fn law_decoded_addresses_are_valid(s: Seq<u8>)
    ensures
        addresses_parsed(s) matches Ok(es) ==> forall|i: int|
            0 <= i < es.len() ==> address_valid(#[trigger] es[i]),
    decreases s.len(),
{
    if s.len() > 0 {
        if let Ok((a, rest)) = address_parsed(s) {
            if rest.len() < s.len() {
                law_decoded_addresses_are_valid(rest);
                crate::varint::lemma_varint_bounded(s);
                if let Ok(more) = addresses_parsed(rest) {
                    let es = seq![a] + more;
                    assert forall|i: int| 0 <= i < es.len() implies address_valid(
                        #[trigger] es[i],
                    ) by {
                        if i > 0 {
                            assert(es[i] == more[i - 1]);
                        }
                    }
                }
            }
        }
    }
}

/// Route entries that were decoded do not overlap: of two of the same version
/// and protocol, the later one starts after the earlier one ends.
pub proof fn law_decoded_routes_do_not_overlap(es: Seq<RouteView>, i: int, j: int)
    requires
        forall|k: int| 0 <= k < es.len() ==> route_valid(#[trigger] es[k]),
        routes_ordered(es),
        0 <= i < j < es.len(),
        es[i].start.version == es[j].start.version,
        es[i].ip_protocol == es[j].ip_protocol,
    ensures
        es[i].end.value() < es[j].start.value(),
    decreases j - i,
{
    assert(crate::capsule::connect_ip::route_precedes(es[j - 1], es[j - 1 + 1]));
    if i < j - 1 {
        lemma_order_is_monotonic(es, i, j - 1);
        law_decoded_routes_do_not_overlap(es, i, j - 1);
        assert(route_valid(es[j - 1]));
    }
}

/// Versions do not decrease, and for the same version protocols do not.
proof fn lemma_order_is_monotonic(es: Seq<RouteView>, i: int, j: int)
    requires
        routes_ordered(es),
        0 <= i <= j < es.len(),
    ensures
        es[i].start.version <= es[j].start.version,
        es[i].start.version == es[j].start.version ==> es[i].ip_protocol <= es[j].ip_protocol,
    decreases j - i,
{
    if i < j {
        assert(crate::capsule::connect_ip::route_precedes(es[j - 1], es[j - 1 + 1]));
        lemma_order_is_monotonic(es, i, j - 1);
    }
}

} // verus!
