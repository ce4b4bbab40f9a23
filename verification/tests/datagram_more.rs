//! HTTP/3 datagrams: flow IDs, prefixes and the registry of sockets.

use quiche_multipath::datagram::{
    extract_flow_id, has_capsule_header_conflict, parse_decimal, split_h3_dgram, with_flow_id,
    Header, CAPSULE_PROTOCOL_HEADER_NAME, CAPSULE_PROTOCOL_HEADER_VALUE, MAX_QUARTER_STREAM_ID,
};
use quiche_multipath::error::Error;
use quiche_multipath::net::{IpAddr, SocketAddr};
use quiche_multipath::registry::SocketRegistry;
use std::sync::Arc;

fn headers(list: &[(&str, &str)]) -> Vec<Header> {
    list.iter().map(|(n, v)| Header::new(n.as_bytes(), v.as_bytes())).collect()
}

#[test]
fn names_spell_what_they_say() {
    assert_eq!(&CAPSULE_PROTOCOL_HEADER_NAME, b"capsule-protocol");
    assert_eq!(&CAPSULE_PROTOCOL_HEADER_VALUE, b"?1");
    let h = Header::new(b"name", b"value");
    assert_eq!((h.name(), h.value()), (&b"name"[..], &b"value"[..]));
}

#[test]
fn last_capsule_protocol_header_counts() {
    let conflict = |l: &[(&str, &str)]| has_capsule_header_conflict(&headers(l));
    assert!(conflict(&[("content-type", "x"), ("capsule-protocol", "?1")]));
    assert!(!conflict(&[("capsule-protocol", "?1"), ("content-type", "x"), ("capsule-protocol", "?0")]));
    assert!(conflict(&[("capsule-protocol", "?0"), ("transfer-encoding", "x"), ("capsule-protocol", "?1")]));
    assert!(!conflict(&[("Content-Type", "x"), ("capsule-protocol", "?1")]));
    assert!(!conflict(&[]));
}

#[test]
fn flow_ids_of_proxy_requests() {
    let flow = |l: &[(&str, &str)]| extract_flow_id(44, &headers(l));
    assert_eq!(flow(&[(":method", "CONNECT-UDP"), ("datagram-flow-id", "17")]), Some(17));
    assert_eq!(flow(&[("datagram-flow-id", "17"), (":method", "CONNECT-UDP")]), Some(17));
    assert_eq!(flow(&[(":method", "CONNECT"), (":protocol", "connect-udp")]), Some(11));
    assert_eq!(flow(&[(":method", "CONNECT"), (":protocol", "websocket")]), None);
    assert_eq!(flow(&[(":method", "GET"), ("datagram-flow-id", "17")]), None);
    assert_eq!(flow(&[(":method", "CONNECT-UDP")]), None);
    assert_eq!(flow(&[]), None);
}

#[test]
fn headers_after_enough_are_ignored() {
    let flow = |l: &[(&str, &str)]| extract_flow_id(44, &headers(l));
    // The first two tell enough.
    assert_eq!(
        flow(&[(":method", "CONNECT"), (":protocol", "connect-udp"), (":method", "GET")]),
        Some(11),
    );
    // A protocol stops the search for a flow ID.
    assert_eq!(
        flow(&[(":method", "CONNECT-UDP"), (":protocol", "x"), ("datagram-flow-id", "3")]),
        None,
    );
    // A flow ID that is none does not stop it, and replaces an earlier one.
    assert_eq!(
        flow(&[("datagram-flow-id", "5"), ("datagram-flow-id", "x"), (":method", "CONNECT-UDP")]),
        None,
    );
    assert_eq!(
        flow(&[("datagram-flow-id", "x"), (":method", "CONNECT-UDP"), ("datagram-flow-id", "5")]),
        Some(5),
    );
}

#[test]
fn decimal_numbers() {
    for s in [
        "", "+", "-", "-0", " 1", "1 ", "++1", "0x1", "18446744073709551616", "99999999999999999999",
        "1_0", "+00000000000000000000", "007", "+9", "18446744073709551615",
    ] {
        assert_eq!(parse_decimal(s.as_bytes()), s.parse::<u64>().ok(), "{s}");
    }
    assert_eq!(parse_decimal(&[0xff, 0xfe]), None);
}

#[test]
fn datagrams_come_back_with_their_flow_id() {
    for id in [0, 63, 64, 16384, 1 << 40, MAX_QUARTER_STREAM_ID] {
        let dgram = with_flow_id(id, &[1, 2, 3]);
        assert_eq!(split_h3_dgram(&dgram), Ok((id, vec![1, 2, 3])));
    }
    assert_eq!(with_flow_id(64, &[9]), vec![0x40, 64, 9]);
    assert_eq!(split_h3_dgram(&with_flow_id(7, &[])), Ok((7, vec![])));
}

#[test]
fn invalid_datagrams_are_refused() {
    assert_eq!(split_h3_dgram(&[]), Err(Error::InvalidFrame));
    assert_eq!(split_h3_dgram(&[0x40]), Err(Error::InvalidFrame));
    let dgram = with_flow_id(MAX_QUARTER_STREAM_ID + 1, &[1]);
    assert_eq!(split_h3_dgram(&dgram), Err(Error::InvalidFrame));
}

#[test]
fn socket_addresses_are_equal_by_all_parts() {
    let a = SocketAddr { ip: IpAddr::V6([1; 16]), port: 1, flowinfo: 2, scope_id: 3 };
    assert_eq!(a, a);
    assert_ne!(a, SocketAddr { port: 2, ..a });
    assert_ne!(a, SocketAddr { flowinfo: 0, ..a });
    assert_ne!(a, SocketAddr { scope_id: 0, ..a });
    assert_ne!(a, SocketAddr { ip: IpAddr::V6([2; 16]), ..a });
    assert_ne!(SocketAddr::v4([1; 4], 1), SocketAddr { ip: IpAddr::V6([1; 16]), port: 1, flowinfo: 0, scope_id: 0 });
}

#[test]
fn registering_again_replaces_the_socket() {
    let mut registry = SocketRegistry::new(Arc::new(0));
    let a = SocketAddr::v4([10, 0, 0, 1], 1);
    let b = SocketAddr::v4([10, 0, 0, 2], 1);
    registry.insert(a, Arc::new(1));
    registry.insert(b, Arc::new(2));
    registry.insert(a, Arc::new(3));
    assert_eq!((**registry.get(&a), **registry.get(&b)), (3, 2));
    assert_eq!(registry.local_addrs().len(), 2);
    assert_eq!(registry.remove(&a).as_deref(), Some(&3));
    assert_eq!(registry.remove(&a), None);
    assert_eq!((**registry.get(&a), **registry.get(&b)), (0, 2));
}

#[test]
fn sockets_may_be_unsized() {
    let mut registry: SocketRegistry<str> = SocketRegistry::new(Arc::from("default"));
    let a = SocketAddr::v4([10, 0, 0, 1], 1);
    registry.insert(a, Arc::from("other"));
    assert_eq!(&**registry.get(&a), "other");
    assert_eq!(&**registry.get(&SocketAddr::v4([10, 0, 0, 1], 2)), "default");
}
