//! Capsules: exact bytes, chunks and errors.

use quiche_multipath::capsule::connect_ip::{
    decode_address_assign, decode_address_request, decode_route_advertisement,
    encode_address_assign, encode_address_request, encode_route_advertisement, AddressEntry,
    RouteEntry,
};
use quiche_multipath::capsule::parser::{CapsuleEvent, CapsuleParser, ParseState};
use quiche_multipath::capsule::{encode_capsule, encode_capsule_header, CapsuleError};
use quiche_multipath::net::IpAddr;

/// Feeds all of `data`, and returns the types of the capsules that were completed
/// and the number of value bytes.
fn feed(parser: &mut CapsuleParser, data: &[u8]) -> (Vec<u64>, usize) {
    let mut done = Vec::new();
    let mut bytes = 0;
    let mut off = 0;
    while off < data.len() {
        let in_value = *parser.state() == ParseState::Value;
        let (event, consumed) = parser.parse(&data[off..]).unwrap();
        assert!(consumed > 0);
        if in_value {
            bytes += consumed;
        }
        off += consumed;
        if event == CapsuleEvent::Done {
            done.push(parser.capsule_type());
        }
    }
    (done, bytes)
}

#[test]
fn header_has_exact_bytes() {
    let mut buf = [0xee; 8];
    assert_eq!(encode_capsule_header(&mut buf, 0x40, 5), Ok(3));
    assert_eq!(buf, [0x40, 0x40, 5, 0xee, 0xee, 0xee, 0xee, 0xee]);
    assert_eq!(encode_capsule(&mut buf, 1, &[7, 8]), Ok(4));
    assert_eq!(buf, [1, 2, 7, 8, 0xee, 0xee, 0xee, 0xee]);
}

#[test]
fn short_buffers_keep_what_found_room() {
    let mut buf = [0xee; 3];
    assert_eq!(encode_capsule(&mut buf, 1, &[7, 8]), Err(CapsuleError::BufferTooShort));
    assert_eq!(buf, [1, 2, 0xee]);
    assert_eq!(encode_capsule(&mut [], 1, &[]), Err(CapsuleError::BufferTooShort));
}

#[test]
fn chunks_do_not_matter() {
    let mut stream = Vec::new();
    for (ty, len) in [(0x40, 0), (1, 3), (0x4000, 70), (2, 1)] {
        let mut buf = [0; 100];
        let n = encode_capsule(&mut buf, ty, &vec![5; len]).unwrap();
        stream.extend_from_slice(&buf[..n]);
    }
    let want = (vec![0x40, 1, 0x4000, 2], 74);
    let mut whole = CapsuleParser::new();
    assert_eq!(feed(&mut whole, &stream), want);
    for cut in 0..=stream.len() {
        let mut parser = CapsuleParser::default();
        let (mut done, mut bytes) = feed(&mut parser, &stream[..cut]);
        let (more, rest) = feed(&mut parser, &stream[cut..]);
        done.extend(more);
        bytes += rest;
        assert_eq!((done, bytes), want, "{cut}");
        assert!(!parser.is_in_progress());
    }
    let mut parser = CapsuleParser::new();
    let mut done = Vec::new();
    for b in &stream {
        done.extend(feed(&mut parser, &[*b]).0);
    }
    assert_eq!(done, want.0);
}

#[test]
fn reset_forgets_a_partial_capsule() {
    let mut parser = CapsuleParser::new();
    assert_eq!(parser.parse(&[0x40]), Ok((CapsuleEvent::Pending, 1)));
    assert!(parser.is_in_progress());
    parser.reset();
    assert!(!parser.is_in_progress());
    assert_eq!(parser.parse(&[3]), Ok((CapsuleEvent::Pending, 1)));
    assert_eq!(
        parser.parse(&[2, 9]),
        Ok((CapsuleEvent::Header { capsule_type: 3, value_len: 2 }, 1)),
    );
    assert_eq!(parser.remaining(), 2);
    assert_eq!(parser.parse(&[9]), Ok((CapsuleEvent::ValueChunk { offset: 0, len: 1 }, 1)));
    assert_eq!(parser.remaining(), 1);
    assert_eq!(parser.parse(&[9, 9]), Ok((CapsuleEvent::Done, 1)));
    assert_eq!(parser.parse(&[]), Ok((CapsuleEvent::Pending, 0)));
}

#[test]
fn address_capsule_has_exact_bytes() {
    let entries = [AddressEntry {
        request_id: 64,
        ip_prefix: IpAddr::V4([10, 1, 0, 0]),
        prefix_length: 16,
    }];
    let mut buf = [0; 16];
    assert_eq!(encode_address_assign(&mut buf, &entries), Ok(10));
    assert_eq!(buf[..10], [1, 8, 0x40, 64, 4, 10, 1, 0, 0, 16]);
    assert_eq!(decode_address_assign(&buf[2..10]), Ok(entries.to_vec()));
    assert_eq!(encode_address_request(&mut buf, &entries), Ok(10));
    assert_eq!(buf[0], 2);
    assert_eq!(decode_address_request(&buf[2..10]), Ok(entries.to_vec()));
    for n in 0..10 {
        let r = encode_address_assign(&mut vec![0; n], &entries);
        assert_eq!(r, Err(CapsuleError::BufferTooShort));
    }
}

#[test]
fn address_errors() {
    let short = Err(CapsuleError::BufferTooShort);
    let invalid = Err(CapsuleError::InvalidCapsule);
    assert_eq!(decode_address_assign(&[]), Ok(vec![]));
    assert_eq!(decode_address_request(&[]), invalid);
    assert_eq!(decode_address_request(&[0, 4, 1, 2, 3, 4, 32]), invalid);
    let whole = [1, 4, 1, 2, 3, 4, 32];
    for n in 1..whole.len() {
        assert_eq!(decode_address_assign(&whole[..n]), short, "{n}");
    }
    // An unknown version, a prefix that is too long, and one that is not clean.
    assert_eq!(decode_address_assign(&[1, 5, 1, 2, 3, 4, 32]), invalid);
    assert_eq!(decode_address_assign(&[1, 4, 1, 2, 3, 4, 33]), invalid);
    assert_eq!(decode_address_assign(&[1, 4, 128, 0, 0, 0, 0]), invalid);
    assert!(decode_address_assign(&[1, 4, 128, 0, 0, 0, 1]).is_ok());
    assert!(decode_address_assign(&[1, 4, 0, 0, 0, 0, 0]).is_ok());
    // The second entry counts too.
    assert_eq!(decode_address_assign(&[1, 4, 1, 2, 3, 4, 32, 1]), short);
}

#[test]
fn ipv6_prefixes() {
    let mut entry = vec![1, 6];
    let mut ip = [0; 16];
    ip[0] = 0x20;
    entry.extend_from_slice(&ip);
    entry.push(3);
    assert_eq!(
        decode_address_assign(&entry),
        Ok(vec![AddressEntry { request_id: 1, ip_prefix: IpAddr::V6(ip), prefix_length: 3 }]),
    );
    entry[18] = 2;
    assert_eq!(decode_address_assign(&entry), Err(CapsuleError::InvalidCapsule));
    entry[18] = 129;
    assert_eq!(decode_address_assign(&entry), Err(CapsuleError::InvalidCapsule));
    entry[18] = 128;
    assert!(decode_address_assign(&entry).is_ok());
}

fn route(start: [u8; 4], end: [u8; 4], ip_protocol: u8) -> RouteEntry {
    RouteEntry { start_ip: IpAddr::V4(start), end_ip: IpAddr::V4(end), ip_protocol }
}

#[test]
fn route_capsule_has_exact_bytes() {
    let routes = [route([1, 0, 0, 0], [1, 0, 0, 9], 6), route([1, 0, 0, 10], [1, 0, 0, 11], 6)];
    let mut buf = [0; 32];
    let n = encode_route_advertisement(&mut buf, &routes).unwrap();
    assert_eq!(n, 22);
    assert_eq!(buf[..12], [3, 20, 4, 1, 0, 0, 0, 1, 0, 0, 9, 6]);
    assert_eq!(decode_route_advertisement(&buf[2..n]), Ok(routes.to_vec()));
    assert_eq!(decode_route_advertisement(&[]), Ok(vec![]));
    assert_eq!(decode_route_advertisement(&buf[2..n - 1]), Err(CapsuleError::BufferTooShort));
    assert_eq!(decode_route_advertisement(&[7]), Err(CapsuleError::InvalidCapsule));
}

#[test]
fn routes_of_mixed_versions_are_refused() {
    let mixed = RouteEntry {
        start_ip: IpAddr::V4([1, 0, 0, 0]),
        end_ip: IpAddr::V6([0; 16]),
        ip_protocol: 0,
    };
    let mut buf = [0xee; 64];
    let r = encode_route_advertisement(&mut buf, &[route([1; 4], [1; 4], 0), mixed]);
    assert_eq!(r, Err(CapsuleError::InvalidCapsule));
    assert_eq!(buf, [0xee; 64]);
}

#[test]
fn routes_are_ordered() {
    let decode = |routes: &[RouteEntry]| {
        let mut buf = [0; 64];
        let n = encode_route_advertisement(&mut buf, routes).unwrap();
        decode_route_advertisement(&buf[2..n])
    };
    let a = route([1, 0, 0, 0], [1, 0, 0, 9], 6);
    let b = route([1, 0, 0, 9], [1, 0, 0, 20], 6);
    let c = route([0, 0, 0, 0], [0, 0, 0, 1], 7);
    assert_eq!(decode(&[a, b]), Err(CapsuleError::InvalidCapsule));
    assert_eq!(decode(&[c, a]), Err(CapsuleError::InvalidCapsule));
    assert_eq!(decode(&[a, c]), Ok(vec![a, c]));
    assert_eq!(decode(&[route([2; 4], [1; 4], 0)]), Err(CapsuleError::InvalidCapsule));
}

#[test]
fn octets_errors_become_capsule_errors() {
    assert_eq!(CapsuleError::from(octets::BufferTooShortError), CapsuleError::BufferTooShort);
}

#[test]
fn capsule_is_reported_in_order_however_it_is_cut() {
    let mut buf = [0; 100];
    let n = encode_capsule(&mut buf, 0x4000, &[5; 70]).unwrap();
    for size in 1..=n {
        let mut parser = CapsuleParser::new();
        let mut reports = Vec::new();
        for piece in buf[..n].chunks(size) {
            let mut off = 0;
            while off < piece.len() {
                let (event, consumed) = parser.parse(&piece[off..]).unwrap();
                off += consumed;
                if event != CapsuleEvent::Pending {
                    reports.push((event, consumed));
                }
            }
        }
        let header = CapsuleEvent::Header { capsule_type: 0x4000, value_len: 70 };
        assert_eq!(reports[0].0, header, "{size}");
        let last = reports.len() - 1;
        assert_eq!(reports[last].0, CapsuleEvent::Done);
        for (event, consumed) in &reports[1..last] {
            assert_eq!(*event, CapsuleEvent::ValueChunk { offset: 0, len: *consumed });
        }
        let total: usize = reports[1..].iter().map(|(_, consumed)| consumed).sum();
        assert_eq!(total, 70);
    }
}
