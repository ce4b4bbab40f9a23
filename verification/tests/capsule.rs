//! Capsules.

use quiche_multipath::capsule::connect_ip::{
    decode_address_assign, decode_address_request, decode_route_advertisement,
    encode_address_assign, encode_address_request, encode_route_advertisement, AddressEntry,
    IP_VERSION_4,
    RouteEntry,
};
use quiche_multipath::capsule::parser::{CapsuleEvent, CapsuleParser, ParseState};
use quiche_multipath::capsule::{
    encode_capsule, encode_capsule_header, CapsuleError, ADDRESS_ASSIGN_CAPSULE,
    ADDRESS_REQUEST_CAPSULE, DATAGRAM_CAPSULE, ROUTE_ADVERTISEMENT_CAPSULE,
};
use quiche_multipath::net::IpAddr;

/// The bytes of an IPv6 address.
fn v6(segments: [u16; 8]) -> [u8; 16] {
    let mut bytes = [0; 16];
    for i in 0..8 {
        bytes[2 * i] = (segments[i] >> 8) as u8;
        bytes[2 * i + 1] = (segments[i] & 0xff) as u8;
    }
    bytes
}

#[test]
fn capsule_header_encode_decode() {
    let mut buf = [0u8; 64];

    let written =
        encode_capsule_header(&mut buf, DATAGRAM_CAPSULE, 10).unwrap();

    // Type 0x00 = 1 byte varint, length 10 = 1 byte varint.
    assert_eq!(written, 2);

    let mut b = octets::Octets::with_slice(&buf[..written]);
    let capsule_type = b.get_varint().unwrap();
    let value_len = b.get_varint().unwrap();
    assert_eq!(capsule_type, DATAGRAM_CAPSULE);
    assert_eq!(value_len, 10);
}

#[test]
fn capsule_header_large_values() {
    let mut buf = [0u8; 64];

    // Use values that require multi-byte varints.
    let ctype = 0x1000;
    let vlen = 0x4000_0000;

    let written = encode_capsule_header(&mut buf, ctype, vlen).unwrap();

    let mut b = octets::Octets::with_slice(&buf[..written]);
    assert_eq!(b.get_varint().unwrap(), ctype);
    assert_eq!(b.get_varint().unwrap(), vlen);
}

#[test]
fn capsule_header_buffer_too_short() {
    let mut buf = [0u8; 1];

    // Type fits (1 byte) but length (10 = 1 byte) won't fit.
    let result = encode_capsule_header(&mut buf, 0x00, 10);
    assert!(result.is_err());
}

#[test]
fn full_capsule_roundtrip() {
    let mut buf = [0u8; 128];
    let value = b"hello capsule";

    let written =
        encode_capsule(&mut buf, DATAGRAM_CAPSULE, value).unwrap();

    // Header: type(1) + length(1) + value(13) = 15.
    assert_eq!(written, 2 + value.len());

    let mut b = octets::Octets::with_slice(&buf[..written]);
    let capsule_type = b.get_varint().unwrap();
    let value_len = b.get_varint().unwrap();
    assert_eq!(capsule_type, DATAGRAM_CAPSULE);
    assert_eq!(value_len, value.len() as u64);

    let payload = b.get_bytes(value_len as usize).unwrap();
    assert_eq!(payload.as_ref(), value);
}

#[test]
fn full_capsule_empty_value() {
    let mut buf = [0u8; 64];

    let written = encode_capsule(&mut buf, 0xFF, &[]).unwrap();

    let mut b = octets::Octets::with_slice(&buf[..written]);
    let capsule_type = b.get_varint().unwrap();
    let value_len = b.get_varint().unwrap();
    assert_eq!(capsule_type, 0xFF);
    assert_eq!(value_len, 0);
    assert_eq!(b.cap(), 0);
}

#[test]
fn parser_complete_data() {
    let mut buf = [0u8; 128];
    let value = b"test data";
    let written =
        encode_capsule(&mut buf, DATAGRAM_CAPSULE, value).unwrap();

    let mut parser = CapsuleParser::new();
    let data = &buf[..written];

    // First parse should consume the type varint and return Pending
    // (type alone doesn't produce a header event).
    let (event, consumed1) = parser.parse(data).unwrap();
    assert_eq!(event, CapsuleEvent::Pending);
    assert!(consumed1 > 0);

    // Second parse should consume the length varint and return Header.
    let (event, consumed2) = parser.parse(&data[consumed1..]).unwrap();
    assert_eq!(
        event,
        CapsuleEvent::Header {
            capsule_type: DATAGRAM_CAPSULE,
            value_len: value.len() as u64,
        }
    );

    // Third parse should consume the value and return Done.
    let off = consumed1 + consumed2;
    let (event, consumed3) = parser.parse(&data[off..]).unwrap();
    assert_eq!(event, CapsuleEvent::Done);
    assert_eq!(consumed3, value.len());
    assert_eq!(off + consumed3, written);
}

#[test]
fn parser_chunked_data() {
    let mut buf = [0u8; 128];
    let value = b"chunked";
    let written =
        encode_capsule(&mut buf, DATAGRAM_CAPSULE, value).unwrap();

    let mut parser = CapsuleParser::new();

    // Feed one byte at a time.
    let mut pos = 0;
    let mut saw_header = false;
    let mut saw_done = false;
    let mut _value_bytes = 0;

    while pos < written {
        let (event, consumed) =
            parser.parse(&buf[pos..pos + 1]).unwrap();
        pos += consumed;

        match event {
            CapsuleEvent::Pending => {},

            CapsuleEvent::Header {
                capsule_type,
                value_len,
            } => {
                assert_eq!(capsule_type, DATAGRAM_CAPSULE);
                assert_eq!(value_len, value.len() as u64);
                saw_header = true;
            },

            CapsuleEvent::ValueChunk { len, .. } => {
                _value_bytes += len;
            },

            CapsuleEvent::Done => {
                // Done also accounts for the last value byte consumed.
                saw_done = true;
            },
        }
    }

    assert!(saw_header);
    assert!(saw_done);
}

#[test]
fn parser_zero_length_capsule() {
    let mut buf = [0u8; 64];
    // Use type 0x00 which is a 1-byte varint so the test is
    // straightforward.
    let written = encode_capsule(&mut buf, 0x00, &[]).unwrap();
    assert_eq!(written, 2); // type(1) + length(1)

    let mut parser = CapsuleParser::new();

    // Feed the type byte.
    let (event, c1) = parser.parse(&buf[..1]).unwrap();
    assert_eq!(event, CapsuleEvent::Pending);
    assert_eq!(c1, 1);

    // Feed the length byte (0). Zero-length value goes straight to
    // Done without emitting a Header event.
    let (event, c2) = parser.parse(&buf[c1..written]).unwrap();
    assert_eq!(event, CapsuleEvent::Done);
    assert_eq!(c1 + c2, written);
}

#[test]
fn parser_zero_length_capsule_multipart() {
    let mut buf = [0u8; 64];
    // Use a type that needs a 2-byte varint to exercise partial
    // buffering together with zero-length value.
    let written = encode_capsule(&mut buf, 0x42, &[]).unwrap();

    let mut parser = CapsuleParser::new();
    let mut pos = 0;
    let mut saw_done = false;

    // Feed one byte at a time.
    while pos < written {
        let (event, consumed) =
            parser.parse(&buf[pos..pos + 1]).unwrap();
        pos += consumed;
        if event == CapsuleEvent::Done {
            saw_done = true;
        }
    }

    assert!(saw_done);
    assert_eq!(pos, written);
}

#[test]
fn parser_multiple_capsules() {
    let mut buf = [0u8; 256];
    let v1 = b"first";
    let v2 = b"second";

    let w1 = encode_capsule(&mut buf, 0x01, v1).unwrap();
    let w2 = encode_capsule(&mut buf[w1..], 0x02, v2).unwrap();
    let total = w1 + w2;

    let mut parser = CapsuleParser::new();
    let mut pos = 0;
    let mut capsule_count = 0;

    while pos < total {
        let (event, consumed) =
            parser.parse(&buf[pos..total]).unwrap();
        pos += consumed;

        if event == CapsuleEvent::Done {
            capsule_count += 1;
        }
    }

    assert_eq!(capsule_count, 2);
}

#[test]
fn parser_empty_input() {
    let mut parser = CapsuleParser::new();
    let (event, consumed) = parser.parse(&[]).unwrap();
    assert_eq!(event, CapsuleEvent::Pending);
    assert_eq!(consumed, 0);
}

#[test]
fn parser_unknown_capsule_type() {
    let mut buf = [0u8; 128];
    let value = b"unknown";
    let written = encode_capsule(&mut buf, 0xFFFF, value).unwrap();

    let mut parser = CapsuleParser::new();
    let mut pos = 0;
    let mut saw_header = false;

    while pos < written {
        let (event, consumed) =
            parser.parse(&buf[pos..written]).unwrap();
        pos += consumed;

        if let CapsuleEvent::Header {
            capsule_type,
            value_len,
        } = event
        {
            assert_eq!(capsule_type, 0xFFFF);
            assert_eq!(value_len, value.len() as u64);
            saw_header = true;
        }
    }

    assert!(saw_header);
}

#[test]
fn address_assign_ipv4_roundtrip() {
    let entries = vec![AddressEntry {
        request_id: 1,
        ip_prefix: IpAddr::V4([192, 168, 1, 0]),
        prefix_length: 24,
    }];

    let mut buf = [0u8; 256];
    let written = encode_address_assign(&mut buf, &entries).unwrap();

    // Decode: skip the capsule header first.
    let mut b = octets::Octets::with_slice(&buf[..written]);
    let ctype = b.get_varint().unwrap();
    let vlen = b.get_varint().unwrap();
    assert_eq!(ctype, ADDRESS_ASSIGN_CAPSULE);

    let value_data = b.get_bytes(vlen as usize).unwrap();
    let decoded =
        decode_address_assign(value_data.as_ref()).unwrap();

    assert_eq!(decoded, entries);
}

#[test]
fn address_assign_ipv6_roundtrip() {
    let entries = vec![AddressEntry {
        request_id: 42,
        ip_prefix: IpAddr::V6(v6([0x2001, 0xdb8, 0, 0, 0, 0, 0, 0])),
        prefix_length: 48,
    }];

    let mut buf = [0u8; 256];
    let written = encode_address_assign(&mut buf, &entries).unwrap();

    let mut b = octets::Octets::with_slice(&buf[..written]);
    let _ctype = b.get_varint().unwrap();
    let vlen = b.get_varint().unwrap();

    let value_data = b.get_bytes(vlen as usize).unwrap();
    let decoded =
        decode_address_assign(value_data.as_ref()).unwrap();

    assert_eq!(decoded, entries);
}

#[test]
fn address_assign_multiple_entries() {
    let entries = vec![
        AddressEntry {
            request_id: 0,
            ip_prefix: IpAddr::V4([10, 0, 0, 1]),
            prefix_length: 32,
        },
        AddressEntry {
            request_id: 1,
            ip_prefix: IpAddr::V6(v6([0, 0, 0, 0, 0, 0, 0, 1])),
            prefix_length: 128,
        },
    ];

    let mut buf = [0u8; 256];
    let written = encode_address_assign(&mut buf, &entries).unwrap();

    let mut b = octets::Octets::with_slice(&buf[..written]);
    let _ctype = b.get_varint().unwrap();
    let vlen = b.get_varint().unwrap();

    let value_data = b.get_bytes(vlen as usize).unwrap();
    let decoded =
        decode_address_assign(value_data.as_ref()).unwrap();

    assert_eq!(decoded, entries);
}

#[test]
fn address_assign_empty() {
    let entries: Vec<AddressEntry> = vec![];

    let mut buf = [0u8; 64];
    let written = encode_address_assign(&mut buf, &entries).unwrap();

    let mut b = octets::Octets::with_slice(&buf[..written]);
    let ctype = b.get_varint().unwrap();
    let vlen = b.get_varint().unwrap();
    assert_eq!(ctype, ADDRESS_ASSIGN_CAPSULE);
    assert_eq!(vlen, 0);

    let decoded = decode_address_assign(&[]).unwrap();
    assert!(decoded.is_empty());
}

#[test]
fn address_request_roundtrip() {
    let entries = vec![AddressEntry {
        request_id: 7,
        ip_prefix: IpAddr::V4([0, 0, 0, 0]),
        prefix_length: 0,
    }];

    let mut buf = [0u8; 256];
    let written = encode_address_request(&mut buf, &entries).unwrap();

    let mut b = octets::Octets::with_slice(&buf[..written]);
    let ctype = b.get_varint().unwrap();
    let vlen = b.get_varint().unwrap();
    assert_eq!(ctype, ADDRESS_REQUEST_CAPSULE);

    let value_data = b.get_bytes(vlen as usize).unwrap();
    let decoded =
        decode_address_request(value_data.as_ref()).unwrap();

    assert_eq!(decoded, entries);
}

#[test]
fn address_invalid_prefix_length() {
    // IPv4 with prefix length > 32.
    let mut data = [0u8; 32];
    let mut b = octets::OctetsMut::with_slice(&mut data);
    b.put_varint(0).unwrap(); // request_id
    b.put_u8(IP_VERSION_4).unwrap();
    b.put_bytes(&[10, 0, 0, 0]).unwrap();
    b.put_u8(33).unwrap(); // invalid: > 32
    let off = b.off();

    let result = decode_address_assign(&data[..off]);
    assert!(result.is_err());
}

#[test]
fn address_invalid_ip_version() {
    let mut data = [0u8; 32];
    let mut b = octets::OctetsMut::with_slice(&mut data);
    b.put_varint(0).unwrap(); // request_id
    b.put_u8(5).unwrap(); // invalid IP version
    let off = b.off();

    let result = decode_address_assign(&data[..off]);
    assert!(result.is_err());
}

#[test]
fn route_advertisement_ipv4_roundtrip() {
    let entries = vec![RouteEntry {
        start_ip: IpAddr::V4([10, 0, 0, 0]),
        end_ip: IpAddr::V4([10, 0, 0, 255]),
        ip_protocol: 0,
    }];

    let mut buf = [0u8; 256];
    let written =
        encode_route_advertisement(&mut buf, &entries).unwrap();

    let mut b = octets::Octets::with_slice(&buf[..written]);
    let ctype = b.get_varint().unwrap();
    let vlen = b.get_varint().unwrap();
    assert_eq!(ctype, ROUTE_ADVERTISEMENT_CAPSULE);

    let value_data = b.get_bytes(vlen as usize).unwrap();
    let decoded =
        decode_route_advertisement(value_data.as_ref()).unwrap();

    assert_eq!(decoded, entries);
}

#[test]
fn route_advertisement_ipv6_roundtrip() {
    let entries = vec![RouteEntry {
        start_ip: IpAddr::V6(v6([0x2001, 0xdb8, 0, 0, 0, 0, 0, 0])),
        end_ip: IpAddr::V6(v6([0x2001, 0xdb8, 0, 0, 0xffff, 0xffff, 0xffff, 0xffff])),
        ip_protocol: 6, // TCP
    }];

    let mut buf = [0u8; 256];
    let written =
        encode_route_advertisement(&mut buf, &entries).unwrap();

    let mut b = octets::Octets::with_slice(&buf[..written]);
    let _ctype = b.get_varint().unwrap();
    let vlen = b.get_varint().unwrap();

    let value_data = b.get_bytes(vlen as usize).unwrap();
    let decoded =
        decode_route_advertisement(value_data.as_ref()).unwrap();

    assert_eq!(decoded, entries);
}

#[test]
fn route_advertisement_multiple_entries() {
    let entries = vec![
        RouteEntry {
            start_ip: IpAddr::V4([10, 0, 0, 0]),
            end_ip: IpAddr::V4([10, 255, 255, 255]),
            ip_protocol: 0,
        },
        RouteEntry {
            start_ip: IpAddr::V4([172, 16, 0, 0]),
            end_ip: IpAddr::V4([172, 31, 255, 255]),
            ip_protocol: 17, // UDP
        },
    ];

    let mut buf = [0u8; 256];
    let written =
        encode_route_advertisement(&mut buf, &entries).unwrap();

    let mut b = octets::Octets::with_slice(&buf[..written]);
    let _ctype = b.get_varint().unwrap();
    let vlen = b.get_varint().unwrap();

    let value_data = b.get_bytes(vlen as usize).unwrap();
    let decoded =
        decode_route_advertisement(value_data.as_ref()).unwrap();

    assert_eq!(decoded, entries);
}

#[test]
fn route_advertisement_empty() {
    let entries: Vec<RouteEntry> = vec![];

    let mut buf = [0u8; 64];
    let written =
        encode_route_advertisement(&mut buf, &entries).unwrap();

    let mut b = octets::Octets::with_slice(&buf[..written]);
    let ctype = b.get_varint().unwrap();
    let vlen = b.get_varint().unwrap();
    assert_eq!(ctype, ROUTE_ADVERTISEMENT_CAPSULE);
    assert_eq!(vlen, 0);

    let decoded = decode_route_advertisement(&[]).unwrap();
    assert!(decoded.is_empty());
}

#[test]
fn route_advertisement_mismatched_versions() {
    let entries = vec![RouteEntry {
        start_ip: IpAddr::V4([10, 0, 0, 0]),
        end_ip: IpAddr::V6(v6([0, 0, 0, 0, 0, 0, 0, 1])),
        ip_protocol: 0,
    }];

    let mut buf = [0u8; 256];
    let result = encode_route_advertisement(&mut buf, &entries);
    assert!(result.is_err());
}

#[test]
fn route_advertisement_invalid_ip_version() {
    let mut data = [0u8; 32];
    let mut b = octets::OctetsMut::with_slice(&mut data);
    b.put_u8(5).unwrap(); // invalid IP version
    let off = b.off();

    let result = decode_route_advertisement(&data[..off]);
    assert!(result.is_err());
}

#[test]
fn parser_reset() {
    let mut parser = CapsuleParser::new();

    // Partially feed data.
    let mut buf = [0u8; 64];
    let written = encode_capsule(&mut buf, 0x01, b"data").unwrap();

    let (_, consumed) = parser.parse(&buf[..1]).unwrap();
    assert_eq!(consumed, 1);
    assert_eq!(*parser.state(), ParseState::Length);

    // Reset and verify clean state.
    parser.reset();
    assert_eq!(*parser.state(), ParseState::Type);
    assert_eq!(parser.capsule_type(), 0);
    assert_eq!(parser.remaining(), 0);

    // Should work normally after reset.
    let mut pos = 0;
    let mut saw_done = false;
    while pos < written {
        let (event, consumed) =
            parser.parse(&buf[pos..written]).unwrap();
        pos += consumed;
        if event == CapsuleEvent::Done {
            saw_done = true;
        }
    }
    assert!(saw_done);
}

#[test]
fn parser_large_varint_chunked() {
    // Encode a capsule with a type that requires a 4-byte varint.
    let mut buf = [0u8; 128];
    let ctype = 0x3FFF_FFFF; // max 4-byte varint
    let value = b"lg";
    let written = encode_capsule(&mut buf, ctype, value).unwrap();

    let mut parser = CapsuleParser::new();
    let mut pos = 0;
    let mut saw_header = false;

    // Feed one byte at a time.
    while pos < written {
        let (event, consumed) =
            parser.parse(&buf[pos..pos + 1]).unwrap();
        pos += consumed;

        if let CapsuleEvent::Header {
            capsule_type,
            value_len,
        } = event
        {
            assert_eq!(capsule_type, ctype);
            assert_eq!(value_len, value.len() as u64);
            saw_header = true;
        }
    }

    assert!(saw_header);
}

#[test]
fn encode_capsule_buffer_too_short() {
    let mut buf = [0u8; 2];
    let result = encode_capsule(&mut buf, 0x00, b"too long");
    assert!(result.is_err());
}

#[test]
fn address_entry_large_request_id() {
    let entries = vec![AddressEntry {
        request_id: 0x3FFF_FFFF_FFFF_FFFF,
        ip_prefix: IpAddr::V4([127, 0, 0, 1]),
        prefix_length: 32,
    }];

    let mut buf = [0u8; 256];
    let written = encode_address_assign(&mut buf, &entries).unwrap();

    let mut b = octets::Octets::with_slice(&buf[..written]);
    let _ctype = b.get_varint().unwrap();
    let vlen = b.get_varint().unwrap();

    let value_data = b.get_bytes(vlen as usize).unwrap();
    let decoded =
        decode_address_assign(value_data.as_ref()).unwrap();

    assert_eq!(decoded, entries);
}

#[test]
fn address_assign_prefix_lower_bits_valid_ipv4() {
    // 192.168.0.0/16 — lower 16 bits are zero
    let entry = AddressEntry {
        request_id: 1,
        ip_prefix: IpAddr::V4([192, 168, 0, 0]),
        prefix_length: 16,
    };
    let mut buf = [0u8; 256];
    let len = encode_address_assign(&mut buf, &[entry]).unwrap();

    let mut b = octets::Octets::with_slice(&buf[..len]);
    let _ctype = b.get_varint().unwrap();
    let vlen = b.get_varint().unwrap();
    let value_data = b.get_bytes(vlen as usize).unwrap();
    let decoded =
        decode_address_assign(value_data.as_ref()).unwrap();
    assert_eq!(decoded.len(), 1);
}

#[test]
fn address_assign_prefix_lower_bits_invalid_ipv4() {
    // 192.168.1.0/16 — bit in position 23 is set but prefix is 16
    let mut buf = [0u8; 64];
    let mut b = octets::OctetsMut::with_slice(&mut buf);
    // capsule header
    b.put_varint(ADDRESS_ASSIGN_CAPSULE).unwrap();
    // value: request_id(1) + ip_version(1) + addr(4) + prefix(1) = 7
    b.put_varint(7).unwrap();
    b.put_varint(0).unwrap(); // request_id
    b.put_u8(4).unwrap(); // IPv4
    b.put_bytes(&[192, 168, 1, 0]).unwrap(); // addr with non-zero lower
    b.put_u8(16).unwrap(); // prefix_length
    let off = b.off();
    // Decode just the value part (skip capsule header)
    let mut r = octets::Octets::with_slice(&buf[..off]);
    r.get_varint().unwrap(); // skip type
    let vlen = r.get_varint().unwrap() as usize;
    let value_start = r.off();
    assert_eq!(
        decode_address_assign(&buf[value_start..value_start + vlen]),
        Err(CapsuleError::InvalidCapsule)
    );
}

#[test]
fn address_assign_prefix_lower_bits_valid_ipv6() {
    // 2001:db8::/32 — lower 96 bits are zero
    let entry = AddressEntry {
        request_id: 1,
        ip_prefix: IpAddr::V6(v6([0x2001, 0x0db8, 0, 0, 0, 0, 0, 0])),
        prefix_length: 32,
    };
    let mut buf = [0u8; 256];
    let len = encode_address_assign(&mut buf, &[entry]).unwrap();

    let mut b = octets::Octets::with_slice(&buf[..len]);
    let _ctype = b.get_varint().unwrap();
    let vlen = b.get_varint().unwrap();
    let value_data = b.get_bytes(vlen as usize).unwrap();
    let decoded =
        decode_address_assign(value_data.as_ref()).unwrap();
    assert_eq!(decoded.len(), 1);
}

#[test]
fn address_assign_prefix_lower_bits_invalid_ipv6() {
    // 2001:db8::1/32 — bit set in lower portion
    let mut buf = [0u8; 64];
    let mut b = octets::OctetsMut::with_slice(&mut buf);
    b.put_varint(ADDRESS_ASSIGN_CAPSULE).unwrap();
    // value: request_id(1) + ip_version(1) + addr(16) + prefix(1) = 19
    b.put_varint(19).unwrap();
    b.put_varint(0).unwrap(); // request_id
    b.put_u8(6).unwrap(); // IPv6
    let addr =
        v6([0x2001, 0x0db8, 0, 0, 0, 0, 0, 1]);
    b.put_bytes(&addr).unwrap();
    b.put_u8(32).unwrap(); // prefix_length
    let off = b.off();
    let mut r = octets::Octets::with_slice(&buf[..off]);
    r.get_varint().unwrap();
    let vlen = r.get_varint().unwrap() as usize;
    let value_start = r.off();
    assert_eq!(
        decode_address_assign(&buf[value_start..value_start + vlen]),
        Err(CapsuleError::InvalidCapsule)
    );
}

#[test]
fn address_assign_full_prefix_length() {
    // /32 for IPv4 — all bits covered, always valid
    let entry = AddressEntry {
        request_id: 1,
        ip_prefix: IpAddr::V4([192, 168, 1, 1]),
        prefix_length: 32,
    };
    let expected_ip = entry.ip_prefix;
    let mut buf = [0u8; 256];
    let len = encode_address_assign(&mut buf, &[entry]).unwrap();

    let mut b = octets::Octets::with_slice(&buf[..len]);
    let _ctype = b.get_varint().unwrap();
    let vlen = b.get_varint().unwrap();
    let value_data = b.get_bytes(vlen as usize).unwrap();
    let decoded =
        decode_address_assign(value_data.as_ref()).unwrap();
    assert_eq!(decoded.len(), 1);
    assert_eq!(decoded[0].ip_prefix, expected_ip);
}

#[test]
fn address_request_request_id_zero() {
    // Manually encode an ADDRESS_REQUEST with request_id = 0
    let mut raw = Vec::new();
    // request_id = 0 (1 byte varint)
    raw.push(0);
    // ip_version = 4
    raw.push(4);
    // IPv4 addr
    raw.extend_from_slice(&[10, 0, 0, 0]);
    // prefix_length = 8
    raw.push(8);

    assert_eq!(
        decode_address_request(&raw),
        Err(CapsuleError::InvalidCapsule)
    );
}

#[test]
fn address_request_empty() {
    // Empty ADDRESS_REQUEST (zero entries)
    assert_eq!(
        decode_address_request(&[]),
        Err(CapsuleError::InvalidCapsule)
    );
}

#[test]
fn address_request_valid() {
    // Valid ADDRESS_REQUEST with non-zero request_id
    let mut raw = Vec::new();
    raw.push(1); // request_id = 1
    raw.push(4); // IPv4
    raw.extend_from_slice(&[10, 0, 0, 0]); // 10.0.0.0
    raw.push(8); // /8

    let entries = decode_address_request(&raw).unwrap();
    assert_eq!(entries.len(), 1);
    assert_eq!(entries[0].request_id, 1);
}

#[test]
fn route_advertisement_start_greater_than_end() {
    // start_ip = 10.0.0.2, end_ip = 10.0.0.1 — invalid
    let mut buf = [0u8; 256];
    let mut b = octets::OctetsMut::with_slice(&mut buf);
    // ip_version
    b.put_u8(4).unwrap();
    b.put_bytes(&[10, 0, 0, 2]).unwrap(); // start
    b.put_bytes(&[10, 0, 0, 1]).unwrap(); // end
    b.put_u8(0).unwrap(); // protocol
    let off = b.off();
    assert_eq!(
        decode_route_advertisement(&buf[..off]),
        Err(CapsuleError::InvalidCapsule)
    );
}

#[test]
fn route_advertisement_start_equals_end() {
    // start_ip = end_ip — valid (single address range)
    let entries = vec![RouteEntry {
        start_ip: IpAddr::V4([10, 0, 0, 1]),
        end_ip: IpAddr::V4([10, 0, 0, 1]),
        ip_protocol: 0,
    }];
    let mut buf = [0u8; 256];
    let len =
        encode_route_advertisement(&mut buf, &entries).unwrap();
    // Skip capsule header to get value bytes
    let mut r = octets::Octets::with_slice(&buf[..len]);
    r.get_varint().unwrap(); // type
    let vlen = r.get_varint().unwrap() as usize;
    let value_start = r.off();
    let decoded = decode_route_advertisement(
        &buf[value_start..value_start + vlen],
    )
    .unwrap();
    assert_eq!(decoded.len(), 1);
}

#[test]
fn route_advertisement_unsorted_ip_version() {
    // IPv6 entry before IPv4 entry — invalid ordering
    let mut buf = [0u8; 256];
    let mut b = octets::OctetsMut::with_slice(&mut buf);
    // Entry 1: IPv6
    b.put_u8(6).unwrap();
    b.put_bytes(
        &v6([0x2001, 0xdb8, 0, 0, 0, 0, 0, 1]),
    )
    .unwrap();
    b.put_bytes(
        &v6([0x2001, 0xdb8, 0, 0, 0, 0, 0, 2]),
    )
    .unwrap();
    b.put_u8(0).unwrap();
    // Entry 2: IPv4
    b.put_u8(4).unwrap();
    b.put_bytes(&[10, 0, 0, 1]).unwrap();
    b.put_bytes(&[10, 0, 0, 2]).unwrap();
    b.put_u8(0).unwrap();
    let off = b.off();
    assert_eq!(
        decode_route_advertisement(&buf[..off]),
        Err(CapsuleError::InvalidCapsule)
    );
}

#[test]
fn route_advertisement_unsorted_protocol() {
    // Same IP version but protocol of A > protocol of B — invalid
    let mut buf = [0u8; 256];
    let mut b = octets::OctetsMut::with_slice(&mut buf);
    // Entry 1: protocol 17 (UDP)
    b.put_u8(4).unwrap();
    b.put_bytes(&[10, 0, 0, 1]).unwrap();
    b.put_bytes(&[10, 0, 0, 2]).unwrap();
    b.put_u8(17).unwrap();
    // Entry 2: protocol 6 (TCP)
    b.put_u8(4).unwrap();
    b.put_bytes(&[10, 0, 1, 1]).unwrap();
    b.put_bytes(&[10, 0, 1, 2]).unwrap();
    b.put_u8(6).unwrap();
    let off = b.off();
    assert_eq!(
        decode_route_advertisement(&buf[..off]),
        Err(CapsuleError::InvalidCapsule)
    );
}

#[test]
fn route_advertisement_overlapping_ranges() {
    // Same version and protocol but overlapping IP ranges — invalid
    let mut buf = [0u8; 256];
    let mut b = octets::OctetsMut::with_slice(&mut buf);
    // Entry 1: 10.0.0.1 - 10.0.0.10
    b.put_u8(4).unwrap();
    b.put_bytes(&[10, 0, 0, 1]).unwrap();
    b.put_bytes(&[10, 0, 0, 10]).unwrap();
    b.put_u8(0).unwrap();
    // Entry 2: 10.0.0.5 - 10.0.0.20 (overlaps with entry 1)
    b.put_u8(4).unwrap();
    b.put_bytes(&[10, 0, 0, 5]).unwrap();
    b.put_bytes(&[10, 0, 0, 20]).unwrap();
    b.put_u8(0).unwrap();
    let off = b.off();
    assert_eq!(
        decode_route_advertisement(&buf[..off]),
        Err(CapsuleError::InvalidCapsule)
    );
}

#[test]
fn route_advertisement_sorted_valid() {
    // Two properly ordered entries
    let mut buf = [0u8; 256];
    let mut b = octets::OctetsMut::with_slice(&mut buf);
    // Entry 1: 10.0.0.1 - 10.0.0.10, protocol 6
    b.put_u8(4).unwrap();
    b.put_bytes(&[10, 0, 0, 1]).unwrap();
    b.put_bytes(&[10, 0, 0, 10]).unwrap();
    b.put_u8(6).unwrap();
    // Entry 2: 10.0.0.11 - 10.0.0.20, protocol 6
    b.put_u8(4).unwrap();
    b.put_bytes(&[10, 0, 0, 11]).unwrap();
    b.put_bytes(&[10, 0, 0, 20]).unwrap();
    b.put_u8(6).unwrap();
    let off = b.off();
    let decoded = decode_route_advertisement(&buf[..off]).unwrap();
    assert_eq!(decoded.len(), 2);
}

#[test]
fn route_advertisement_different_protocols_same_range() {
    // Same IP range but different protocols — valid
    let mut buf = [0u8; 256];
    let mut b = octets::OctetsMut::with_slice(&mut buf);
    // Entry 1: protocol 6 (TCP)
    b.put_u8(4).unwrap();
    b.put_bytes(&[10, 0, 0, 1]).unwrap();
    b.put_bytes(&[10, 0, 0, 10]).unwrap();
    b.put_u8(6).unwrap();
    // Entry 2: protocol 17 (UDP), same range
    b.put_u8(4).unwrap();
    b.put_bytes(&[10, 0, 0, 1]).unwrap();
    b.put_bytes(&[10, 0, 0, 10]).unwrap();
    b.put_u8(17).unwrap();
    let off = b.off();
    let decoded = decode_route_advertisement(&buf[..off]).unwrap();
    assert_eq!(decoded.len(), 2);
}

#[test]
fn route_advertisement_ipv6_start_greater_than_end() {
    let mut buf = [0u8; 256];
    let mut b = octets::OctetsMut::with_slice(&mut buf);
    b.put_u8(6).unwrap();
    b.put_bytes(
        &v6([0x2001, 0xdb8, 0, 0, 0, 0, 0, 2]),
    )
    .unwrap();
    b.put_bytes(
        &v6([0x2001, 0xdb8, 0, 0, 0, 0, 0, 1]),
    )
    .unwrap();
    b.put_u8(0).unwrap();
    let off = b.off();
    assert_eq!(
        decode_route_advertisement(&buf[..off]),
        Err(CapsuleError::InvalidCapsule)
    );
}

#[test]
fn capsule_parser_is_in_progress_initial() {
    let parser = CapsuleParser::new();
    assert!(!parser.is_in_progress());
}

#[test]
fn capsule_parser_is_in_progress_partial_type() {
    let mut parser = CapsuleParser::new();
    // Feed a partial varint (2-byte varint, only first byte)
    let data = [0x40]; // First byte of a 2-byte varint
    let (event, _) = parser.parse(&data).unwrap();
    assert_eq!(event, CapsuleEvent::Pending);
    assert!(parser.is_in_progress());
}

#[test]
fn capsule_parser_is_in_progress_in_length() {
    let mut parser = CapsuleParser::new();
    // Feed complete type but no length
    let data = [0x00]; // type = 0 (1-byte varint)
    let (event, _) = parser.parse(&data).unwrap();
    assert_eq!(event, CapsuleEvent::Pending);
    assert!(parser.is_in_progress());
}

#[test]
fn capsule_parser_is_in_progress_in_value() {
    let mut parser = CapsuleParser::new();
    // type = 0, length = 5
    let data = [0x00, 0x05, 0xAA];
    let mut off = 0;
    loop {
        let (event, consumed) =
            parser.parse(&data[off..]).unwrap();
        off += consumed;
        match event {
            CapsuleEvent::Pending => break,
            CapsuleEvent::Header { .. } => continue,
            CapsuleEvent::ValueChunk { .. } => break,
            CapsuleEvent::Done => unreachable!(),
        }
    }
    assert!(parser.is_in_progress());
}

#[test]
fn capsule_parser_not_in_progress_after_done() {
    let mut parser = CapsuleParser::new();
    // type = 0, length = 0 (zero-length capsule)
    let data = [0x00, 0x00];
    let mut off = 0;
    loop {
        let (event, consumed) =
            parser.parse(&data[off..]).unwrap();
        off += consumed;
        if event == CapsuleEvent::Done {
            break;
        }
    }
    assert!(!parser.is_in_progress());
}
