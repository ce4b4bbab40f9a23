//! Multipath frames: exact bytes and errors.

use quiche_multipath::error::Error;
use quiche_multipath::frame::{EcnCounts, Frame};
use quiche_multipath::multipath::frames::{
    encode_max_path_id, encode_path_abandon, encode_path_ack, encode_path_new_connection_id,
    encode_path_status_backup, is_multipath_frame_type, parse_max_path_id, parse_path_abandon,
    parse_path_ack, parse_path_new_connection_id, parse_paths_blocked,
};
use quiche_multipath::ranges::RangeSet;

#[test]
fn multipath_types_are_told_apart() {
    for ty in [0x3e, 0x3f, 0x3e75, 0x3e76, 0x3e77, 0x3e78, 0x3e79, 0x3e7a, 0x3e7b, 0x3e7c] {
        assert!(is_multipath_frame_type(ty));
    }
    for ty in [0, 0x3d, 0x40, 0x3e74, 0x3e7d] {
        assert!(!is_multipath_frame_type(ty));
    }
}

#[test]
fn path_abandon_has_exact_bytes() {
    let mut buf = [0xee; 8];
    let mut b = octets::OctetsMut::with_slice(&mut buf);
    assert_eq!(encode_path_abandon(&mut b, 5, 0x40), Ok(5));
    assert_eq!(b.off(), 5);
    // Two bytes of type, one of path ID and two of error code.
    assert_eq!(buf, [0x7e, 0x75, 5, 0x40, 0x40, 0xee, 0xee, 0xee]);
}

#[test]
fn path_ack_has_exact_bytes() {
    let mut ranges = RangeSet::default();
    ranges.insert(0..5);
    ranges.insert(10..15);
    let ecn = Some(EcnCounts { ect0_count: 1, ect1_count: 2, ecn_ce_count: 3 });
    let mut buf = [0; 32];
    let mut b = octets::OctetsMut::with_slice(&mut buf);
    let len = encode_path_ack(&mut b, 3, 100, &ranges, &ecn).unwrap();
    // Type, path, largest, delay, one more block, length, gap, length, counts.
    assert_eq!(buf[..len], [0x3f, 3, 14, 0x40, 100, 1, 4, 4, 4, 1, 2, 3]);
}

#[test]
fn encoding_stops_where_the_buffer_ends() {
    let mut buf = [0xee; 3];
    let mut b = octets::OctetsMut::with_slice(&mut buf);
    assert_eq!(encode_path_status_backup(&mut b, 1, 0x4000), Err(Error::BufferTooShort));
    // What found room is there.
    assert_eq!(buf, [0x7e, 0x76, 1]);

    let mut buf = [0xee; 1];
    let mut b = octets::OctetsMut::with_slice(&mut buf);
    assert_eq!(encode_max_path_id(&mut b, 1), Err(Error::BufferTooShort));
    assert_eq!(buf, [0xee]);

    for n in 0..30 {
        let mut buf = vec![0; n];
        let mut b = octets::OctetsMut::with_slice(&mut buf);
        let r = encode_path_new_connection_id(&mut b, 1, 2, 1, &[9; 5], 7);
        assert_eq!(r.is_ok(), n >= 2 + 3 + 1 + 5 + 16, "{n}");
    }
}

#[test]
fn nothing_to_acknowledge_is_invalid() {
    let mut buf = [0xee; 8];
    let mut b = octets::OctetsMut::with_slice(&mut buf);
    let r = encode_path_ack(&mut b, 3, 100, &RangeSet::default(), &None);
    assert_eq!(r, Err(Error::InvalidFrame));
    assert_eq!(buf, [0xee; 8]);
}

fn ack_error(bytes: &[u8]) -> Error {
    let mut b = octets::Octets::with_slice(bytes);
    parse_path_ack(&mut b, false).unwrap_err()
}

#[test]
fn path_ack_errors() {
    // The first block is longer than the largest number.
    assert_eq!(ack_error(&[1, 4, 0, 0, 5]), Error::InvalidFrame);
    // The gap goes below zero.
    assert_eq!(ack_error(&[1, 4, 0, 1, 0, 3, 0]), Error::InvalidFrame);
    // The second block is longer than what is left.
    assert_eq!(ack_error(&[1, 4, 0, 1, 0, 0, 3]), Error::InvalidFrame);
    // It ends too early.
    assert_eq!(ack_error(&[1, 4, 0, 1, 0, 0]), Error::BufferTooShort);
    assert_eq!(ack_error(&[]), Error::BufferTooShort);
}

#[test]
fn path_ack_leaves_what_follows() {
    let mut b = octets::Octets::with_slice(&[1, 9, 2, 1, 2, 0, 1, 0xaa]);
    let (path_id, delay, ranges, ecn) = parse_path_ack(&mut b, false).unwrap();
    assert_eq!((path_id, delay, ecn), (1, 2, None));
    assert_eq!(ranges.len(), 2);
    assert_eq!((ranges.range(0), ranges.range(1)), ((4, 6), (7, 10)));
    assert_eq!(b.to_vec(), vec![0xaa]);
}

#[test]
fn truncated_frames_are_errors() {
    let mut b = octets::Octets::with_slice(&[]);
    assert_eq!(parse_max_path_id(&mut b), Err(Error::InvalidFrame));
    assert_eq!(parse_paths_blocked(&mut b), Err(Error::InvalidFrame));
    assert_eq!(parse_path_abandon(&mut b), Err(Error::BufferTooShort));
    let mut b = octets::Octets::with_slice(&[7]);
    assert_eq!(parse_path_abandon(&mut b), Err(Error::BufferTooShort));
    assert_eq!(b.cap(), 0);

    let mut frame = vec![1, 2, 0, 3, 9, 9, 9];
    frame.extend_from_slice(&[5; 16]);
    for n in 0..frame.len() {
        let mut b = octets::Octets::with_slice(&frame[..n]);
        assert_eq!(parse_path_new_connection_id(&mut b), Err(Error::BufferTooShort), "{n}");
    }
    let mut b = octets::Octets::with_slice(&frame);
    assert_eq!(
        parse_path_new_connection_id(&mut b),
        Ok((1, 2, 0, 3, vec![9; 3], u128::from_be_bytes([5; 16]))),
    );
}

#[test]
fn wire_length_is_the_encoded_length() {
    let mut ranges = RangeSet::default();
    ranges.insert(0..5);
    ranges.insert(100..15000);
    let mut buf = [0; 64];
    let mut b = octets::OctetsMut::with_slice(&mut buf);
    let len = encode_path_ack(&mut b, 70, 100, &ranges, &None).unwrap();
    let frame =
        Frame::PathAck { path_id: 70, ack_delay: 100, ranges: ranges.clone(), ecn_counts: None };
    assert_eq!(frame.wire_len(), len as u128);

    let mut b = octets::OctetsMut::with_slice(&mut buf);
    let len = encode_path_abandon(&mut b, 70, 0).unwrap();
    assert_eq!(Frame::PathAbandon { path_id: 70, error_code: 0 }.wire_len(), len as u128);

    let mut b = octets::OctetsMut::with_slice(&mut buf);
    let len = encode_path_new_connection_id(&mut b, 1, 2, 0, &[1; 8], 3).unwrap();
    let frame = Frame::PathNewConnectionId {
        path_id: 1,
        seq_num: 2,
        retire_prior_to: 0,
        conn_id: vec![1; 8],
        reset_token: 3,
    };
    assert_eq!(frame.wire_len(), len as u128);
}

#[test]
fn wire_lengths_of_other_frames() {
    let mut ranges = RangeSet::default();
    ranges.insert(1..2);
    assert_eq!(Frame::Padding { len: 7 }.wire_len(), 7);
    assert_eq!(Frame::Ping { mtu_probe: None }.wire_len(), 1);
    assert_eq!(Frame::ACK { ack_delay: 64, ranges, ecn_counts: None }.wire_len(), 6);
    assert_eq!(Frame::CryptoHeader { offset: 64, length: 10 }.wire_len(), 15);
    assert_eq!(
        Frame::StreamHeader { stream_id: 4, offset: 0, length: 10, fin: true }.wire_len(),
        15,
    );
    assert_eq!(Frame::DatagramHeader { length: 10 }.wire_len(), 13);
    assert_eq!(Frame::PathChallenge { data: [0; 8] }.wire_len(), 9);
    assert_eq!(
        Frame::ConnectionClose { error_code: 1, frame_type: 0, reason: vec![1; 3] }.wire_len(),
        7,
    );
    assert_eq!(Frame::ApplicationClose { error_code: 1, reason: vec![1; 3] }.wire_len(), 6);
    assert_eq!(Frame::MaxData { max: 0x4000 }.wire_len(), 5);
    assert_eq!(Frame::MaxData { max: 0x4000_0000 }.wire_len(), 9);
    assert_eq!(
        Frame::NewConnectionId {
            seq_num: 1,
            retire_prior_to: 0,
            conn_id: vec![1; 8],
            reset_token: [0; 16],
        }
        .wire_len(),
        28,
    );
}

#[test]
fn path_ack_without_ranges_is_invalid_whatever_comes_with_it() {
    let mut d = [7; 4];
    let mut b = octets::OctetsMut::with_slice(&mut d);
    let ecn = Some(EcnCounts { ect0_count: u64::MAX, ect1_count: 0, ecn_ce_count: u64::MAX });
    let r = encode_path_ack(&mut b, u64::MAX, u64::MAX, &RangeSet::default(), &ecn);
    assert_eq!(r, Err(Error::InvalidFrame));
    assert_eq!((b.off(), b.cap()), (0, 4));
    assert_eq!(d, [7; 4]);
}
