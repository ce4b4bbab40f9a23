//! Multipath frames.

use quiche_multipath::frame::EcnCounts;
use quiche_multipath::multipath::frames::{
    encode_max_path_id, encode_path_abandon, encode_path_ack, encode_path_cids_blocked,
    encode_path_new_connection_id, encode_path_retire_connection_id, encode_path_status_available,
    encode_path_status_backup, encode_paths_blocked, parse_max_path_id, parse_path_abandon,
    parse_path_ack, parse_path_cids_blocked, parse_path_new_connection_id,
    parse_path_retire_connection_id, parse_path_status, parse_paths_blocked,
    APPLICATION_ABANDON_PATH, MAX_PATH_ID_TYPE, NO_CID_AVAILABLE_FOR_PATH, PATHS_BLOCKED_TYPE,
    PATH_ABANDON_NO_ERROR, PATH_ABANDON_TYPE, PATH_ACK_ECN_TYPE, PATH_ACK_TYPE,
    PATH_CIDS_BLOCKED_TYPE, PATH_NEW_CONNECTION_ID_TYPE, PATH_RESOURCE_LIMIT_REACHED,
    PATH_RETIRE_CONNECTION_ID_TYPE, PATH_STATUS_AVAILABLE_TYPE, PATH_STATUS_BACKUP_TYPE,
    PATH_UNSTABLE_OR_POOR,
};
use quiche_multipath::ranges::RangeSet;

#[test]
fn path_ack_roundtrip() {
    let mut ranges = RangeSet::default();
    ranges.insert(0..5);
    ranges.insert(10..15);

    let mut buf = [0u8; 256];
    let mut b = octets::OctetsMut::with_slice(&mut buf);
    let len = encode_path_ack(&mut b, 3, 100, &ranges, &None).unwrap();

    let mut b = octets::Octets::with_slice(&buf[..len]);
    let ty = b.get_varint().unwrap();
    assert_eq!(ty, PATH_ACK_TYPE);
    let (path_id, ack_delay, decoded_ranges, ecn) =
        parse_path_ack(&mut b, false).unwrap();
    assert_eq!(path_id, 3);
    assert_eq!(ack_delay, 100);
    assert_eq!(decoded_ranges, ranges);
    assert!(ecn.is_none());
}

#[test]
fn path_ack_with_ecn_roundtrip() {
    let mut ranges = RangeSet::default();
    ranges.insert(0..10);

    let ecn = Some(EcnCounts {
        ect0_count: 5,
        ect1_count: 3,
        ecn_ce_count: 1,
    });

    let mut buf = [0u8; 256];
    let mut b = octets::OctetsMut::with_slice(&mut buf);
    let len = encode_path_ack(&mut b, 1, 50, &ranges, &ecn).unwrap();

    let mut b = octets::Octets::with_slice(&buf[..len]);
    let ty = b.get_varint().unwrap();
    assert_eq!(ty, PATH_ACK_ECN_TYPE);
    let (path_id, ack_delay, _, decoded_ecn) =
        parse_path_ack(&mut b, true).unwrap();
    assert_eq!(path_id, 1);
    assert_eq!(ack_delay, 50);
    assert_eq!(decoded_ecn.unwrap().ect0_count, 5);
}

#[test]
fn path_abandon_roundtrip() {
    let mut buf = [0u8; 64];
    let mut b = octets::OctetsMut::with_slice(&mut buf);
    let len = encode_path_abandon(&mut b, 5, 0x0a).unwrap();

    let mut b = octets::Octets::with_slice(&buf[..len]);
    let ty = b.get_varint().unwrap();
    assert_eq!(ty, PATH_ABANDON_TYPE);
    let (path_id, error_code) = parse_path_abandon(&mut b).unwrap();
    assert_eq!(path_id, 5);
    assert_eq!(error_code, 0x0a);
}

#[test]
fn path_status_available_roundtrip() {
    let mut buf = [0u8; 64];
    let mut b = octets::OctetsMut::with_slice(&mut buf);
    let len = encode_path_status_available(&mut b, 2, 1).unwrap();

    let mut b = octets::Octets::with_slice(&buf[..len]);
    let ty = b.get_varint().unwrap();
    assert_eq!(ty, PATH_STATUS_AVAILABLE_TYPE);
    let (path_id, seq_num) = parse_path_status(&mut b).unwrap();
    assert_eq!(path_id, 2);
    assert_eq!(seq_num, 1);
}

#[test]
fn path_status_backup_roundtrip() {
    let mut buf = [0u8; 64];
    let mut b = octets::OctetsMut::with_slice(&mut buf);
    let len = encode_path_status_backup(&mut b, 3, 5).unwrap();

    let mut b = octets::Octets::with_slice(&buf[..len]);
    let ty = b.get_varint().unwrap();
    assert_eq!(ty, PATH_STATUS_BACKUP_TYPE);
    let (path_id, seq_num) = parse_path_status(&mut b).unwrap();
    assert_eq!(path_id, 3);
    assert_eq!(seq_num, 5);
}

#[test]
fn max_path_id_roundtrip() {
    let mut buf = [0u8; 64];
    let mut b = octets::OctetsMut::with_slice(&mut buf);
    let len = encode_max_path_id(&mut b, 10).unwrap();

    let mut b = octets::Octets::with_slice(&buf[..len]);
    let ty = b.get_varint().unwrap();
    assert_eq!(ty, MAX_PATH_ID_TYPE);
    let path_id = parse_max_path_id(&mut b).unwrap();
    assert_eq!(path_id, 10);
}

#[test]
fn paths_blocked_roundtrip() {
    let mut buf = [0u8; 64];
    let mut b = octets::OctetsMut::with_slice(&mut buf);
    let len = encode_paths_blocked(&mut b, 7).unwrap();

    let mut b = octets::Octets::with_slice(&buf[..len]);
    let ty = b.get_varint().unwrap();
    assert_eq!(ty, PATHS_BLOCKED_TYPE);
    let path_id = parse_paths_blocked(&mut b).unwrap();
    assert_eq!(path_id, 7);
}

#[test]
fn path_new_connection_id_roundtrip() {
    let cid = vec![1, 2, 3, 4, 5, 6, 7, 8];
    let token: u128 = 0xdeadbeef_cafebabe_12345678_9abcdef0;
    let mut buf = [0u8; 256];
    let mut b = octets::OctetsMut::with_slice(&mut buf);
    let len =
        encode_path_new_connection_id(&mut b, 2, 5, 3, &cid, token)
            .unwrap();

    let mut b = octets::Octets::with_slice(&buf[..len]);
    let ty = b.get_varint().unwrap();
    assert_eq!(ty, PATH_NEW_CONNECTION_ID_TYPE);
    let (path_id, seq_num, retire_prior_to, cid_len, decoded_cid, decoded_token) =
        parse_path_new_connection_id(&mut b).unwrap();
    assert_eq!(path_id, 2);
    assert_eq!(seq_num, 5);
    assert_eq!(retire_prior_to, 3);
    assert_eq!(cid_len, 8);
    assert_eq!(decoded_cid, cid);
    assert_eq!(decoded_token, token);
}

#[test]
fn path_retire_connection_id_roundtrip() {
    let mut buf = [0u8; 64];
    let mut b = octets::OctetsMut::with_slice(&mut buf);
    let len = encode_path_retire_connection_id(&mut b, 1, 3).unwrap();

    let mut b = octets::Octets::with_slice(&buf[..len]);
    let ty = b.get_varint().unwrap();
    assert_eq!(ty, PATH_RETIRE_CONNECTION_ID_TYPE);
    let (path_id, seq_num) = parse_path_retire_connection_id(&mut b).unwrap();
    assert_eq!(path_id, 1);
    assert_eq!(seq_num, 3);
}

#[test]
fn path_cids_blocked_roundtrip() {
    let mut buf = [0u8; 64];
    let mut b = octets::OctetsMut::with_slice(&mut buf);
    let len = encode_path_cids_blocked(&mut b, 4, 2).unwrap();

    let mut b = octets::Octets::with_slice(&buf[..len]);
    let ty = b.get_varint().unwrap();
    assert_eq!(ty, PATH_CIDS_BLOCKED_TYPE);
    let (path_id, seq_num) = parse_path_cids_blocked(&mut b).unwrap();
    assert_eq!(path_id, 4);
    assert_eq!(seq_num, 2);
}

// PATH_ABANDON error code round-trip tests

#[test]
fn path_abandon_no_error_roundtrip() {
    let mut buf = [0u8; 64];
    let mut b = octets::OctetsMut::with_slice(&mut buf);
    let len =
        encode_path_abandon(&mut b, 0, PATH_ABANDON_NO_ERROR).unwrap();

    let mut b = octets::Octets::with_slice(&buf[..len]);
    let ty = b.get_varint().unwrap();
    assert_eq!(ty, PATH_ABANDON_TYPE);
    let (path_id, error_code) = parse_path_abandon(&mut b).unwrap();
    assert_eq!(path_id, 0);
    assert_eq!(error_code, PATH_ABANDON_NO_ERROR);
}

#[test]
fn path_abandon_application_abandon_roundtrip() {
    let mut buf = [0u8; 64];
    let mut b = octets::OctetsMut::with_slice(&mut buf);
    let len =
        encode_path_abandon(&mut b, 1, APPLICATION_ABANDON_PATH).unwrap();

    let mut b = octets::Octets::with_slice(&buf[..len]);
    let ty = b.get_varint().unwrap();
    assert_eq!(ty, PATH_ABANDON_TYPE);
    let (path_id, error_code) = parse_path_abandon(&mut b).unwrap();
    assert_eq!(path_id, 1);
    assert_eq!(error_code, APPLICATION_ABANDON_PATH);
}

#[test]
fn path_abandon_resource_limit_roundtrip() {
    let mut buf = [0u8; 64];
    let mut b = octets::OctetsMut::with_slice(&mut buf);
    let len =
        encode_path_abandon(&mut b, 2, PATH_RESOURCE_LIMIT_REACHED)
            .unwrap();

    let mut b = octets::Octets::with_slice(&buf[..len]);
    let ty = b.get_varint().unwrap();
    assert_eq!(ty, PATH_ABANDON_TYPE);
    let (path_id, error_code) = parse_path_abandon(&mut b).unwrap();
    assert_eq!(path_id, 2);
    assert_eq!(error_code, PATH_RESOURCE_LIMIT_REACHED);
}

#[test]
fn path_abandon_unstable_or_poor_roundtrip() {
    let mut buf = [0u8; 64];
    let mut b = octets::OctetsMut::with_slice(&mut buf);
    let len =
        encode_path_abandon(&mut b, 3, PATH_UNSTABLE_OR_POOR).unwrap();

    let mut b = octets::Octets::with_slice(&buf[..len]);
    let ty = b.get_varint().unwrap();
    assert_eq!(ty, PATH_ABANDON_TYPE);
    let (path_id, error_code) = parse_path_abandon(&mut b).unwrap();
    assert_eq!(path_id, 3);
    assert_eq!(error_code, PATH_UNSTABLE_OR_POOR);
}

#[test]
fn path_abandon_no_cid_available_roundtrip() {
    let mut buf = [0u8; 64];
    let mut b = octets::OctetsMut::with_slice(&mut buf);
    let len =
        encode_path_abandon(&mut b, 4, NO_CID_AVAILABLE_FOR_PATH).unwrap();

    let mut b = octets::Octets::with_slice(&buf[..len]);
    let ty = b.get_varint().unwrap();
    assert_eq!(ty, PATH_ABANDON_TYPE);
    let (path_id, error_code) = parse_path_abandon(&mut b).unwrap();
    assert_eq!(path_id, 4);
    assert_eq!(error_code, NO_CID_AVAILABLE_FOR_PATH);
}
