//! HTTP/3 datagrams.

use quiche_multipath::datagram::{has_capsule_header_conflict, Header, MAX_QUARTER_STREAM_ID};

#[test]
fn max_quarter_stream_id_value() {
    assert_eq!(MAX_QUARTER_STREAM_ID, (1u64 << 60) - 1);
}

#[test]
fn capsule_header_conflict_content_length() {
    let headers = vec![
        Header::new(b"capsule-protocol", b"?1"),
        Header::new(b"content-length", b"100"),
    ];
    assert!(has_capsule_header_conflict(&headers));
}

#[test]
fn capsule_header_conflict_content_type() {
    let headers = vec![
        Header::new(b"capsule-protocol", b"?1"),
        Header::new(b"content-type", b"application/octet-stream"),
    ];
    assert!(has_capsule_header_conflict(&headers));
}

#[test]
fn capsule_header_conflict_transfer_encoding() {
    let headers = vec![
        Header::new(b"capsule-protocol", b"?1"),
        Header::new(b"transfer-encoding", b"chunked"),
    ];
    assert!(has_capsule_header_conflict(&headers));
}

#[test]
fn no_capsule_header_conflict_without_capsule_protocol() {
    let headers = vec![
        Header::new(b"content-length", b"100"),
    ];
    assert!(!has_capsule_header_conflict(&headers));
}

#[test]
fn no_capsule_header_conflict_capsule_disabled() {
    let headers = vec![
        Header::new(b"capsule-protocol", b"?0"),
        Header::new(b"content-length", b"100"),
    ];
    assert!(!has_capsule_header_conflict(&headers));
}

#[test]
fn no_capsule_header_conflict_clean() {
    let headers = vec![
        Header::new(b"capsule-protocol", b"?1"),
        Header::new(b":method", b"CONNECT"),
    ];
    assert!(!has_capsule_header_conflict(&headers));
}
