//! Nonces.

use quiche_multipath::multipath::pktns::compute_nonce_mp;

#[test]
fn nonce_zero_inputs() {
    let iv = [0u8; 12];
    let nonce = compute_nonce_mp(&iv, 0, 0);
    assert_eq!(nonce, [0u8; 12]);
}

#[test]
fn nonce_path_id_only() {
    let iv = [0u8; 12];
    let nonce = compute_nonce_mp(&iv, 0, 1);
    assert_eq!(nonce[0..4], [0, 0, 0, 1]);
    assert_eq!(nonce[4..12], [0, 0, 0, 0, 0, 0, 0, 0]);
}

#[test]
fn nonce_pkt_num_only() {
    let iv = [0u8; 12];
    let nonce = compute_nonce_mp(&iv, 1, 0);
    assert_eq!(nonce[0..4], [0, 0, 0, 0]);
    assert_eq!(nonce[4..12], [0, 0, 0, 0, 0, 0, 0, 1]);
}

#[test]
fn nonce_xors_with_iv() {
    let iv = [0xff; 12];
    let nonce = compute_nonce_mp(&iv, 0, 0);
    assert_eq!(nonce, [0xff; 12]);
}

#[test]
fn nonce_combined() {
    let iv = [0u8; 12];
    let nonce = compute_nonce_mp(&iv, 42, 7);
    let expected_path = 7u32.to_be_bytes();
    let expected_pn = 42u64.to_be_bytes();
    assert_eq!(nonce[0..4], expected_path);
    assert_eq!(nonce[4..12], expected_pn);
}
