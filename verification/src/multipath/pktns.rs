//! Per-path packet number space management and nonce computation.

use crate::bytes::{
    be_bytes, be_vec, lemma_be_bytes_injective, lemma_be_bytes_len, lemma_pow256_values,
};
use vstd::prelude::*;

verus! {

/// The path and packet number of a packet: 32 bits of path ID, two zero bits and
/// 62 bits of packet number, in network byte order.
pub open spec fn path_and_packet_number(pkt_num: u64, path_id: u32) -> Seq<u8> {
    be_bytes(path_id as nat, 4) + be_bytes(pkt_num as nat, 8)
}

/// The nonce of a packet.
pub open spec fn nonce_mp(iv: Seq<u8>, pkt_num: u64, path_id: u32) -> Seq<u8> {
    Seq::new(12, |i: int| iv[i] ^ path_and_packet_number(pkt_num, path_id)[i])
}

/// Compute the multipath AEAD nonce using PPN (Path and Packet Number).
///
/// The 96-bit PPN is:
///   Bits 95-64: path_id (lower 32 bits, network byte order)
///   Bits 63-62: 00 (2 zero bits)
///   Bits 61-0:  packet_number (62 bits, network byte order)
///
/// The nonce is: N = IV ^ PPN
///
/// Note: `path_id` is truncated to 32 bits. The QUIC path_id is a varint (up to
/// 62 bits) but only the lower 32 bits are used in the nonce computation.
pub fn compute_nonce_mp(iv: &[u8], pkt_num: u64, path_id: u32) -> (r: [u8; 12])
    requires
        iv@.len() == 12,
        pkt_num < 0x4000_0000_0000_0000,
    ensures
        r@ == nonce_mp(iv@, pkt_num, path_id),
{
    let mut nonce: [u8; 12] = [0; 12];
    let path_id_bytes = be_vec(path_id as u64, 4);
    let pn_bytes = be_vec(pkt_num, 8);
    proof {
        lemma_be_bytes_len(path_id as nat, 4);
        lemma_be_bytes_len(pkt_num as nat, 8);
    }
    let ghost ppn = path_and_packet_number(pkt_num, path_id);
    let mut i: usize = 0;
    while i < 12
        invariant
            i <= 12,
            iv@.len() == 12,
            path_id_bytes@ == be_bytes(path_id as nat, 4),
            pn_bytes@ == be_bytes(pkt_num as nat, 8),
            path_id_bytes@.len() == 4,
            pn_bytes@.len() == 8,
            ppn == path_and_packet_number(pkt_num, path_id),
            forall|j: int| 0 <= j < i ==> #[trigger] nonce@[j] == iv@[j] ^ ppn[j],
        decreases 12 - i,
    {
        let b: u8 = if i < 4 {
            path_id_bytes[i]
        } else {
            pn_bytes[i - 4]
        };
        assert(b == ppn[i as int]);
        nonce[i] = iv[i] ^ b;
        i += 1;
    }
    assert(nonce@ =~= nonce_mp(iv@, pkt_num, path_id));
    nonce
}

/// Combining with the same byte keeps different bytes different.
proof fn lemma_xor_injective(k: u8, x: u8, y: u8)
    requires
        k ^ x == k ^ y,
    ensures
        x == y,
{
    assert(k ^ x == k ^ y ==> x == y) by (bit_vector);
}

/// Under one IV no two packets of a connection have the same nonce: it
/// determines the path and the packet number.
pub proof fn law_nonces_are_unique(
    iv: Seq<u8>,
    pkt_num1: u64,
    path_id1: u32,
    pkt_num2: u64,
    path_id2: u32,
)
    requires
        iv.len() == 12,
        nonce_mp(iv, pkt_num1, path_id1) == nonce_mp(iv, pkt_num2, path_id2),
    ensures
        pkt_num1 == pkt_num2,
        path_id1 == path_id2,
{
    let a = path_and_packet_number(pkt_num1, path_id1);
    let b = path_and_packet_number(pkt_num2, path_id2);
    lemma_be_bytes_len(path_id1 as nat, 4);
    lemma_be_bytes_len(path_id2 as nat, 4);
    lemma_be_bytes_len(pkt_num1 as nat, 8);
    lemma_be_bytes_len(pkt_num2 as nat, 8);
    assert forall|i: int| 0 <= i < 12 implies #[trigger] a[i] == b[i] by {
        let n1 = nonce_mp(iv, pkt_num1, path_id1);
        let n2 = nonce_mp(iv, pkt_num2, path_id2);
        assert(n1[i] == (iv[i] ^ a[i]));
        assert(n2[i] == (iv[i] ^ b[i]));
        lemma_xor_injective(iv[i], a[i], b[i]);
    }
    assert(a =~= b);
    assert(a.take(4) =~= be_bytes(path_id1 as nat, 4));
    assert(b.take(4) =~= be_bytes(path_id2 as nat, 4));
    assert(a.skip(4) =~= be_bytes(pkt_num1 as nat, 8));
    assert(b.skip(4) =~= be_bytes(pkt_num2 as nat, 8));
    lemma_pow256_values();
    lemma_be_bytes_injective(path_id1 as nat, path_id2 as nat, 4);
    lemma_be_bytes_injective(pkt_num1 as nat, pkt_num2 as nat, 8);
}

} // verus!
