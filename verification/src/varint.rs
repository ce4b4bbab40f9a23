//! Variable-length integers.

use crate::bytes::{
    be_bytes, be_value, lemma_be_bytes_len, lemma_be_value_of_bytes, lemma_pow256_values, pow256,
};
use vstd::prelude::*;

verus! {

/// The largest number that a variable-length integer can hold.
pub const MAX_VAR_INT: u64 = 0x3fff_ffff_ffff_ffff;

/// How many bytes `v` takes as a variable-length integer.
pub open spec fn varint_size(v: u64) -> nat {
    if v < 0x40 {
        1
    } else if v < 0x4000 {
        2
    } else if v < 0x4000_0000 {
        4
    } else {
        8
    }
}

/// What the two most significant bits of a variable-length integer of `n` bytes
/// contribute to the number that its bytes stand for.
pub open spec fn varint_mark(n: nat) -> nat {
    if n == 1 {
        0
    } else if n == 2 {
        0x4000
    } else if n == 4 {
        0x8000_0000
    } else {
        0xc000_0000_0000_0000
    }
}

/// How many numbers a variable-length integer of `n` bytes can hold.
pub open spec fn varint_span(n: nat) -> nat {
    if n == 1 {
        0x40
    } else if n == 2 {
        0x4000
    } else if n == 4 {
        0x4000_0000
    } else {
        0x4000_0000_0000_0000
    }
}

/// `v` as a variable-length integer.
pub open spec fn varint_bytes(v: u64) -> Seq<u8> {
    let n = varint_size(v);
    be_bytes(v as nat + varint_mark(n), n)
}

/// The two bytes that a number is written as where two bytes are reserved for it:
/// the last two bytes of the number, with the mark of two bytes on them.
pub open spec fn two_byte_varint(v: u64) -> Seq<u8> {
    seq![((v / 256) % 256) as u8 | 0x40u8, (v % 256) as u8]
}

/// How many bytes a variable-length integer has that starts with `first`.
pub open spec fn varint_size_of_first(first: u8) -> nat {
    if first < 0x40 {
        1
    } else if first < 0x80 {
        2
    } else if first < 0xc0 {
        4
    } else {
        8
    }
}

/// The variable-length integer at the start of `s` and the number of its bytes,
/// unless `s` ends before it does.
pub open spec fn varint_at(s: Seq<u8>) -> Option<(u64, nat)> {
    if s.len() == 0 || s.len() < varint_size_of_first(s[0]) {
        None
    } else {
        let n = varint_size_of_first(s[0]);
        Some(((be_value(s.take(n as int)) % varint_span(n)) as u64, n))
    }
}

/// The number of bytes is the one that was announced.
pub proof fn lemma_varint_len(v: u64)
    ensures
        varint_bytes(v).len() == varint_size(v),
        1 <= varint_size(v) <= 8,
{
    lemma_be_bytes_len(v as nat + varint_mark(varint_size(v)), varint_size(v));
}

/// The most significant byte of a number of `n` bytes.
proof fn lemma_first_byte(v: nat, n: nat)
    requires
        n >= 1,
        v < pow256(n),
    ensures
        be_bytes(v, n).len() == n,
        be_bytes(v, n)[0] == v / pow256((n - 1) as nat),
    decreases n,
{
    lemma_be_bytes_len(v, n);
    if n == 1 {
        assert(be_bytes(v / 256, 0).len() == 0);
    } else {
        let m = (n - 1) as nat;
        assert(v / 256 < pow256(m));
        lemma_first_byte(v / 256, m);
        assert(be_bytes(v, n)[0] == be_bytes(v / 256, m)[0]);
        crate::bytes::lemma_pow256_monotonic(0, (m - 1) as nat);
        vstd::arithmetic::div_mod::lemma_div_denominator(
            v as int,
            256,
            pow256((m - 1) as nat) as int,
        );
    }
}

/// Reading back what was written gives the number, whatever follows it.
pub proof fn lemma_varint_roundtrip(v: u64, rest: Seq<u8>)
    requires
        v <= MAX_VAR_INT,
    ensures
        varint_at(varint_bytes(v) + rest) == Some((v, varint_size(v))),
{
    let n = varint_size(v);
    let x = v as nat + varint_mark(n);
    let s = varint_bytes(v) + rest;
    lemma_pow256_values();
    lemma_varint_len(v);
    lemma_first_byte(x, n);
    lemma_be_value_of_bytes(x, n);
    assert(s[0] == varint_bytes(v)[0]);
    assert(s.take(n as int) =~= varint_bytes(v));
    assert(x < pow256(n));
    if n == 1 {
        assert(s[0] == x / 1);
    } else if n == 2 {
        assert(s[0] == x / 0x100);
    } else if n == 4 {
        assert(s[0] == x / 0x100_0000);
    } else {
        assert(s[0] == x / 0x100_0000_0000_0000);
    }
    assert(varint_size_of_first(s[0]) == n);
    assert(x % varint_span(n) == v);
}

/// Reading back what was written into two reserved bytes gives the number, where
/// two bytes can hold it.
pub proof fn lemma_two_byte_roundtrip(v: u64, rest: Seq<u8>)
    requires
        v < 0x4000,
    ensures
        varint_at(two_byte_varint(v) + rest) == Some((v, 2nat)),
{
    let hi = ((v / 256) % 256) as u8;
    let lo = (v % 256) as u8;
    let s = two_byte_varint(v) + rest;
    assert(hi | 0x40u8 == hi + 0x40) by (bit_vector)
        requires
            hi < 0x40,
    ;
    let two = s.take(2);
    assert(two =~= seq![(hi + 0x40) as u8, lo]);
    assert(two.drop_last() =~= seq![(hi + 0x40) as u8]);
    assert(two.drop_last().drop_last() =~= Seq::empty());
    reveal_with_fuel(be_value, 3);
    assert(be_value(two) == (hi + 0x40) * 256 + lo);
    assert((0x4000 + v) % 0x4000 == v);
}

/// A variable-length integer does not depend on what follows it.
pub proof fn lemma_varint_prefix(s: Seq<u8>, rest: Seq<u8>)
    requires
        varint_at(s) is Some,
    ensures
        varint_at(s + rest) == varint_at(s),
{
    let n = varint_size_of_first(s[0]);
    assert((s + rest)[0] == s[0]);
    assert((s + rest).take(n as int) =~= s.take(n as int));
}

/// What is read is a number that a variable-length integer can hold.
pub proof fn lemma_varint_bounded(s: Seq<u8>)
    ensures
        varint_at(s) matches Some((v, n)) ==> v <= MAX_VAR_INT && 1 <= n <= 8 && n <= s.len(),
{
}

} // verus!
