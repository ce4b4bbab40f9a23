//! Big-endian numbers.

use vstd::prelude::*;

verus! {

/// 256 to the power of `n`: how many numbers `n` bytes can hold.
pub open spec fn pow256(n: nat) -> nat
    decreases n,
{
    if n == 0 {
        1
    } else {
        256 * pow256((n - 1) as nat)
    }
}

/// The `n` lowest bytes of `v`, the most significant one first.
pub open spec fn be_bytes(v: nat, n: nat) -> Seq<u8>
    decreases n,
{
    if n == 0 {
        Seq::empty()
    } else {
        be_bytes(v / 256, (n - 1) as nat).push((v % 256) as u8)
    }
}

/// The number that `s` stands for, the most significant byte first.
pub open spec fn be_value(s: Seq<u8>) -> nat
    decreases s.len(),
{
    if s.len() == 0 {
        0
    } else {
        be_value(s.drop_last()) * 256 + s.last() as nat
    }
}

/// `be_bytes` gives as many bytes as it is asked for.
pub proof fn lemma_be_bytes_len(v: nat, n: nat)
    ensures
        be_bytes(v, n).len() == n,
    decreases n,
{
    if n > 0 {
        lemma_be_bytes_len(v / 256, (n - 1) as nat);
    }
}

/// The bytes of a number stand for that number, where they can hold it.
pub proof fn lemma_be_value_of_bytes(v: nat, n: nat)
    requires
        v < pow256(n),
    ensures
        be_value(be_bytes(v, n)) == v,
    decreases n,
{
    if n > 0 {
        let m = (n - 1) as nat;
        assert(v / 256 < pow256(m));
        lemma_be_value_of_bytes(v / 256, m);
        let s = be_bytes(v, n);
        assert(s.drop_last() =~= be_bytes(v / 256, m));
        assert(s.last() == (v % 256) as u8);
    }
}

/// A number that some bytes stand for has those bytes.
pub proof fn lemma_be_bytes_of_value(s: Seq<u8>)
    ensures
        be_value(s) < pow256(s.len()),
        be_bytes(be_value(s), s.len()) == s,
    decreases s.len(),
{
    if s.len() > 0 {
        let t = s.drop_last();
        lemma_be_bytes_of_value(t);
        let v = be_value(s);
        assert(v / 256 == be_value(t));
        assert(v % 256 == s.last());
        assert(be_bytes(v, s.len()) =~= t.push(s.last()));
        assert(t.push(s.last()) =~= s);
    } else {
        assert(be_bytes(be_value(s), 0) =~= s);
    }
}

/// Two numbers with the same bytes are the same number, where the bytes can
/// hold them.
pub proof fn lemma_be_bytes_injective(a: nat, b: nat, n: nat)
    requires
        a < pow256(n),
        b < pow256(n),
        be_bytes(a, n) == be_bytes(b, n),
    ensures
        a == b,
{
    lemma_be_value_of_bytes(a, n);
    lemma_be_value_of_bytes(b, n);
}

/// How many numbers a few bytes can hold.
pub proof fn lemma_pow256_values()
    ensures
        pow256(0) == 1,
        pow256(1) == 0x100,
        pow256(2) == 0x1_0000,
        pow256(3) == 0x100_0000,
        pow256(4) == 0x1_0000_0000,
        pow256(7) == 0x100_0000_0000_0000,
        pow256(8) == 0x1_0000_0000_0000_0000,
        pow256(16) == 0x1_0000_0000_0000_0000_0000_0000_0000_0000,
{
    reveal_with_fuel(pow256, 17);
}

/// The bytes of a reset token, the most significant one first.
pub fn u128_to_be(v: u128) -> (r: [u8; 16])
    ensures
        r@ == be_bytes(v as nat, 16),
{
    let mut r: [u8; 16] = [0; 16];
    let mut left: u128 = v;
    let mut n: usize = 16;
    assert(r@.skip(16) =~= Seq::empty());
    proof {
        lemma_be_bytes_len(v as nat, 16);
    }
    while n > 0
        invariant
            n <= 16,
            be_bytes(v as nat, 16) == be_bytes(left as nat, n as nat) + r@.skip(n as int),
        decreases n,
    {
        let ghost before = r@.skip(n as int);
        let b: u8 = (left % 256) as u8;
        n -= 1;
        r[n] = b;
        proof {
            assert(r@.skip(n as int) =~= seq![b] + before);
            assert(be_bytes(left as nat, (n + 1) as nat) == be_bytes(
                (left / 256) as nat,
                n as nat,
            ).push(b));
            assert(be_bytes((left / 256) as nat, n as nat).push(b) + before =~= be_bytes(
                (left / 256) as nat,
                n as nat,
            ) + r@.skip(n as int));
        }
        left = left / 256;
    }
    assert(r@.skip(0) =~= r@);
    assert(be_bytes(v as nat, 16) =~= r@);
    r
}

/// The `n` lowest bytes of a number, the most significant one first.
pub fn be_vec(v: u64, n: usize) -> (r: Vec<u8>)
    requires
        n <= 8,
    ensures
        r@ == be_bytes(v as nat, n as nat),
    decreases n,
{
    if n == 0 {
        return Vec::new();
    }
    let mut r = be_vec(v / 256, n - 1);
    r.push((v % 256) as u8);
    r
}

/// The number that up to 16 bytes stand for, the most significant one first.
pub fn u128_from_be(b: &[u8]) -> (r: u128)
    requires
        b@.len() <= 16,
    ensures
        r == be_value(b@),
{
    let mut v: u128 = 0;
    let mut i: usize = 0;
    proof {
        lemma_pow256_values();
        assert(b@.take(0) =~= Seq::empty());
    }
    while i < b.len()
        invariant
            i <= b@.len() <= 16,
            v == be_value(b@.take(i as int)),
            pow256(16) == 0x1_0000_0000_0000_0000_0000_0000_0000_0000,
        decreases b@.len() - i,
    {
        proof {
            let t = b@.take(i + 1);
            assert(t.drop_last() =~= b@.take(i as int));
            assert(t.last() == b@[i as int]);
            lemma_be_bytes_of_value(t);
            lemma_pow256_monotonic((i + 1) as nat, 16);
        }
        v = v * 256 + b[i] as u128;
        i += 1;
    }
    assert(b@.take(i as int) =~= b@);
    v
}

/// More bytes hold more numbers.
pub proof fn lemma_pow256_monotonic(a: nat, b: nat)
    requires
        a <= b,
    ensures
        pow256(a) <= pow256(b),
        1 <= pow256(a),
    decreases b,
{
    if b > 0 {
        if a < b {
            lemma_pow256_monotonic(a, (b - 1) as nat);
        } else {
            lemma_pow256_monotonic((a - 1) as nat, (b - 1) as nat);
        }
    }
}

} // verus!
