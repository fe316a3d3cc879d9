//! Big-endian byte encodings and pointwise XOR, with their round-trip lemmas.

use vstd::prelude::*;

verus! {

/// The 16-bit value that two big-endian bytes denote.
pub open spec fn be16(b0: u8, b1: u8) -> u16 {
    ((b0 as u16) * 256 + (b1 as u16)) as u16
}

/// The two big-endian bytes of a 16-bit value.
pub open spec fn u16_be(x: u16) -> Seq<u8> {
    seq![(x / 256) as u8, (x % 256) as u8]
}

/// The 32-bit value that four big-endian bytes denote.
pub open spec fn be32(b0: u8, b1: u8, b2: u8, b3: u8) -> u32 {
    ((be16(b0, b1) as u32) * 0x10000 + (be16(b2, b3) as u32)) as u32
}

/// The four big-endian bytes of a 32-bit value.
pub open spec fn u32_be(x: u32) -> Seq<u8> {
    u16_be((x / 0x10000) as u16) + u16_be((x % 0x10000) as u16)
}

/// The 32-bit value read at offset `i` of `b`.
pub open spec fn be32_at(b: Seq<u8>, i: int) -> u32 {
    be32(b[i], b[i + 1], b[i + 2], b[i + 3])
}

/// Byte `k` (big-endian, `k < 4`) of a 32-bit value.
pub open spec fn u32_byte(x: u32, k: int) -> u8 {
    if k == 0 {
        ((x >> 24) & 0xff) as u8
    } else if k == 1 {
        ((x >> 16) & 0xff) as u8
    } else if k == 2 {
        ((x >> 8) & 0xff) as u8
    } else {
        (x & 0xff) as u8
    }
}

/// Byte `k` (big-endian, `k < 6`) of a 48-bit value held in a `u64`.
pub open spec fn u48_byte(x: u64, k: int) -> u8 {
    if k == 0 {
        ((x >> 40) & 0xff) as u8
    } else if k == 1 {
        ((x >> 32) & 0xff) as u8
    } else if k == 2 {
        ((x >> 24) & 0xff) as u8
    } else if k == 3 {
        ((x >> 16) & 0xff) as u8
    } else if k == 4 {
        ((x >> 8) & 0xff) as u8
    } else {
        (x & 0xff) as u8
    }
}

pub proof fn lemma_be16_round_trip(b0: u8, b1: u8)
    ensures
        u16_be(be16(b0, b1)) == seq![b0, b1],
{
    let x = be16(b0, b1);
    assert(x / 256 == b0 && x % 256 == b1) by {
        assert((b0 as u16) * 256 + (b1 as u16) < 0x10000);
        assert(((b0 as u16) * 256 + (b1 as u16)) / 256 == b0 as u16
            && ((b0 as u16) * 256 + (b1 as u16)) % 256 == b1 as u16) by (nonlinear_arith)
            requires b1 < 256;
    }
    assert(u16_be(x) =~= seq![b0, b1]);
}

pub proof fn lemma_be32_round_trip(b0: u8, b1: u8, b2: u8, b3: u8)
    ensures
        u32_be(be32(b0, b1, b2, b3)) == seq![b0, b1, b2, b3],
{
    let hi = be16(b0, b1) as u32;
    let lo = be16(b2, b3) as u32;
    let x = be32(b0, b1, b2, b3);
    assert(x / 0x10000 == hi && x % 0x10000 == lo) by {
        assert(hi * 0x10000 + lo < 0x1_0000_0000);
        assert((hi * 0x10000 + lo) / 0x10000 == hi
            && (hi * 0x10000 + lo) % 0x10000 == lo) by (nonlinear_arith)
            requires lo < 0x10000;
    }
    lemma_be16_round_trip(b0, b1);
    lemma_be16_round_trip(b2, b3);
    assert(u32_be(x) =~= seq![b0, b1, b2, b3]);
}

/// A 32-bit value survives the trip through its big-endian bytes.
pub proof fn lemma_u32_be_round_trip(x: u32)
    ensures
        u32_be(x).len() == 4,
        be32(u32_be(x)[0], u32_be(x)[1], u32_be(x)[2], u32_be(x)[3]) == x,
{
    let hi = (x / 0x10000) as u16;
    let lo = (x % 0x10000) as u16;
    assert(be16(u16_be(hi)[0], u16_be(hi)[1]) == hi) by {
        assert((hi / 256) * 256 + hi % 256 == hi) by (nonlinear_arith);
    }
    assert(be16(u16_be(lo)[0], u16_be(lo)[1]) == lo) by {
        assert((lo / 256) * 256 + lo % 256 == lo) by (nonlinear_arith);
    }
    assert((x / 0x10000) * 0x10000 + x % 0x10000 == x) by (nonlinear_arith);
}

/// Reads two big-endian bytes at offset `i`.
pub fn read_be16(b: &Vec<u8>, i: usize) -> (r: u16)
    requires
        i + 2 <= b@.len(),
    ensures
        r == be16(b@[i as int], b@[i + 1]),
{
    let n = b.len();
    (b[i] as u16) * 256 + (b[i + 1] as u16)
}

/// Reads four big-endian bytes at offset `i`.
pub fn read_be32(b: &Vec<u8>, i: usize) -> (r: u32)
    requires
        i + 4 <= b@.len(),
    ensures
        r == be32_at(b@, i as int),
{
    let n = b.len();
    let hi = read_be16(b, i);
    let lo = read_be16(b, i + 2);
    (hi as u32) * 0x10000 + (lo as u32)
}

/// Appends the two big-endian bytes of `x`.
pub fn push_be16(v: &mut Vec<u8>, x: u16)
    ensures
        final(v)@ == old(v)@ + u16_be(x),
{
    v.push((x / 256) as u8);
    v.push((x % 256) as u8);
    assert(v@ =~= old(v)@ + u16_be(x));
}

/// Appends the four big-endian bytes of `x`.
pub fn push_be32(v: &mut Vec<u8>, x: u32)
    ensures
        final(v)@ == old(v)@ + u32_be(x),
{
    push_be16(v, (x / 0x10000) as u16);
    push_be16(v, (x % 0x10000) as u16);
    assert(v@ =~= old(v)@ + u32_be(x));
}

/// Pointwise XOR of `a` against the first `a.len()` bytes of `k`.
pub open spec fn xor_bytes(a: Seq<u8>, k: Seq<u8>) -> Seq<u8> {
    Seq::new(a.len(), |i: int| a[i] ^ k[i])
}

/// XOR is an involution: masking twice with the same keystream restores
/// the original bytes.
pub proof fn lemma_xor_involution(a: Seq<u8>, k: Seq<u8>)
    requires
        k.len() >= a.len(),
    ensures
        xor_bytes(xor_bytes(a, k), k) == a,
{
    assert forall|i: int| 0 <= i < a.len() implies xor_bytes(xor_bytes(a, k), k)[i] == a[i] by {
        let x = a[i];
        let y = k[i];
        assert((x ^ y) ^ y == x) by (bit_vector);
    }
    assert(xor_bytes(xor_bytes(a, k), k) =~= a);
}

/// XORs `v[start..]` in place with the first bytes of `ks`.
pub fn xor_range(v: &mut Vec<u8>, start: usize, ks: &Vec<u8>)
    requires
        start + ks@.len() == old(v)@.len(),
    ensures
        final(v)@.len() == old(v)@.len(),
        final(v)@ == old(v)@.take(start as int) + xor_bytes(old(v)@.skip(start as int), ks@),
{
    let end = v.len();
    let mut i: usize = start;
    while i < end
        invariant
            start <= i <= end,
            end == v@.len() == old(v)@.len(),
            start + ks@.len() == old(v)@.len(),
            forall|j: int| 0 <= j < start ==> v@[j] == old(v)@[j],
            forall|j: int| start <= j < i ==> v@[j] == (old(v)@[j] ^ ks@[j - start]),
            forall|j: int| i <= j < end ==> v@[j] == old(v)@[j],
        decreases end - i,
    {
        let b = v[i] ^ ks[i - start];
        v[i] = b;
        i += 1;
    }
    assert(v@ =~= old(v)@.take(start as int) + xor_bytes(old(v)@.skip(start as int), ks@));
}

/// Copies `v[start..start+len]` into a fresh vector.
pub fn sub_vec(v: &Vec<u8>, start: usize, len: usize) -> (r: Vec<u8>)
    requires
        start + len <= v@.len(),
    ensures
        r@ == v@.subrange(start as int, start + len),
{
    let n = v.len();
    let mut out: Vec<u8> = Vec::new();
    let mut k: usize = 0;
    while k < len
        invariant
            0 <= k <= len,
            start + len <= n == v@.len(),
            out@ == v@.subrange(start as int, start + k),
        decreases len - k,
    {
        out.push(v[start + k]);
        assert(out@ =~= v@.subrange(start as int, start + k + 1));
        k += 1;
    }
    out
}

/// Compares two byte vectors without an early exit on the first mismatch,
/// accumulating the difference instead, so the comparison time does not
/// depend on where the contents differ.
pub fn eq_bytes(a: &Vec<u8>, b: &Vec<u8>) -> (r: bool)
    ensures
        r <==> a@ == b@,
{
    if a.len() != b.len() {
        return false;
    }
    let n = a.len();
    let mut diff: u8 = 0;
    let mut k: usize = 0;
    while k < n
        invariant
            0 <= k <= n,
            n == a@.len() == b@.len(),
            (diff == 0) <==> (forall|j: int| 0 <= j < k ==> a@[j] == b@[j]),
        decreases n - k,
    {
        let x = a[k] ^ b[k];
        proof {
            let d = diff;
            assert((d | x) == 0 <==> (d == 0 && x == 0)) by (bit_vector);
            let av = a@[k as int];
            let bv = b@[k as int];
            assert((av ^ bv) == 0 <==> av == bv) by (bit_vector);
        }
        diff = diff | x;
        k += 1;
    }
    proof {
        if diff == 0 {
            assert(a@ =~= b@);
        }
    }
    diff == 0
}

} // verus!
