//! AES counter-mode keystreams, the SRTP key-derivation function, and the
//! per-packet initialization vectors, all verified against the named AES
//! block function.

use vstd::prelude::*;
use crate::crypto::{aes_block, encrypt_block, hmac_sha1, hmac_sha1_digest};
use crate::bytes::{u32_byte, u48_byte};

verus! {

/// Upper bound on keystream length: the block counter lives in the low two
/// bytes of the counter block, so at most 65536 blocks can be generated.
pub const MAX_KEYSTREAM: usize = 0x100000;

/// Counter block `i`: the IV with its low two bytes replaced by `i` big-endian.
/// The engine's IVs always have those bytes zero, so no carry ever occurs.
pub open spec fn ctr_block(iv: Seq<u8>, i: nat) -> Seq<u8> {
    iv.update(14, ((i / 256) % 256) as u8).update(15, (i % 256) as u8)
}

/// The counter-mode keystream: byte `j` comes from the AES encryption of
/// counter block `j / 16`.
pub open spec fn keystream(key: Seq<u8>, iv: Seq<u8>, n: nat) -> Seq<u8> {
    Seq::new(n as nat, |j: int| aes_block(key, ctr_block(iv, (j / 16) as nat))[j % 16])
}

/// Generates `n` bytes of AES counter-mode keystream.
pub fn gen_keystream(key: &Vec<u8>, iv: &Vec<u8>, n: usize) -> (r: Vec<u8>)
    requires
        key@.len() == 16 || key@.len() == 24 || key@.len() == 32,
        iv@.len() == 16,
        n <= MAX_KEYSTREAM,
    ensures
        r@ == keystream(key@, iv@, n as nat),
{
    let mut out: Vec<u8> = Vec::new();
    let mut b: usize = 0;
    while out.len() < n
        invariant
            key@.len() == 16 || key@.len() == 24 || key@.len() == 32,
            iv@.len() == 16,
            n <= MAX_KEYSTREAM,
            out@.len() == (if 16 * b <= n { 16 * b } else { n as int }),
            forall|j: int| 0 <= j < out@.len()
                ==> out@[j] == keystream(key@, iv@, n as nat)[j],
        decreases n - out@.len(),
    {
        assert(16 * b < n);
        assert(b < 0x10000);
        let mut ctr: Vec<u8> = Vec::new();
        ctr.extend_from_slice(iv.as_slice());
        ctr[14] = (b / 256) as u8;
        ctr[15] = (b % 256) as u8;
        assert(ctr@ =~= ctr_block(iv@, b as nat));
        let kb = encrypt_block(key, &ctr);
        let mut t: usize = 0;
        while t < 16 && out.len() < n
            invariant
                0 <= t <= 16,
                out@.len() == (if 16 * b + t <= n { 16 * b + t } else { n as int }),
                16 * b + t <= n || t == 16,
                kb@ == aes_block(key@, ctr_block(iv@, b as nat)),
                kb@.len() == 16,
                n <= MAX_KEYSTREAM,
                iv@.len() == 16,
                key@.len() == 16 || key@.len() == 24 || key@.len() == 32,
                forall|j: int| 0 <= j < out@.len()
                    ==> out@[j] == keystream(key@, iv@, n as nat)[j],
            decreases 16 - t,
        {
            let ghost j: int = out@.len() as int;
            out.push(kb[t]);
            proof {
                assert(j == 16 * b + t);
                assert(j / 16 == b && j % 16 == t) by (nonlinear_arith)
                    requires j == 16 * (b as int) + (t as int), 0 <= t < 16, b >= 0;
                assert(out@[j] == keystream(key@, iv@, n as nat)[j]);
            }
            t += 1;
        }
        b += 1;
    }
    proof {
        assert(out@ =~= keystream(key@, iv@, n as nat));
    }
    out
}

/// The key-derivation IV for a label: the master salt, with the label mixed
/// into byte 7, zero-padded to a full block.
pub open spec fn kdf_iv(salt: Seq<u8>, label: u8) -> Seq<u8> {
    Seq::new(16, |i: int|
        if i < salt.len() && i < 14 {
            if i == 7 { (salt[i] ^ label) as u8 } else { salt[i] }
        } else {
            0u8
        })
}

/// The SRTP key-derivation function: `n` bytes of counter-mode keystream
/// under the master key, with the label-mixed salt as IV. Deterministic in
/// its arguments, so re-derivation from the same master material is
/// idempotent.
pub open spec fn derived_key(master_key: Seq<u8>, master_salt: Seq<u8>, label: u8, n: nat) -> Seq<u8> {
    keystream(master_key, kdf_iv(master_salt, label), n)
}

/// Derives `n` bytes of session key material for a label.
pub fn derive_key(master_key: &Vec<u8>, master_salt: &Vec<u8>, label: u8, n: usize) -> (r: Vec<u8>)
    requires
        master_key@.len() == 16 || master_key@.len() == 24 || master_key@.len() == 32,
        8 <= master_salt@.len() <= 14,
        n <= MAX_KEYSTREAM,
    ensures
        r@ == derived_key(master_key@, master_salt@, label, n as nat),
{
    let mut iv: Vec<u8> = Vec::new();
    iv.extend_from_slice(master_salt.as_slice());
    let x = iv[7] ^ label;
    iv[7] = x;
    while iv.len() < 16
        invariant
            master_salt@.len() <= iv@.len() <= 16,
            forall|i: int| 0 <= i < iv@.len() ==> iv@[i] == kdf_iv(master_salt@, label)[i],
            8 <= master_salt@.len() <= 14,
        decreases 16 - iv@.len(),
    {
        iv.push(0u8);
    }
    assert(iv@ =~= kdf_iv(master_salt@, label));
    gen_keystream(master_key, &iv, n)
}

/// The per-packet counter-mode IV: the session salt (14 bytes, zero-padded
/// to 16) XOR the SSRC at bytes 4..8 XOR the 48-bit packet index at
/// bytes 8..14.
pub open spec fn rtp_iv(salt: Seq<u8>, ssrc: u32, index: u64) -> Seq<u8> {
    Seq::new(16, |i: int|
        if 4 <= i < 8 {
            (salt[i] ^ u32_byte(ssrc, i - 4)) as u8
        } else if 8 <= i < 14 {
            (salt[i] ^ u48_byte(index, i - 8)) as u8
        } else if i < salt.len() && i < 14 {
            salt[i]
        } else {
            0u8
        })
}

/// Builds the per-packet counter-mode IV.
pub fn build_rtp_iv(salt: &Vec<u8>, ssrc: u32, index: u64) -> (r: Vec<u8>)
    requires
        salt@.len() == 14,
    ensures
        r@ == rtp_iv(salt@, ssrc, index),
        r@.len() == 16,
{
    let mut iv: Vec<u8> = Vec::new();
    iv.extend_from_slice(salt.as_slice());
    iv.push(0u8);
    iv.push(0u8);
    let mut k: usize = 0;
    while k < 4
        invariant
            0 <= k <= 4,
            iv@.len() == 16,
            salt@.len() == 14,
            forall|i: int| 0 <= i < 4 + k ==> iv@[i] == rtp_iv(salt@, ssrc, index)[i],
            forall|i: int| 4 + k <= i < 14 ==> iv@[i] == salt@[i],
            iv@[14] == 0u8 && iv@[15] == 0u8,
        decreases 4 - k,
    {
        let x = iv[4 + k] ^ u32_byte_exec(ssrc, k);
        iv[4 + k] = x;
        k += 1;
    }
    let mut k: usize = 0;
    while k < 6
        invariant
            0 <= k <= 6,
            iv@.len() == 16,
            salt@.len() == 14,
            forall|i: int| 0 <= i < 8 + k ==> iv@[i] == rtp_iv(salt@, ssrc, index)[i],
            forall|i: int| 8 + k <= i < 14 ==> iv@[i] == salt@[i],
            iv@[14] == 0u8 && iv@[15] == 0u8,
        decreases 6 - k,
    {
        let x = iv[8 + k] ^ u48_byte_exec(index, k);
        iv[8 + k] = x;
        k += 1;
    }
    assert(iv@ =~= rtp_iv(salt@, ssrc, index));
    iv
}

/// The per-packet AES-GCM nonce: the 12-byte session salt XOR the SSRC at
/// bytes 2..6 XOR the 48-bit packet index at bytes 6..12.
pub open spec fn gcm_iv(salt: Seq<u8>, ssrc: u32, index: u64) -> Seq<u8> {
    Seq::new(12, |i: int|
        if 2 <= i < 6 {
            (salt[i] ^ u32_byte(ssrc, i - 2)) as u8
        } else if 6 <= i < 12 {
            (salt[i] ^ u48_byte(index, i - 6)) as u8
        } else if i < salt.len() {
            salt[i]
        } else {
            0u8
        })
}

/// Builds the per-packet AES-GCM nonce.
pub fn build_gcm_iv(salt: &Vec<u8>, ssrc: u32, index: u64) -> (r: Vec<u8>)
    requires
        salt@.len() == 12,
    ensures
        r@ == gcm_iv(salt@, ssrc, index),
        r@.len() == 12,
{
    let mut iv: Vec<u8> = Vec::new();
    iv.extend_from_slice(salt.as_slice());
    let mut k: usize = 0;
    while k < 4
        invariant
            0 <= k <= 4,
            iv@.len() == 12,
            salt@.len() == 12,
            forall|i: int| 0 <= i < 2 + k ==> iv@[i] == gcm_iv(salt@, ssrc, index)[i],
            forall|i: int| 2 + k <= i < 12 ==> iv@[i] == salt@[i],
        decreases 4 - k,
    {
        let x = iv[2 + k] ^ u32_byte_exec(ssrc, k);
        iv[2 + k] = x;
        k += 1;
    }
    let mut k: usize = 0;
    while k < 6
        invariant
            0 <= k <= 6,
            iv@.len() == 12,
            salt@.len() == 12,
            forall|i: int| 0 <= i < 6 + k ==> iv@[i] == gcm_iv(salt@, ssrc, index)[i],
            forall|i: int| 6 + k <= i < 12 ==> iv@[i] == salt@[i],
        decreases 6 - k,
    {
        let x = iv[6 + k] ^ u48_byte_exec(index, k);
        iv[6 + k] = x;
        k += 1;
    }
    assert(iv@ =~= gcm_iv(salt@, ssrc, index));
    iv
}

/// Extracts big-endian byte `k` of a 32-bit value.
pub fn u32_byte_exec(x: u32, k: usize) -> (r: u8)
    requires
        k < 4,
    ensures
        r == u32_byte(x, k as int),
{
    if k == 0 {
        ((x >> 24) & 0xff) as u8
    } else if k == 1 {
        ((x >> 16) & 0xff) as u8
    } else if k == 2 {
        ((x >> 8) & 0xff) as u8
    } else {
        (x & 0xff) as u8
    }
}

/// Extracts big-endian byte `k` of a 48-bit value held in a `u64`.
pub fn u48_byte_exec(x: u64, k: usize) -> (r: u8)
    requires
        k < 6,
    ensures
        r == u48_byte(x, k as int),
{
    if k == 0 {
        ((x >> 40) & 0xff) as u8
    } else if k == 1 {
        ((x >> 32) & 0xff) as u8
    } else if k == 2 {
        ((x >> 24) & 0xff) as u8
    } else if k == 3 {
        ((x >> 16) & 0xff) as u8
    } else if k == 4 {
        ((x >> 8) & 0xff) as u8
    } else {
        (x & 0xff) as u8
    }
}

/// The HMAC-SHA1 authentication tag: the digest truncated to `n` bytes.
pub open spec fn hmac_tag(key: Seq<u8>, msg: Seq<u8>, n: nat) -> Seq<u8> {
    Seq::new(n as nat, |i: int| hmac_sha1(key, msg)[i])
}

/// Computes the truncated HMAC-SHA1 tag.
pub fn compute_hmac_tag(key: &Vec<u8>, msg: &Vec<u8>, n: usize) -> (r: Vec<u8>)
    requires
        n <= 20,
    ensures
        r@ == hmac_tag(key@, msg@, n as nat),
{
    let mut d = hmac_sha1_digest(key, msg);
    d.truncate(n);
    assert(d@ =~= hmac_tag(key@, msg@, n as nat));
    d
}

} // verus!
