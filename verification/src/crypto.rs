//! Trusted boundary to the outside cryptographic primitives.
//!
//! Each wrapper makes exactly one outside call. What a primitive returns is a
//! pure function of its arguments, so each result is given an uninterpreted
//! name; the verified engine reasons only over these names.

use vstd::prelude::*;

verus! {

/// What the AES-128 block function returns for a key and a 16-byte block.
pub uninterp spec fn aes128_block(key: Seq<u8>, block: Seq<u8>) -> Seq<u8>;

/// What the AES-192 block function returns for a key and a 16-byte block.
pub uninterp spec fn aes192_block(key: Seq<u8>, block: Seq<u8>) -> Seq<u8>;

/// What the AES-256 block function returns for a key and a 16-byte block.
pub uninterp spec fn aes256_block(key: Seq<u8>, block: Seq<u8>) -> Seq<u8>;

/// What HMAC-SHA1 returns for a key and a message.
pub uninterp spec fn hmac_sha1(key: Seq<u8>, msg: Seq<u8>) -> Seq<u8>;

/// What AES-GCM-128 with an 8-byte tag returns (ciphertext with the tag
/// appended) for a key, a 12-byte nonce, associated data and a plaintext.
pub uninterp spec fn gcm_128_8_seal(key: Seq<u8>, nonce: Seq<u8>, aad: Seq<u8>, pt: Seq<u8>) -> Seq<u8>;

/// What AES-GCM-128 with a 16-byte tag returns, as `gcm_128_8_seal`.
pub uninterp spec fn gcm_128_16_seal(key: Seq<u8>, nonce: Seq<u8>, aad: Seq<u8>, pt: Seq<u8>) -> Seq<u8>;

/// What AES-GCM-256 with an 8-byte tag returns, as `gcm_128_8_seal`.
pub uninterp spec fn gcm_256_8_seal(key: Seq<u8>, nonce: Seq<u8>, aad: Seq<u8>, pt: Seq<u8>) -> Seq<u8>;

/// What AES-GCM-256 with a 16-byte tag returns, as `gcm_128_8_seal`.
pub uninterp spec fn gcm_256_16_seal(key: Seq<u8>, nonce: Seq<u8>, aad: Seq<u8>, pt: Seq<u8>) -> Seq<u8>;

/// Relies on `aes::Aes128` (`BlockCipherEncrypt::encrypt_block`): the AES-128
/// block function; a 16-byte result depending on key and block alone.
#[verifier::external_body]
pub(crate) fn aes128_encrypt_block(key: &Vec<u8>, block: &Vec<u8>) -> (r: Vec<u8>)
    requires
        key@.len() == 16,
        block@.len() == 16,
    ensures
        r@ == aes128_block(key@, block@),
        r@.len() == 16,
{
    let c = <aes::Aes128 as aes::cipher::KeyInit>::new_from_slice(key.as_slice()).unwrap();
    let mut b = aes::cipher::Array::clone_from_slice(block.as_slice());
    aes::cipher::BlockCipherEncrypt::encrypt_block(&c, &mut b);
    b.as_slice().to_vec()
}

/// Relies on `aes::Aes192` (`BlockCipherEncrypt::encrypt_block`): the AES-192
/// block function; a 16-byte result depending on key and block alone.
#[verifier::external_body]
pub(crate) fn aes192_encrypt_block(key: &Vec<u8>, block: &Vec<u8>) -> (r: Vec<u8>)
    requires
        key@.len() == 24,
        block@.len() == 16,
    ensures
        r@ == aes192_block(key@, block@),
        r@.len() == 16,
{
    let c = <aes::Aes192 as aes::cipher::KeyInit>::new_from_slice(key.as_slice()).unwrap();
    let mut b = aes::cipher::Array::clone_from_slice(block.as_slice());
    aes::cipher::BlockCipherEncrypt::encrypt_block(&c, &mut b);
    b.as_slice().to_vec()
}

/// Relies on `aes::Aes256` (`BlockCipherEncrypt::encrypt_block`): the AES-256
/// block function; a 16-byte result depending on key and block alone.
#[verifier::external_body]
pub(crate) fn aes256_encrypt_block(key: &Vec<u8>, block: &Vec<u8>) -> (r: Vec<u8>)
    requires
        key@.len() == 32,
        block@.len() == 16,
    ensures
        r@ == aes256_block(key@, block@),
        r@.len() == 16,
{
    let c = <aes::Aes256 as aes::cipher::KeyInit>::new_from_slice(key.as_slice()).unwrap();
    let mut b = aes::cipher::Array::clone_from_slice(block.as_slice());
    aes::cipher::BlockCipherEncrypt::encrypt_block(&c, &mut b);
    b.as_slice().to_vec()
}

/// Relies on `hmac::Hmac<sha1::Sha1>` (`Mac::update`/`finalize`): a 20-byte
/// digest depending on key and message alone; any key length is accepted.
#[verifier::external_body]
pub(crate) fn hmac_sha1_digest(key: &Vec<u8>, msg: &Vec<u8>) -> (r: Vec<u8>)
    ensures
        r@ == hmac_sha1(key@, msg@),
        r@.len() == 20,
{
    let mut m = <hmac::Hmac<sha1::Sha1> as hmac::KeyInit>::new_from_slice(key.as_slice()).unwrap();
    hmac::Mac::update(&mut m, msg.as_slice());
    hmac::Mac::finalize(m).into_bytes().as_slice().to_vec()
}

/// The AES block function of the key's size (16, 24 or 32 bytes).
pub open spec fn aes_block(key: Seq<u8>, block: Seq<u8>) -> Seq<u8> {
    if key.len() == 32 {
        aes256_block(key, block)
    } else if key.len() == 24 {
        aes192_block(key, block)
    } else {
        aes128_block(key, block)
    }
}

/// Encrypts one 16-byte block under the AES variant the key length selects.
pub(crate) fn encrypt_block(key: &Vec<u8>, block: &Vec<u8>) -> (r: Vec<u8>)
    requires
        key@.len() == 16 || key@.len() == 24 || key@.len() == 32,
        block@.len() == 16,
    ensures
        r@ == aes_block(key@, block@),
        r@.len() == 16,
{
    if key.len() == 32 {
        aes256_encrypt_block(key, block)
    } else if key.len() == 24 {
        aes192_encrypt_block(key, block)
    } else {
        aes128_encrypt_block(key, block)
    }
}

/// Relies on `aes_gcm::AesGcm<Aes128, U12, U8>` (`Aead::encrypt`): returns
/// ciphertext with the 8-byte tag appended; a function of key, nonce,
/// associated data and plaintext alone.
#[verifier::external_body]
pub(crate) fn gcm_128_8_encrypt(key: &Vec<u8>, nonce: &Vec<u8>, aad: &Vec<u8>, pt: &Vec<u8>) -> (r: Vec<u8>)
    requires
        key@.len() == 16,
        nonce@.len() == 12,
        aad@.len() < 0x1000000,
        pt@.len() < 0x1000000,
    ensures
        r@ == gcm_128_8_seal(key@, nonce@, aad@, pt@),
        r@.len() == pt@.len() + 8,
{
    let c = <aes_gcm::AesGcm<aes::Aes128, aes_gcm::aead::consts::U12, aes_gcm::aead::consts::U8> as aes_gcm::KeyInit>::new_from_slice(key.as_slice()).unwrap();
    let n = aes_gcm::aead::array::Array::clone_from_slice(nonce.as_slice());
    let p = aes_gcm::aead::Payload { msg: pt.as_slice(), aad: aad.as_slice() };
    aes_gcm::aead::Aead::encrypt(&c, &n, p).unwrap()
}

/// Relies on `aes_gcm::AesGcm<Aes128, U12, U8>` (`Aead::decrypt`): inverts
/// `Aead::encrypt`, succeeding exactly on its outputs for the same key,
/// nonce and associated data.
#[verifier::external_body]
pub(crate) fn gcm_128_8_decrypt(key: &Vec<u8>, nonce: &Vec<u8>, aad: &Vec<u8>, ct: &Vec<u8>) -> (r: Option<Vec<u8>>)
    requires
        key@.len() == 16,
        nonce@.len() == 12,
        aad@.len() < 0x1000000,
        ct@.len() < 0x1000000,
    ensures
        r matches Some(pt) ==> ct@ == gcm_128_8_seal(key@, nonce@, aad@, pt@) && ct@.len() == pt@.len() + 8,
        r matches Some(pt) ==> forall|q: Seq<u8>| ct@ == gcm_128_8_seal(key@, nonce@, aad@, q) ==> q == pt@,
        r is None ==> forall|q: Seq<u8>| ct@ != gcm_128_8_seal(key@, nonce@, aad@, q),
{
    let c = <aes_gcm::AesGcm<aes::Aes128, aes_gcm::aead::consts::U12, aes_gcm::aead::consts::U8> as aes_gcm::KeyInit>::new_from_slice(key.as_slice()).unwrap();
    let n = aes_gcm::aead::array::Array::clone_from_slice(nonce.as_slice());
    let p = aes_gcm::aead::Payload { msg: ct.as_slice(), aad: aad.as_slice() };
    aes_gcm::aead::Aead::decrypt(&c, &n, p).ok()
}

/// Relies on `aes_gcm::AesGcm<Aes128, U12, U16>` (`Aead::encrypt`), as
/// `gcm_128_8_encrypt` but with a 16-byte tag.
#[verifier::external_body]
pub(crate) fn gcm_128_16_encrypt(key: &Vec<u8>, nonce: &Vec<u8>, aad: &Vec<u8>, pt: &Vec<u8>) -> (r: Vec<u8>)
    requires
        key@.len() == 16,
        nonce@.len() == 12,
        aad@.len() < 0x1000000,
        pt@.len() < 0x1000000,
    ensures
        r@ == gcm_128_16_seal(key@, nonce@, aad@, pt@),
        r@.len() == pt@.len() + 16,
{
    let c = <aes_gcm::AesGcm<aes::Aes128, aes_gcm::aead::consts::U12, aes_gcm::aead::consts::U16> as aes_gcm::KeyInit>::new_from_slice(key.as_slice()).unwrap();
    let n = aes_gcm::aead::array::Array::clone_from_slice(nonce.as_slice());
    let p = aes_gcm::aead::Payload { msg: pt.as_slice(), aad: aad.as_slice() };
    aes_gcm::aead::Aead::encrypt(&c, &n, p).unwrap()
}

/// Relies on `aes_gcm::AesGcm<Aes128, U12, U16>` (`Aead::decrypt`): inverts
/// `Aead::encrypt`, succeeding exactly on its outputs for the same key,
/// nonce and associated data.
#[verifier::external_body]
pub(crate) fn gcm_128_16_decrypt(key: &Vec<u8>, nonce: &Vec<u8>, aad: &Vec<u8>, ct: &Vec<u8>) -> (r: Option<Vec<u8>>)
    requires
        key@.len() == 16,
        nonce@.len() == 12,
        aad@.len() < 0x1000000,
        ct@.len() < 0x1000000,
    ensures
        r matches Some(pt) ==> ct@ == gcm_128_16_seal(key@, nonce@, aad@, pt@) && ct@.len() == pt@.len() + 16,
        r matches Some(pt) ==> forall|q: Seq<u8>| ct@ == gcm_128_16_seal(key@, nonce@, aad@, q) ==> q == pt@,
        r is None ==> forall|q: Seq<u8>| ct@ != gcm_128_16_seal(key@, nonce@, aad@, q),
{
    let c = <aes_gcm::AesGcm<aes::Aes128, aes_gcm::aead::consts::U12, aes_gcm::aead::consts::U16> as aes_gcm::KeyInit>::new_from_slice(key.as_slice()).unwrap();
    let n = aes_gcm::aead::array::Array::clone_from_slice(nonce.as_slice());
    let p = aes_gcm::aead::Payload { msg: ct.as_slice(), aad: aad.as_slice() };
    aes_gcm::aead::Aead::decrypt(&c, &n, p).ok()
}

/// Relies on `aes_gcm::AesGcm<Aes256, U12, U8>` (`Aead::encrypt`), as
/// `gcm_128_8_encrypt` but with a 32-byte key.
#[verifier::external_body]
pub(crate) fn gcm_256_8_encrypt(key: &Vec<u8>, nonce: &Vec<u8>, aad: &Vec<u8>, pt: &Vec<u8>) -> (r: Vec<u8>)
    requires
        key@.len() == 32,
        nonce@.len() == 12,
        aad@.len() < 0x1000000,
        pt@.len() < 0x1000000,
    ensures
        r@ == gcm_256_8_seal(key@, nonce@, aad@, pt@),
        r@.len() == pt@.len() + 8,
{
    let c = <aes_gcm::AesGcm<aes::Aes256, aes_gcm::aead::consts::U12, aes_gcm::aead::consts::U8> as aes_gcm::KeyInit>::new_from_slice(key.as_slice()).unwrap();
    let n = aes_gcm::aead::array::Array::clone_from_slice(nonce.as_slice());
    let p = aes_gcm::aead::Payload { msg: pt.as_slice(), aad: aad.as_slice() };
    aes_gcm::aead::Aead::encrypt(&c, &n, p).unwrap()
}

/// Relies on `aes_gcm::AesGcm<Aes256, U12, U8>` (`Aead::decrypt`): inverts
/// `Aead::encrypt`, succeeding exactly on its outputs for the same key,
/// nonce and associated data.
#[verifier::external_body]
pub(crate) fn gcm_256_8_decrypt(key: &Vec<u8>, nonce: &Vec<u8>, aad: &Vec<u8>, ct: &Vec<u8>) -> (r: Option<Vec<u8>>)
    requires
        key@.len() == 32,
        nonce@.len() == 12,
        aad@.len() < 0x1000000,
        ct@.len() < 0x1000000,
    ensures
        r matches Some(pt) ==> ct@ == gcm_256_8_seal(key@, nonce@, aad@, pt@) && ct@.len() == pt@.len() + 8,
        r matches Some(pt) ==> forall|q: Seq<u8>| ct@ == gcm_256_8_seal(key@, nonce@, aad@, q) ==> q == pt@,
        r is None ==> forall|q: Seq<u8>| ct@ != gcm_256_8_seal(key@, nonce@, aad@, q),
{
    let c = <aes_gcm::AesGcm<aes::Aes256, aes_gcm::aead::consts::U12, aes_gcm::aead::consts::U8> as aes_gcm::KeyInit>::new_from_slice(key.as_slice()).unwrap();
    let n = aes_gcm::aead::array::Array::clone_from_slice(nonce.as_slice());
    let p = aes_gcm::aead::Payload { msg: ct.as_slice(), aad: aad.as_slice() };
    aes_gcm::aead::Aead::decrypt(&c, &n, p).ok()
}

/// Relies on `aes_gcm::AesGcm<Aes256, U12, U16>` (`Aead::encrypt`), as
/// `gcm_128_8_encrypt` but with a 32-byte key and a 16-byte tag.
#[verifier::external_body]
pub(crate) fn gcm_256_16_encrypt(key: &Vec<u8>, nonce: &Vec<u8>, aad: &Vec<u8>, pt: &Vec<u8>) -> (r: Vec<u8>)
    requires
        key@.len() == 32,
        nonce@.len() == 12,
        aad@.len() < 0x1000000,
        pt@.len() < 0x1000000,
    ensures
        r@ == gcm_256_16_seal(key@, nonce@, aad@, pt@),
        r@.len() == pt@.len() + 16,
{
    let c = <aes_gcm::AesGcm<aes::Aes256, aes_gcm::aead::consts::U12, aes_gcm::aead::consts::U16> as aes_gcm::KeyInit>::new_from_slice(key.as_slice()).unwrap();
    let n = aes_gcm::aead::array::Array::clone_from_slice(nonce.as_slice());
    let p = aes_gcm::aead::Payload { msg: pt.as_slice(), aad: aad.as_slice() };
    aes_gcm::aead::Aead::encrypt(&c, &n, p).unwrap()
}

/// Relies on `aes_gcm::AesGcm<Aes256, U12, U16>` (`Aead::decrypt`): inverts
/// `Aead::encrypt`, succeeding exactly on its outputs for the same key,
/// nonce and associated data.
#[verifier::external_body]
pub(crate) fn gcm_256_16_decrypt(key: &Vec<u8>, nonce: &Vec<u8>, aad: &Vec<u8>, ct: &Vec<u8>) -> (r: Option<Vec<u8>>)
    requires
        key@.len() == 32,
        nonce@.len() == 12,
        aad@.len() < 0x1000000,
        ct@.len() < 0x1000000,
    ensures
        r matches Some(pt) ==> ct@ == gcm_256_16_seal(key@, nonce@, aad@, pt@) && ct@.len() == pt@.len() + 16,
        r matches Some(pt) ==> forall|q: Seq<u8>| ct@ == gcm_256_16_seal(key@, nonce@, aad@, q) ==> q == pt@,
        r is None ==> forall|q: Seq<u8>| ct@ != gcm_256_16_seal(key@, nonce@, aad@, q),
{
    let c = <aes_gcm::AesGcm<aes::Aes256, aes_gcm::aead::consts::U12, aes_gcm::aead::consts::U16> as aes_gcm::KeyInit>::new_from_slice(key.as_slice()).unwrap();
    let n = aes_gcm::aead::array::Array::clone_from_slice(nonce.as_slice());
    let p = aes_gcm::aead::Payload { msg: ct.as_slice(), aad: aad.as_slice() };
    aes_gcm::aead::Aead::decrypt(&c, &n, p).ok()
}

/// AES-GCM sealing under the variant that the key length and tag length select.
pub open spec fn gcm_seal(key: Seq<u8>, tag_len: nat, nonce: Seq<u8>, aad: Seq<u8>, pt: Seq<u8>) -> Seq<u8> {
    if key.len() == 32 {
        if tag_len == 16 { gcm_256_16_seal(key, nonce, aad, pt) } else { gcm_256_8_seal(key, nonce, aad, pt) }
    } else {
        if tag_len == 16 { gcm_128_16_seal(key, nonce, aad, pt) } else { gcm_128_8_seal(key, nonce, aad, pt) }
    }
}

/// Seals with AES-GCM, dispatching on key and tag length.
pub(crate) fn gcm_encrypt(key: &Vec<u8>, tag_len: usize, nonce: &Vec<u8>, aad: &Vec<u8>, pt: &Vec<u8>) -> (r: Vec<u8>)
    requires
        key@.len() == 16 || key@.len() == 32,
        tag_len == 8 || tag_len == 16,
        nonce@.len() == 12,
        aad@.len() < 0x1000000,
        pt@.len() < 0x1000000,
    ensures
        r@ == gcm_seal(key@, tag_len as nat, nonce@, aad@, pt@),
        r@.len() == pt@.len() + tag_len,
{
    if key.len() == 32 {
        if tag_len == 16 {
            gcm_256_16_encrypt(key, nonce, aad, pt)
        } else {
            gcm_256_8_encrypt(key, nonce, aad, pt)
        }
    } else {
        if tag_len == 16 {
            gcm_128_16_encrypt(key, nonce, aad, pt)
        } else {
            gcm_128_8_encrypt(key, nonce, aad, pt)
        }
    }
}

/// Opens an AES-GCM sealed payload, dispatching on key and tag length.
/// Succeeds exactly on outputs of `gcm_seal` for the same parameters.
pub(crate) fn gcm_decrypt(key: &Vec<u8>, tag_len: usize, nonce: &Vec<u8>, aad: &Vec<u8>, ct: &Vec<u8>) -> (r: Option<Vec<u8>>)
    requires
        key@.len() == 16 || key@.len() == 32,
        tag_len == 8 || tag_len == 16,
        nonce@.len() == 12,
        aad@.len() < 0x1000000,
        ct@.len() < 0x1000000,
    ensures
        r matches Some(pt) ==> ct@ == gcm_seal(key@, tag_len as nat, nonce@, aad@, pt@)
            && ct@.len() == pt@.len() + tag_len,
        r matches Some(pt) ==> forall|q: Seq<u8>| ct@ == gcm_seal(key@, tag_len as nat, nonce@, aad@, q) ==> q == pt@,
        r is None ==> forall|q: Seq<u8>| ct@ != gcm_seal(key@, tag_len as nat, nonce@, aad@, q),
{
    if key.len() == 32 {
        if tag_len == 16 {
            gcm_256_16_decrypt(key, nonce, aad, ct)
        } else {
            gcm_256_8_decrypt(key, nonce, aad, ct)
        }
    } else {
        if tag_len == 16 {
            gcm_128_16_decrypt(key, nonce, aad, ct)
        } else {
            gcm_128_8_decrypt(key, nonce, aad, ct)
        }
    }
}

} // verus!
