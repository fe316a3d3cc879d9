use srtp_core::policy::CryptoPolicy;
use srtp_core::session::{Session, SsrcBinding};

#[derive(Debug, Clone, Copy)]
struct Header {
    header_ext: bool,
    padding: bool,
    payload_type: u8,
    marker: bool,
    sequence: u16,
    timestamp: u32,
    ssrc: u32,
}

impl Header {
    fn to_bytes(&self, payload_size: usize) -> Vec<u8> {
        let mut b1 = 0b10000000u8;
        b1 |= (self.padding as u8) << 5;
        b1 |= (self.header_ext as u8) << 4;

        let mut b2 = 0u8;
        b2 |= (self.marker as u8) << 7;
        b2 |= self.payload_type & 0x7F;

        let mut bytes = vec![b1, b2];
        bytes.extend_from_slice(&self.sequence.to_be_bytes());
        bytes.extend_from_slice(&self.timestamp.to_be_bytes());

        bytes.extend((0..payload_size).map(|_| 0xAB));

        bytes
    }
}

fn round_trip(noop: bool, policy: CryptoPolicy) {
    let key: Vec<u8> = (0u8..50).collect();

    let mut inbound = Session::create(&policy, &policy, &key, SsrcBinding::AnyInbound, 0)
        .expect("creating the inbound session failed");
    let mut outbound = Session::create(&policy, &policy, &key, SsrcBinding::AnyOutbound, 0)
        .expect("creating the outbound session failed");

    println!("Starting round trip");

    for sequence in 0x1234..0x1434 {
        let input = Header {
            header_ext: false,
            padding: false,
            payload_type: 96,
            marker: false,
            sequence,
            timestamp: 0xDECAFBAD + (sequence as u32 / 10) * 3000,
            ssrc: 0xDEADBEEF,
        }
        .to_bytes(1000);
        let mut output = input.clone();

        outbound.protect(&mut output).expect("protect failed");

        if noop {
            assert_eq!(&input[..], &output[..]);
        } else {
            assert_ne!(&input[..], &output[..]);
        }

        inbound.unprotect(&mut output).expect("unprotect failed");

        assert_eq!(&input[..], &output[..]);
    }

    println!("done round trip")
}

#[test]
fn round_trip_crypto_policy_set_aes_cm_128_null_auth() {
    round_trip(false, CryptoPolicy::aes_cm_128_null_auth())
}

#[test]
fn round_trip_crypto_policy_set_aes_cm_256_null_auth() {
    round_trip(false, CryptoPolicy::aes_cm_256_null_auth())
}

#[test]
fn round_trip_crypto_policy_set_aes_cm_128_hmac_sha1_32() {
    round_trip(false, CryptoPolicy::aes_cm_128_hmac_sha1_32())
}

#[test]
fn round_trip_crypto_policy_set_aes_cm_256_hmac_sha1_32() {
    round_trip(false, CryptoPolicy::aes_cm_256_hmac_sha1_32())
}

#[test]
fn round_trip_crypto_policy_set_aes_cm_256_hmac_sha1_80() {
    round_trip(false, CryptoPolicy::aes_cm_256_hmac_sha1_80())
}

#[test]
fn round_trip_crypto_policy_set_null_cipher_hmac_null() {
    round_trip(true, CryptoPolicy::null_cipher_hmac_null())
}

#[test]
fn round_trip_crypto_policy_set_null_cipher_hmac_sha1_80() {
    round_trip(false, CryptoPolicy::null_cipher_hmac_sha1_80())
}

#[test]
fn round_trip_crypto_policy_set_rtcp_default() {
    round_trip(false, CryptoPolicy::rtcp_default())
}

#[test]
fn round_trip_crypto_policy_set_rtp_default() {
    round_trip(false, CryptoPolicy::rtp_default())
}

#[test]
fn round_trip_crypto_policy_set_aes_cm_192_null_auth() {
    round_trip(false, CryptoPolicy::aes_cm_192_null_auth())
}

#[test]
fn round_trip_crypto_policy_set_aes_cm_192_hmac_sha1_32() {
    round_trip(false, CryptoPolicy::aes_cm_192_hmac_sha1_32())
}

#[test]
fn round_trip_crypto_policy_set_aes_cm_192_hmac_sha1_80() {
    round_trip(false, CryptoPolicy::aes_cm_192_hmac_sha1_80())
}

#[test]
fn round_trip_crypto_policy_set_aes_gcm_128_8_auth() {
    round_trip(false, CryptoPolicy::aes_gcm_128_8_auth())
}

#[test]
fn round_trip_crypto_policy_set_aes_gcm_128_8_only_auth() {
    round_trip(false, CryptoPolicy::aes_gcm_128_8_only_auth())
}

#[test]
fn round_trip_crypto_policy_set_aes_gcm_128_16_auth() {
    round_trip(false, CryptoPolicy::aes_gcm_128_16_auth())
}

#[test]
fn round_trip_crypto_policy_set_aes_gcm_256_8_auth() {
    round_trip(false, CryptoPolicy::aes_gcm_256_8_auth())
}

#[test]
fn round_trip_crypto_policy_set_aes_gcm_256_8_only_auth() {
    round_trip(false, CryptoPolicy::aes_gcm_256_8_only_auth())
}

#[test]
fn round_trip_crypto_policy_set_aes_gcm_256_16_auth() {
    round_trip(false, CryptoPolicy::aes_gcm_256_16_auth())
}
