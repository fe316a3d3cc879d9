use srtp_core::errors::ErrorStatus;
use srtp_core::policy::CryptoPolicy;
use srtp_core::session::{Session, SsrcBinding};

fn make_rtcp_packet(ssrc: u32, payload: &[u8]) -> Vec<u8> {
    let mut b = vec![0x80u8, 200u8];
    let words = ((payload.len() + 8) / 4) as u16;
    b.extend_from_slice(&words.to_be_bytes());
    b.extend_from_slice(&ssrc.to_be_bytes());
    b.extend_from_slice(payload);
    b
}

fn test_key() -> Vec<u8> {
    (0u8..50).collect()
}

fn rtcp_round_trip(policy: CryptoPolicy, expect_noop_body: bool) {
    let key = test_key();
    let mut outbound =
        Session::create(&policy, &policy, &key, SsrcBinding::AnyOutbound, 0).unwrap();
    let mut inbound =
        Session::create(&policy, &policy, &key, SsrcBinding::AnyInbound, 0).unwrap();

    for k in 0..20u8 {
        let input = make_rtcp_packet(0x0DDBA11, &[k; 48]);
        let mut pkt = input.clone();
        outbound.protect_rtcp(&mut pkt).expect("rtcp protect failed");
        assert_eq!(pkt.len(), input.len() + 4 + policy.tag_len);
        if expect_noop_body {
            assert_eq!(&pkt[..input.len()], &input[..]);
        }
        inbound.unprotect_rtcp(&mut pkt).expect("rtcp unprotect failed");
        assert_eq!(pkt, input);
    }
}

#[test]
fn rtcp_round_trip_aes_cm_128_hmac_sha1_80() {
    rtcp_round_trip(CryptoPolicy::aes_cm_128_hmac_sha1_80(), false);
}

#[test]
fn rtcp_round_trip_aes_cm_256_hmac_sha1_32() {
    rtcp_round_trip(CryptoPolicy::aes_cm_256_hmac_sha1_32(), false);
}

#[test]
fn rtcp_round_trip_aes_gcm_128_16() {
    rtcp_round_trip(CryptoPolicy::aes_gcm_128_16_auth(), false);
}

#[test]
fn rtcp_round_trip_aes_gcm_256_8_only_auth() {
    // Authentication-only: the packet body stays in the clear.
    rtcp_round_trip(CryptoPolicy::aes_gcm_256_8_only_auth(), true);
}

#[test]
fn rtcp_round_trip_null_cipher_null_auth() {
    rtcp_round_trip(CryptoPolicy::null_cipher_hmac_null(), true);
}

#[test]
fn rtcp_replay_is_rejected() {
    let policy = CryptoPolicy::aes_cm_128_hmac_sha1_80();
    let key = test_key();
    let mut outbound =
        Session::create(&policy, &policy, &key, SsrcBinding::AnyOutbound, 0).unwrap();
    let mut inbound =
        Session::create(&policy, &policy, &key, SsrcBinding::AnyInbound, 0).unwrap();

    let input = make_rtcp_packet(0x600DCAFE, &[3; 24]);
    let mut ct = input.clone();
    outbound.protect_rtcp(&mut ct).unwrap();

    let mut first = ct.clone();
    inbound.unprotect_rtcp(&mut first).unwrap();
    assert_eq!(first, input);

    let mut again = ct.clone();
    assert_eq!(inbound.unprotect_rtcp(&mut again), Err(ErrorStatus::ReplayFail));
    assert_eq!(again, ct);
}

#[test]
fn rtcp_tampering_fails_authentication() {
    let policy = CryptoPolicy::aes_cm_128_hmac_sha1_80();
    let key = test_key();
    let mut outbound =
        Session::create(&policy, &policy, &key, SsrcBinding::AnyOutbound, 0).unwrap();

    let input = make_rtcp_packet(0x600DCAFE, &[9; 24]);
    let mut ct = input.clone();
    outbound.protect_rtcp(&mut ct).unwrap();

    for byte in 8..ct.len() {
        let mut tampered = ct.clone();
        tampered[byte] ^= 0x04;
        let mut inbound =
            Session::create(&policy, &policy, &key, SsrcBinding::AnyInbound, 0).unwrap();
        assert_eq!(
            inbound.unprotect_rtcp(&mut tampered),
            Err(ErrorStatus::AuthFail),
            "tampered byte {} was accepted",
            byte
        );
        assert_eq!(inbound.streams.len(), 0);
    }
}

#[test]
fn rtcp_index_exhaustion_is_key_expired() {
    let policy = CryptoPolicy::rtcp_default();
    let key = test_key();
    let mut session =
        Session::create(&policy, &policy, &key, SsrcBinding::Specific, 0x42).unwrap();
    // Drive the outbound control index to the end of its 31-bit space.
    session.streams[0].rtcp_index = 0x7fff_ffff;
    let mut pkt = make_rtcp_packet(0x42, &[1; 8]);
    assert_eq!(session.protect_rtcp(&mut pkt), Err(ErrorStatus::KeyExpired));
}

#[test]
fn rtcp_short_packet_is_bad_param() {
    let policy = CryptoPolicy::rtcp_default();
    let key = test_key();
    let mut outbound =
        Session::create(&policy, &policy, &key, SsrcBinding::AnyOutbound, 0).unwrap();
    let mut short = vec![0x80u8, 200, 0, 0, 1];
    assert_eq!(outbound.protect_rtcp(&mut short), Err(ErrorStatus::BadParam));
}
