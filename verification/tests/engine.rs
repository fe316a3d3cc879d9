use srtp_core::cm::{compute_hmac_tag, derive_key};
use srtp_core::errors::ErrorStatus;
use srtp_core::header::parse_header;
use srtp_core::header::serialize_header;
use srtp_core::policy::CryptoPolicy;
use srtp_core::session::{Session, SsrcBinding};

fn make_packet(seq: u16, ts: u32, ssrc: u32, payload: &[u8]) -> Vec<u8> {
    let mut b = vec![0x80u8, 96u8];
    b.extend_from_slice(&seq.to_be_bytes());
    b.extend_from_slice(&ts.to_be_bytes());
    b.extend_from_slice(&ssrc.to_be_bytes());
    b.extend_from_slice(payload);
    b
}

fn test_key() -> Vec<u8> {
    (0u8..50).collect()
}

#[test]
fn scenario_aes_cm_128_hmac_sha1_80() {
    let policy = CryptoPolicy::aes_cm_128_hmac_sha1_80();
    let key = test_key();
    let mut outbound =
        Session::create(&policy, &policy, &key, SsrcBinding::AnyOutbound, 0).unwrap();
    let mut inbound =
        Session::create(&policy, &policy, &key, SsrcBinding::AnyInbound, 0).unwrap();

    let payload = vec![0x42u8; 1000];
    let input = make_packet(0x1234, 0xDECAFBAD, 0xDEADBEEF, &payload);
    let mut pkt = input.clone();

    outbound.protect(&mut pkt).unwrap();
    assert_eq!(pkt.len(), input.len() + 10);
    assert_ne!(&pkt[..input.len()], &input[..]);

    inbound.unprotect(&mut pkt).unwrap();
    assert_eq!(pkt, input);

    assert_eq!(inbound.streams.len(), 1);
    assert_eq!(inbound.streams[0].ssrc, 0xDEADBEEF);
    assert_eq!(outbound.streams.len(), 1);
    assert_eq!(outbound.streams[0].ssrc, 0xDEADBEEF);
}

#[test]
fn replay_is_rejected_and_rejection_is_stable() {
    let policy = CryptoPolicy::aes_cm_128_hmac_sha1_80();
    let key = test_key();
    let mut outbound =
        Session::create(&policy, &policy, &key, SsrcBinding::AnyOutbound, 0).unwrap();
    let mut inbound =
        Session::create(&policy, &policy, &key, SsrcBinding::AnyInbound, 0).unwrap();

    let input = make_packet(7, 1000, 0x11223344, &[1, 2, 3, 4, 5, 6, 7, 8]);
    let mut ct = input.clone();
    outbound.protect(&mut ct).unwrap();

    let mut first = ct.clone();
    inbound.unprotect(&mut first).unwrap();
    assert_eq!(first, input);

    let mut second = ct.clone();
    assert_eq!(inbound.unprotect(&mut second), Err(ErrorStatus::ReplayFail));
    assert_eq!(second, ct);

    let mut third = ct.clone();
    assert_eq!(inbound.unprotect(&mut third), Err(ErrorStatus::ReplayFail));
    assert_eq!(third, ct);
}

#[test]
fn stale_index_is_rejected_as_replay_old() {
    let policy = CryptoPolicy::aes_cm_128_hmac_sha1_80();
    let key = test_key();
    let mut outbound =
        Session::create(&policy, &policy, &key, SsrcBinding::AnyOutbound, 0).unwrap();
    let mut inbound =
        Session::create(&policy, &policy, &key, SsrcBinding::AnyInbound, 0).unwrap();

    let mut first_ct = Vec::new();
    for k in 0..100u16 {
        let input = make_packet(1000 + k, 0, 0x55667788, &[9, 9, 9, 9]);
        let mut ct = input.clone();
        outbound.protect(&mut ct).unwrap();
        if k == 0 {
            first_ct = ct.clone();
        }
        inbound.unprotect(&mut ct).unwrap();
        assert_eq!(ct, input);
    }
    let mut replayed = first_ct.clone();
    assert_eq!(inbound.unprotect(&mut replayed), Err(ErrorStatus::ReplayOld));
    assert_eq!(replayed, first_ct);
}

#[test]
fn tampering_any_ciphertext_or_tag_bit_fails_authentication() {
    let policy = CryptoPolicy::aes_cm_128_hmac_sha1_80();
    let key = test_key();
    let mut outbound =
        Session::create(&policy, &policy, &key, SsrcBinding::AnyOutbound, 0).unwrap();

    let input = make_packet(0x0042, 77, 0xCAFE0001, &[0xAAu8; 20]);
    let mut ct = input.clone();
    outbound.protect(&mut ct).unwrap();

    for byte in 12..ct.len() {
        for bit in 0..8 {
            let mut tampered = ct.clone();
            tampered[byte] ^= 1u8 << bit;
            let mut inbound =
                Session::create(&policy, &policy, &key, SsrcBinding::AnyInbound, 0).unwrap();
            let before = tampered.clone();
            assert_eq!(
                inbound.unprotect(&mut tampered),
                Err(ErrorStatus::AuthFail),
                "byte {} bit {} was accepted",
                byte,
                bit
            );
            // Nothing changed: the packet is untouched and no stream state
            // was created or advanced.
            assert_eq!(tampered, before);
            assert_eq!(inbound.streams.len(), 0);
        }
    }

    // The untampered packet still validates on a fresh inbound session.
    let mut inbound =
        Session::create(&policy, &policy, &key, SsrcBinding::AnyInbound, 0).unwrap();
    let mut good = ct.clone();
    inbound.unprotect(&mut good).unwrap();
    assert_eq!(good, input);
}

#[test]
fn tampering_fails_under_gcm_too() {
    let policy = CryptoPolicy::aes_gcm_128_16_auth();
    let key = test_key();
    let mut outbound =
        Session::create(&policy, &policy, &key, SsrcBinding::AnyOutbound, 0).unwrap();

    let input = make_packet(3, 5, 0xCAFE0002, &[0x55u8; 16]);
    let mut ct = input.clone();
    outbound.protect(&mut ct).unwrap();

    for byte in 12..ct.len() {
        let mut tampered = ct.clone();
        tampered[byte] ^= 0x01;
        let mut inbound =
            Session::create(&policy, &policy, &key, SsrcBinding::AnyInbound, 0).unwrap();
        assert_eq!(inbound.unprotect(&mut tampered), Err(ErrorStatus::AuthFail));
        assert_eq!(inbound.streams.len(), 0);
    }
}

#[test]
fn rollover_is_transparent_over_70000_packets() {
    let policy = CryptoPolicy::aes_cm_128_hmac_sha1_80();
    let key = test_key();
    let mut outbound =
        Session::create(&policy, &policy, &key, SsrcBinding::AnyOutbound, 0).unwrap();
    let mut inbound =
        Session::create(&policy, &policy, &key, SsrcBinding::AnyInbound, 0).unwrap();

    for k in 0u32..70000 {
        let seq = (k % 0x10000) as u16;
        let input = make_packet(seq, k, 0x0BADF00D, &[7u8; 16]);
        let mut pkt = input.clone();
        outbound.protect(&mut pkt).expect("protect failed during rollover");
        inbound.unprotect(&mut pkt).expect("unprotect failed during rollover");
        assert_eq!(pkt, input, "packet {} did not round-trip", k);
    }
}

#[test]
fn malformed_packets_are_bad_param() {
    let policy = CryptoPolicy::rtp_default();
    let key = test_key();
    let mut outbound =
        Session::create(&policy, &policy, &key, SsrcBinding::AnyOutbound, 0).unwrap();

    // Version is not 2.
    let mut wrong_version = make_packet(1, 2, 3, &[0; 4]);
    wrong_version[0] = 0x40;
    assert_eq!(outbound.protect(&mut wrong_version), Err(ErrorStatus::BadParam));

    // Truncated header.
    let mut short = vec![0x80u8, 96, 0, 1, 0];
    assert_eq!(outbound.protect(&mut short), Err(ErrorStatus::BadParam));
}

#[test]
fn short_master_key_is_bad_param() {
    let policy = CryptoPolicy::aes_cm_128_hmac_sha1_80();
    let key = vec![0u8; 10];
    assert!(matches!(
        Session::create(&policy, &policy, &key, SsrcBinding::AnyOutbound, 0),
        Err(ErrorStatus::BadParam)
    ));
}

#[test]
fn unknown_ssrc_without_wildcard_is_no_ctx() {
    let policy = CryptoPolicy::rtp_default();
    let key = test_key();
    let mut session =
        Session::create(&policy, &policy, &key, SsrcBinding::Specific, 0x1111).unwrap();

    let mut other = make_packet(1, 2, 0x2222, &[0; 8]);
    assert_eq!(session.protect(&mut other), Err(ErrorStatus::NoCtx));

    let input = make_packet(1, 2, 0x1111, &[0; 8]);
    let mut pkt = input.clone();
    session.protect(&mut pkt).unwrap();
    assert_eq!(pkt.len(), input.len() + 10);
}

#[test]
fn key_derivation_matches_the_published_vectors() {
    // AES-CM key derivation, from the SRTP specification's appendix.
    let master_key = vec![
        0xE1, 0xF9, 0x7A, 0x0D, 0x3E, 0x01, 0x8B, 0xE0,
        0xD6, 0x4F, 0xA3, 0x2C, 0x06, 0xDE, 0x41, 0x39,
    ];
    let master_salt = vec![
        0x0E, 0xC6, 0x75, 0xAD, 0x49, 0x8A, 0xFE, 0xEB,
        0xB6, 0x96, 0x0B, 0x3A, 0xAB, 0xE6,
    ];
    let cipher_key = derive_key(&master_key, &master_salt, 0, 16);
    assert_eq!(
        cipher_key,
        vec![
            0xC6, 0x1E, 0x7A, 0x93, 0x74, 0x4F, 0x39, 0xEE,
            0x10, 0x73, 0x4A, 0xFE, 0x3F, 0xF7, 0xA0, 0x87,
        ]
    );
    let auth_key = derive_key(&master_key, &master_salt, 1, 20);
    assert_eq!(
        auth_key,
        vec![
            0xCE, 0xBE, 0x32, 0x1F, 0x6F, 0xF7, 0x71, 0x6B,
            0x6F, 0xD4, 0xAB, 0x49, 0xAF, 0x25, 0x6A, 0x15,
            0x6D, 0x38, 0xBA, 0xA4,
        ]
    );
    let session_salt = derive_key(&master_key, &master_salt, 2, 14);
    assert_eq!(
        session_salt,
        vec![
            0x30, 0xCB, 0xBC, 0x08, 0x86, 0x3D, 0x8C, 0x85,
            0xD4, 0x9D, 0xB3, 0x4A, 0x9A, 0xE1,
        ]
    );
}

#[test]
fn hmac_sha1_matches_the_published_vector() {
    // HMAC-SHA1 test case with the key "Jefe".
    let key = b"Jefe".to_vec();
    let msg = b"what do ya want for nothing?".to_vec();
    let tag = compute_hmac_tag(&key, &msg, 20);
    assert_eq!(
        tag,
        vec![
            0xEF, 0xFC, 0xDF, 0x6A, 0xE5, 0xEB, 0x2F, 0xA2,
            0xD2, 0x74, 0x16, 0xD5, 0xF1, 0x84, 0xDF, 0x9C,
            0x25, 0x9A, 0x7C, 0x79,
        ]
    );
    // Truncation keeps the leading bytes.
    let tag10 = compute_hmac_tag(&key, &msg, 10);
    assert_eq!(&tag[..10], &tag10[..]);
}

#[test]
fn header_codec_round_trips_csrcs_and_extension() {
    // Version 2, padding, extension, two CSRCs, marker, payload type 111.
    let mut b: Vec<u8> = vec![0x80 | 0x20 | 0x10 | 2, 0x80 | 111];
    b.extend_from_slice(&0xBEEFu16.to_be_bytes());
    b.extend_from_slice(&0x01020304u32.to_be_bytes());
    b.extend_from_slice(&0xA1B2C3D4u32.to_be_bytes());
    b.extend_from_slice(&0x10101010u32.to_be_bytes());
    b.extend_from_slice(&0x20202020u32.to_be_bytes());
    b.extend_from_slice(&0xABCDu16.to_be_bytes()); // extension profile
    b.extend_from_slice(&2u16.to_be_bytes()); // two extension words
    b.extend_from_slice(&0x31323334u32.to_be_bytes());
    b.extend_from_slice(&0x35363738u32.to_be_bytes());
    let hlen = b.len();
    b.extend_from_slice(&[0xFE; 33]); // payload

    let (h, parsed_len) = parse_header(&b).unwrap();
    assert_eq!(parsed_len, hlen);
    assert!(h.padding);
    assert!(h.marker);
    assert_eq!(h.payload_type, 111);
    assert_eq!(h.seq, 0xBEEF);
    assert_eq!(h.timestamp, 0x01020304);
    assert_eq!(h.ssrc, 0xA1B2C3D4);
    assert_eq!(h.csrcs, vec![0x10101010, 0x20202020]);
    let ext = h.extension.as_ref().unwrap();
    assert_eq!(ext.profile, 0xABCD);
    assert_eq!(ext.words, vec![0x31323334, 0x35363738]);

    let ser = serialize_header(&h);
    assert_eq!(&ser[..], &b[..hlen]);
}

#[test]
fn header_codec_rejects_malformed_input() {
    // Too short.
    assert!(parse_header(&vec![0x80u8, 0, 0, 1]).is_err());
    // Wrong version.
    let mut v1 = make_packet(1, 2, 3, &[0; 4]);
    v1[0] = 0xC0;
    assert!(parse_header(&v1).is_err());
    // CSRC list longer than the packet.
    let mut cc15 = make_packet(1, 2, 3, &[]);
    cc15[0] = 0x80 | 0x0F;
    assert!(parse_header(&cc15).is_err());
    // Extension length field beyond the packet.
    let mut ext = make_packet(1, 2, 3, &[0xAB, 0xCD, 0x00, 0x40]);
    ext[0] = 0x80 | 0x10;
    assert!(parse_header(&ext).is_err());
}

#[test]
fn error_statuses_have_stable_names() {
    assert_eq!(ErrorStatus::AuthFail.name(), "auth_fail");
    assert_eq!(ErrorStatus::ReplayOld.name(), "replay_old");
    assert_eq!(ErrorStatus::BadParam.name(), "bad_param");
}

#[test]
fn null_policy_protect_is_identity() {
    let policy = CryptoPolicy::null_cipher_hmac_null();
    let key = test_key();
    let mut outbound =
        Session::create(&policy, &policy, &key, SsrcBinding::AnyOutbound, 0).unwrap();
    let input = make_packet(12, 34, 56, &[1, 2, 3]);
    let mut pkt = input.clone();
    outbound.protect(&mut pkt).unwrap();
    assert_eq!(pkt, input);
}
