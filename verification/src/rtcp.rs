//! The SRTCP variant: control packets carry an explicit 31-bit index and
//! an is-encrypted flag instead of an inferred rollover counter; replay
//! protection and the cipher/auth machinery are shared with the RTP path,
//! parameterized by the stream's RTCP policy.

use vstd::prelude::*;
use crate::bytes::{be32_at, u32_be, xor_bytes, lemma_xor_involution, lemma_u32_be_round_trip, xor_range, sub_vec, eq_bytes, push_be32, read_be32};
use crate::cm::{keystream, rtp_iv, gcm_iv, hmac_tag, build_rtp_iv, build_gcm_iv, gen_keystream, compute_hmac_tag};
use crate::crypto::{gcm_seal, gcm_encrypt, gcm_decrypt};
use crate::errors::ErrorStatus;
use crate::policy::{CryptoPolicy, CipherKind, AuthKind, policy_wf};
use crate::replay::ReplayWindow;
use crate::stream::{StreamContext, stream_wf, same_stream_identity, stream_unchanged, sat_add, MAX_PKT};

verus! {

/// Largest usable SRTCP index: the index field is 31 bits.
pub const MAX_RTCP_INDEX: u32 = 0x7fff_ffff;

/// The trailer word every SRTCP packet carries: the is-encrypted flag in
/// the top bit over the 31-bit packet index.
pub open spec fn rtcp_e_word(conf: bool, index: u32) -> Seq<u8> {
    u32_be(if conf { (index | 0x8000_0000u32) as u32 } else { index })
}

/// The SRTCP protect transform on packet bytes at an explicit index: the
/// payload after the 8-byte control header is enciphered per the policy,
/// the flag-and-index word is appended, and an HMAC policy's tag covers
/// everything before it. AES-GCM authenticates the header and the trailer
/// word as associated data and appends its own tag before the trailer.
pub open spec fn spec_protect_rtcp(p: CryptoPolicy, enc_key: Seq<u8>, salt: Seq<u8>, auth_key: Seq<u8>, index: u32, pkt: Seq<u8>) -> Seq<u8> {
    let ssrc = be32_at(pkt, 4);
    let ew = rtcp_e_word(p.conf, index);
    let payload = pkt.skip(8);
    let body = match p.cipher {
        CipherKind::Null => pkt,
        CipherKind::AesCm => pkt.take(8) + xor_bytes(
            payload, keystream(enc_key, rtp_iv(salt, ssrc, index as u64), payload.len())),
        CipherKind::AesGcm => {
            let nonce = gcm_iv(salt, ssrc, index as u64);
            if p.conf {
                pkt.take(8) + gcm_seal(enc_key, p.tag_len as nat, nonce, pkt.take(8) + ew, payload)
            } else {
                pkt + gcm_seal(enc_key, p.tag_len as nat, nonce, pkt + ew, Seq::empty())
            }
        },
    };
    match p.auth {
        AuthKind::Null => body + ew,
        AuthKind::HmacSha1 => body + ew + hmac_tag(auth_key, body + ew, p.tag_len as nat),
    }
}

/// `pt` is the control packet that `ct` protects at `index`.
pub open spec fn rtcp_plain_matches(p: CryptoPolicy, enc_key: Seq<u8>, salt: Seq<u8>, auth_key: Seq<u8>, index: u32, ct: Seq<u8>, pt: Seq<u8>) -> bool {
    &&& pt.len() + 4 + p.tag_len == ct.len()
    &&& pt.take(8) == ct.take(8)
    &&& ct == spec_protect_rtcp(p, enc_key, salt, auth_key, index, pt)
}

/// The tag bytes that follow the trailer word: only an HMAC policy adds
/// them there (AES-GCM's tag lies inside the enciphered body).
pub open spec fn rtcp_trailer_tag_len(p: CryptoPolicy) -> int {
    if p.auth is HmacSha1 { p.tag_len as int } else { 0 }
}

/// The 31-bit index carried by a protected control packet.
pub open spec fn rtcp_index_of(p: CryptoPolicy, ct: Seq<u8>) -> u32 {
    (be32_at(ct, ct.len() - rtcp_trailer_tag_len(p) - 4) & 0x7fff_ffff) as u32
}

/// Whether a protected control packet authenticates at its carried index:
/// the flag bit matches the policy and the tag recomputes (or, for
/// AES-GCM, some plaintext seals to exactly these bytes).
pub open spec fn rtcp_auth_ok(p: CryptoPolicy, enc_key: Seq<u8>, salt: Seq<u8>, auth_key: Seq<u8>, ct: Seq<u8>) -> bool {
    let index = rtcp_index_of(p, ct);
    let ew_off = ct.len() - rtcp_trailer_tag_len(p) - 4;
    &&& ct.subrange(ew_off, ew_off + 4) == rtcp_e_word(p.conf, index)
    &&& match p.cipher {
        CipherKind::AesGcm => exists|pt: Seq<u8>|
            rtcp_plain_matches(p, enc_key, salt, auth_key, index, ct, pt),
        _ => match p.auth {
            AuthKind::HmacSha1 => ct.skip(ct.len() - p.tag_len) == hmac_tag(
                auth_key, ct.take(ct.len() - p.tag_len), p.tag_len as nat),
            AuthKind::Null => true,
        },
    }
}

/// The plaintext that the null and counter-mode policies recover from a
/// protected control packet: the bytes before the trailer word, with the
/// payload unmasked.
pub open spec fn spec_rtcp_plain(p: CryptoPolicy, ek: Seq<u8>, sl: Seq<u8>, ct: Seq<u8>) -> Seq<u8> {
    let index = rtcp_index_of(p, ct);
    let body = ct.take(ct.len() - rtcp_trailer_tag_len(p) - 4);
    match p.cipher {
        CipherKind::AesCm => body.take(8) + xor_bytes(
            body.skip(8),
            keystream(ek, rtp_iv(sl, be32_at(ct, 4), index as u64), (body.len() - 8) as nat)),
        _ => body,
    }
}

/// All conditions under which `unprotect_rtcp` succeeds on a stream with
/// these parameters and this replay window.
pub open spec fn rtcp_unprotect_ok_cond(p: CryptoPolicy, ek: Seq<u8>, sl: Seq<u8>, ak: Seq<u8>, win: ReplayWindow, ct: Seq<u8>) -> bool {
    &&& ct.len() >= 8 + 4 + p.tag_len
    &&& win.accepts(rtcp_index_of(p, ct) as int)
    &&& rtcp_auth_ok(p, ek, sl, ak, ct)
}

impl StreamContext {
    /// Protects one RTCP packet in place under the stream's RTCP policy,
    /// at the stream's next outbound 31-bit index, growing the packet by
    /// the trailer word plus the tag. Succeeds if and only if the packet
    /// holds at least the 8-byte control header and the index space is
    /// not exhausted; on failure nothing changes.
    pub fn protect_rtcp(&mut self, pkt: &mut Vec<u8>) -> (r: Result<(), ErrorStatus>)
        requires
            stream_wf(*old(self)),
            old(pkt)@.len() <= MAX_PKT,
        ensures
            stream_wf(*final(self)),
            same_stream_identity(*final(self), *old(self)),
            final(self).rtp_window == old(self).rtp_window,
            final(self).rtcp_window == old(self).rtcp_window,
            r is Err ==> final(pkt)@ == old(pkt)@ && stream_unchanged(*final(self), *old(self)),
            r is Ok <==> old(pkt)@.len() >= 8 && old(self).rtcp_index < MAX_RTCP_INDEX,
            r == Err::<(), ErrorStatus>(ErrorStatus::BadParam) <==> old(pkt)@.len() < 8,
            r == Err::<(), ErrorStatus>(ErrorStatus::KeyExpired) <==>
                old(pkt)@.len() >= 8 && old(self).rtcp_index >= MAX_RTCP_INDEX,
            r is Ok ==> ({
                let p = old(self).policy_rtcp;
                &&& final(pkt)@ == spec_protect_rtcp(p, old(self).rtcp_keys.enc_key@,
                        old(self).rtcp_keys.salt@, old(self).rtcp_keys.auth_key@,
                        old(self).rtcp_index, old(pkt)@)
                &&& final(pkt)@.len() == old(pkt)@.len() + 4 + p.tag_len
                &&& final(self).rtcp_index == old(self).rtcp_index + 1
            }),
    {
        let ghost pkt0 = pkt@;
        let n = pkt.len();
        if n < 8 {
            return Err(ErrorStatus::BadParam);
        }
        if self.rtcp_index >= MAX_RTCP_INDEX {
            return Err(ErrorStatus::KeyExpired);
        }
        let p = self.policy_rtcp;
        let index = self.rtcp_index;
        let ssrc = read_be32(pkt, 4);
        let plen = n - 8;
        let ew_val: u32 = if p.conf { index | 0x8000_0000 } else { index };

        match p.cipher {
            CipherKind::Null => {},
            CipherKind::AesCm => {
                let iv = build_rtp_iv(&self.rtcp_keys.salt, ssrc, index as u64);
                let ks = gen_keystream(&self.rtcp_keys.enc_key, &iv, plen);
                xor_range(pkt, 8, &ks);
            },
            CipherKind::AesGcm => {
                let nonce = build_gcm_iv(&self.rtcp_keys.salt, ssrc, index as u64);
                if p.conf {
                    let mut aad = sub_vec(pkt, 0, 8);
                    push_be32(&mut aad, ew_val);
                    let pt = sub_vec(pkt, 8, plen);
                    proof {
                        assert(aad@ =~= pkt0.take(8) + rtcp_e_word(p.conf, index));
                        assert(pt@ =~= pkt0.skip(8));
                    }
                    let sealed = gcm_encrypt(&self.rtcp_keys.enc_key, p.tag_len, &nonce, &aad, &pt);
                    pkt.truncate(8);
                    pkt.extend_from_slice(sealed.as_slice());
                } else {
                    let mut aad = sub_vec(pkt, 0, n);
                    push_be32(&mut aad, ew_val);
                    proof {
                        assert(aad@ =~= pkt0 + rtcp_e_word(p.conf, index));
                    }
                    let empty: Vec<u8> = Vec::new();
                    assert(empty@ =~= Seq::<u8>::empty());
                    let sealed = gcm_encrypt(&self.rtcp_keys.enc_key, p.tag_len, &nonce, &aad, &empty);
                    pkt.extend_from_slice(sealed.as_slice());
                }
            },
        }

        push_be32(pkt, ew_val);

        match p.auth {
            AuthKind::Null => {},
            AuthKind::HmacSha1 => {
                let blen = pkt.len();
                let msg = sub_vec(pkt, 0, blen);
                proof {
                    assert(msg@ =~= pkt@);
                }
                let tag = compute_hmac_tag(&self.rtcp_keys.auth_key, &msg, p.tag_len);
                pkt.extend_from_slice(tag.as_slice());
            },
        }

        proof {
            assert(pkt@ =~= spec_protect_rtcp(p, self.rtcp_keys.enc_key@, self.rtcp_keys.salt@,
                self.rtcp_keys.auth_key@, index, pkt0));
        }

        self.rtcp_index = self.rtcp_index + 1;
        if self.packets < 0xffff_ffff_ffff_ffff {
            self.packets = self.packets + 1;
        }
        let add_octets = plen as u64;
        if add_octets <= 0xffff_ffff_ffff_ffff - self.octets {
            self.octets = self.octets + add_octets;
        } else {
            self.octets = 0xffff_ffff_ffff_ffff;
        }
        Ok(())
    }

    /// Removes the protection from one RTCP packet in place: reads the
    /// trailer word's 31-bit index, checks replay and authentication,
    /// then decrypts, shrinking the packet by the trailer word plus the
    /// tag. A replayed or forged packet is rejected with the matching
    /// error and changes nothing; replay state commits only on success.
    #[verifier::rlimit(60)]
    pub fn unprotect_rtcp(&mut self, pkt: &mut Vec<u8>) -> (r: Result<(), ErrorStatus>)
        requires
            stream_wf(*old(self)),
            old(pkt)@.len() <= MAX_PKT,
        ensures
            stream_wf(*final(self)),
            same_stream_identity(*final(self), *old(self)),
            final(self).rtp_window == old(self).rtp_window,
            final(self).rtcp_index == old(self).rtcp_index,
            r is Err ==> final(pkt)@ == old(pkt)@ && stream_unchanged(*final(self), *old(self)),
            ({
                let ct = old(pkt)@;
                let p = old(self).policy_rtcp;
                let ek = old(self).rtcp_keys.enc_key@;
                let sl = old(self).rtcp_keys.salt@;
                let ak = old(self).rtcp_keys.auth_key@;
                let okhdr = ct.len() >= 8 + 4 + p.tag_len;
                let i = rtcp_index_of(p, ct);
                &&& (r is Ok <==> okhdr && old(self).rtcp_window.accepts(i as int)
                        && rtcp_auth_ok(p, ek, sl, ak, ct))
                &&& (r == Err::<(), ErrorStatus>(ErrorStatus::BadParam) <==> !okhdr)
                &&& (r == Err::<(), ErrorStatus>(ErrorStatus::ReplayOld) <==> okhdr
                        && i + 64 <= old(self).rtcp_window.latest)
                &&& (r == Err::<(), ErrorStatus>(ErrorStatus::ReplayFail) <==> okhdr
                        && old(self).rtcp_window.seen(i as int))
                &&& (r == Err::<(), ErrorStatus>(ErrorStatus::AuthFail) <==> okhdr
                        && old(self).rtcp_window.accepts(i as int)
                        && !rtcp_auth_ok(p, ek, sl, ak, ct))
                &&& (r is Ok ==> {
                    &&& rtcp_plain_matches(p, ek, sl, ak, i, ct, final(pkt)@)
                    &&& final(self).rtcp_window.latest ==
                            (if i > old(self).rtcp_window.latest { i as int } else { old(self).rtcp_window.latest as int })
                    &&& final(self).packets == sat_add(old(self).packets, 1)
                })
                &&& (forall|orig: Seq<u8>| (okhdr && old(self).rtcp_window.accepts(i as int)
                        && #[trigger] rtcp_plain_matches(p, ek, sl, ak, i, ct, orig))
                        ==> r is Ok && final(pkt)@ == orig)
            }),
    {
        let ghost ct = pkt@;
        let p = self.policy_rtcp;
        let n = pkt.len();
        if n < 8 + 4 + p.tag_len {
            return Err(ErrorStatus::BadParam);
        }
        let trailer_tag = match p.auth {
            AuthKind::HmacSha1 => p.tag_len,
            AuthKind::Null => 0,
        };
        let ew_off = n - trailer_tag - 4;
        let ew = read_be32(pkt, ew_off);
        let index = ew & 0x7fff_ffff;
        proof {
            assert(index == rtcp_index_of(p, ct));
            assert(index < 0x8000_0000) by (bit_vector)
                requires index == ew & 0x7fff_ffff;
        }
        match self.rtcp_window.check(index as u64) {
            Ok(()) => {},
            Err(e) => {
                return Err(e);
            },
        }
        let ghost ek = self.rtcp_keys.enc_key@;
        let ghost sl = self.rtcp_keys.salt@;
        let ghost ak = self.rtcp_keys.auth_key@;
        let ssrc = read_be32(pkt, 4);
        let expected_ew: u32 = if p.conf { index | 0x8000_0000 } else { index };
        proof {
            assert((index | 0x8000_0000) & 0x7fff_ffff == index && index | 0x8000_0000 >= 0x8000_0000)
                by (bit_vector)
                requires index < 0x8000_0000u32;
            lemma_u32_be_round_trip(expected_ew);
        }
        if ew != expected_ew {
            proof {
                assert(ct.subrange(ew_off as int, ew_off + 4) != rtcp_e_word(p.conf, index)) by {
                    if ct.subrange(ew_off as int, ew_off + 4) == rtcp_e_word(p.conf, index) {
                        assert(ct[ew_off as int] == u32_be(expected_ew)[0]);
                        assert(ct[ew_off + 1] == u32_be(expected_ew)[1]);
                        assert(ct[ew_off + 2] == u32_be(expected_ew)[2]);
                        assert(ct[ew_off + 3] == u32_be(expected_ew)[3]);
                    }
                }
                assert(!rtcp_auth_ok(p, ek, sl, ak, ct));
                assert forall|orig: Seq<u8>|
                    !rtcp_plain_matches(p, ek, sl, ak, index, ct, orig) by {
                    if rtcp_plain_matches(p, ek, sl, ak, index, ct, orig) {
                        lemma_rtcp_trailer(p, ek, sl, ak, index, ct, orig);
                    }
                }
            }
            return Err(ErrorStatus::AuthFail);
        }
        proof {
            assert(ct.subrange(ew_off as int, ew_off + 4) =~= rtcp_e_word(p.conf, index));
        }

        match p.cipher {
            CipherKind::AesGcm => {
                let nonce = build_gcm_iv(&self.rtcp_keys.salt, ssrc, index as u64);
                if p.conf {
                    let mut aad = sub_vec(pkt, 0, 8);
                    push_be32(&mut aad, expected_ew);
                    let ctail = sub_vec(pkt, 8, ew_off - 8);
                    proof {
                        assert(aad@ =~= ct.take(8) + rtcp_e_word(p.conf, index));
                        assert(ctail@ =~= ct.subrange(8, ew_off as int));
                    }
                    match gcm_decrypt(&self.rtcp_keys.enc_key, p.tag_len, &nonce, &aad, &ctail) {
                        None => {
                            proof {
                                assert forall|orig: Seq<u8>|
                                    !rtcp_plain_matches(p, ek, sl, ak, index, ct, orig) by {
                                    if rtcp_plain_matches(p, ek, sl, ak, index, ct, orig) {
                                        lemma_rtcp_trailer(p, ek, sl, ak, index, ct, orig);
                                    }
                                }
                                assert(!rtcp_auth_ok(p, ek, sl, ak, ct));
                            }
                            return Err(ErrorStatus::AuthFail);
                        },
                        Some(ptv) => {
                            pkt.truncate(8);
                            pkt.extend_from_slice(ptv.as_slice());
                            proof {
                                assert(pkt@ =~= ct.take(8) + ptv@);
                                assert(pkt@.take(8) =~= ct.take(8));
                                assert(be32_at(pkt@, 4) == be32_at(ct, 4)) by {
                                    assert(pkt@[4] == ct[4] && pkt@[5] == ct[5]
                                        && pkt@[6] == ct[6] && pkt@[7] == ct[7]);
                                }
                                assert(be32_at(ct, 4) == ssrc);
                                assert(pkt@.skip(8) =~= ptv@);
                                assert(spec_protect_rtcp(p, ek, sl, ak, index, pkt@) =~= ct);
                                assert(rtcp_plain_matches(p, ek, sl, ak, index, ct, pkt@));
                                assert forall|orig: Seq<u8>|
                                    rtcp_plain_matches(p, ek, sl, ak, index, ct, orig)
                                    implies orig == pkt@ by {
                                    lemma_rtcp_trailer(p, ek, sl, ak, index, ct, orig);
                                    assert(ct.subrange(8, ew_off as int) == gcm_seal(ek,
                                        p.tag_len as nat, gcm_iv(sl, be32_at(ct, 4), index as u64),
                                        ct.take(8) + rtcp_e_word(p.conf, index), orig.skip(8)));
                                    assert(orig.skip(8) == ptv@);
                                    assert(orig =~= pkt@);
                                }
                            }
                        },
                    }
                } else {
                    let pt_len = ew_off - p.tag_len;
                    let mut aad = sub_vec(pkt, 0, pt_len);
                    push_be32(&mut aad, expected_ew);
                    let ctail = sub_vec(pkt, pt_len, p.tag_len);
                    proof {
                        assert(aad@ =~= ct.take(pt_len as int) + rtcp_e_word(p.conf, index));
                        assert(ctail@ =~= ct.subrange(pt_len as int, ew_off as int));
                    }
                    match gcm_decrypt(&self.rtcp_keys.enc_key, p.tag_len, &nonce, &aad, &ctail) {
                        None => {
                            proof {
                                assert forall|orig: Seq<u8>|
                                    !rtcp_plain_matches(p, ek, sl, ak, index, ct, orig) by {
                                    if rtcp_plain_matches(p, ek, sl, ak, index, ct, orig) {
                                        lemma_rtcp_trailer(p, ek, sl, ak, index, ct, orig);
                                    }
                                }
                                assert(!rtcp_auth_ok(p, ek, sl, ak, ct));
                            }
                            return Err(ErrorStatus::AuthFail);
                        },
                        Some(_ptv) => {
                            pkt.truncate(pt_len);
                            proof {
                                assert(pkt@ =~= ct.take(pt_len as int));
                                assert(pkt@.take(8) =~= ct.take(8));
                                assert(be32_at(pkt@, 4) == be32_at(ct, 4)) by {
                                    assert(pkt@[4] == ct[4] && pkt@[5] == ct[5]
                                        && pkt@[6] == ct[6] && pkt@[7] == ct[7]);
                                }
                                assert(be32_at(ct, 4) == ssrc);
                                assert(_ptv@.len() == 0);
                                assert(_ptv@ =~= Seq::<u8>::empty());
                                assert(ctail@ == gcm_seal(ek, p.tag_len as nat,
                                    gcm_iv(sl, be32_at(pkt@, 4), index as u64),
                                    pkt@ + rtcp_e_word(p.conf, index), Seq::<u8>::empty()));
                                assert(spec_protect_rtcp(p, ek, sl, ak, index, pkt@) ==
                                    pkt@ + gcm_seal(ek, p.tag_len as nat,
                                        gcm_iv(sl, be32_at(pkt@, 4), index as u64),
                                        pkt@ + rtcp_e_word(p.conf, index), Seq::<u8>::empty())
                                    + rtcp_e_word(p.conf, index));
                                assert(ct =~= pkt@ + ctail@ + ct.subrange(ew_off as int, ew_off + 4));
                                assert(spec_protect_rtcp(p, ek, sl, ak, index, pkt@) == ct);
                                assert(rtcp_plain_matches(p, ek, sl, ak, index, ct, pkt@));
                                assert forall|orig: Seq<u8>|
                                    rtcp_plain_matches(p, ek, sl, ak, index, ct, orig)
                                    implies orig == pkt@ by {
                                    lemma_rtcp_trailer(p, ek, sl, ak, index, ct, orig);
                                    assert(orig =~= pkt@);
                                }
                            }
                        },
                    }
                }
            },
            _ => {
                match p.auth {
                    AuthKind::HmacSha1 => {
                        let msg = sub_vec(pkt, 0, n - p.tag_len);
                        proof {
                            assert(msg@ =~= ct.take(n - p.tag_len));
                        }
                        let tag = compute_hmac_tag(&self.rtcp_keys.auth_key, &msg, p.tag_len);
                        let expected = sub_vec(pkt, n - p.tag_len, p.tag_len);
                        proof {
                            assert(expected@ =~= ct.skip(n - p.tag_len));
                        }
                        if !eq_bytes(&tag, &expected) {
                            proof {
                                assert(!rtcp_auth_ok(p, ek, sl, ak, ct));
                                assert forall|orig: Seq<u8>|
                                    !rtcp_plain_matches(p, ek, sl, ak, index, ct, orig) by {
                                    if rtcp_plain_matches(p, ek, sl, ak, index, ct, orig) {
                                        lemma_rtcp_non_gcm(p, ek, sl, ak, index, ct, orig);
                                    }
                                }
                            }
                            return Err(ErrorStatus::AuthFail);
                        }
                    },
                    AuthKind::Null => {},
                }
                pkt.truncate(ew_off);
                proof {
                    assert(pkt@ =~= ct.take(ew_off as int));
                }
                match p.cipher {
                    CipherKind::AesCm => {
                        let m = pkt.len();
                        let plen2 = m - 8;
                        let iv = build_rtp_iv(&self.rtcp_keys.salt, ssrc, index as u64);
                        let ks = gen_keystream(&self.rtcp_keys.enc_key, &iv, plen2);
                        xor_range(pkt, 8, &ks);
                    },
                    _ => {},
                }
                proof {
                    assert(pkt@ =~= spec_rtcp_plain(p, ek, sl, ct));
                    lemma_rtcp_plain_sound(p, ek, sl, ak, index, ct);
                    assert forall|orig: Seq<u8>|
                        rtcp_plain_matches(p, ek, sl, ak, index, ct, orig)
                        implies orig == pkt@ by {
                        lemma_rtcp_non_gcm(p, ek, sl, ak, index, ct, orig);
                    }
                }
            },
        }

        self.rtcp_window.add(index as u64);
        if self.packets < 0xffff_ffff_ffff_ffff {
            self.packets = self.packets + 1;
        }
        Ok(())
    }
}

/// Every matching plaintext puts the expected trailer word and, for
/// AES-GCM, a sealed payload at fixed offsets of the ciphertext.
proof fn lemma_rtcp_trailer(p: CryptoPolicy, ek: Seq<u8>, sl: Seq<u8>, ak: Seq<u8>, index: u32, ct: Seq<u8>, orig: Seq<u8>)
    requires
        policy_wf(p),
        index < 0x8000_0000,
        ct.len() >= 8 + 4 + p.tag_len,
        rtcp_plain_matches(p, ek, sl, ak, index, ct, orig),
    ensures
        ct.subrange(ct.len() - rtcp_trailer_tag_len(p) - 4, ct.len() - rtcp_trailer_tag_len(p))
            == rtcp_e_word(p.conf, index),
        orig.len() + 4 + p.tag_len == ct.len(),
        be32_at(orig, 4) == be32_at(ct, 4),
        p.cipher is AesGcm && p.conf ==> ct.subrange(8, ct.len() - 4) == gcm_seal(ek,
            p.tag_len as nat, gcm_iv(sl, be32_at(ct, 4), index as u64),
            ct.take(8) + rtcp_e_word(p.conf, index), orig.skip(8)),
        p.cipher is AesGcm && !p.conf ==> orig == ct.take(ct.len() - 4 - p.tag_len)
            && ct.subrange(ct.len() - 4 - p.tag_len, ct.len() - 4) == gcm_seal(ek,
                p.tag_len as nat, gcm_iv(sl, be32_at(ct, 4), index as u64),
                ct.take(ct.len() - 4 - p.tag_len) + rtcp_e_word(p.conf, index),
                Seq::<u8>::empty()),
{
    let ew = rtcp_e_word(p.conf, index);
    let ew_off = ct.len() - rtcp_trailer_tag_len(p) - 4;
    assert(ew.len() == 4);
    assert(be32_at(orig, 4) == be32_at(ct, 4)) by {
        assert(orig.take(8)[4] == ct.take(8)[4]);
        assert(orig.take(8)[5] == ct.take(8)[5]);
        assert(orig.take(8)[6] == ct.take(8)[6]);
        assert(orig.take(8)[7] == ct.take(8)[7]);
    }
    match p.cipher {
        CipherKind::Null => {
            match p.auth {
                AuthKind::Null => {
                    assert(ct == orig + ew);
                    assert(ct.subrange(ew_off, ew_off + 4) =~= ew);
                },
                AuthKind::HmacSha1 => {
                    let body = orig;
                    assert(ct == body + ew + hmac_tag(ak, body + ew, p.tag_len as nat));
                    assert(ct.subrange(ew_off, ew_off + 4) =~= ew);
                },
            }
        },
        CipherKind::AesCm => {
            let ks = keystream(ek, rtp_iv(sl, be32_at(orig, 4), index as u64), (orig.len() - 8) as nat);
            let body = orig.take(8) + xor_bytes(orig.skip(8), ks);
            assert(body.len() == orig.len());
            match p.auth {
                AuthKind::Null => {
                    assert(ct == body + ew);
                    assert(ct.subrange(ew_off, ew_off + 4) =~= ew);
                },
                AuthKind::HmacSha1 => {
                    assert(ct == body + ew + hmac_tag(ak, body + ew, p.tag_len as nat));
                    assert(ct.subrange(ew_off, ew_off + 4) =~= ew);
                },
            }
        },
        CipherKind::AesGcm => {
            if p.conf {
                let sealed = gcm_seal(ek, p.tag_len as nat, gcm_iv(sl, be32_at(orig, 4), index as u64),
                    orig.take(8) + ew, orig.skip(8));
                assert(ct == orig.take(8) + sealed + ew);
                assert(sealed.len() == ct.len() - 8 - 4);
                assert(ct.subrange(ew_off, ew_off + 4) =~= ew);
                assert(orig.take(8) =~= ct.take(8));
                assert(ct.subrange(8, ct.len() - 4) =~= sealed);
            } else {
                let sealed = gcm_seal(ek, p.tag_len as nat, gcm_iv(sl, be32_at(orig, 4), index as u64),
                    orig + ew, Seq::<u8>::empty());
                assert(ct == orig + sealed + ew);
                assert(sealed.len() == p.tag_len);
                assert(ct.subrange(ew_off, ew_off + 4) =~= ew);
                assert(orig =~= ct.take(ct.len() - 4 - p.tag_len));
                assert(ct.subrange(ct.len() - 4 - p.tag_len, ct.len() - 4) =~= sealed);
            }
        },
    }
}

/// Under the null and counter-mode policies, at most one control packet
/// protects to a given ciphertext, and it is `spec_rtcp_plain`; a match
/// also certifies the trailer and tag.
proof fn lemma_rtcp_non_gcm(p: CryptoPolicy, ek: Seq<u8>, sl: Seq<u8>, ak: Seq<u8>, index: u32, ct: Seq<u8>, orig: Seq<u8>)
    requires
        policy_wf(p),
        !(p.cipher is AesGcm),
        index < 0x8000_0000,
        ct.len() >= 8 + 4 + p.tag_len,
        index == rtcp_index_of(p, ct),
        rtcp_plain_matches(p, ek, sl, ak, index, ct, orig),
    ensures
        rtcp_auth_ok(p, ek, sl, ak, ct),
        orig == spec_rtcp_plain(p, ek, sl, ct),
{
    lemma_rtcp_trailer(p, ek, sl, ak, index, ct, orig);
    let ew = rtcp_e_word(p.conf, index);
    let ew_off = ct.len() - rtcp_trailer_tag_len(p) - 4;
    let body_spec = ct.take(ew_off);
    match p.cipher {
        CipherKind::Null => {
            match p.auth {
                AuthKind::Null => {
                    assert(ct == orig + ew);
                    assert(body_spec =~= orig);
                },
                AuthKind::HmacSha1 => {
                    assert(ct == (orig + ew) + hmac_tag(ak, orig + ew, p.tag_len as nat));
                    assert(body_spec =~= orig);
                    assert(ct.take(ct.len() - p.tag_len) =~= orig + ew);
                    assert(ct.skip(ct.len() - p.tag_len) =~=
                        hmac_tag(ak, orig + ew, p.tag_len as nat));
                },
            }
            assert(spec_rtcp_plain(p, ek, sl, ct) == body_spec);
        },
        CipherKind::AesCm => {
            let ks = keystream(ek, rtp_iv(sl, be32_at(ct, 4), index as u64), (orig.len() - 8) as nat);
            let body = orig.take(8) + xor_bytes(orig.skip(8), ks);
            match p.auth {
                AuthKind::Null => {
                    assert(ct == body + ew);
                    assert(body_spec =~= body);
                },
                AuthKind::HmacSha1 => {
                    assert(ct == (body + ew) + hmac_tag(ak, body + ew, p.tag_len as nat));
                    assert(body_spec =~= body);
                    assert(ct.take(ct.len() - p.tag_len) =~= body + ew);
                    assert(ct.skip(ct.len() - p.tag_len) =~=
                        hmac_tag(ak, body + ew, p.tag_len as nat));
                },
            }
            assert(body_spec.take(8) =~= orig.take(8));
            assert(body_spec.skip(8) =~= xor_bytes(orig.skip(8), ks));
            lemma_xor_involution(orig.skip(8), ks);
            assert(spec_rtcp_plain(p, ek, sl, ct) =~= orig);
        },
        CipherKind::AesGcm => {},
    }
}

/// When a null or counter-mode control packet's trailer and tag check
/// out, `spec_rtcp_plain` protects back to exactly that packet.
proof fn lemma_rtcp_plain_sound(p: CryptoPolicy, ek: Seq<u8>, sl: Seq<u8>, ak: Seq<u8>, index: u32, ct: Seq<u8>)
    requires
        policy_wf(p),
        !(p.cipher is AesGcm),
        index < 0x8000_0000,
        ct.len() >= 8 + 4 + p.tag_len,
        index == rtcp_index_of(p, ct),
        rtcp_auth_ok(p, ek, sl, ak, ct),
    ensures
        rtcp_plain_matches(p, ek, sl, ak, index, ct, spec_rtcp_plain(p, ek, sl, ct)),
{
    let ew = rtcp_e_word(p.conf, index);
    let ew_off = ct.len() - rtcp_trailer_tag_len(p) - 4;
    let body = ct.take(ew_off);
    let pt = spec_rtcp_plain(p, ek, sl, ct);
    assert(ct.subrange(ew_off, ew_off + 4) == ew);
    match p.cipher {
        CipherKind::Null => {
            assert(pt == body);
            assert(pt.take(8) =~= ct.take(8));
            match p.auth {
                AuthKind::Null => {
                    assert(spec_protect_rtcp(p, ek, sl, ak, index, pt) == pt + ew);
                    assert(pt + ew =~= ct);
                },
                AuthKind::HmacSha1 => {
                    assert(pt + ew =~= ct.take(ct.len() - p.tag_len));
                    assert(spec_protect_rtcp(p, ek, sl, ak, index, pt) ==
                        pt + ew + hmac_tag(ak, pt + ew, p.tag_len as nat));
                    assert(spec_protect_rtcp(p, ek, sl, ak, index, pt) =~= ct);
                },
            }
        },
        CipherKind::AesCm => {
            let ks = keystream(ek, rtp_iv(sl, be32_at(ct, 4), index as u64), (body.len() - 8) as nat);
            assert(pt == body.take(8) + xor_bytes(body.skip(8), ks));
            assert(pt.len() == body.len());
            assert(pt.take(8) =~= ct.take(8));
            assert(be32_at(pt, 4) == be32_at(ct, 4)) by {
                assert(pt.take(8)[4] == ct.take(8)[4]);
                assert(pt.take(8)[5] == ct.take(8)[5]);
                assert(pt.take(8)[6] == ct.take(8)[6]);
                assert(pt.take(8)[7] == ct.take(8)[7]);
            }
            assert(pt.skip(8) =~= xor_bytes(body.skip(8), ks));
            lemma_xor_involution(body.skip(8), ks);
            let enc_body = pt.take(8) + xor_bytes(pt.skip(8), ks);
            assert(enc_body =~= body);
            match p.auth {
                AuthKind::Null => {
                    assert(spec_protect_rtcp(p, ek, sl, ak, index, pt) == enc_body + ew);
                    assert(enc_body + ew =~= ct);
                },
                AuthKind::HmacSha1 => {
                    assert(enc_body + ew =~= ct.take(ct.len() - p.tag_len));
                    assert(spec_protect_rtcp(p, ek, sl, ak, index, pt) ==
                        enc_body + ew + hmac_tag(ak, enc_body + ew, p.tag_len as nat));
                    assert(spec_protect_rtcp(p, ek, sl, ak, index, pt) =~= ct);
                },
            }
        },
        CipherKind::AesGcm => {},
    }
}

} // verus!
