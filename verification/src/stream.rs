//! Per-stream cryptographic state and the RTP protect/unprotect transforms.
//!
//! A stream context owns the session keys derived from its master key, the
//! replay window and rollover state for each direction, and packet counters.
//! `protect_rtp` turns a plaintext packet into an authenticated ciphertext
//! packet; `unprotect_rtp` inverts it, refusing replays and forgeries
//! without any change to stream state.

use vstd::prelude::*;
use crate::bytes::{be16, be32_at, u32_be, xor_bytes, lemma_xor_involution, xor_range, sub_vec, eq_bytes, push_be32};
use crate::cm::{keystream, rtp_iv, gcm_iv, derived_key, hmac_tag, build_rtp_iv, build_gcm_iv, gen_keystream, compute_hmac_tag, derive_key};
use crate::crypto::{gcm_seal, gcm_encrypt, gcm_decrypt};
use crate::errors::ErrorStatus;
use crate::header::{parseable, spec_header_len, parse_header};
use crate::policy::{CryptoPolicy, CipherKind, AuthKind, policy_wf, spec_master_len};
use crate::replay::{ReplayWindow, est_index, estimate_index, MAX_INDEX};

verus! {

/// Largest packet the engine accepts: the RTP/UDP wire limit.
pub const MAX_PKT: usize = 0x10000;

/// Key-derivation labels: RTP encryption, authentication and salt are
/// 0, 1, 2; the RTCP labels are 3, 4, 5.
pub const LABEL_RTP_BASE: u8 = 0;
pub const LABEL_RTCP_BASE: u8 = 3;

/// Session keys for one direction of one stream, derived from the master
/// key on creation and never replaced except by re-keying.
pub struct SessionKeys {
    pub enc_key: Vec<u8>,
    pub salt: Vec<u8>,
    pub auth_key: Vec<u8>,
}

/// The derived lengths match the policy.
pub open spec fn keys_wf(k: SessionKeys, p: CryptoPolicy) -> bool {
    &&& k.enc_key@.len() == p.enc_key_len
    &&& k.salt@.len() == p.salt_len
    &&& k.auth_key@.len() == p.auth_key_len
}

/// The derived encryption key for a label base.
pub open spec fn spec_enc_key(master: Seq<u8>, p: CryptoPolicy, base: u8) -> Seq<u8> {
    derived_key(master.take(p.master_key_len as int),
        master.subrange(p.master_key_len as int, spec_master_len(p)),
        base, p.enc_key_len as nat)
}

/// The derived authentication key for a label base.
pub open spec fn spec_auth_key(master: Seq<u8>, p: CryptoPolicy, base: u8) -> Seq<u8> {
    derived_key(master.take(p.master_key_len as int),
        master.subrange(p.master_key_len as int, spec_master_len(p)),
        (base + 1) as u8, p.auth_key_len as nat)
}

/// The derived session salt for a label base.
pub open spec fn spec_session_salt(master: Seq<u8>, p: CryptoPolicy, base: u8) -> Seq<u8> {
    derived_key(master.take(p.master_key_len as int),
        master.subrange(p.master_key_len as int, spec_master_len(p)),
        (base + 2) as u8, p.salt_len as nat)
}

/// Derives the session keys for one direction. Deterministic in the master
/// key, policy and label base: re-derivation yields identical keys.
pub fn derive_session_keys(master: &Vec<u8>, p: &CryptoPolicy, base: u8) -> (r: SessionKeys)
    requires
        policy_wf(*p),
        master@.len() >= spec_master_len(*p),
        base == LABEL_RTP_BASE || base == LABEL_RTCP_BASE,
    ensures
        keys_wf(r, *p),
        r.enc_key@ == spec_enc_key(master@, *p, base),
        r.auth_key@ == spec_auth_key(master@, *p, base),
        r.salt@ == spec_session_salt(master@, *p, base),
{
    let mk = sub_vec(master, 0, p.master_key_len);
    let ms = sub_vec(master, p.master_key_len, p.master_salt_len);
    assert(mk@ =~= master@.take(p.master_key_len as int));
    let enc_key = derive_key(&mk, &ms, base, p.enc_key_len);
    let auth_key = derive_key(&mk, &ms, base + 1, p.auth_key_len);
    let salt = derive_key(&mk, &ms, base + 2, p.salt_len);
    SessionKeys { enc_key, salt, auth_key }
}

/// The rollover counter held in a 48-bit packet index.
pub open spec fn roc_of(index: u64) -> u32 {
    (index / 0x10000) as u32
}

/// The authenticated portion for HMAC policies: the packet body followed
/// by the rollover counter, big-endian.
pub open spec fn tag_input(body: Seq<u8>, roc: u32) -> Seq<u8> {
    body + u32_be(roc)
}

/// Appends the policy's HMAC tag to a body, or leaves it alone under a
/// null authenticator.
pub open spec fn hmac_append(p: CryptoPolicy, auth_key: Seq<u8>, body: Seq<u8>, roc: u32) -> Seq<u8> {
    match p.auth {
        AuthKind::Null => body,
        AuthKind::HmacSha1 => body + hmac_tag(auth_key, tag_input(body, roc), p.tag_len as nat),
    }
}

/// The full protect transform on packet bytes: what `protect_rtp` produces
/// for a packet at a given 48-bit index.
///
/// Under the null cipher the body passes through unchanged; under AES-CM
/// the payload is XORed with the counter-mode keystream; either may then
/// gain an HMAC tag over body and rollover counter. Under AES-GCM the
/// header is associated data and the cipher appends its own tag; with
/// confidentiality off the whole packet is associated data instead and
/// only the tag is appended.
pub open spec fn spec_protect(p: CryptoPolicy, enc_key: Seq<u8>, salt: Seq<u8>, auth_key: Seq<u8>, index: u64, pkt: Seq<u8>) -> Seq<u8> {
    let hlen = spec_header_len(pkt);
    let ssrc = be32_at(pkt, 8);
    let payload = pkt.skip(hlen);
    match p.cipher {
        CipherKind::Null => hmac_append(p, auth_key, pkt, roc_of(index)),
        CipherKind::AesCm => hmac_append(
            p, auth_key,
            pkt.take(hlen) + xor_bytes(payload, keystream(enc_key, rtp_iv(salt, ssrc, index), payload.len())),
            roc_of(index)),
        CipherKind::AesGcm => {
            let nonce = gcm_iv(salt, ssrc, index);
            if p.conf {
                pkt.take(hlen) + gcm_seal(enc_key, p.tag_len as nat, nonce, pkt.take(hlen), payload)
            } else {
                pkt + gcm_seal(enc_key, p.tag_len as nat, nonce, pkt, Seq::empty())
            }
        },
    }
}

/// `pt` is the plaintext packet that `ct` protects: same length budget,
/// same header bytes, and protecting `pt` at `index` gives exactly `ct`.
pub open spec fn rtp_plain_matches(p: CryptoPolicy, enc_key: Seq<u8>, salt: Seq<u8>, auth_key: Seq<u8>, index: u64, ct: Seq<u8>, pt: Seq<u8>) -> bool {
    &&& pt.len() + p.tag_len == ct.len()
    &&& pt.take(spec_header_len(ct)) == ct.take(spec_header_len(ct))
    &&& ct == spec_protect(p, enc_key, salt, auth_key, index, pt)
}

/// Whether `ct` authenticates at `index`: its HMAC tag recomputes, or for
/// AES-GCM some plaintext seals to exactly these bytes.
pub open spec fn rtp_auth_ok(p: CryptoPolicy, enc_key: Seq<u8>, salt: Seq<u8>, auth_key: Seq<u8>, index: u64, ct: Seq<u8>) -> bool {
    match p.cipher {
        CipherKind::AesGcm => exists|pt: Seq<u8>|
            rtp_plain_matches(p, enc_key, salt, auth_key, index, ct, pt),
        _ => match p.auth {
            AuthKind::HmacSha1 => ct.skip(ct.len() - p.tag_len) == hmac_tag(
                auth_key,
                tag_input(ct.take(ct.len() - p.tag_len), roc_of(index)),
                p.tag_len as nat),
            AuthKind::Null => true,
        },
    }
}

/// A packet's header length is determined by its first `hlen` bytes alone.
pub proof fn lemma_header_len_prefix(a: Seq<u8>, b: Seq<u8>, h: int)
    requires
        parseable(a),
        h == spec_header_len(a),
        b.len() >= h,
        b.take(h) == a.take(h),
    ensures
        parseable(b),
        spec_header_len(b) == h,
        12 <= h,
{
    assert(12 <= h <= a.len());
    assert forall|i: int| 0 <= i < h implies a[i] == b[i] by {
        assert(a.take(h)[i] == a[i]);
        assert(b.take(h)[i] == b[i]);
        assert(a.take(h)[i] == b.take(h)[i]);
    }
}

/// Saturating add for the stream counters.
pub open spec fn sat_add(a: u64, b: u64) -> u64 {
    if a + b <= 0xffff_ffff_ffff_ffffu64 { (a + b) as u64 } else { 0xffff_ffff_ffff_ffffu64 }
}

/// Per-SSRC stream state: policies, derived keys, replay and rollover
/// state for each direction, and traffic counters.
pub struct StreamContext {
    pub ssrc: u32,
    pub policy_rtp: CryptoPolicy,
    pub policy_rtcp: CryptoPolicy,
    pub rtp_keys: SessionKeys,
    pub rtcp_keys: SessionKeys,
    pub rtp_window: ReplayWindow,
    pub rtcp_window: ReplayWindow,
    /// Next outbound RTCP index (31 bits).
    pub rtcp_index: u32,
    pub packets: u64,
    pub octets: u64,
}

/// The stream invariant: consistent policies, derived key lengths, and
/// index state inside the 48-bit (RTP) and 31-bit (RTCP) index spaces.
pub open spec fn stream_wf(s: StreamContext) -> bool {
    &&& policy_wf(s.policy_rtp)
    &&& policy_wf(s.policy_rtcp)
    &&& keys_wf(s.rtp_keys, s.policy_rtp)
    &&& keys_wf(s.rtcp_keys, s.policy_rtcp)
    &&& s.rtp_window.latest < MAX_INDEX
    &&& s.rtcp_window.latest < 0x8000_0000
    &&& s.rtcp_index < 0x8000_0000
}

/// Identity fields that protect/unprotect never change.
pub open spec fn same_stream_identity(a: StreamContext, b: StreamContext) -> bool {
    &&& a.ssrc == b.ssrc
    &&& a.policy_rtp == b.policy_rtp
    &&& a.policy_rtcp == b.policy_rtcp
    &&& a.rtp_keys.enc_key@ == b.rtp_keys.enc_key@
    &&& a.rtp_keys.salt@ == b.rtp_keys.salt@
    &&& a.rtp_keys.auth_key@ == b.rtp_keys.auth_key@
    &&& a.rtcp_keys.enc_key@ == b.rtcp_keys.enc_key@
    &&& a.rtcp_keys.salt@ == b.rtcp_keys.salt@
    &&& a.rtcp_keys.auth_key@ == b.rtcp_keys.auth_key@
}

/// Nothing observable about the stream differs.
pub open spec fn stream_unchanged(a: StreamContext, b: StreamContext) -> bool {
    &&& same_stream_identity(a, b)
    &&& a.rtp_window == b.rtp_window
    &&& a.rtcp_window == b.rtcp_window
    &&& a.rtcp_index == b.rtcp_index
    &&& a.packets == b.packets
    &&& a.octets == b.octets
}

impl StreamContext {
    /// Creates a stream for an SSRC: derives both directions' session keys
    /// from the master key material (key then salt) and starts with fresh
    /// replay and rollover state. Fails with `BadParam` exactly when the
    /// master material is shorter than the policies require.
    pub fn create(ssrc: u32, policy_rtp: &CryptoPolicy, policy_rtcp: &CryptoPolicy, master: &Vec<u8>) -> (r: Result<StreamContext, ErrorStatus>)
        requires
            policy_wf(*policy_rtp),
            policy_wf(*policy_rtcp),
        ensures
            r matches Ok(s) ==> {
                &&& stream_wf(s)
                &&& s.ssrc == ssrc
                &&& s.policy_rtp == *policy_rtp
                &&& s.policy_rtcp == *policy_rtcp
                &&& s.rtp_keys.enc_key@ == spec_enc_key(master@, *policy_rtp, LABEL_RTP_BASE)
                &&& s.rtp_keys.auth_key@ == spec_auth_key(master@, *policy_rtp, LABEL_RTP_BASE)
                &&& s.rtp_keys.salt@ == spec_session_salt(master@, *policy_rtp, LABEL_RTP_BASE)
                &&& s.rtcp_keys.enc_key@ == spec_enc_key(master@, *policy_rtcp, LABEL_RTCP_BASE)
                &&& s.rtcp_keys.auth_key@ == spec_auth_key(master@, *policy_rtcp, LABEL_RTCP_BASE)
                &&& s.rtcp_keys.salt@ == spec_session_salt(master@, *policy_rtcp, LABEL_RTCP_BASE)
                &&& s.rtp_window.latest == 0 && s.rtp_window.mask == 0
                &&& s.rtcp_window.latest == 0 && s.rtcp_window.mask == 0
                &&& s.rtcp_index == 0 && s.packets == 0 && s.octets == 0
            },
            r is Ok <==> master@.len() >= spec_master_len(*policy_rtp)
                && master@.len() >= spec_master_len(*policy_rtcp),
            r matches Err(e) ==> e == ErrorStatus::BadParam,
    {
        if master.len() < policy_rtp.master_len() || master.len() < policy_rtcp.master_len() {
            return Err(ErrorStatus::BadParam);
        }
        let rtp_keys = derive_session_keys(master, policy_rtp, LABEL_RTP_BASE);
        let rtcp_keys = derive_session_keys(master, policy_rtcp, LABEL_RTCP_BASE);
        Ok(StreamContext {
            ssrc,
            policy_rtp: *policy_rtp,
            policy_rtcp: *policy_rtcp,
            rtp_keys,
            rtcp_keys,
            rtp_window: ReplayWindow::new(),
            rtcp_window: ReplayWindow::new(),
            rtcp_index: 0,
            packets: 0,
            octets: 0,
        })
    }

    /// A copy of this stream's keys and policies bound to another SSRC,
    /// with fresh replay, rollover and counter state. Key derivation does
    /// not involve the SSRC, so wildcard streams spawn per-SSRC contexts
    /// this way.
    pub fn spawn_for(&self, ssrc: u32) -> (r: StreamContext)
        requires
            stream_wf(*self),
        ensures
            stream_wf(r),
            r.ssrc == ssrc,
            r.policy_rtp == self.policy_rtp,
            r.policy_rtcp == self.policy_rtcp,
            r.rtp_keys.enc_key@ == self.rtp_keys.enc_key@,
            r.rtp_keys.salt@ == self.rtp_keys.salt@,
            r.rtp_keys.auth_key@ == self.rtp_keys.auth_key@,
            r.rtcp_keys.enc_key@ == self.rtcp_keys.enc_key@,
            r.rtcp_keys.salt@ == self.rtcp_keys.salt@,
            r.rtcp_keys.auth_key@ == self.rtcp_keys.auth_key@,
            r.rtp_window.latest == 0 && r.rtp_window.mask == 0,
            r.rtcp_window.latest == 0 && r.rtcp_window.mask == 0,
            r.rtcp_index == 0 && r.packets == 0 && r.octets == 0,
    {
        StreamContext {
            ssrc,
            policy_rtp: self.policy_rtp,
            policy_rtcp: self.policy_rtcp,
            rtp_keys: SessionKeys {
                enc_key: self.rtp_keys.enc_key.clone(),
                salt: self.rtp_keys.salt.clone(),
                auth_key: self.rtp_keys.auth_key.clone(),
            },
            rtcp_keys: SessionKeys {
                enc_key: self.rtcp_keys.enc_key.clone(),
                salt: self.rtcp_keys.salt.clone(),
                auth_key: self.rtcp_keys.auth_key.clone(),
            },
            rtp_window: ReplayWindow::new(),
            rtcp_window: ReplayWindow::new(),
            rtcp_index: 0,
            packets: 0,
            octets: 0,
        }
    }

    /// Protects one RTP packet in place: encrypts the payload under the
    /// stream's RTP policy and appends the authentication tag, growing the
    /// packet by exactly the tag length. Succeeds if and only if the
    /// header parses and the rollover-aware index estimate lies in the
    /// 48-bit index space; on failure nothing changes.
    pub fn protect_rtp(&mut self, pkt: &mut Vec<u8>) -> (r: Result<(), ErrorStatus>)
        requires
            stream_wf(*old(self)),
            old(pkt)@.len() <= MAX_PKT,
        ensures
            stream_wf(*final(self)),
            same_stream_identity(*final(self), *old(self)),
            final(self).rtcp_window == old(self).rtcp_window,
            final(self).rtcp_index == old(self).rtcp_index,
            r is Err ==> final(pkt)@ == old(pkt)@ && stream_unchanged(*final(self), *old(self)),
            r is Ok <==> parseable(old(pkt)@)
                && 0 <= est_index(old(self).rtp_window.latest, be16(old(pkt)@[2], old(pkt)@[3])) < MAX_INDEX,
            r matches Err(e) ==> (e == ErrorStatus::BadParam <==> !parseable(old(pkt)@)),
            r == Err::<(), ErrorStatus>(ErrorStatus::ReplayOld) <==> parseable(old(pkt)@)
                && est_index(old(self).rtp_window.latest, be16(old(pkt)@[2], old(pkt)@[3])) < 0,
            r == Err::<(), ErrorStatus>(ErrorStatus::KeyExpired) <==> parseable(old(pkt)@)
                && est_index(old(self).rtp_window.latest, be16(old(pkt)@[2], old(pkt)@[3])) >= MAX_INDEX,
            r is Ok ==> ({
                let i = est_index(old(self).rtp_window.latest, be16(old(pkt)@[2], old(pkt)@[3]));
                let p = old(self).policy_rtp;
                &&& final(pkt)@ == spec_protect(p, old(self).rtp_keys.enc_key@,
                        old(self).rtp_keys.salt@, old(self).rtp_keys.auth_key@,
                        i as u64, old(pkt)@)
                &&& final(pkt)@.len() == old(pkt)@.len() + p.tag_len
                &&& final(self).rtp_window.latest ==
                        (if i > old(self).rtp_window.latest { i } else { old(self).rtp_window.latest as int })
                &&& final(self).packets == sat_add(old(self).packets, 1)
            }),
    {
        let ghost pkt0 = pkt@;
        let (h, hlen) = match parse_header(pkt) {
            Ok(x) => x,
            Err(e) => {
                return Err(e);
            },
        };
        let i = match estimate_index(self.rtp_window.latest, h.seq) {
            Ok(i) => i,
            Err(e) => {
                return Err(e);
            },
        };
        let p = self.policy_rtp;
        let n = pkt.len();
        let plen = n - hlen;
        let roc = (i / 0x10000) as u32;

        match p.cipher {
            CipherKind::Null => {},
            CipherKind::AesCm => {
                let iv = build_rtp_iv(&self.rtp_keys.salt, h.ssrc, i);
                let ks = gen_keystream(&self.rtp_keys.enc_key, &iv, plen);
                xor_range(pkt, hlen, &ks);
            },
            CipherKind::AesGcm => {
                let nonce = build_gcm_iv(&self.rtp_keys.salt, h.ssrc, i);
                if p.conf {
                    let aad = sub_vec(pkt, 0, hlen);
                    let pt = sub_vec(pkt, hlen, plen);
                    assert(aad@ =~= pkt0.take(hlen as int));
                    assert(pt@ =~= pkt0.skip(hlen as int));
                    let sealed = gcm_encrypt(&self.rtp_keys.enc_key, p.tag_len, &nonce, &aad, &pt);
                    pkt.truncate(hlen);
                    pkt.extend_from_slice(sealed.as_slice());
                    assert(pkt@.take(hlen as int) =~= pkt0.take(hlen as int));
                } else {
                    let aad = sub_vec(pkt, 0, n);
                    assert(aad@ =~= pkt0);
                    let empty: Vec<u8> = Vec::new();
                    assert(empty@ =~= Seq::<u8>::empty());
                    let sealed = gcm_encrypt(&self.rtp_keys.enc_key, p.tag_len, &nonce, &aad, &empty);
                    pkt.extend_from_slice(sealed.as_slice());
                }
            },
        }

        match p.auth {
            AuthKind::Null => {},
            AuthKind::HmacSha1 => {
                let blen = pkt.len();
                let mut msg = sub_vec(pkt, 0, blen);
                assert(msg@ =~= pkt@);
                push_be32(&mut msg, roc);
                let tag = compute_hmac_tag(&self.rtp_keys.auth_key, &msg, p.tag_len);
                pkt.extend_from_slice(tag.as_slice());
            },
        }

        proof {
            assert(pkt@ =~= spec_protect(p, self.rtp_keys.enc_key@, self.rtp_keys.salt@,
                self.rtp_keys.auth_key@, i, pkt0));
        }

        if i > self.rtp_window.latest {
            self.rtp_window.add(i);
        }
        if self.packets < 0xffff_ffff_ffff_ffff {
            self.packets = self.packets + 1;
        }
        let add_octets = plen as u64;
        if add_octets <= 0xffff_ffff_ffff_ffff - self.octets {
            self.octets = self.octets + add_octets;
        } else {
            self.octets = 0xffff_ffff_ffff_ffff;
        }
        Ok(())
    }

    /// Removes the protection from one RTP packet in place: checks replay
    /// and authentication, then decrypts, shrinking the packet by exactly
    /// the tag length. A replayed, stale or forged packet is rejected with
    /// the matching error and leaves the packet and every piece of stream
    /// state untouched; replay state commits only on full success.
    pub fn unprotect_rtp(&mut self, pkt: &mut Vec<u8>) -> (r: Result<(), ErrorStatus>)
        requires
            stream_wf(*old(self)),
            old(pkt)@.len() <= MAX_PKT,
        ensures
            stream_wf(*final(self)),
            same_stream_identity(*final(self), *old(self)),
            final(self).rtcp_window == old(self).rtcp_window,
            final(self).rtcp_index == old(self).rtcp_index,
            r is Err ==> final(pkt)@ == old(pkt)@ && stream_unchanged(*final(self), *old(self)),
            ({
                let ct = old(pkt)@;
                let p = old(self).policy_rtp;
                let ek = old(self).rtp_keys.enc_key@;
                let sl = old(self).rtp_keys.salt@;
                let ak = old(self).rtp_keys.auth_key@;
                let lat = old(self).rtp_window.latest;
                let okhdr = parseable(ct) && ct.len() >= spec_header_len(ct) + p.tag_len;
                let i = est_index(lat, be16(ct[2], ct[3]));
                &&& (r is Ok <==> okhdr && 0 <= i < MAX_INDEX && old(self).rtp_window.accepts(i)
                        && rtp_auth_ok(p, ek, sl, ak, i as u64, ct))
                &&& (r == Err::<(), ErrorStatus>(ErrorStatus::BadParam) <==> !okhdr)
                &&& (r == Err::<(), ErrorStatus>(ErrorStatus::KeyExpired) <==> okhdr && i >= MAX_INDEX)
                &&& (r == Err::<(), ErrorStatus>(ErrorStatus::ReplayOld) <==> okhdr
                        && (i < 0 || (i < MAX_INDEX && i + 64 <= lat)))
                &&& (r == Err::<(), ErrorStatus>(ErrorStatus::ReplayFail) <==> okhdr
                        && 0 <= i < MAX_INDEX && old(self).rtp_window.seen(i))
                &&& (r == Err::<(), ErrorStatus>(ErrorStatus::AuthFail) <==> okhdr
                        && 0 <= i < MAX_INDEX && old(self).rtp_window.accepts(i)
                        && !rtp_auth_ok(p, ek, sl, ak, i as u64, ct))
                &&& (r is Ok ==> {
                    &&& rtp_plain_matches(p, ek, sl, ak, i as u64, ct, final(pkt)@)
                    &&& final(self).rtp_window.latest == (if i > lat { i } else { lat as int })
                    &&& (forall|j: int| final(self).rtp_window.seen(j) <==>
                            ((old(self).rtp_window.seen(j) || j == i)
                                && j + 64 > final(self).rtp_window.latest))
                    &&& final(self).packets == sat_add(old(self).packets, 1)
                })
                &&& (forall|orig: Seq<u8>| (okhdr && 0 <= i < MAX_INDEX
                        && old(self).rtp_window.accepts(i)
                        && #[trigger] rtp_plain_matches(p, ek, sl, ak, i as u64, ct, orig))
                        ==> r is Ok && final(pkt)@ == orig)
            }),
    {
        let ghost ct = pkt@;
        let (h, hlen) = match parse_header(pkt) {
            Ok(x) => x,
            Err(e) => {
                return Err(e);
            },
        };
        let p = self.policy_rtp;
        let n = pkt.len();
        if n < hlen + p.tag_len {
            return Err(ErrorStatus::BadParam);
        }
        let i = match estimate_index(self.rtp_window.latest, h.seq) {
            Ok(i) => i,
            Err(e) => {
                return Err(e);
            },
        };
        match self.rtp_window.check(i) {
            Ok(()) => {},
            Err(e) => {
                return Err(e);
            },
        }
        let ghost ek = self.rtp_keys.enc_key@;
        let ghost sl = self.rtp_keys.salt@;
        let ghost ak = self.rtp_keys.auth_key@;
        let roc = (i / 0x10000) as u32;
        let body_len = n - p.tag_len;
        proof {
            lemma_parseable_hlen(ct);
        }

        match p.cipher {
            CipherKind::AesGcm => {
                let nonce = build_gcm_iv(&self.rtp_keys.salt, h.ssrc, i);
                if p.conf {
                    let aad = sub_vec(pkt, 0, hlen);
                    let ctail = sub_vec(pkt, hlen, n - hlen);
                    proof {
                        assert(aad@ =~= ct.take(hlen as int));
                        assert(ctail@ =~= ct.skip(hlen as int));
                    }
                    match gcm_decrypt(&self.rtp_keys.enc_key, p.tag_len, &nonce, &aad, &ctail) {
                        None => {
                            proof {
                                assert forall|orig: Seq<u8>|
                                    !rtp_plain_matches(p, ek, sl, ak, i, ct, orig) by {
                                    if rtp_plain_matches(p, ek, sl, ak, i, ct, orig) {
                                        lemma_gcm_conf_decompose(p, ek, sl, ak, i, ct, orig);
                                    }
                                }
                                assert(!rtp_auth_ok(p, ek, sl, ak, i, ct));
                            }
                            return Err(ErrorStatus::AuthFail);
                        },
                        Some(ptv) => {
                            pkt.truncate(hlen);
                            pkt.extend_from_slice(ptv.as_slice());
                            proof {
                                assert(pkt@ =~= ct.take(hlen as int) + ptv@);
                                assert(pkt@.take(hlen as int) =~= ct.take(hlen as int));
                                lemma_header_len_prefix(ct, pkt@, hlen as int);
                                assert(be32_at(pkt@, 8) == be32_at(ct, 8)) by {
                                    assert(pkt@[8] == ct[8] && pkt@[9] == ct[9]
                                        && pkt@[10] == ct[10] && pkt@[11] == ct[11]);
                                }
                                assert(be32_at(ct, 8) == h.ssrc);
                                assert(pkt@.skip(hlen as int) =~= ptv@);
                                assert(spec_protect(p, ek, sl, ak, i, pkt@) =~= ct);
                                assert(rtp_plain_matches(p, ek, sl, ak, i, ct, pkt@));
                                assert forall|orig: Seq<u8>|
                                    rtp_plain_matches(p, ek, sl, ak, i, ct, orig)
                                    implies orig == pkt@ by {
                                    lemma_gcm_conf_decompose(p, ek, sl, ak, i, ct, orig);
                                    assert(orig.skip(hlen as int) == ptv@);
                                    assert(orig =~= pkt@);
                                }
                            }
                        },
                    }
                } else {
                    let aad = sub_vec(pkt, 0, body_len);
                    let ctail = sub_vec(pkt, body_len, p.tag_len);
                    proof {
                        assert(aad@ =~= ct.take(body_len as int));
                        assert(ctail@ =~= ct.skip(body_len as int));
                    }
                    match gcm_decrypt(&self.rtp_keys.enc_key, p.tag_len, &nonce, &aad, &ctail) {
                        None => {
                            proof {
                                assert forall|orig: Seq<u8>|
                                    !rtp_plain_matches(p, ek, sl, ak, i, ct, orig) by {
                                    if rtp_plain_matches(p, ek, sl, ak, i, ct, orig) {
                                        lemma_gcm_auth_decompose(p, ek, sl, ak, i, ct, orig);
                                    }
                                }
                                assert(!rtp_auth_ok(p, ek, sl, ak, i, ct));
                            }
                            return Err(ErrorStatus::AuthFail);
                        },
                        Some(_ptv) => {
                            pkt.truncate(body_len);
                            proof {
                                assert(pkt@ =~= ct.take(body_len as int));
                                assert(pkt@.take(hlen as int) =~= ct.take(hlen as int));
                                lemma_header_len_prefix(ct, pkt@, hlen as int);
                                assert(be32_at(pkt@, 8) == be32_at(ct, 8)) by {
                                    assert(pkt@[8] == ct[8] && pkt@[9] == ct[9]
                                        && pkt@[10] == ct[10] && pkt@[11] == ct[11]);
                                }
                                assert(be32_at(ct, 8) == h.ssrc);
                                assert(_ptv@.len() == 0);
                                assert(_ptv@ =~= Seq::<u8>::empty());
                                assert(aad@ =~= pkt@);
                                assert(ctail@ == gcm_seal(ek, p.tag_len as nat,
                                    gcm_iv(sl, be32_at(pkt@, 8), i), pkt@, Seq::<u8>::empty()));
                                assert(spec_protect(p, ek, sl, ak, i, pkt@) ==
                                    pkt@ + gcm_seal(ek, p.tag_len as nat,
                                        gcm_iv(sl, be32_at(pkt@, 8), i), pkt@, Seq::<u8>::empty()));
                                assert(ct =~= pkt@ + ctail@);
                                assert(spec_protect(p, ek, sl, ak, i, pkt@) == ct);
                                assert(rtp_plain_matches(p, ek, sl, ak, i, ct, pkt@));
                                assert forall|orig: Seq<u8>|
                                    rtp_plain_matches(p, ek, sl, ak, i, ct, orig)
                                    implies orig == pkt@ by {
                                    lemma_gcm_auth_decompose(p, ek, sl, ak, i, ct, orig);
                                    assert(orig =~= pkt@);
                                }
                            }
                        },
                    }
                }
            },
            _ => {
                match p.auth {
                    AuthKind::HmacSha1 => {
                        let mut msg = sub_vec(pkt, 0, body_len);
                        proof {
                            assert(msg@ =~= ct.take(body_len as int));
                        }
                        push_be32(&mut msg, roc);
                        let tag = compute_hmac_tag(&self.rtp_keys.auth_key, &msg, p.tag_len);
                        let expected = sub_vec(pkt, body_len, p.tag_len);
                        proof {
                            assert(expected@ =~= ct.skip(body_len as int));
                        }
                        if !eq_bytes(&tag, &expected) {
                            proof {
                                assert(!rtp_auth_ok(p, ek, sl, ak, i, ct));
                                assert forall|orig: Seq<u8>|
                                    !rtp_plain_matches(p, ek, sl, ak, i, ct, orig) by {
                                    if rtp_plain_matches(p, ek, sl, ak, i, ct, orig) {
                                        lemma_non_gcm_decrypt(p, ek, sl, ak, i, ct, orig);
                                    }
                                }
                            }
                            return Err(ErrorStatus::AuthFail);
                        }
                        pkt.truncate(body_len);
                    },
                    AuthKind::Null => {
                        proof {
                            assert(p.tag_len == 0);
                            assert(pkt@ =~= ct.take(body_len as int));
                        }
                    },
                }
                match p.cipher {
                    CipherKind::AesCm => {
                        let m = pkt.len();
                        let plen2 = m - hlen;
                        let iv = build_rtp_iv(&self.rtp_keys.salt, h.ssrc, i);
                        let ks = gen_keystream(&self.rtp_keys.enc_key, &iv, plen2);
                        xor_range(pkt, hlen, &ks);
                    },
                    _ => {},
                }
                proof {
                    assert(pkt@ =~= spec_cm_plain(p, ek, sl, i, ct));
                    lemma_cm_plain_sound(p, ek, sl, ak, i, ct);
                    assert forall|orig: Seq<u8>|
                        rtp_plain_matches(p, ek, sl, ak, i, ct, orig)
                        implies orig == pkt@ by {
                        lemma_non_gcm_decrypt(p, ek, sl, ak, i, ct, orig);
                    }
                }
            },
        }

        self.rtp_window.add(i);
        if self.packets < 0xffff_ffff_ffff_ffff {
            self.packets = self.packets + 1;
        }
        let add_octets = (n - hlen) as u64;
        if add_octets <= 0xffff_ffff_ffff_ffff - self.octets {
            self.octets = self.octets + add_octets;
        } else {
            self.octets = 0xffff_ffff_ffff_ffff;
        }
        Ok(())
    }
}

/// All conditions under which `unprotect_rtp` succeeds on a stream with
/// these parameters and this replay window: the header parses, the packet
/// has room for the tag, the index estimate is representable and not a
/// replay, and the packet authenticates.
pub open spec fn unprotect_ok_cond(p: CryptoPolicy, ek: Seq<u8>, sl: Seq<u8>, ak: Seq<u8>, win: ReplayWindow, ct: Seq<u8>) -> bool {
    let i = est_index(win.latest, be16(ct[2], ct[3]));
    &&& parseable(ct)
    &&& ct.len() >= spec_header_len(ct) + p.tag_len
    &&& 0 <= i < MAX_INDEX
    &&& win.accepts(i)
    &&& rtp_auth_ok(p, ek, sl, ak, i as u64, ct)
}

/// A parseable packet's header fits inside it.
pub proof fn lemma_parseable_hlen(b: Seq<u8>)
    requires
        parseable(b),
    ensures
        12 <= spec_header_len(b) <= b.len(),
{
}

/// The plaintext that the null and counter-mode policies recover from a
/// ciphertext packet: the body with the tag removed, its payload unmasked.
pub open spec fn spec_cm_plain(p: CryptoPolicy, ek: Seq<u8>, sl: Seq<u8>, i: u64, ct: Seq<u8>) -> Seq<u8> {
    let hlen = spec_header_len(ct);
    let body = ct.take(ct.len() - p.tag_len);
    match p.cipher {
        CipherKind::AesCm => body.take(hlen) + xor_bytes(
            body.skip(hlen),
            keystream(ek, rtp_iv(sl, be32_at(ct, 8), i), (body.len() - hlen) as nat)),
        _ => body,
    }
}

/// Under the null and counter-mode ciphers, at most one plaintext protects
/// to a given ciphertext, and it is `spec_cm_plain`; a matching plaintext
/// also certifies the ciphertext's tag.
pub proof fn lemma_non_gcm_decrypt(p: CryptoPolicy, ek: Seq<u8>, sl: Seq<u8>, ak: Seq<u8>, i: u64, ct: Seq<u8>, orig: Seq<u8>)
    requires
        policy_wf(p),
        !(p.cipher is AesGcm),
        parseable(ct),
        ct.len() >= spec_header_len(ct) + p.tag_len,
        rtp_plain_matches(p, ek, sl, ak, i, ct, orig),
    ensures
        rtp_auth_ok(p, ek, sl, ak, i, ct),
        orig == spec_cm_plain(p, ek, sl, i, ct),
{
    lemma_parseable_hlen(ct);
    let hlen = spec_header_len(ct);
    let body_len = ct.len() - p.tag_len;
    lemma_header_len_prefix(ct, orig, hlen);
    assert(be32_at(orig, 8) == be32_at(ct, 8)) by {
        assert(orig.take(hlen)[8] == ct.take(hlen)[8]);
        assert(orig.take(hlen)[9] == ct.take(hlen)[9]);
        assert(orig.take(hlen)[10] == ct.take(hlen)[10]);
        assert(orig.take(hlen)[11] == ct.take(hlen)[11]);
    }
    let ssrc = be32_at(ct, 8);
    match p.cipher {
        CipherKind::Null => {
            match p.auth {
                AuthKind::Null => {
                    assert(orig == ct);
                    assert(spec_cm_plain(p, ek, sl, i, ct) =~= ct);
                },
                AuthKind::HmacSha1 => {
                    assert(ct == orig + hmac_tag(ak, tag_input(orig, roc_of(i)), p.tag_len as nat));
                    assert(ct.take(body_len as int) =~= orig);
                    assert(ct.skip(body_len as int) =~=
                        hmac_tag(ak, tag_input(orig, roc_of(i)), p.tag_len as nat));
                    assert(spec_cm_plain(p, ek, sl, i, ct) == orig);
                },
            }
        },
        CipherKind::AesCm => {
            let ks = keystream(ek, rtp_iv(sl, ssrc, i), (orig.len() - hlen) as nat);
            let enc_body = orig.take(hlen) + xor_bytes(orig.skip(hlen), ks);
            assert(enc_body.len() == orig.len());
            match p.auth {
                AuthKind::Null => {
                    assert(ct == enc_body);
                    assert(ct.take(body_len as int) =~= enc_body);
                },
                AuthKind::HmacSha1 => {
                    assert(ct == enc_body + hmac_tag(ak, tag_input(enc_body, roc_of(i)), p.tag_len as nat));
                    assert(ct.take(body_len as int) =~= enc_body);
                    assert(ct.skip(body_len as int) =~=
                        hmac_tag(ak, tag_input(enc_body, roc_of(i)), p.tag_len as nat));
                },
            }
            let body = ct.take(body_len as int);
            assert(body.take(hlen) =~= orig.take(hlen));
            assert(body.skip(hlen) =~= xor_bytes(orig.skip(hlen), ks));
            lemma_xor_involution(orig.skip(hlen), ks);
            assert(spec_cm_plain(p, ek, sl, i, ct) =~= orig);
        },
        CipherKind::AesGcm => {},
    }
}

/// A matching plaintext also restores the ciphertext, so the null and
/// counter-mode unprotect body computes exactly `spec_cm_plain`.
proof fn lemma_cm_plain_sound(p: CryptoPolicy, ek: Seq<u8>, sl: Seq<u8>, ak: Seq<u8>, i: u64, ct: Seq<u8>)
    requires
        policy_wf(p),
        !(p.cipher is AesGcm),
        parseable(ct),
        ct.len() >= spec_header_len(ct) + p.tag_len,
        rtp_auth_ok(p, ek, sl, ak, i, ct),
    ensures
        rtp_plain_matches(p, ek, sl, ak, i, ct, spec_cm_plain(p, ek, sl, i, ct)),
{
    lemma_parseable_hlen(ct);
    let hlen = spec_header_len(ct);
    let body_len = ct.len() - p.tag_len;
    let body = ct.take(body_len as int);
    let pt = spec_cm_plain(p, ek, sl, i, ct);
    match p.cipher {
        CipherKind::Null => {
            assert(pt == body);
            assert(pt.take(hlen) =~= ct.take(hlen));
            match p.auth {
                AuthKind::Null => {
                    assert(ct =~= pt);
                    assert(spec_protect(p, ek, sl, ak, i, pt) == pt);
                },
                AuthKind::HmacSha1 => {
                    assert(spec_protect(p, ek, sl, ak, i, pt) ==
                        pt + hmac_tag(ak, tag_input(pt, roc_of(i)), p.tag_len as nat));
                    assert(ct =~= pt + ct.skip(body_len as int));
                    assert(spec_protect(p, ek, sl, ak, i, pt) =~= ct);
                },
            }
        },
        CipherKind::AesCm => {
            let ssrc = be32_at(ct, 8);
            let ks = keystream(ek, rtp_iv(sl, ssrc, i), (body.len() - hlen) as nat);
            assert(pt == body.take(hlen) + xor_bytes(body.skip(hlen), ks));
            assert(pt.len() == body.len());
            assert(pt.take(hlen) =~= ct.take(hlen));
            lemma_header_len_prefix(ct, pt, hlen);
            assert(be32_at(pt, 8) == ssrc) by {
                assert(pt.take(hlen)[8] == ct.take(hlen)[8]);
                assert(pt.take(hlen)[9] == ct.take(hlen)[9]);
                assert(pt.take(hlen)[10] == ct.take(hlen)[10]);
                assert(pt.take(hlen)[11] == ct.take(hlen)[11]);
            }
            assert(pt.skip(hlen) =~= xor_bytes(body.skip(hlen), ks));
            lemma_xor_involution(body.skip(hlen), ks);
            let enc_body = pt.take(hlen) + xor_bytes(pt.skip(hlen), ks);
            assert(enc_body =~= body);
            match p.auth {
                AuthKind::Null => {
                    assert(spec_protect(p, ek, sl, ak, i, pt) =~= ct);
                },
                AuthKind::HmacSha1 => {
                    assert(spec_protect(p, ek, sl, ak, i, pt) ==
                        enc_body + hmac_tag(ak, tag_input(enc_body, roc_of(i)), p.tag_len as nat));
                    assert(spec_protect(p, ek, sl, ak, i, pt) =~= ct);
                },
            }
        },
        CipherKind::AesGcm => {},
    }
}

/// Decomposes a confidential AES-GCM match: the plaintext shares the
/// header and its payload seals to exactly the ciphertext's tail.
proof fn lemma_gcm_conf_decompose(p: CryptoPolicy, ek: Seq<u8>, sl: Seq<u8>, ak: Seq<u8>, i: u64, ct: Seq<u8>, orig: Seq<u8>)
    requires
        policy_wf(p),
        p.cipher is AesGcm,
        p.conf,
        parseable(ct),
        ct.len() >= spec_header_len(ct) + p.tag_len,
        rtp_plain_matches(p, ek, sl, ak, i, ct, orig),
    ensures
        ct.skip(spec_header_len(ct)) == gcm_seal(ek, p.tag_len as nat,
            gcm_iv(sl, be32_at(ct, 8), i), ct.take(spec_header_len(ct)),
            orig.skip(spec_header_len(ct))),
        orig.take(spec_header_len(ct)) == ct.take(spec_header_len(ct)),
        orig.len() == ct.len() - p.tag_len,
{
    lemma_parseable_hlen(ct);
    let hlen = spec_header_len(ct);
    lemma_header_len_prefix(ct, orig, hlen);
    assert(be32_at(orig, 8) == be32_at(ct, 8)) by {
        assert(orig.take(hlen)[8] == ct.take(hlen)[8]);
        assert(orig.take(hlen)[9] == ct.take(hlen)[9]);
        assert(orig.take(hlen)[10] == ct.take(hlen)[10]);
        assert(orig.take(hlen)[11] == ct.take(hlen)[11]);
    }
    assert(orig.take(hlen) =~= ct.take(hlen));
    let sealed = gcm_seal(ek, p.tag_len as nat, gcm_iv(sl, be32_at(ct, 8), i),
        orig.take(hlen), orig.skip(hlen));
    assert(ct == orig.take(hlen) + sealed);
    assert(ct.skip(hlen) =~= sealed);
}

/// Decomposes an authentication-only AES-GCM match: the plaintext is the
/// ciphertext minus its tag, and the tag seals the plaintext as
/// associated data with an empty payload.
proof fn lemma_gcm_auth_decompose(p: CryptoPolicy, ek: Seq<u8>, sl: Seq<u8>, ak: Seq<u8>, i: u64, ct: Seq<u8>, orig: Seq<u8>)
    requires
        policy_wf(p),
        p.cipher is AesGcm,
        !p.conf,
        parseable(ct),
        ct.len() >= spec_header_len(ct) + p.tag_len,
        rtp_plain_matches(p, ek, sl, ak, i, ct, orig),
    ensures
        orig == ct.take(ct.len() - p.tag_len),
        ct.skip(ct.len() - p.tag_len) == gcm_seal(ek, p.tag_len as nat,
            gcm_iv(sl, be32_at(ct, 8), i), ct.take(ct.len() - p.tag_len),
            Seq::<u8>::empty()),
{
    lemma_parseable_hlen(ct);
    let hlen = spec_header_len(ct);
    lemma_header_len_prefix(ct, orig, hlen);
    assert(be32_at(orig, 8) == be32_at(ct, 8)) by {
        assert(orig.take(hlen)[8] == ct.take(hlen)[8]);
        assert(orig.take(hlen)[9] == ct.take(hlen)[9]);
        assert(orig.take(hlen)[10] == ct.take(hlen)[10]);
        assert(orig.take(hlen)[11] == ct.take(hlen)[11]);
    }
    let sealed = gcm_seal(ek, p.tag_len as nat, gcm_iv(sl, be32_at(orig, 8), i),
        orig, Seq::<u8>::empty());
    assert(ct == orig + sealed);
    assert(orig =~= ct.take(ct.len() - p.tag_len));
    assert(ct.skip(ct.len() - p.tag_len) =~= sealed);
}

/// Law: protecting a parseable packet and then removing the protection
/// restores the original bytes exactly, under the null and counter-mode
/// policies. (For AES-GCM the same round trip follows from the seal/open
/// contracts, checked at every verified call site of protect/unprotect.)
pub proof fn lemma_rtp_round_trip(p: CryptoPolicy, ek: Seq<u8>, sl: Seq<u8>, ak: Seq<u8>, i: u64, pkt: Seq<u8>)
    requires
        policy_wf(p),
        !(p.cipher is AesGcm),
        parseable(pkt),
    ensures
        rtp_plain_matches(p, ek, sl, ak, i, spec_protect(p, ek, sl, ak, i, pkt), pkt),
        spec_cm_plain(p, ek, sl, i, spec_protect(p, ek, sl, ak, i, pkt)) == pkt,
{
    lemma_parseable_hlen(pkt);
    let hlen = spec_header_len(pkt);
    let ct = spec_protect(p, ek, sl, ak, i, pkt);
    assert(ct.take(hlen) =~= pkt.take(hlen)) by {
        match p.cipher {
            CipherKind::Null => {},
            CipherKind::AesCm => {},
            CipherKind::AesGcm => {},
        }
    }
    assert(ct.len() == pkt.len() + p.tag_len);
    lemma_header_len_prefix(pkt, ct, hlen);
    assert(rtp_plain_matches(p, ek, sl, ak, i, ct, pkt));
    lemma_non_gcm_decrypt(p, ek, sl, ak, i, ct, pkt);
}

/// Law: a policy with the null cipher and no authenticator leaves the
/// packet bytes exactly as they were.
pub proof fn lemma_null_policy_identity(p: CryptoPolicy, ek: Seq<u8>, sl: Seq<u8>, ak: Seq<u8>, i: u64, pkt: Seq<u8>)
    requires
        p.cipher is Null,
        p.auth is Null,
    ensures
        spec_protect(p, ek, sl, ak, i, pkt) == pkt,
{
}

/// Law: under the null and counter-mode policies the protected packet is
/// longer than the input by exactly the tag length, so any policy that
/// appends a tag never returns its input unchanged. (AES-GCM always
/// appends a tag; its length ensures the same at every call site of
/// `protect_rtp`.)
pub proof fn lemma_protect_len(p: CryptoPolicy, ek: Seq<u8>, sl: Seq<u8>, ak: Seq<u8>, i: u64, pkt: Seq<u8>)
    requires
        policy_wf(p),
        !(p.cipher is AesGcm),
        parseable(pkt),
    ensures
        spec_protect(p, ek, sl, ak, i, pkt).len() == pkt.len() + p.tag_len,
        p.tag_len > 0 ==> spec_protect(p, ek, sl, ak, i, pkt) != pkt,
{
    lemma_parseable_hlen(pkt);
}

} // verus!
