//! Sessions: a collection of per-SSRC stream contexts, packet routing by
//! SSRC, and wildcard ("any") streams that bind to an SSRC on first use.

use vstd::prelude::*;
use crate::bytes::{be16, be32_at};
use crate::errors::ErrorStatus;
use crate::header::{parseable, spec_header_len, parse_header};
use crate::policy::{CryptoPolicy, policy_wf};
use crate::replay::{est_index, MAX_INDEX};
use crate::stream::{StreamContext, stream_wf, same_stream_identity, spec_protect, rtp_plain_matches, unprotect_ok_cond, MAX_PKT};
use crate::rtcp::{spec_protect_rtcp, rtcp_plain_matches, rtcp_index_of, rtcp_unprotect_ok_cond};

verus! {

/// How a stream binds to an SSRC at creation.
#[derive(Clone, Copy, Debug, PartialEq, Eq, Structural)]
pub enum SsrcBinding {
    /// Exactly this SSRC, for both directions.
    Specific,
    /// Any inbound SSRC: a context is created on demand for each SSRC that
    /// arrives, and the wildcard stays available.
    AnyInbound,
    /// Any outbound SSRC: the wildcard is promoted to the first SSRC sent.
    AnyOutbound,
}

/// The first index holding a stream for `ssrc`, or -1.
pub open spec fn spec_find(streams: Seq<StreamContext>, ssrc: u32) -> int
    decreases streams.len(),
{
    if streams.len() == 0 {
        -1
    } else if streams[0].ssrc == ssrc {
        0
    } else {
        let r = spec_find(streams.drop_first(), ssrc);
        if r < 0 { -1 } else { r + 1 }
    }
}

pub proof fn lemma_spec_find(streams: Seq<StreamContext>, ssrc: u32)
    ensures
        -1 <= spec_find(streams, ssrc) < streams.len(),
        spec_find(streams, ssrc) >= 0 ==> streams[spec_find(streams, ssrc)].ssrc == ssrc
            && (forall|j: int| 0 <= j < spec_find(streams, ssrc) ==> streams[j].ssrc != ssrc),
        spec_find(streams, ssrc) == -1 ==> (forall|j: int| 0 <= j < streams.len()
            ==> streams[j].ssrc != ssrc),
    decreases streams.len(),
{
    if streams.len() > 0 && streams[0].ssrc != ssrc {
        lemma_spec_find(streams.drop_first(), ssrc);
        assert(forall|j: int| 1 <= j < streams.len()
            ==> streams[j] == streams.drop_first()[j - 1]);
    }
}

/// A session owns zero or more per-SSRC stream contexts and at most one
/// wildcard template per direction; at most one context exists per SSRC.
pub struct Session {
    pub streams: Vec<StreamContext>,
    pub inbound_template: Option<StreamContext>,
    pub outbound_template: Option<StreamContext>,
}

/// Session invariant: every stream is well formed and SSRCs are unique.
pub open spec fn session_wf(s: Session) -> bool {
    &&& (forall|k: int| 0 <= k < s.streams@.len() ==> stream_wf(#[trigger] s.streams@[k]))
    &&& (forall|k1: int, k2: int| 0 <= k1 < k2 < s.streams@.len()
        ==> (#[trigger] s.streams@[k1]).ssrc != (#[trigger] s.streams@[k2]).ssrc)
    &&& (s.inbound_template matches Some(t) ==> stream_wf(t))
    &&& (s.outbound_template matches Some(t) ==> stream_wf(t))
}

impl Session {
    /// Creates a session with one stream description, as the underlying
    /// engine API does: a specific-SSRC stream serves both directions; a
    /// wildcard is kept as a template and bound on first use. Fails with
    /// `BadParam` exactly when the master key material is too short for
    /// the policies.
    pub fn create(policy_rtp: &CryptoPolicy, policy_rtcp: &CryptoPolicy, master: &Vec<u8>, binding: SsrcBinding, ssrc: u32) -> (r: Result<Session, ErrorStatus>)
        requires
            policy_wf(*policy_rtp),
            policy_wf(*policy_rtcp),
        ensures
            r matches Ok(s) ==> session_wf(s),
            r is Ok <==> master@.len() >= crate::policy::spec_master_len(*policy_rtp)
                && master@.len() >= crate::policy::spec_master_len(*policy_rtcp),
            r matches Err(e) ==> e == ErrorStatus::BadParam,
            r matches Ok(s) ==> match binding {
                SsrcBinding::Specific => s.streams@.len() == 1 && s.streams@[0].ssrc == ssrc
                    && s.inbound_template is None && s.outbound_template is None,
                SsrcBinding::AnyInbound => s.streams@.len() == 0
                    && s.inbound_template is Some && s.outbound_template is None,
                SsrcBinding::AnyOutbound => s.streams@.len() == 0
                    && s.inbound_template is None && s.outbound_template is Some,
            },
    {
        let st = match StreamContext::create(ssrc, policy_rtp, policy_rtcp, master) {
            Ok(st) => st,
            Err(e) => {
                return Err(e);
            },
        };
        let mut s = Session { streams: Vec::new(), inbound_template: None, outbound_template: None };
        match binding {
            SsrcBinding::Specific => {
                s.streams.push(st);
            },
            SsrcBinding::AnyInbound => {
                s.inbound_template = Some(st);
            },
            SsrcBinding::AnyOutbound => {
                s.outbound_template = Some(st);
            },
        }
        Ok(s)
    }

    /// Finds the stream bound to `ssrc`.
    fn find_idx(&self, ssrc: u32) -> (r: Option<usize>)
        ensures
            r matches Some(k) ==> k == spec_find(self.streams@, ssrc),
            r is Some <==> spec_find(self.streams@, ssrc) >= 0,
            r is None <==> spec_find(self.streams@, ssrc) == -1,
    {
        proof {
            lemma_spec_find(self.streams@, ssrc);
        }
        let n = self.streams.len();
        let mut k: usize = 0;
        while k < n
            invariant
                0 <= k <= n == self.streams@.len(),
                forall|j: int| 0 <= j < k ==> (#[trigger] self.streams@[j]).ssrc != ssrc,
            decreases n - k,
        {
            if self.streams[k].ssrc == ssrc {
                proof {
                    lemma_spec_find(self.streams@, ssrc);
                }
                return Some(k);
            }
            k += 1;
        }
        None
    }

    /// Protects one RTP packet in place for transmission: routes it by the
    /// SSRC in its header to the stream bound to that SSRC, or promotes
    /// the outbound wildcard to that SSRC on first use. On success the
    /// packet grows by exactly the stream policy's tag length and holds
    /// the protect transform of its old bytes; on failure nothing changes.
    pub fn protect(&mut self, pkt: &mut Vec<u8>) -> (r: Result<(), ErrorStatus>)
        requires
            session_wf(*old(self)),
            old(pkt)@.len() <= MAX_PKT,
        ensures
            session_wf(*final(self)),
            r is Err ==> final(pkt)@ == old(pkt)@
                && final(self).streams@.len() == old(self).streams@.len(),
            r == Err::<(), ErrorStatus>(ErrorStatus::BadParam) <==> !parseable(old(pkt)@),
            ({
                let ct = old(pkt)@;
                let ssrc = be32_at(ct, 8);
                let k = spec_find(old(self).streams@, ssrc);
                let routed = k >= 0 || old(self).outbound_template is Some;
                &&& (r == Err::<(), ErrorStatus>(ErrorStatus::NoCtx) <==> parseable(ct) && !routed)
                &&& (k >= 0 ==> {
                    let st = old(self).streams@[k];
                    let i = est_index(st.rtp_window.latest, be16(ct[2], ct[3]));
                    &&& (r is Ok <==> parseable(ct) && 0 <= i < MAX_INDEX)
                    &&& (r is Ok ==> {
                        &&& final(pkt)@ == spec_protect(st.policy_rtp, st.rtp_keys.enc_key@,
                                st.rtp_keys.salt@, st.rtp_keys.auth_key@, i as u64, ct)
                        &&& final(pkt)@.len() == ct.len() + st.policy_rtp.tag_len
                        &&& final(self).streams@.len() == old(self).streams@.len()
                        &&& same_stream_identity(final(self).streams@[k], st)
                        &&& (forall|j: int| 0 <= j < old(self).streams@.len() && j != k
                                ==> final(self).streams@[j] == old(self).streams@[j])
                    })
                })
                &&& (k < 0 ==> (old(self).outbound_template matches Some(t) ==> {
                    let i = est_index(0, be16(ct[2], ct[3]));
                    &&& (r is Ok <==> parseable(ct) && 0 <= i < MAX_INDEX)
                    &&& (r is Ok ==> {
                        &&& final(pkt)@ == spec_protect(t.policy_rtp, t.rtp_keys.enc_key@,
                                t.rtp_keys.salt@, t.rtp_keys.auth_key@, i as u64, ct)
                        &&& final(pkt)@.len() == ct.len() + t.policy_rtp.tag_len
                        &&& final(self).streams@.len() == old(self).streams@.len() + 1
                        &&& final(self).streams@.last().ssrc == ssrc
                        &&& final(self).outbound_template is None
                    })
                }))
            }),
    {
        let (h, _hlen) = match parse_header(pkt) {
            Ok(x) => x,
            Err(e) => {
                return Err(e);
            },
        };
        proof {
            lemma_spec_find(self.streams@, h.ssrc);
        }
        match self.find_idx(h.ssrc) {
            Some(k) => {
                let mut st = self.streams.remove(k);
                let r = st.protect_rtp(pkt);
                self.streams.insert(k, st);
                proof {
                    assert(self.streams@ =~= old(self).streams@.update(k as int, st));
                }
                r
            },
            None => {
                let spawned = match &self.outbound_template {
                    Some(t) => Some(t.spawn_for(h.ssrc)),
                    None => None,
                };
                match spawned {
                    Some(mut st) => {
                        let r = st.protect_rtp(pkt);
                        match r {
                            Ok(()) => {
                                self.streams.push(st);
                                self.outbound_template = None;
                                proof {
                                    assert(forall|j: int| 0 <= j < old(self).streams@.len()
                                        ==> self.streams@[j] == old(self).streams@[j]);
                                }
                                Ok(())
                            },
                            Err(e) => Err(e),
                        }
                    },
                    None => Err(ErrorStatus::NoCtx),
                }
            },
        }
    }

    /// Removes the protection from one received RTP packet in place:
    /// routes it by SSRC, creating a context from the inbound wildcard on
    /// demand (the wildcard stays for further SSRCs). Replay and
    /// authentication failures reject the packet and change nothing; the
    /// new context from a wildcard is kept only when the packet fully
    /// validates. On success the packet shrinks by exactly the tag length
    /// and holds a plaintext whose protection is the old bytes.
    pub fn unprotect(&mut self, pkt: &mut Vec<u8>) -> (r: Result<(), ErrorStatus>)
        requires
            session_wf(*old(self)),
            old(pkt)@.len() <= MAX_PKT,
        ensures
            session_wf(*final(self)),
            r is Err ==> final(pkt)@ == old(pkt)@
                && final(self).streams@.len() == old(self).streams@.len(),
            ({
                let ct = old(pkt)@;
                let ssrc = be32_at(ct, 8);
                let k = spec_find(old(self).streams@, ssrc);
                let routed = k >= 0 || old(self).inbound_template is Some;
                &&& (r == Err::<(), ErrorStatus>(ErrorStatus::NoCtx) <==>
                        (parseable(ct) && !routed))
                &&& (!parseable(ct) ==> r == Err::<(), ErrorStatus>(ErrorStatus::BadParam))
                &&& (k >= 0 ==> {
                    let st = old(self).streams@[k];
                    let i = est_index(st.rtp_window.latest, be16(ct[2], ct[3]));
                    &&& (r is Ok <==> unprotect_ok_cond(st.policy_rtp, st.rtp_keys.enc_key@,
                            st.rtp_keys.salt@, st.rtp_keys.auth_key@, st.rtp_window, ct))
                    &&& (r is Ok ==> {
                        &&& rtp_plain_matches(st.policy_rtp, st.rtp_keys.enc_key@,
                                st.rtp_keys.salt@, st.rtp_keys.auth_key@, i as u64, ct, final(pkt)@)
                        &&& final(self).streams@.len() == old(self).streams@.len()
                        &&& same_stream_identity(final(self).streams@[k], st)
                        &&& (forall|j: int| 0 <= j < old(self).streams@.len() && j != k
                                ==> final(self).streams@[j] == old(self).streams@[j])
                    })
                })
                &&& (k < 0 ==> (old(self).inbound_template matches Some(t) ==> {
                    let i = est_index(0, be16(ct[2], ct[3]));
                    &&& (r is Ok <==> unprotect_ok_cond(t.policy_rtp, t.rtp_keys.enc_key@,
                            t.rtp_keys.salt@, t.rtp_keys.auth_key@,
                            crate::replay::ReplayWindow { latest: 0, mask: 0 }, ct))
                    &&& (r is Ok ==> {
                        &&& rtp_plain_matches(t.policy_rtp, t.rtp_keys.enc_key@,
                                t.rtp_keys.salt@, t.rtp_keys.auth_key@, i as u64, ct, final(pkt)@)
                        &&& final(self).streams@.len() == old(self).streams@.len() + 1
                        &&& final(self).streams@.last().ssrc == ssrc
                        &&& final(self).inbound_template is Some
                    })
                }))
            }),
    {
        let (h, _hlen) = match parse_header(pkt) {
            Ok(x) => x,
            Err(e) => {
                return Err(e);
            },
        };
        proof {
            lemma_spec_find(self.streams@, h.ssrc);
        }
        match self.find_idx(h.ssrc) {
            Some(k) => {
                let mut st = self.streams.remove(k);
                let r = st.unprotect_rtp(pkt);
                self.streams.insert(k, st);
                proof {
                    assert(self.streams@ =~= old(self).streams@.update(k as int, st));
                }
                r
            },
            None => {
                let spawned = match &self.inbound_template {
                    Some(t) => Some(t.spawn_for(h.ssrc)),
                    None => None,
                };
                match spawned {
                    Some(mut st) => {
                        proof {
                            assert(st.rtp_window == (crate::replay::ReplayWindow { latest: 0, mask: 0 }));
                        }
                        let r = st.unprotect_rtp(pkt);
                        match r {
                            Ok(()) => {
                                self.streams.push(st);
                                proof {
                                    assert(forall|j: int| 0 <= j < old(self).streams@.len()
                                        ==> self.streams@[j] == old(self).streams@[j]);
                                }
                                Ok(())
                            },
                            Err(e) => Err(e),
                        }
                    },
                    None => Err(ErrorStatus::NoCtx),
                }
            },
        }
    }

    /// Protects one RTCP packet in place: routes it by the SSRC in its
    /// control header to the stream bound to that SSRC, or promotes the
    /// outbound wildcard, then applies the stream's RTCP protect
    /// transform at its next 31-bit index.
    pub fn protect_rtcp(&mut self, pkt: &mut Vec<u8>) -> (r: Result<(), ErrorStatus>)
        requires
            session_wf(*old(self)),
            old(pkt)@.len() <= MAX_PKT,
        ensures
            session_wf(*final(self)),
            r is Err ==> final(pkt)@ == old(pkt)@
                && final(self).streams@.len() == old(self).streams@.len(),
            r == Err::<(), ErrorStatus>(ErrorStatus::BadParam) <==> old(pkt)@.len() < 8,
            ({
                let ct = old(pkt)@;
                let ssrc = be32_at(ct, 4);
                let k = spec_find(old(self).streams@, ssrc);
                let routed = k >= 0 || old(self).outbound_template is Some;
                &&& (r == Err::<(), ErrorStatus>(ErrorStatus::NoCtx) <==>
                        ct.len() >= 8 && !routed)
                &&& (k >= 0 ==> {
                    let st = old(self).streams@[k];
                    &&& (r is Ok <==> ct.len() >= 8 && st.rtcp_index < crate::rtcp::MAX_RTCP_INDEX)
                    &&& (r is Ok ==> {
                        &&& final(pkt)@ == spec_protect_rtcp(st.policy_rtcp,
                                st.rtcp_keys.enc_key@, st.rtcp_keys.salt@,
                                st.rtcp_keys.auth_key@, st.rtcp_index, ct)
                        &&& final(pkt)@.len() == ct.len() + 4 + st.policy_rtcp.tag_len
                        &&& final(self).streams@.len() == old(self).streams@.len()
                        &&& same_stream_identity(final(self).streams@[k], st)
                        &&& final(self).streams@[k].rtcp_index == st.rtcp_index + 1
                        &&& (forall|j: int| 0 <= j < old(self).streams@.len() && j != k
                                ==> final(self).streams@[j] == old(self).streams@[j])
                    })
                })
                &&& (k < 0 ==> (old(self).outbound_template matches Some(t) ==> {
                    &&& (r is Ok <==> ct.len() >= 8)
                    &&& (r is Ok ==> {
                        &&& final(pkt)@ == spec_protect_rtcp(t.policy_rtcp,
                                t.rtcp_keys.enc_key@, t.rtcp_keys.salt@,
                                t.rtcp_keys.auth_key@, 0, ct)
                        &&& final(pkt)@.len() == ct.len() + 4 + t.policy_rtcp.tag_len
                        &&& final(self).streams@.len() == old(self).streams@.len() + 1
                        &&& final(self).streams@.last().ssrc == ssrc
                        &&& final(self).outbound_template is None
                    })
                }))
            }),
    {
        if pkt.len() < 8 {
            return Err(ErrorStatus::BadParam);
        }
        let ssrc = crate::bytes::read_be32(pkt, 4);
        proof {
            lemma_spec_find(self.streams@, ssrc);
        }
        match self.find_idx(ssrc) {
            Some(k) => {
                let mut st = self.streams.remove(k);
                let r = st.protect_rtcp(pkt);
                self.streams.insert(k, st);
                proof {
                    assert(self.streams@ =~= old(self).streams@.update(k as int, st));
                }
                r
            },
            None => {
                let spawned = match &self.outbound_template {
                    Some(t) => Some(t.spawn_for(ssrc)),
                    None => None,
                };
                match spawned {
                    Some(mut st) => {
                        let r = st.protect_rtcp(pkt);
                        match r {
                            Ok(()) => {
                                self.streams.push(st);
                                self.outbound_template = None;
                                proof {
                                    assert(forall|j: int| 0 <= j < old(self).streams@.len()
                                        ==> self.streams@[j] == old(self).streams@[j]);
                                }
                                Ok(())
                            },
                            Err(e) => Err(e),
                        }
                    },
                    None => Err(ErrorStatus::NoCtx),
                }
            },
        }
    }

    /// Removes the protection from one received RTCP packet in place,
    /// routing by SSRC and creating a context from the inbound wildcard
    /// on demand; the context is kept only when the packet validates.
    pub fn unprotect_rtcp(&mut self, pkt: &mut Vec<u8>) -> (r: Result<(), ErrorStatus>)
        requires
            session_wf(*old(self)),
            old(pkt)@.len() <= MAX_PKT,
        ensures
            session_wf(*final(self)),
            r is Err ==> final(pkt)@ == old(pkt)@
                && final(self).streams@.len() == old(self).streams@.len(),
            ({
                let ct = old(pkt)@;
                let ssrc = be32_at(ct, 4);
                let k = spec_find(old(self).streams@, ssrc);
                let routed = k >= 0 || old(self).inbound_template is Some;
                &&& (ct.len() < 8 ==> r == Err::<(), ErrorStatus>(ErrorStatus::BadParam))
                &&& (r == Err::<(), ErrorStatus>(ErrorStatus::NoCtx) <==>
                        ct.len() >= 8 && !routed)
                &&& (k >= 0 ==> {
                    let st = old(self).streams@[k];
                    &&& (r is Ok <==> rtcp_unprotect_ok_cond(st.policy_rtcp,
                            st.rtcp_keys.enc_key@, st.rtcp_keys.salt@,
                            st.rtcp_keys.auth_key@, st.rtcp_window, ct))
                    &&& (r is Ok ==> {
                        &&& rtcp_plain_matches(st.policy_rtcp, st.rtcp_keys.enc_key@,
                                st.rtcp_keys.salt@, st.rtcp_keys.auth_key@,
                                rtcp_index_of(st.policy_rtcp, ct), ct, final(pkt)@)
                        &&& final(self).streams@.len() == old(self).streams@.len()
                        &&& same_stream_identity(final(self).streams@[k], st)
                        &&& (forall|j: int| 0 <= j < old(self).streams@.len() && j != k
                                ==> final(self).streams@[j] == old(self).streams@[j])
                    })
                })
                &&& (k < 0 ==> (old(self).inbound_template matches Some(t) ==> {
                    &&& (r is Ok <==> rtcp_unprotect_ok_cond(t.policy_rtcp,
                            t.rtcp_keys.enc_key@, t.rtcp_keys.salt@, t.rtcp_keys.auth_key@,
                            crate::replay::ReplayWindow { latest: 0, mask: 0 }, ct))
                    &&& (r is Ok ==> {
                        &&& rtcp_plain_matches(t.policy_rtcp, t.rtcp_keys.enc_key@,
                                t.rtcp_keys.salt@, t.rtcp_keys.auth_key@,
                                rtcp_index_of(t.policy_rtcp, ct), ct, final(pkt)@)
                        &&& final(self).streams@.len() == old(self).streams@.len() + 1
                        &&& final(self).streams@.last().ssrc == ssrc
                        &&& final(self).inbound_template is Some
                    })
                }))
            }),
    {
        if pkt.len() < 8 {
            return Err(ErrorStatus::BadParam);
        }
        let ssrc = crate::bytes::read_be32(pkt, 4);
        proof {
            lemma_spec_find(self.streams@, ssrc);
        }
        match self.find_idx(ssrc) {
            Some(k) => {
                let mut st = self.streams.remove(k);
                let r = st.unprotect_rtcp(pkt);
                self.streams.insert(k, st);
                proof {
                    assert(self.streams@ =~= old(self).streams@.update(k as int, st));
                }
                r
            },
            None => {
                let spawned = match &self.inbound_template {
                    Some(t) => Some(t.spawn_for(ssrc)),
                    None => None,
                };
                match spawned {
                    Some(mut st) => {
                        proof {
                            assert(st.rtcp_window == (crate::replay::ReplayWindow { latest: 0, mask: 0 }));
                        }
                        let r = st.unprotect_rtcp(pkt);
                        match r {
                            Ok(()) => {
                                self.streams.push(st);
                                proof {
                                    assert(forall|j: int| 0 <= j < old(self).streams@.len()
                                        ==> self.streams@[j] == old(self).streams@[j]);
                                }
                                Ok(())
                            },
                            Err(e) => Err(e),
                        }
                    },
                    None => Err(ErrorStatus::NoCtx),
                }
            },
        }
    }
}

} // verus!
