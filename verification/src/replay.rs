//! Replay protection: a sliding 64-entry bitmask over packet indices, and
//! the rollover-aware estimation that widens a 16-bit sequence number to a
//! 48-bit packet index.

use vstd::prelude::*;
use crate::errors::ErrorStatus;

verus! {

/// Packet indices are 48 bits: a 32-bit rollover counter over a 16-bit
/// sequence number.
pub const MAX_INDEX: u64 = 0x1_0000_0000_0000;

/// The sliding replay window. `latest` is the highest index accepted so
/// far; bit `k` of `mask` says whether index `latest - k` was accepted.
/// A fresh window has `latest == 0` and an empty mask, so no index counts
/// as seen.
#[derive(Clone, Copy, Debug)]
pub struct ReplayWindow {
    pub latest: u64,
    pub mask: u64,
}

impl ReplayWindow {
    /// Whether index `i` was already accepted.
    pub open spec fn seen(self, i: int) -> bool {
        &&& 0 <= i <= self.latest
        &&& self.latest - i < 64
        &&& ((self.mask >> ((self.latest - i) as u64)) & 1u64) == 1u64
    }

    /// Whether the replay check admits index `i`: not yet seen and not
    /// older than the window's lower edge.
    pub open spec fn accepts(self, i: int) -> bool {
        &&& 0 <= i
        &&& !self.seen(i)
        &&& i + 64 > self.latest
    }

    /// A fresh window: nothing seen.
    pub fn new() -> (r: ReplayWindow)
        ensures
            r.latest == 0,
            r.mask == 0,
            forall|j: int| !r.seen(j),
    {
        let r = ReplayWindow { latest: 0, mask: 0 };
        proof {
            assert forall|j: int| !r.seen(j) by {
                if j == 0 {
                    assert((0u64 >> 0u64) & 1u64 == 0u64) by (bit_vector);
                }
            }
        }
        r
    }

    /// The replay check: admits an index exactly when it is neither seen
    /// nor older than the window; distinguishes the two failures.
    pub fn check(&self, i: u64) -> (r: Result<(), ErrorStatus>)
        ensures
            r is Ok <==> self.accepts(i as int),
            r == Err::<(), ErrorStatus>(ErrorStatus::ReplayOld) <==> i + 64 <= self.latest,
            r == Err::<(), ErrorStatus>(ErrorStatus::ReplayFail) <==> self.seen(i as int),
    {
        if i > self.latest {
            Ok(())
        } else {
            let d = self.latest - i;
            if d >= 64 {
                Err(ErrorStatus::ReplayOld)
            } else if (self.mask >> d) & 1 == 1 {
                Err(ErrorStatus::ReplayFail)
            } else {
                Ok(())
            }
        }
    }

    /// Marks index `i` as seen, sliding the window forward if `i` is newer
    /// than everything seen so far. Entries that fall more than the window
    /// width behind the new latest index are forgotten (and the replay
    /// check will reject them as too old).
    pub fn add(&mut self, i: u64)
        requires
            old(self).accepts(i as int),
            i < MAX_INDEX,
        ensures
            final(self).latest == (if i > old(self).latest { i } else { old(self).latest }),
            forall|j: int| final(self).seen(j) <==>
                ((old(self).seen(j) || j == i) && j + 64 > final(self).latest),
    {
        let m = self.mask;
        let lat = self.latest;
        if i > lat {
            let s = i - lat;
            if s >= 64 {
                self.mask = 1;
                self.latest = i;
                proof {
                    assert forall|j: int| self.seen(j) <==>
                        ((old(self).seen(j) || j == i) && j + 64 > self.latest) by {
                        if 0 <= j <= i as int && i as int - j < 64 {
                            let k = (i as int - j) as u64;
                            if j == i as int {
                                assert((1u64 >> 0u64) & 1u64 == 1u64) by (bit_vector);
                                assert((i as int - j) as u64 == 0u64);
                            } else {
                                assert((1u64 >> k) & 1u64 == 0u64) by (bit_vector)
                                    requires 0u64 < k < 64u64;
                                assert(j + 64 <= lat + 64 || !old(self).seen(j));
                            }
                        }
                    }
                }
            } else {
                self.mask = (m << s) | 1;
                self.latest = i;
                proof {
                    assert forall|j: int| self.seen(j) <==>
                        ((old(self).seen(j) || j == i) && j + 64 > self.latest) by {
                        if 0 <= j <= i as int && i as int - j < 64 {
                            let k = (i as int - j) as u64;
                            if j == i as int {
                                assert((((m << s) | 1u64) >> 0u64) & 1u64 == 1u64) by (bit_vector)
                                    requires s < 64u64;
                                assert((i as int - j) as u64 == 0u64);
                            } else if k < s {
                                // j lies between the old latest and i: never seen.
                                assert((((m << s) | 1u64) >> k) & 1u64 == 0u64) by (bit_vector)
                                    requires 0u64 < k < s < 64u64;
                            } else {
                                // j was within the old window.
                                assert((((m << s) | 1u64) >> k) & 1u64 == (m >> (k - s) as u64) & 1u64)
                                    by (bit_vector)
                                    requires 0u64 < s <= k < 64u64;
                                assert(k - s == lat - j);
                            }
                        }
                    }
                }
            }
        } else {
            let d = lat - i;
            self.mask = m | (1u64 << d);
            proof {
                assert(d < 64) by {
                    assert(i + 64 > lat);
                }
                assert forall|j: int| self.seen(j) <==>
                    ((old(self).seen(j) || j == i) && j + 64 > self.latest) by {
                    if 0 <= j <= lat as int && lat as int - j < 64 {
                        let k = (lat as int - j) as u64;
                        if k == d {
                            assert(((m | (1u64 << d)) >> k) & 1u64 == 1u64) by (bit_vector)
                                requires k == d < 64u64;
                            assert(j == i as int);
                        } else {
                            assert(((m | (1u64 << d)) >> k) & 1u64 == (m >> k) & 1u64) by (bit_vector)
                                requires k != d, d < 64u64, k < 64u64;
                        }
                    }
                }
            }
        }
    }
}

/// The rollover-aware index estimate: the candidate index that keeps the
/// incoming 16-bit sequence number and whose distance to the stream's
/// latest index is at most half the sequence space. A distance of exactly
/// half is treated as newer. The result can fall outside the 48-bit index
/// space (below zero just after startup, or above it when the rollover
/// counter is exhausted); `estimate_index` reports those as errors.
pub open spec fn est_index(latest: u64, v: u16) -> int {
    let roc = latest as int / 0x10000;
    let s_l = latest as int % 0x10000;
    if v >= s_l {
        if v - s_l <= 0x8000 {
            roc * 0x10000 + v
        } else {
            (roc - 1) * 0x10000 + v
        }
    } else {
        if s_l - v >= 0x8000 {
            (roc + 1) * 0x10000 + v
        } else {
            roc * 0x10000 + v
        }
    }
}

/// Widens a 16-bit sequence number to a 48-bit packet index relative to
/// the latest accepted index. Succeeds exactly when the estimate lies in
/// the index space; an estimate below zero is older than anything valid
/// (`ReplayOld`), one beyond 48 bits has exhausted the key's index space
/// (`KeyExpired`).
pub fn estimate_index(latest: u64, v: u16) -> (r: Result<u64, ErrorStatus>)
    requires
        latest < MAX_INDEX,
    ensures
        r matches Ok(i) ==> i == est_index(latest, v) && i < MAX_INDEX && i % 0x10000 == v,
        r is Ok <==> 0 <= est_index(latest, v) < MAX_INDEX,
        r == Err::<u64, ErrorStatus>(ErrorStatus::ReplayOld) <==> est_index(latest, v) < 0,
        r == Err::<u64, ErrorStatus>(ErrorStatus::KeyExpired) <==> est_index(latest, v) >= MAX_INDEX,
{
    let roc = latest / 0x10000;
    let s_l = (latest % 0x10000) as u16;
    proof {
        assert(roc < 0x1_0000_0000);
        assert(0x10000 * (latest as int / 0x10000) + latest as int % 0x10000 == latest as int)
            by (nonlinear_arith);
    }
    if v >= s_l {
        if v - s_l <= 0x8000 {
            let i = roc * 0x10000 + (v as u64);
            proof {
                assert(i % 0x10000 == v) by (nonlinear_arith)
                    requires i == (roc as int) * 0x10000 + v, v < 0x10000, roc >= 0;
            }
            Ok(i)
        } else {
            if roc == 0 {
                Err(ErrorStatus::ReplayOld)
            } else {
                let i = (roc - 1) * 0x10000 + (v as u64);
                proof {
                    assert(i % 0x10000 == v) by (nonlinear_arith)
                        requires i == (roc as int - 1) * 0x10000 + v, v < 0x10000, roc >= 1;
                }
                Ok(i)
            }
        }
    } else {
        if s_l - v >= 0x8000 {
            if roc == 0xffff_ffff {
                Err(ErrorStatus::KeyExpired)
            } else {
                let i = (roc + 1) * 0x10000 + (v as u64);
                proof {
                    assert(i % 0x10000 == v) by (nonlinear_arith)
                        requires i == (roc as int + 1) * 0x10000 + v, v < 0x10000, roc >= 0;
                }
                Ok(i)
            }
        } else {
            let i = roc * 0x10000 + (v as u64);
            proof {
                assert(i % 0x10000 == v) by (nonlinear_arith)
                    requires i == (roc as int) * 0x10000 + v, v < 0x10000, roc >= 0;
            }
            Ok(i)
        }
    }
}

/// Consecutive sequence numbers advance the estimated index by exactly
/// one, across 16-bit wraparounds: rollover is transparent to a caller
/// that sends an unbroken sequence.
pub proof fn lemma_rollover_advances(latest: u64)
    requires
        latest < MAX_INDEX - 1,
    ensures
        est_index(latest, (((latest + 1) as int % 0x10000) as u16)) == latest + 1,
{
    let s_l = latest as int % 0x10000;
    let roc = latest as int / 0x10000;
    assert(0x10000 * roc + s_l == latest as int) by (nonlinear_arith)
        requires roc == latest as int / 0x10000, s_l == latest as int % 0x10000, latest >= 0;
    if s_l < 0xffff {
        assert((latest + 1) as int % 0x10000 == s_l + 1) by (nonlinear_arith)
            requires
                0x10000 * roc + s_l == latest as int,
                0 <= s_l < 0xffff,
                roc >= 0;
    } else {
        assert((latest + 1) as int % 0x10000 == 0) by (nonlinear_arith)
            requires
                0x10000 * roc + s_l == latest as int,
                s_l == 0xffff,
                roc >= 0;
    }
}

} // verus!
