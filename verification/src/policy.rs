//! Crypto policies: named bundles of cipher, authentication algorithm and
//! key, salt and tag lengths, applied to one traffic direction of a stream.

use vstd::prelude::*;

verus! {

/// The cipher a policy applies to the payload.
#[derive(Clone, Copy, Debug, PartialEq, Eq, Structural)]
pub enum CipherKind {
    /// Pass-through: no encryption.
    Null,
    /// AES in counter mode (SRTP AES-CM).
    AesCm,
    /// AES in Galois/counter mode, which also authenticates.
    AesGcm,
}

/// The authentication tag algorithm a policy applies.
#[derive(Clone, Copy, Debug, PartialEq, Eq, Structural)]
pub enum AuthKind {
    /// No tag.
    Null,
    /// HMAC-SHA1, truncated to the policy's tag length.
    HmacSha1,
}

/// A crypto policy: an immutable value selecting cipher, authentication and
/// all key material lengths. Distinct policies may be set for the RTP and
/// RTCP paths of one stream.
#[derive(Clone, Copy, Debug, PartialEq, Eq, Structural)]
pub struct CryptoPolicy {
    pub cipher: CipherKind,
    /// Master key length the key-derivation function runs under (16/24/32).
    pub master_key_len: usize,
    /// Master salt length (14 for counter mode, 12 for GCM).
    pub master_salt_len: usize,
    /// Derived session encryption key length (0 for the null cipher).
    pub enc_key_len: usize,
    /// Derived session salt length (14 counter mode, 12 GCM, 0 null).
    pub salt_len: usize,
    pub auth: AuthKind,
    /// Derived session authentication key length (20 for HMAC-SHA1).
    pub auth_key_len: usize,
    /// Authentication tag length appended by protect.
    pub tag_len: usize,
    /// Whether the payload is encrypted (confidentiality service).
    pub conf: bool,
}

/// Internal consistency of a policy's lengths; every named policy
/// constructor establishes this and the engine preserves it.
pub open spec fn policy_wf(p: CryptoPolicy) -> bool {
    &&& (p.master_key_len == 16 || p.master_key_len == 24 || p.master_key_len == 32)
    &&& (p.master_salt_len == 12 || p.master_salt_len == 14)
    &&& match p.cipher {
        CipherKind::Null => p.enc_key_len == 0 && p.salt_len == 0 && !p.conf
            && p.master_salt_len == 14,
        CipherKind::AesCm => p.enc_key_len == p.master_key_len && p.salt_len == 14
            && p.master_salt_len == 14 && p.conf,
        CipherKind::AesGcm => p.enc_key_len == p.master_key_len && p.salt_len == 12
            && p.master_salt_len == 12
            && (p.master_key_len == 16 || p.master_key_len == 32)
            && (p.tag_len == 8 || p.tag_len == 16),
    }
    &&& match p.auth {
        AuthKind::Null => p.auth_key_len == 0
            && (p.cipher is AesGcm || p.tag_len == 0),
        AuthKind::HmacSha1 => p.auth_key_len == 20 && !(p.cipher is AesGcm)
            && (p.tag_len == 4 || p.tag_len == 10),
    }
}

/// The master key material a stream must supply: key then salt.
pub open spec fn spec_master_len(p: CryptoPolicy) -> int {
    p.master_key_len + p.master_salt_len
}

impl CryptoPolicy {
    /// Master key material length (key plus salt) this policy requires.
    pub fn master_len(&self) -> (r: usize)
        requires
            policy_wf(*self),
        ensures
            r == spec_master_len(*self),
    {
        self.master_key_len + self.master_salt_len
    }

    /// AES-CM-128 with an 80-bit HMAC-SHA1 tag; the RTP default.
    pub fn aes_cm_128_hmac_sha1_80() -> (r: CryptoPolicy)
        ensures
            (r == CryptoPolicy {
                cipher: CipherKind::AesCm,
                master_key_len: 16,
                master_salt_len: 14,
                enc_key_len: 16,
                salt_len: 14,
                auth: AuthKind::HmacSha1,
                auth_key_len: 20,
                tag_len: 10,
                conf: true,
            }),
            policy_wf(r),
    {
        CryptoPolicy {
            cipher: CipherKind::AesCm,
            master_key_len: 16,
            master_salt_len: 14,
            enc_key_len: 16,
            salt_len: 14,
            auth: AuthKind::HmacSha1,
            auth_key_len: 20,
            tag_len: 10,
            conf: true,
        }
    }

    /// AES-CM-128 with a 32-bit HMAC-SHA1 tag.
    pub fn aes_cm_128_hmac_sha1_32() -> (r: CryptoPolicy)
        ensures
            (r == CryptoPolicy {
                cipher: CipherKind::AesCm,
                master_key_len: 16,
                master_salt_len: 14,
                enc_key_len: 16,
                salt_len: 14,
                auth: AuthKind::HmacSha1,
                auth_key_len: 20,
                tag_len: 4,
                conf: true,
            }),
            policy_wf(r),
    {
        CryptoPolicy {
            cipher: CipherKind::AesCm,
            master_key_len: 16,
            master_salt_len: 14,
            enc_key_len: 16,
            salt_len: 14,
            auth: AuthKind::HmacSha1,
            auth_key_len: 20,
            tag_len: 4,
            conf: true,
        }
    }

    /// AES-CM-128 without authentication.
    pub fn aes_cm_128_null_auth() -> (r: CryptoPolicy)
        ensures
            (r == CryptoPolicy {
                cipher: CipherKind::AesCm,
                master_key_len: 16,
                master_salt_len: 14,
                enc_key_len: 16,
                salt_len: 14,
                auth: AuthKind::Null,
                auth_key_len: 0,
                tag_len: 0,
                conf: true,
            }),
            policy_wf(r),
    {
        CryptoPolicy {
            cipher: CipherKind::AesCm,
            master_key_len: 16,
            master_salt_len: 14,
            enc_key_len: 16,
            salt_len: 14,
            auth: AuthKind::Null,
            auth_key_len: 0,
            tag_len: 0,
            conf: true,
        }
    }

    /// AES-CM-192 with an 80-bit HMAC-SHA1 tag.
    pub fn aes_cm_192_hmac_sha1_80() -> (r: CryptoPolicy)
        ensures
            (r == CryptoPolicy {
                cipher: CipherKind::AesCm,
                master_key_len: 24,
                master_salt_len: 14,
                enc_key_len: 24,
                salt_len: 14,
                auth: AuthKind::HmacSha1,
                auth_key_len: 20,
                tag_len: 10,
                conf: true,
            }),
            policy_wf(r),
    {
        CryptoPolicy {
            cipher: CipherKind::AesCm,
            master_key_len: 24,
            master_salt_len: 14,
            enc_key_len: 24,
            salt_len: 14,
            auth: AuthKind::HmacSha1,
            auth_key_len: 20,
            tag_len: 10,
            conf: true,
        }
    }

    /// AES-CM-192 with a 32-bit HMAC-SHA1 tag.
    pub fn aes_cm_192_hmac_sha1_32() -> (r: CryptoPolicy)
        ensures
            (r == CryptoPolicy {
                cipher: CipherKind::AesCm,
                master_key_len: 24,
                master_salt_len: 14,
                enc_key_len: 24,
                salt_len: 14,
                auth: AuthKind::HmacSha1,
                auth_key_len: 20,
                tag_len: 4,
                conf: true,
            }),
            policy_wf(r),
    {
        CryptoPolicy {
            cipher: CipherKind::AesCm,
            master_key_len: 24,
            master_salt_len: 14,
            enc_key_len: 24,
            salt_len: 14,
            auth: AuthKind::HmacSha1,
            auth_key_len: 20,
            tag_len: 4,
            conf: true,
        }
    }

    /// AES-CM-192 without authentication.
    pub fn aes_cm_192_null_auth() -> (r: CryptoPolicy)
        ensures
            (r == CryptoPolicy {
                cipher: CipherKind::AesCm,
                master_key_len: 24,
                master_salt_len: 14,
                enc_key_len: 24,
                salt_len: 14,
                auth: AuthKind::Null,
                auth_key_len: 0,
                tag_len: 0,
                conf: true,
            }),
            policy_wf(r),
    {
        CryptoPolicy {
            cipher: CipherKind::AesCm,
            master_key_len: 24,
            master_salt_len: 14,
            enc_key_len: 24,
            salt_len: 14,
            auth: AuthKind::Null,
            auth_key_len: 0,
            tag_len: 0,
            conf: true,
        }
    }

    /// AES-CM-256 with an 80-bit HMAC-SHA1 tag.
    pub fn aes_cm_256_hmac_sha1_80() -> (r: CryptoPolicy)
        ensures
            (r == CryptoPolicy {
                cipher: CipherKind::AesCm,
                master_key_len: 32,
                master_salt_len: 14,
                enc_key_len: 32,
                salt_len: 14,
                auth: AuthKind::HmacSha1,
                auth_key_len: 20,
                tag_len: 10,
                conf: true,
            }),
            policy_wf(r),
    {
        CryptoPolicy {
            cipher: CipherKind::AesCm,
            master_key_len: 32,
            master_salt_len: 14,
            enc_key_len: 32,
            salt_len: 14,
            auth: AuthKind::HmacSha1,
            auth_key_len: 20,
            tag_len: 10,
            conf: true,
        }
    }

    /// AES-CM-256 with a 32-bit HMAC-SHA1 tag.
    pub fn aes_cm_256_hmac_sha1_32() -> (r: CryptoPolicy)
        ensures
            (r == CryptoPolicy {
                cipher: CipherKind::AesCm,
                master_key_len: 32,
                master_salt_len: 14,
                enc_key_len: 32,
                salt_len: 14,
                auth: AuthKind::HmacSha1,
                auth_key_len: 20,
                tag_len: 4,
                conf: true,
            }),
            policy_wf(r),
    {
        CryptoPolicy {
            cipher: CipherKind::AesCm,
            master_key_len: 32,
            master_salt_len: 14,
            enc_key_len: 32,
            salt_len: 14,
            auth: AuthKind::HmacSha1,
            auth_key_len: 20,
            tag_len: 4,
            conf: true,
        }
    }

    /// AES-CM-256 without authentication.
    pub fn aes_cm_256_null_auth() -> (r: CryptoPolicy)
        ensures
            (r == CryptoPolicy {
                cipher: CipherKind::AesCm,
                master_key_len: 32,
                master_salt_len: 14,
                enc_key_len: 32,
                salt_len: 14,
                auth: AuthKind::Null,
                auth_key_len: 0,
                tag_len: 0,
                conf: true,
            }),
            policy_wf(r),
    {
        CryptoPolicy {
            cipher: CipherKind::AesCm,
            master_key_len: 32,
            master_salt_len: 14,
            enc_key_len: 32,
            salt_len: 14,
            auth: AuthKind::Null,
            auth_key_len: 0,
            tag_len: 0,
            conf: true,
        }
    }

    /// No encryption and no authentication: protect is the identity on the packet bytes.
    pub fn null_cipher_hmac_null() -> (r: CryptoPolicy)
        ensures
            (r == CryptoPolicy {
                cipher: CipherKind::Null,
                master_key_len: 16,
                master_salt_len: 14,
                enc_key_len: 0,
                salt_len: 0,
                auth: AuthKind::Null,
                auth_key_len: 0,
                tag_len: 0,
                conf: false,
            }),
            policy_wf(r),
    {
        CryptoPolicy {
            cipher: CipherKind::Null,
            master_key_len: 16,
            master_salt_len: 14,
            enc_key_len: 0,
            salt_len: 0,
            auth: AuthKind::Null,
            auth_key_len: 0,
            tag_len: 0,
            conf: false,
        }
    }

    /// No encryption, but an 80-bit HMAC-SHA1 tag.
    pub fn null_cipher_hmac_sha1_80() -> (r: CryptoPolicy)
        ensures
            (r == CryptoPolicy {
                cipher: CipherKind::Null,
                master_key_len: 16,
                master_salt_len: 14,
                enc_key_len: 0,
                salt_len: 0,
                auth: AuthKind::HmacSha1,
                auth_key_len: 20,
                tag_len: 10,
                conf: false,
            }),
            policy_wf(r),
    {
        CryptoPolicy {
            cipher: CipherKind::Null,
            master_key_len: 16,
            master_salt_len: 14,
            enc_key_len: 0,
            salt_len: 0,
            auth: AuthKind::HmacSha1,
            auth_key_len: 20,
            tag_len: 10,
            conf: false,
        }
    }

    /// AES-GCM-128 with an 8-byte tag.
    pub fn aes_gcm_128_8_auth() -> (r: CryptoPolicy)
        ensures
            (r == CryptoPolicy {
                cipher: CipherKind::AesGcm,
                master_key_len: 16,
                master_salt_len: 12,
                enc_key_len: 16,
                salt_len: 12,
                auth: AuthKind::Null,
                auth_key_len: 0,
                tag_len: 8,
                conf: true,
            }),
            policy_wf(r),
    {
        CryptoPolicy {
            cipher: CipherKind::AesGcm,
            master_key_len: 16,
            master_salt_len: 12,
            enc_key_len: 16,
            salt_len: 12,
            auth: AuthKind::Null,
            auth_key_len: 0,
            tag_len: 8,
            conf: true,
        }
    }

    /// AES-GCM-128 with an 8-byte tag, authenticating only: the payload stays clear but is covered by the tag.
    pub fn aes_gcm_128_8_only_auth() -> (r: CryptoPolicy)
        ensures
            (r == CryptoPolicy {
                cipher: CipherKind::AesGcm,
                master_key_len: 16,
                master_salt_len: 12,
                enc_key_len: 16,
                salt_len: 12,
                auth: AuthKind::Null,
                auth_key_len: 0,
                tag_len: 8,
                conf: false,
            }),
            policy_wf(r),
    {
        CryptoPolicy {
            cipher: CipherKind::AesGcm,
            master_key_len: 16,
            master_salt_len: 12,
            enc_key_len: 16,
            salt_len: 12,
            auth: AuthKind::Null,
            auth_key_len: 0,
            tag_len: 8,
            conf: false,
        }
    }

    /// AES-GCM-128 with a 16-byte tag.
    pub fn aes_gcm_128_16_auth() -> (r: CryptoPolicy)
        ensures
            (r == CryptoPolicy {
                cipher: CipherKind::AesGcm,
                master_key_len: 16,
                master_salt_len: 12,
                enc_key_len: 16,
                salt_len: 12,
                auth: AuthKind::Null,
                auth_key_len: 0,
                tag_len: 16,
                conf: true,
            }),
            policy_wf(r),
    {
        CryptoPolicy {
            cipher: CipherKind::AesGcm,
            master_key_len: 16,
            master_salt_len: 12,
            enc_key_len: 16,
            salt_len: 12,
            auth: AuthKind::Null,
            auth_key_len: 0,
            tag_len: 16,
            conf: true,
        }
    }

    /// AES-GCM-256 with an 8-byte tag.
    pub fn aes_gcm_256_8_auth() -> (r: CryptoPolicy)
        ensures
            (r == CryptoPolicy {
                cipher: CipherKind::AesGcm,
                master_key_len: 32,
                master_salt_len: 12,
                enc_key_len: 32,
                salt_len: 12,
                auth: AuthKind::Null,
                auth_key_len: 0,
                tag_len: 8,
                conf: true,
            }),
            policy_wf(r),
    {
        CryptoPolicy {
            cipher: CipherKind::AesGcm,
            master_key_len: 32,
            master_salt_len: 12,
            enc_key_len: 32,
            salt_len: 12,
            auth: AuthKind::Null,
            auth_key_len: 0,
            tag_len: 8,
            conf: true,
        }
    }

    /// AES-GCM-256 with an 8-byte tag, authenticating only: the payload stays clear but is covered by the tag.
    pub fn aes_gcm_256_8_only_auth() -> (r: CryptoPolicy)
        ensures
            (r == CryptoPolicy {
                cipher: CipherKind::AesGcm,
                master_key_len: 32,
                master_salt_len: 12,
                enc_key_len: 32,
                salt_len: 12,
                auth: AuthKind::Null,
                auth_key_len: 0,
                tag_len: 8,
                conf: false,
            }),
            policy_wf(r),
    {
        CryptoPolicy {
            cipher: CipherKind::AesGcm,
            master_key_len: 32,
            master_salt_len: 12,
            enc_key_len: 32,
            salt_len: 12,
            auth: AuthKind::Null,
            auth_key_len: 0,
            tag_len: 8,
            conf: false,
        }
    }

    /// AES-GCM-256 with a 16-byte tag.
    pub fn aes_gcm_256_16_auth() -> (r: CryptoPolicy)
        ensures
            (r == CryptoPolicy {
                cipher: CipherKind::AesGcm,
                master_key_len: 32,
                master_salt_len: 12,
                enc_key_len: 32,
                salt_len: 12,
                auth: AuthKind::Null,
                auth_key_len: 0,
                tag_len: 16,
                conf: true,
            }),
            policy_wf(r),
    {
        CryptoPolicy {
            cipher: CipherKind::AesGcm,
            master_key_len: 32,
            master_salt_len: 12,
            enc_key_len: 32,
            salt_len: 12,
            auth: AuthKind::Null,
            auth_key_len: 0,
            tag_len: 16,
            conf: true,
        }
    }

    /// The default RTP policy: AES-CM-128 with an 80-bit HMAC-SHA1 tag.
    pub fn rtp_default() -> (r: CryptoPolicy)
        ensures
            r == CryptoPolicy::spec_rtp_default(),
            policy_wf(r),
    {
        CryptoPolicy::aes_cm_128_hmac_sha1_80()
    }

    /// The default RTCP policy: AES-CM-128 with an 80-bit HMAC-SHA1 tag.
    pub fn rtcp_default() -> (r: CryptoPolicy)
        ensures
            r == CryptoPolicy::spec_rtp_default(),
            policy_wf(r),
    {
        CryptoPolicy::aes_cm_128_hmac_sha1_80()
    }

    /// The value both defaults share.
    pub open spec fn spec_rtp_default() -> CryptoPolicy {
        CryptoPolicy {
            cipher: CipherKind::AesCm,
            master_key_len: 16,
            master_salt_len: 14,
            enc_key_len: 16,
            salt_len: 14,
            auth: AuthKind::HmacSha1,
            auth_key_len: 20,
            tag_len: 10,
            conf: true,
        }
    }
}

} // verus!
