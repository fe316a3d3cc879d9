//! The RTP header codec: parses the fields that protection needs (sequence
//! number, SSRC, header length) and serializes them back byte-exactly.

use vstd::prelude::*;
use crate::bytes::{be16, be32, be32_at, u16_be, u32_be, read_be16, read_be32, push_be16, push_be32, lemma_be16_round_trip, lemma_be32_round_trip};
use crate::errors::ErrorStatus;

verus! {

/// An RTP header extension: a 16-bit profile tag and its payload in 32-bit
/// words, as the wire format carries it.
pub struct RtpExtension {
    pub profile: u16,
    pub words: Vec<u32>,
}

/// The RTP header fields. The version is always 2 and is not stored.
pub struct RtpHeader {
    pub padding: bool,
    pub marker: bool,
    pub payload_type: u8,
    pub seq: u16,
    pub timestamp: u32,
    pub ssrc: u32,
    pub csrcs: Vec<u32>,
    pub extension: Option<RtpExtension>,
}

/// Field ranges that the wire format can carry.
pub open spec fn hdr_wf(h: RtpHeader) -> bool {
    &&& h.payload_type < 128
    &&& h.csrcs@.len() <= 15
    &&& (h.extension matches Some(e) ==> e.words@.len() <= 0xffff)
}

/// The first header byte: version 2, padding and extension flags, CSRC count.
pub open spec fn first_byte(h: RtpHeader) -> u8 {
    0x80u8 | (if h.padding { 0x20u8 } else { 0u8 })
        | (if h.extension is Some { 0x10u8 } else { 0u8 })
        | (h.csrcs@.len() as u8)
}

/// The second header byte: marker flag and payload type.
pub open spec fn second_byte(h: RtpHeader) -> u8 {
    (if h.marker { 0x80u8 } else { 0u8 }) | h.payload_type
}

/// 32-bit words serialized big-endian, in order.
pub open spec fn ser_words(ws: Seq<u32>) -> Seq<u8>
    decreases ws.len(),
{
    if ws.len() == 0 {
        Seq::empty()
    } else {
        ser_words(ws.drop_last()) + u32_be(ws.last())
    }
}

/// The serialized extension block: profile, word count, then the words.
pub open spec fn ser_extension(ext: Option<RtpExtension>) -> Seq<u8> {
    match ext {
        Some(e) => u16_be(e.profile) + u16_be(e.words@.len() as u16) + ser_words(e.words@),
        None => Seq::empty(),
    }
}

/// The full serialized header.
pub open spec fn spec_serialize(h: RtpHeader) -> Seq<u8> {
    seq![first_byte(h), second_byte(h)] + u16_be(h.seq) + u32_be(h.timestamp)
        + u32_be(h.ssrc) + ser_words(h.csrcs@) + ser_extension(h.extension)
}

/// The CSRC count carried in the first byte.
pub open spec fn cc_of(b: Seq<u8>) -> int {
    (b[0] & 0x0f) as int
}

/// Whether the extension flag is set in the first byte.
pub open spec fn has_ext(b: Seq<u8>) -> bool {
    b[0] & 0x10 != 0
}

/// Whether `b` starts with a well-formed RTP header: version 2, and the
/// CSRC list and any extension fit inside the packet.
pub open spec fn parseable(b: Seq<u8>) -> bool {
    &&& b.len() >= 12
    &&& b[0] >> 6 == 2
    &&& 12 + 4 * cc_of(b) <= b.len()
    &&& (has_ext(b) ==> {
        let eo = 12 + 4 * cc_of(b);
        &&& eo + 4 <= b.len()
        &&& eo + 4 + 4 * (be16(b[eo + 2], b[eo + 3]) as int) <= b.len()
    })
}

/// The byte offset where the payload begins.
pub open spec fn spec_header_len(b: Seq<u8>) -> int {
    12 + 4 * cc_of(b) + if has_ext(b) {
        let eo = 12 + 4 * cc_of(b);
        4 + 4 * (be16(b[eo + 2], b[eo + 3]) as int)
    } else {
        0
    }
}

/// Parses the RTP header at the front of `b`.
///
/// On success the returned fields serialize back to exactly the bytes they
/// were read from: `spec_serialize(h) == b@.take(hlen)`. Parsing succeeds
/// if and only if the header is well formed (`parseable`).
pub fn parse_header(b: &Vec<u8>) -> (r: Result<(RtpHeader, usize), ErrorStatus>)
    ensures
        r matches Ok((h, hlen)) ==> {
            &&& hdr_wf(h)
            &&& 12 <= hlen <= b@.len()
            &&& hlen == spec_header_len(b@)
            &&& spec_serialize(h) == b@.take(hlen as int)
            &&& h.seq == be16(b@[2], b@[3])
            &&& h.ssrc == be32_at(b@, 8)
        },
        r is Ok <==> parseable(b@),
        r matches Err(e) ==> e == ErrorStatus::BadParam,
{
    let n = b.len();
    if n < 12 {
        return Err(ErrorStatus::BadParam);
    }
    let b0 = b[0];
    if (b0 >> 6) != 2 {
        return Err(ErrorStatus::BadParam);
    }
    let padding = (b0 & 0x20) != 0;
    let has_x = (b0 & 0x10) != 0;
    assert(b0 & 0x0f <= 15) by (bit_vector);
    let cc = (b0 & 0x0f) as usize;
    if n < 12 + 4 * cc {
        return Err(ErrorStatus::BadParam);
    }
    let b1 = b[1];
    let marker = (b1 & 0x80) != 0;
    assert(b1 & 0x7f < 128) by (bit_vector);
    let payload_type = b1 & 0x7f;
    let seq = read_be16(b, 2);
    let timestamp = read_be32(b, 4);
    let ssrc = read_be32(b, 8);

    let mut csrcs: Vec<u32> = Vec::new();
    let mut k: usize = 0;
    while k < cc
        invariant
            0 <= k <= cc,
            cc <= 15,
            12 + 4 * cc <= n == b@.len(),
            csrcs@.len() == k,
            ser_words(csrcs@) == b@.subrange(12, 12 + 4 * k),
        decreases cc - k,
    {
        let w = read_be32(b, 12 + 4 * k);
        let ghost pre = csrcs@;
        csrcs.push(w);
        proof {
            assert(csrcs@.drop_last() =~= pre);
            lemma_be32_round_trip(b@[12 + 4 * k], b@[12 + 4 * k + 1], b@[12 + 4 * k + 2], b@[12 + 4 * k + 3]);
            assert(u32_be(w) =~= b@.subrange(12 + 4 * k, 12 + 4 * (k + 1)));
            assert(ser_words(csrcs@) =~= b@.subrange(12, 12 + 4 * (k + 1)));
        }
        k += 1;
    }
    let co = 12 + 4 * cc;

    if has_x {
        if n < co + 4 {
            return Err(ErrorStatus::BadParam);
        }
        let profile = read_be16(b, co);
        let xlen = read_be16(b, co + 2) as usize;
        if n < co + 4 + 4 * xlen {
            return Err(ErrorStatus::BadParam);
        }
        let mut words: Vec<u32> = Vec::new();
        let mut k: usize = 0;
        while k < xlen
            invariant
                0 <= k <= xlen,
                xlen <= 0xffff,
                co + 4 + 4 * xlen <= n == b@.len(),
                co == 12 + 4 * cc,
                words@.len() == k,
                ser_words(words@) == b@.subrange(co + 4, co + 4 + 4 * k),
            decreases xlen - k,
        {
            let w = read_be32(b, co + 4 + 4 * k);
            let ghost pre = words@;
            words.push(w);
            proof {
                assert(words@.drop_last() =~= pre);
                lemma_be32_round_trip(
                    b@[co + 4 + 4 * k], b@[co + 4 + 4 * k + 1],
                    b@[co + 4 + 4 * k + 2], b@[co + 4 + 4 * k + 3]);
                assert(u32_be(w) =~= b@.subrange(co + 4 + 4 * k, co + 4 + 4 * (k + 1)));
                assert(ser_words(words@) =~= b@.subrange(co + 4, co + 4 + 4 * (k + 1)));
            }
            k += 1;
        }
        let hlen = co + 4 + 4 * xlen;
        let h = RtpHeader {
            padding, marker, payload_type, seq, timestamp, ssrc, csrcs,
            extension: Some(RtpExtension { profile, words }),
        };
        proof {
            lemma_parse_assemble(h, b@, b0, b1, hlen as int);
            assert(u16_be(h.seq) =~= b@.subrange(2, 4)) by {
                lemma_be16_round_trip(b@[2], b@[3]);
            }
        }
        Ok((h, hlen))
    } else {
        let h = RtpHeader {
            padding, marker, payload_type, seq, timestamp, ssrc, csrcs,
            extension: None,
        };
        proof {
            lemma_parse_assemble(h, b@, b0, b1, co as int);
        }
        Ok((h, co))
    }
}

/// Glues the parsed fields back to the original bytes.
proof fn lemma_parse_assemble(h: RtpHeader, b: Seq<u8>, b0: u8, b1: u8, hlen: int)
    requires
        b.len() >= 12,
        b[0] == b0,
        b[1] == b1,
        b0 >> 6 == 2,
        h.padding == ((b0 & 0x20) != 0),
        (h.extension is Some) == ((b0 & 0x10) != 0),
        h.csrcs@.len() == (b0 & 0x0f) as int,
        h.marker == ((b1 & 0x80) != 0),
        h.payload_type == b1 & 0x7f,
        h.seq == be16(b[2], b[3]),
        h.timestamp == be32(b[4], b[5], b[6], b[7]),
        h.ssrc == be32(b[8], b[9], b[10], b[11]),
        ser_words(h.csrcs@) == b.subrange(12, 12 + 4 * (h.csrcs@.len() as int)),
        h.extension matches Some(e) ==> {
            let co = 12 + 4 * (h.csrcs@.len() as int);
            &&& hlen == co + 4 + 4 * (e.words@.len() as int)
            &&& hlen <= b.len()
            &&& e.words@.len() <= 0xffff
            &&& e.profile == be16(b[co], b[co + 1])
            &&& e.words@.len() == be16(b[co + 2], b[co + 3]) as int
            &&& ser_words(e.words@) == b.subrange(co + 4, hlen)
        },
        h.extension is None ==> hlen == 12 + 4 * (h.csrcs@.len() as int) && hlen <= b.len(),
    ensures
        spec_serialize(h) == b.take(hlen),
        hdr_wf(h),
        hlen == spec_header_len(b),
        12 <= hlen <= b.len(),
{
    let cc = h.csrcs@.len() as int;
    let co = 12 + 4 * cc;
    let ptv: u8 = h.payload_type;
    assert(ptv < 128) by (bit_vector)
        requires ptv == b1 & 0x7f;
    assert((b0 & 0x0f) <= 15) by (bit_vector);

    // First byte reassembles.
    let pb: u8 = if h.padding { 0x20u8 } else { 0u8 };
    let xb: u8 = if h.extension is Some { 0x10u8 } else { 0u8 };
    assert(pb == (b0 & 0x20)) by (bit_vector)
        requires pb == (if (b0 & 0x20) != 0 { 0x20u8 } else { 0u8 });
    assert(xb == (b0 & 0x10)) by (bit_vector)
        requires xb == (if (b0 & 0x10) != 0 { 0x10u8 } else { 0u8 });
    assert(0x80u8 | pb | xb | (b0 & 0x0f) == b0) by (bit_vector)
        requires b0 >> 6 == 2, pb == (b0 & 0x20), xb == (b0 & 0x10);
    assert(first_byte(h) == b0);

    // Second byte reassembles.
    let mb: u8 = if h.marker { 0x80u8 } else { 0u8 };
    assert(mb == (b1 & 0x80)) by (bit_vector)
        requires mb == (if (b1 & 0x80) != 0 { 0x80u8 } else { 0u8 });
    assert(mb | (b1 & 0x7f) == b1) by (bit_vector)
        requires mb == (b1 & 0x80);
    assert(second_byte(h) == b1);

    lemma_be16_round_trip(b[2], b[3]);
    lemma_be32_round_trip(b[4], b[5], b[6], b[7]);
    lemma_be32_round_trip(b[8], b[9], b[10], b[11]);
    assert(u16_be(h.seq) =~= b.subrange(2, 4));
    assert(u32_be(h.timestamp) =~= b.subrange(4, 8));
    assert(u32_be(h.ssrc) =~= b.subrange(8, 12));

    match h.extension {
        Some(e) => {
            lemma_be16_round_trip(b[co], b[co + 1]);
            lemma_be16_round_trip(b[co + 2], b[co + 3]);
            assert(e.words@.len() as u16 == be16(b[co + 2], b[co + 3]));
            assert(u16_be(e.profile) =~= b.subrange(co, co + 2));
            assert(u16_be(e.words@.len() as u16) =~= b.subrange(co + 2, co + 4));
            assert(ser_extension(h.extension) ==
                b.subrange(co, co + 2) + b.subrange(co + 2, co + 4) + b.subrange(co + 4, hlen));
        },
        None => {},
    }
    assert(spec_serialize(h) =~= b.take(hlen));
}

/// Serializes the header fields to wire format; the exact inverse of
/// `parse_header` on well-formed input.
pub fn serialize_header(h: &RtpHeader) -> (r: Vec<u8>)
    requires
        hdr_wf(*h),
    ensures
        r@ == spec_serialize(*h),
{
    let mut out: Vec<u8> = Vec::new();
    let pb: u8 = if h.padding { 0x20 } else { 0 };
    let xb: u8 = if h.extension.is_some() { 0x10 } else { 0 };
    let cc = h.csrcs.len() as u8;
    out.push(0x80u8 | pb | xb | cc);
    let mb: u8 = if h.marker { 0x80 } else { 0 };
    out.push(mb | h.payload_type);
    push_be16(&mut out, h.seq);
    push_be32(&mut out, h.timestamp);
    push_be32(&mut out, h.ssrc);
    assert(out@ =~= seq![first_byte(*h), second_byte(*h)] + u16_be(h.seq)
        + u32_be(h.timestamp) + u32_be(h.ssrc));

    let ghost prefix = out@;
    let mut k: usize = 0;
    while k < h.csrcs.len()
        invariant
            0 <= k <= h.csrcs@.len(),
            out@ == prefix + ser_words(h.csrcs@.take(k as int)),
        decreases h.csrcs@.len() - k,
    {
        push_be32(&mut out, h.csrcs[k]);
        proof {
            let t = h.csrcs@.take(k + 1);
            assert(t.drop_last() =~= h.csrcs@.take(k as int));
            assert(t.last() == h.csrcs@[k as int]);
            assert(out@ =~= prefix + ser_words(t));
        }
        k += 1;
    }
    assert(h.csrcs@.take(h.csrcs@.len() as int) =~= h.csrcs@);

    match &h.extension {
        Some(e) => {
            push_be16(&mut out, e.profile);
            push_be16(&mut out, e.words.len() as u16);
            let ghost prefix2 = out@;
            let mut k: usize = 0;
            while k < e.words.len()
                invariant
                    0 <= k <= e.words@.len(),
                    out@ == prefix2 + ser_words(e.words@.take(k as int)),
                decreases e.words@.len() - k,
            {
                push_be32(&mut out, e.words[k]);
                proof {
                    let t = e.words@.take(k + 1);
                    assert(t.drop_last() =~= e.words@.take(k as int));
                    assert(t.last() == e.words@[k as int]);
                    assert(out@ =~= prefix2 + ser_words(t));
                }
                k += 1;
            }
            assert(e.words@.take(e.words@.len() as int) =~= e.words@);
            assert(out@ =~= spec_serialize(*h));
        },
        None => {
            assert(out@ =~= spec_serialize(*h));
        },
    }
    out
}

} // verus!
