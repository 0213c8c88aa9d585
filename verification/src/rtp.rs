//! Base RTP identities and the inbound datagram classifier.

use vstd::prelude::*;

verus! {

/// 32-bit synchronization source identifier.
pub type Ssrc = u32;

/// RTP payload type; only the low 7 bits are meaningful.
pub type Pt = u8;

/// Extended (64-bit, monotone) sequence number.
pub type SeqNo = u64;

/// Extended RTP time: `numer` ticks of a `denom` Hz codec clock.
#[derive(Clone, Copy, Debug, PartialEq, Eq, Structural)]
pub struct MediaTime {
    pub numer: u64,
    pub denom: u32,
}

/// The fixed part of a parsed RTP header.
#[derive(Clone, Copy, Debug, PartialEq, Eq, Structural)]
pub struct RtpHeader {
    pub version: u8,
    pub has_padding: bool,
    pub has_extension: bool,
    pub marker: bool,
    pub payload_type: Pt,
    pub sequence_number: u16,
    pub timestamp: u32,
    pub ssrc: Ssrc,
}

/// What an inbound datagram is, by first-byte discrimination.
#[derive(Clone, Copy, Debug, PartialEq, Eq, Structural)]
pub enum DatagramKind {
    Stun,
    Dtls,
    Rtp,
    Rtcp,
    Unknown,
}

/// First-byte classification: STUN starts 0..=3, DTLS 20..=63, RTP and
/// RTCP 128..=191, where an RTCP packet type (64..=95 once the marker bit
/// of the second byte is masked off) tells the two apart.
pub open spec fn classify_spec(data: Seq<u8>) -> DatagramKind {
    if data.len() < 2 {
        DatagramKind::Unknown
    } else {
        let b0 = data[0];
        let b1 = data[1];
        if b0 <= 3 {
            DatagramKind::Stun
        } else if 20 <= b0 <= 63 {
            DatagramKind::Dtls
        } else if 128 <= b0 <= 191 {
            if 64 <= b1 % 128 <= 95 {
                DatagramKind::Rtcp
            } else {
                DatagramKind::Rtp
            }
        } else {
            DatagramKind::Unknown
        }
    }
}

/// Why an RTP header failed to parse.
#[derive(Clone, Copy, Debug, PartialEq, Eq, Structural)]
pub enum RtpParseError {
    /// The buffer ends before a field the header declares.
    Truncated,
    /// The version bits are not 2.
    BadVersion,
}

/// Big-endian 16-bit read at `i`.
pub open spec fn be16(d: Seq<u8>, i: int) -> int {
    d[i] * 0x100 + d[i + 1]
}

/// Big-endian 32-bit read at `i`.
pub open spec fn be32(d: Seq<u8>, i: int) -> int {
    d[i] * 0x100_0000 + d[i + 1] * 0x1_0000 + d[i + 2] * 0x100 + d[i + 3]
}

pub open spec fn rtp_version(d: Seq<u8>) -> int {
    d[0] as int / 64
}

pub open spec fn rtp_has_padding(d: Seq<u8>) -> bool {
    (d[0] / 32) % 2 == 1
}

pub open spec fn rtp_has_extension(d: Seq<u8>) -> bool {
    (d[0] / 16) % 2 == 1
}

/// The CSRC count in the low four bits of the first byte.
pub open spec fn rtp_cc(d: Seq<u8>) -> int {
    d[0] as int % 16
}

/// Bytes taken by the fixed header and the CSRC list.
pub open spec fn rtp_fixed_len(d: Seq<u8>) -> int {
    12 + 4 * rtp_cc(d)
}

/// Bytes taken by the whole header, extension included.
pub open spec fn rtp_header_len(d: Seq<u8>) -> int {
    if rtp_has_extension(d) {
        rtp_fixed_len(d) + 4 + 4 * be16(d, rtp_fixed_len(d) + 2)
    } else {
        rtp_fixed_len(d)
    }
}

/// The buffer holds every byte its RTP header declares.
pub open spec fn rtp_well_formed(d: Seq<u8>) -> bool {
    &&& d.len() >= 12
    &&& rtp_version(d) == 2
    &&& d.len() >= rtp_fixed_len(d)
    &&& (rtp_has_extension(d) ==> d.len() >= rtp_fixed_len(d) + 4 && d.len() >= rtp_header_len(d))
}

/// The header a well-formed buffer carries.
pub open spec fn rtp_header_spec(d: Seq<u8>) -> RtpHeader {
    RtpHeader {
        version: 2,
        has_padding: rtp_has_padding(d),
        has_extension: rtp_has_extension(d),
        marker: d[1] / 128 == 1,
        payload_type: (d[1] % 128) as u8,
        sequence_number: be16(d, 2) as u16,
        timestamp: be32(d, 4) as u32,
        ssrc: be32(d, 8) as u32,
    }
}

/// Parse the RTP header of a datagram.  Total: every malformed input is
/// rejected with the reason, never a panic.  On success the returned
/// length is where the payload begins.
pub fn parse_rtp_header(data: &Vec<u8>) -> (r: Result<(RtpHeader, usize), RtpParseError>)
    ensures
        match r {
            Result::Ok(p) => {
                &&& rtp_well_formed(data@)
                &&& p.0 == rtp_header_spec(data@)
                &&& p.1 as int == rtp_header_len(data@)
                &&& p.1 <= data@.len()
            },
            Result::Err(e) => {
                &&& !rtp_well_formed(data@)
                &&& e == (if data@.len() >= 12 && rtp_version(data@) != 2 {
                    RtpParseError::BadVersion
                } else {
                    RtpParseError::Truncated
                })
            },
        },
{
    if data.len() < 12 {
        return Err(RtpParseError::Truncated);
    }
    let b0 = data[0];
    if b0 / 64 != 2 {
        return Err(RtpParseError::BadVersion);
    }
    let cc = (b0 % 16) as usize;
    let fixed: usize = 12 + 4 * cc;
    if data.len() < fixed {
        return Err(RtpParseError::Truncated);
    }
    let has_extension = (b0 / 16) % 2 == 1;
    let header_len: usize = if has_extension {
        if data.len() < fixed + 4 {
            return Err(RtpParseError::Truncated);
        }
        let words = (data[fixed + 2] as usize) * 0x100 + (data[fixed + 3] as usize);
        let total = fixed + 4 + 4 * words;
        if data.len() < total {
            return Err(RtpParseError::Truncated);
        }
        total
    } else {
        fixed
    };
    let b1 = data[1];
    let header = RtpHeader {
        version: 2,
        has_padding: (b0 / 32) % 2 == 1,
        has_extension,
        marker: b1 / 128 == 1,
        payload_type: b1 % 128,
        sequence_number: (data[2] as u16) * 0x100 + (data[3] as u16),
        timestamp: (data[4] as u32) * 0x100_0000 + (data[5] as u32) * 0x1_0000 + (data[6] as u32)
            * 0x100 + (data[7] as u32),
        ssrc: (data[8] as u32) * 0x100_0000 + (data[9] as u32) * 0x1_0000 + (data[10] as u32)
            * 0x100 + (data[11] as u32),
    };
    Ok((header, header_len))
}

/// Write the fixed RTP header for an outgoing packet.  The result is
/// exactly what `parse_rtp_header` reads back as this header: serialising
/// and parsing round-trip.  The core writes no CSRC list and no header
/// extension on this path.
pub fn serialize_rtp_header(h: &RtpHeader) -> (r: Vec<u8>)
    requires
        h.version == 2,
        !h.has_extension,
        h.payload_type < 128,
    ensures
        r@.len() == 12,
        rtp_well_formed(r@),
        rtp_header_spec(r@) == *h,
        rtp_header_len(r@) == 12,
{
    let b0: u8 = 128 + if h.has_padding {
        32
    } else {
        0
    };
    let b1: u8 = h.payload_type + if h.marker {
        128
    } else {
        0
    };
    let mut out: Vec<u8> = Vec::new();
    out.push(b0);
    out.push(b1);
    out.push((h.sequence_number / 256) as u8);
    out.push((h.sequence_number % 256) as u8);
    out.push((h.timestamp / 0x100_0000) as u8);
    out.push(((h.timestamp / 0x1_0000) % 256) as u8);
    out.push(((h.timestamp / 256) % 256) as u8);
    out.push((h.timestamp % 256) as u8);
    out.push((h.ssrc / 0x100_0000) as u8);
    out.push(((h.ssrc / 0x1_0000) % 256) as u8);
    out.push(((h.ssrc / 256) % 256) as u8);
    out.push((h.ssrc % 256) as u8);
    proof {
        assert(be16(out@, 2) == h.sequence_number);
        assert(be32(out@, 4) == h.timestamp) by (nonlinear_arith)
            requires
                out@[4] == h.timestamp / 0x100_0000,
                out@[5] == (h.timestamp / 0x1_0000) % 256,
                out@[6] == (h.timestamp / 256) % 256,
                out@[7] == h.timestamp % 256,
                be32(out@, 4) == out@[4] * 0x100_0000 + out@[5] * 0x1_0000 + out@[6] * 0x100
                    + out@[7],
        ;
        assert(be32(out@, 8) == h.ssrc) by (nonlinear_arith)
            requires
                out@[8] == h.ssrc / 0x100_0000,
                out@[9] == (h.ssrc / 0x1_0000) % 256,
                out@[10] == (h.ssrc / 256) % 256,
                out@[11] == h.ssrc % 256,
                be32(out@, 8) == out@[8] * 0x100_0000 + out@[9] * 0x1_0000 + out@[10] * 0x100
                    + out@[11],
        ;
        assert(rtp_header_spec(out@) == *h);
    }
    out
}

/// Classify an inbound datagram without consuming it.
pub fn classify(data: &Vec<u8>) -> (r: DatagramKind)
    ensures
        r == classify_spec(data@),
{
    if data.len() < 2 {
        return DatagramKind::Unknown;
    }
    let b0 = data[0];
    let b1 = data[1];
    if b0 <= 3 {
        DatagramKind::Stun
    } else if 20 <= b0 && b0 <= 63 {
        DatagramKind::Dtls
    } else if 128 <= b0 && b0 <= 191 {
        let pt = b1 % 128;
        if 64 <= pt && pt <= 95 {
            DatagramKind::Rtcp
        } else {
            DatagramKind::Rtp
        }
    } else {
        DatagramKind::Unknown
    }
}

} // verus!
