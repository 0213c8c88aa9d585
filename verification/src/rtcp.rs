//! RTCP compound packet walking.
//!
//! A compound RTCP datagram is a run of packets, each carrying its own
//! length in 32-bit words.  The walk is total: it yields the packet
//! boundaries, and rejects, with the offset of the fault, any header that
//! is cut short, carries the wrong version, or declares a length that
//! would overrun the compound envelope.

use vstd::prelude::*;

use crate::rtp::be16;

verus! {

/// One packet inside a compound RTCP datagram.
#[derive(Clone, Copy, Debug, PartialEq, Eq, Structural)]
pub struct RtcpChunk {
    /// The packet type from the second header byte.
    pub pt: u8,
    /// Where the packet starts in the datagram.
    pub offset: usize,
    /// The packet's whole length in bytes, header included.
    pub len: usize,
}

/// Why an RTCP compound walk rejected the datagram, and where.
#[derive(Clone, Copy, Debug, PartialEq, Eq, Structural)]
pub enum RtcpParseError {
    /// Fewer than four header bytes remain at `offset`.
    Truncated { offset: usize },
    /// The version bits at `offset` are not 2.
    BadVersion { offset: usize },
    /// The packet at `offset` declares a length past the envelope.
    Overrun { offset: usize },
}

/// The length in bytes that the RTCP packet header at `off` declares:
/// the 16-bit word count plus one, times four.
pub open spec fn rtcp_len_at(d: Seq<u8>, off: int) -> int {
    4 * (be16(d, off + 2) + 1)
}

/// The compound walk from `off`: the packets to the end of the envelope,
/// or the first fault.
pub open spec fn rtcp_walk(d: Seq<u8>, off: int) -> Result<Seq<RtcpChunk>, RtcpParseError>
    decreases d.len() - off,
{
    if off >= d.len() {
        Result::Ok(Seq::empty())
    } else if d.len() - off < 4 {
        Result::Err(RtcpParseError::Truncated { offset: off as usize })
    } else if d[off] as int / 64 != 2 {
        Result::Err(RtcpParseError::BadVersion { offset: off as usize })
    } else if rtcp_len_at(d, off) > d.len() - off {
        Result::Err(RtcpParseError::Overrun { offset: off as usize })
    } else {
        match rtcp_walk(d, off + rtcp_len_at(d, off)) {
            Result::Ok(rest) => Result::Ok(
                seq![
                    RtcpChunk {
                        pt: d[off + 1],
                        offset: off as usize,
                        len: rtcp_len_at(d, off) as usize,
                    },
                ] + rest,
            ),
            Result::Err(e) => Result::Err(e),
        }
    }
}

/// Walk a compound RTCP datagram into its packets.  Total: any malformed
/// compound is rejected with the offset of the first fault, never a panic,
/// and no inner length may overrun the compound envelope.
pub fn parse_rtcp_compound(data: &Vec<u8>) -> (r: Result<Vec<RtcpChunk>, RtcpParseError>)
    ensures
        match r {
            Result::Ok(v) => rtcp_walk(data@, 0) == Result::<_, RtcpParseError>::Ok(v@),
            Result::Err(e) => rtcp_walk(data@, 0) == Result::<Seq<RtcpChunk>, _>::Err(e),
        },
{
    let total = data.len();
    let mut acc: Vec<RtcpChunk> = Vec::new();
    let mut off: usize = 0;
    proof {
        assert(acc@ + rtcp_walk(data@, 0).unwrap() =~= rtcp_walk(data@, 0).unwrap());
    }
    while off < total
        invariant
            total == data@.len(),
            off <= total,
            rtcp_walk(data@, 0) == match rtcp_walk(data@, off as int) {
                Result::Ok(rest) => Result::<_, RtcpParseError>::Ok(acc@ + rest),
                Result::Err(e) => Result::<Seq<RtcpChunk>, _>::Err(e),
            },
        decreases total - off,
    {
        if total - off < 4 {
            return Err(RtcpParseError::Truncated { offset: off });
        }
        if data[off] / 64 != 2 {
            return Err(RtcpParseError::BadVersion { offset: off });
        }
        let words = (data[off + 2] as usize) * 0x100 + (data[off + 3] as usize);
        let l: usize = 4 * (words + 1);
        proof {
            assert(l as int == rtcp_len_at(data@, off as int));
        }
        if l > total - off {
            return Err(RtcpParseError::Overrun { offset: off });
        }
        let chunk = RtcpChunk { pt: data[off + 1], offset: off, len: l };
        proof {
            let rest0 = rtcp_walk(data@, off as int);
            if let Result::Ok(rest) = rtcp_walk(data@, off as int + l as int) {
                assert(rest0 == Result::<_, RtcpParseError>::Ok(seq![chunk] + rest));
                assert(acc@.push(chunk) + rest =~= acc@ + (seq![chunk] + rest));
            }
        }
        acc.push(chunk);
        off = off + l;
    }
    proof {
        assert(rtcp_walk(data@, off as int) == Result::<Seq<RtcpChunk>, RtcpParseError>::Ok(
            Seq::empty(),
        ));
        assert(acc@ + Seq::<RtcpChunk>::empty() =~= acc@);
    }
    Ok(acc)
}

} // verus!
