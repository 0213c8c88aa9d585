//! STUN message structure: header validation and attribute walking.
//!
//! A message is a 20-byte header — type with the two top bits zero, a
//! length that is a multiple of four and fills the rest of the datagram
//! exactly, and the fixed magic cookie — followed by type-length-value
//! attributes, each padded to a four-byte boundary.  Checking the
//! MESSAGE-INTEGRITY and FINGERPRINT contents is the crypto collaborator's
//! work; the structure walked here is what that check runs over.

use vstd::prelude::*;

use crate::rtp::be16;
use crate::rtp::be32;

verus! {

/// The fixed STUN magic cookie.
pub const MAGIC_COOKIE: u32 = 0x2112_A442;

/// The fixed part of a STUN message.
#[derive(Clone, Copy, Debug, PartialEq, Eq, Structural)]
pub struct StunHeader {
    /// Message type: method and class bits.
    pub msg_type: u16,
    /// Length of everything after the header, in bytes.
    pub length: u16,
}

/// One attribute inside a STUN message.
#[derive(Clone, Copy, Debug, PartialEq, Eq, Structural)]
pub struct StunAttribute {
    /// The 16-bit attribute type.
    pub attr_type: u16,
    /// Where the attribute's value starts in the datagram.
    pub value_offset: usize,
    /// The value's unpadded length in bytes.
    pub value_len: usize,
}

/// Why a STUN message was rejected, and where.
#[derive(Clone, Copy, Debug, PartialEq, Eq, Structural)]
pub enum StunParseError {
    /// Fewer bytes remain at `offset` than the structure declares.
    Truncated { offset: usize },
    /// The two top bits of the message type are not zero.
    BadType,
    /// The magic cookie is absent.
    BadCookie,
    /// The declared length is not a whole number of words or does not
    /// fill the datagram exactly.
    BadLength,
}

/// The header is sound and fills the datagram exactly.
pub open spec fn stun_header_ok(d: Seq<u8>) -> bool {
    &&& d.len() >= 20
    &&& d[0] < 4
    &&& be32(d, 4) == MAGIC_COOKIE
    &&& be16(d, 2) % 4 == 0
    &&& d.len() == 20 + be16(d, 2)
}

/// An attribute's total footprint: four header bytes plus the value,
/// padded to a four-byte boundary.
pub open spec fn attr_footprint(d: Seq<u8>, off: int) -> int {
    let vlen = be16(d, off + 2);
    4 + vlen + (4 - vlen % 4) % 4
}

/// The attribute walk from `off` to the end of the datagram: every
/// attribute, or the offset where one is cut short.
pub open spec fn stun_attrs(d: Seq<u8>, off: int) -> Result<Seq<StunAttribute>, StunParseError>
    decreases d.len() - off,
{
    if off >= d.len() {
        Result::Ok(Seq::empty())
    } else if d.len() - off < 4 || d.len() - off < attr_footprint(d, off) {
        Result::Err(StunParseError::Truncated { offset: off as usize })
    } else {
        match stun_attrs(d, off + attr_footprint(d, off)) {
            Result::Ok(rest) => Result::Ok(
                seq![
                    StunAttribute {
                        attr_type: be16(d, off) as u16,
                        value_offset: (off + 4) as usize,
                        value_len: be16(d, off + 2) as usize,
                    },
                ] + rest,
            ),
            Result::Err(e) => Result::Err(e),
        }
    }
}

/// Validate the header and walk the attributes of a STUN message.
/// Total: every malformed message is rejected with the reason, never a
/// panic; nothing is accepted whose attributes overrun the datagram.
pub fn parse_stun_message(data: &Vec<u8>) -> (r: Result<
    (StunHeader, Vec<StunAttribute>),
    StunParseError,
>)
    ensures
        match r {
            Result::Ok(p) => {
                &&& stun_header_ok(data@)
                &&& p.0.msg_type as int == be16(data@, 0)
                &&& p.0.length as int == be16(data@, 2)
                &&& stun_attrs(data@, 20) == Result::<_, StunParseError>::Ok(p.1@)
            },
            Result::Err(e) => {
                &&& !(stun_header_ok(data@) && stun_attrs(data@, 20) is Ok)
                &&& e == (if data@.len() < 20 {
                    StunParseError::Truncated { offset: data@.len() as usize }
                } else if data@[0] >= 4 {
                    StunParseError::BadType
                } else if be32(data@, 4) != MAGIC_COOKIE {
                    StunParseError::BadCookie
                } else if !(be16(data@, 2) % 4 == 0 && data@.len() == 20 + be16(data@, 2)) {
                    StunParseError::BadLength
                } else {
                    stun_attrs(data@, 20)->Err_0
                })
            },
        },
{
    let total = data.len();
    if total < 20 {
        return Err(StunParseError::Truncated { offset: total });
    }
    if data[0] >= 4 {
        return Err(StunParseError::BadType);
    }
    let cookie = (data[4] as u32) * 0x100_0000 + (data[5] as u32) * 0x1_0000 + (data[6] as u32)
        * 0x100 + (data[7] as u32);
    if cookie != MAGIC_COOKIE {
        return Err(StunParseError::BadCookie);
    }
    let length = (data[2] as u16) * 0x100 + (data[3] as u16);
    if !(length % 4 == 0 && total - 20 == length as usize) {
        return Err(StunParseError::BadLength);
    }
    let header = StunHeader { msg_type: (data[0] as u16) * 0x100 + (data[1] as u16), length };
    let mut acc: Vec<StunAttribute> = Vec::new();
    let mut off: usize = 20;
    proof {
        if let Result::Ok(rest) = stun_attrs(data@, 20) {
            assert(acc@ + rest =~= rest);
        }
    }
    while off < total
        invariant
            total == data@.len(),
            20 <= off <= total,
            stun_header_ok(data@),
            stun_attrs(data@, 20) == match stun_attrs(data@, off as int) {
                Result::Ok(rest) => Result::<_, StunParseError>::Ok(acc@ + rest),
                Result::Err(e) => Result::<Seq<StunAttribute>, _>::Err(e),
            },
        decreases total - off,
    {
        if total - off < 4 {
            proof {
                assert(stun_attrs(data@, off as int) == Result::<
                    Seq<StunAttribute>,
                    StunParseError,
                >::Err(StunParseError::Truncated { offset: off }));
            }
            return Err(StunParseError::Truncated { offset: off });
        }
        let vlen = (data[off + 2] as usize) * 0x100 + (data[off + 3] as usize);
        let footprint: usize = 4 + vlen + (4 - vlen % 4) % 4;
        proof {
            assert(footprint as int == attr_footprint(data@, off as int));
        }
        if total - off < footprint {
            proof {
                assert(stun_attrs(data@, off as int) == Result::<
                    Seq<StunAttribute>,
                    StunParseError,
                >::Err(StunParseError::Truncated { offset: off }));
            }
            return Err(StunParseError::Truncated { offset: off });
        }
        let attr = StunAttribute {
            attr_type: (data[off] as u16) * 0x100 + (data[off + 1] as u16),
            value_offset: off + 4,
            value_len: vlen,
        };
        proof {
            if let Result::Ok(rest) = stun_attrs(data@, off as int + footprint as int) {
                assert(stun_attrs(data@, off as int) == Result::<_, StunParseError>::Ok(
                    seq![attr] + rest,
                ));
                assert(acc@.push(attr) + rest =~= acc@ + (seq![attr] + rest));
            }
        }
        acc.push(attr);
        off = off + footprint;
    }
    proof {
        assert(stun_attrs(data@, off as int) == Result::<Seq<StunAttribute>, StunParseError>::Ok(
            Seq::empty(),
        ));
        assert(acc@ + Seq::<StunAttribute>::empty() =~= acc@);
    }
    Ok((header, acc))
}

} // verus!
