//! Codec descriptions and payload parameters.

use vstd::prelude::*;

use crate::rtp::Pt;

verus! {

/// The codecs the negotiator knows how to describe.
#[derive(Clone, Copy, Debug, PartialEq, Eq, Structural, Hash)]
pub enum Codec {
    Opus,
    Vp8,
    H264,
    Vp9,
    Av1,
}

impl Codec {
    /// Whether this codec carries audio (as opposed to video).
    pub open spec fn is_audio_spec(self) -> bool {
        self is Opus
    }

    pub fn is_audio(&self) -> (r: bool)
        ensures
            r == self.is_audio_spec(),
    {
        match self {
            Codec::Opus => true,
            _ => false,
        }
    }
}

/// Format parameters carried beside a codec in an offer.
#[derive(Clone, Copy, Debug, PartialEq, Eq, Structural)]
pub struct FormatParams {
    /// Profile identifier, when the codec distinguishes profiles.
    pub profile_id: Option<u32>,
    /// Minimum packet time requested, in milliseconds.
    pub min_ptime: Option<u32>,
}

impl FormatParams {
    pub fn empty() -> (r: FormatParams)
        ensures
            r == (FormatParams { profile_id: None, min_ptime: None }),
    {
        FormatParams { profile_id: None, min_ptime: None }
    }
}

impl Default for FormatParams {
    fn default() -> (r: FormatParams)
        ensures
            r == (FormatParams { profile_id: None, min_ptime: None }),
    {
        FormatParams { profile_id: None, min_ptime: None }
    }
}

/// What identifies a codec configuration apart from its payload type.
#[derive(Clone, Copy, Debug, PartialEq, Eq, Structural)]
pub struct CodecSpec {
    pub codec: Codec,
    pub clock_rate: u32,
    pub channels: Option<u32>,
    pub format: FormatParams,
}

/// One negotiable payload type entry.
#[derive(Clone, Copy, Debug, PartialEq, Eq, Structural)]
pub struct PayloadParams {
    /// The payload type this side uses for the codec.
    pub pt: Pt,
    /// The payload type for resends, when RTX is offered.
    pub resend: Option<Pt>,
    /// The codec this entry stands for.
    pub spec_: CodecSpec,
    /// Set once an offer/answer round has fixed the payload type.
    pub locked: bool,
}

impl PayloadParams {
    pub fn new(pt: Pt, resend: Option<Pt>, spec_: CodecSpec) -> (r: PayloadParams)
        ensures
            r == (PayloadParams { pt, resend, spec_, locked: false }),
    {
        PayloadParams { pt, resend, spec_, locked: false }
    }

    pub fn pt(&self) -> (r: Pt)
        ensures
            r == self.pt,
    {
        self.pt
    }

    pub fn is_locked(&self) -> (r: bool)
        ensures
            r == self.locked,
    {
        self.locked
    }
}

} // verus!
