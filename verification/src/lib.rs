//! Sans-I/O core for a real-time media endpoint.
//!
//! The crate is a synchronous state machine: the host feeds it datagrams
//! and timer ticks and polls it for outputs.  It never performs I/O or
//! reads a clock itself.  The subsystems are the wire-format codecs and
//! the datagram classifier (`rtp`, `rtcp`, `stun`), the extended-counter rollover
//! projection (`rollover`), the NACK register (`nack`) and RTX cache
//! (`rtx_cache`), the per-SSRC stream registry (`streams`), the ICE agent
//! (`ice`), the offer/answer negotiator (`format`, `sdp`, `ext`), and the
//! session driver tying them to one clock (`session`).

pub mod ext;
pub mod format;
pub mod ice;
pub mod nack;
pub mod sdp;
pub mod rollover;
pub mod rtcp;
pub mod rtp;
pub mod rtx_cache;
pub mod session;
pub mod streams;
pub mod stun;
pub mod time;
