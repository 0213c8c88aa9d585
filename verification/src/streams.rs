//! Holder of incoming/outgoing encoded streams.
//!
//! Each encoded stream is uniquely identified by an SSRC.  A receive
//! stream keeps a rollover register, a NACK register and its receiver
//! report deadline; a transmit stream keeps its next sequence number, the
//! RTX cache and its sender report deadline.

use vstd::prelude::*;

use crate::nack;
use crate::nack::NackRegister;
use crate::rollover;
use crate::rollover::RolloverRegister;
use crate::rollover::SEQ_MODULUS;
use crate::rtp::Pt;
use crate::rtp::RtpHeader;
use crate::rtp::SeqNo;
use crate::rtp::Ssrc;
use crate::rtx_cache;
use crate::rtx_cache::RtxCache;
use crate::rtx_cache::DEFAULT_RTX_CACHE_AGE_MILLIS;
use crate::rtx_cache::DEFAULT_RTX_CACHE_PACKETS;
use crate::rtp::MediaTime;
use crate::time::instant_plus;
use crate::time::Duration;
use crate::time::Instant;

verus! {

/// Milliseconds between regular receiver reports for video.
pub const RR_INTERVAL_VIDEO_MILLIS: u64 = 1000;

/// Milliseconds between regular receiver reports for audio.
pub const RR_INTERVAL_AUDIO_MILLIS: u64 = 5000;

/// Time between regular receiver reports, by media kind.
pub open spec fn rr_interval_spec(audio: bool) -> int {
    if audio {
        RR_INTERVAL_AUDIO_MILLIS as int
    } else {
        RR_INTERVAL_VIDEO_MILLIS as int
    }
}

pub fn rr_interval(audio: bool) -> (r: Duration)
    ensures
        r.millis as int == rr_interval_spec(audio),
{
    if audio {
        Duration::from_millis(RR_INTERVAL_AUDIO_MILLIS)
    } else {
        Duration::from_millis(RR_INTERVAL_VIDEO_MILLIS)
    }
}

/// One media packet as delivered to or accepted from the host.
#[derive(Debug, PartialEq, Eq)]
pub struct StreamPacket {
    /// Extended sequence number, already projected past rollover.
    pub seq_no: SeqNo,
    /// Payload type of this packet.
    pub pt: Pt,
    /// Extended RTP time in the clock frequency of the codec.
    pub time: MediaTime,
    /// Parsed RTP header.
    pub header: RtpHeader,
    /// RTP payload without the header.
    pub payload: Vec<u8>,
    /// Whether this packet may be asked for again by NACK.
    pub nackable: bool,
    /// When the packet entered the core (sent) or arrived (received).
    pub timestamp: Instant,
}

/// One receiver report block, produced at the regular report cadence.
#[derive(Clone, Copy, Debug, PartialEq, Eq, Structural)]
pub struct ReceiverReport {
    pub ssrc: Ssrc,
    /// Highest extended sequence number received.
    pub max_seq: SeqNo,
    /// Packets actually received.
    pub received: u64,
    /// Packets expected from the sequence number span.
    pub expected: u64,
    /// Cumulative packets lost: expected less received, never negative.
    pub lost: u64,
}

/// Receive state for one SSRC.
pub struct StreamRx {
    pub ssrc: Ssrc,
    pub rtx: Option<Ssrc>,
    pub register: RolloverRegister,
    pub nack: NackRegister,
    pub next_rr_at: Instant,
    /// Packets received on this stream.
    pub packets_received: u64,
    /// The lowest extended sequence seen, once something arrived.
    pub base_seq: Option<SeqNo>,
    /// The highest extended sequence seen.
    pub max_seq: SeqNo,
}

/// Packets expected from the span of sequence numbers seen.
pub open spec fn expected_of(s: StreamRx) -> int {
    match s.base_seq {
        Option::Some(b) => s.max_seq - b + 1,
        Option::None => 0,
    }
}

/// Cumulative loss: expected less received, never negative (duplicates can
/// push the received count past the expected one).
pub open spec fn lost_of(s: StreamRx) -> int {
    if expected_of(s) >= s.packets_received {
        expected_of(s) - s.packets_received
    } else {
        0
    }
}

impl StreamRx {
    /// A freshly declared receive stream for `ssrc`.
    pub open spec fn is_fresh(self, ssrc: Ssrc) -> bool {
        self.is_fresh_with(ssrc, Option::None)
    }

    /// A freshly declared receive stream for `ssrc` with RTX SSRC `rtx`.
    pub open spec fn is_fresh_with(self, ssrc: Ssrc, rtx: Option<Ssrc>) -> bool {
        &&& self.ssrc == ssrc
        &&& self.rtx == rtx
        &&& self.register@ == 0
        &&& self.nack.entries_spec() == Seq::<nack::NackEntry>::empty()
        &&& self.nack.highest_spec() is None
        &&& self.next_rr_at == (Instant { millis: 0 })
        &&& self.packets_received == 0
        &&& self.base_seq is None
        &&& self.max_seq == 0u64
    }

    pub open spec fn wf(self) -> bool {
        &&& self.nack.wf()
        &&& match self.base_seq {
            Option::Some(b) => b <= self.max_seq && self.max_seq < u64::MAX,
            Option::None => true,
        }
    }

    pub fn new(ssrc: Ssrc) -> (r: StreamRx)
        ensures
            r.is_fresh(ssrc),
            r.wf(),
    {
        StreamRx {
            ssrc,
            rtx: None,
            register: RolloverRegister::new(0),
            nack: NackRegister::new(),
            next_rr_at: Instant::new(0),
            packets_received: 0,
            base_seq: None,
            max_seq: 0,
        }
    }

    pub fn set_rtx_ssrc(&mut self, rtx: Ssrc)
        ensures
            *final(self) == (StreamRx { rtx: Some(rtx), ..*old(self) }),
    {
        self.rtx = Some(rtx);
    }

    /// When the next receiver report is due.
    pub fn receiver_report_at(&self) -> (r: Instant)
        ensures
            r == self.next_rr_at,
    {
        self.next_rr_at
    }

    /// At the report deadline, produce the receiver report block and
    /// reschedule one report interval ahead; before it, change nothing.
    pub fn poll_receiver_report(&mut self, now: Instant, audio: bool) -> (r: Option<ReceiverReport>)
        requires
            old(self).wf(),
        ensures
            final(self).wf(),
            r is Some == (old(self).next_rr_at.millis <= now.millis),
            match r {
                Option::Some(rep) => {
                    &&& rep == (ReceiverReport {
                        ssrc: old(self).ssrc,
                        max_seq: old(self).max_seq,
                        received: old(self).packets_received,
                        expected: expected_of(*old(self)) as u64,
                        lost: lost_of(*old(self)) as u64,
                    })
                    &&& *final(self) == (StreamRx {
                        next_rr_at: instant_plus(now, rr_interval_spec(audio)),
                        ..*old(self)
                    })
                },
                Option::None => *final(self) == *old(self),
            },
    {
        if self.next_rr_at.millis <= now.millis {
            self.next_rr_at = now.add(rr_interval(audio));
            let expected = match self.base_seq {
                Some(b) => self.max_seq - b + 1,
                None => 0,
            };
            let lost = if expected >= self.packets_received {
                expected - self.packets_received
            } else {
                0
            };
            Some(
                ReceiverReport {
                    ssrc: self.ssrc,
                    max_seq: self.max_seq,
                    received: self.packets_received,
                    expected,
                    lost,
                },
            )
        } else {
            None
        }
    }

    /// Accept one RTP packet: extend its wire sequence number, record the
    /// arrival against the gap register, and keep the report counters.
    pub fn handle_rtp(&mut self, wire_seq: u16, now: Instant) -> (r: SeqNo)
        requires
            old(self).wf(),
            old(self).register@ <= (u64::MAX - SEQ_MODULUS - nack::MAX_GAP) as int,
            old(self).packets_received < u64::MAX,
        ensures
            final(self).wf(),
            r as int == rollover::extend_spec(
                old(self).register@,
                wire_seq as int,
                SEQ_MODULUS as int,
            ),
            final(self).register@ == r as int,
            nack::packet_received_post(old(self).nack, final(self).nack, r, now),
            final(self).ssrc == old(self).ssrc,
            final(self).rtx == old(self).rtx,
            final(self).next_rr_at == old(self).next_rr_at,
            final(self).packets_received == old(self).packets_received + 1,
            final(self).base_seq == Option::Some(
                match old(self).base_seq {
                    Option::Some(b) => if r < b {
                        r
                    } else {
                        b
                    },
                    Option::None => r,
                },
            ),
            final(self).max_seq == (if old(self).base_seq is Some && old(self).max_seq > r {
                old(self).max_seq
            } else {
                r
            }),
    {
        let seq = self.register.update_seq(wire_seq);
        self.nack.packet_received(seq, now);
        self.packets_received = self.packets_received + 1;
        match self.base_seq {
            Some(b) => {
                if seq < b {
                    self.base_seq = Some(seq);
                }
                if seq > self.max_seq {
                    self.max_seq = seq;
                }
            },
            None => {
                self.base_seq = Some(seq);
                self.max_seq = seq;
            },
        }
        seq
    }

    /// Report the first due missing sequence, if any.
    pub fn poll_nack(&mut self, now: Instant) -> (r: Option<SeqNo>)
        requires
            old(self).wf(),
        ensures
            final(self).wf(),
            nack::poll_post(old(self).nack, final(self).nack, r, now),
            final(self).ssrc == old(self).ssrc,
            final(self).rtx == old(self).rtx,
            final(self).register == old(self).register,
            final(self).next_rr_at == old(self).next_rr_at,
    {
        self.nack.poll(now)
    }

    /// Whether a missing sequence is due for reporting at `now`.
    pub fn has_nack(&self, now: Instant) -> (r: bool)
        requires
            self.wf(),
        ensures
            r == (nack::first_due(self.nack.entries_spec(), now) >= 0),
    {
        self.nack.has_due(now)
    }
}

/// Transmit state for one SSRC.
pub struct StreamTx {
    pub ssrc: Ssrc,
    pub rtx: Option<Ssrc>,
    pub next_seq: SeqNo,
    pub cache: RtxCache,
    pub next_sr_at: Instant,
}

impl StreamTx {
    /// A freshly declared transmit stream for `ssrc`.
    pub open spec fn is_fresh(self, ssrc: Ssrc, rtx: Option<Ssrc>) -> bool {
        &&& self.ssrc == ssrc
        &&& self.rtx == rtx
        &&& self.next_seq == 0u64
        &&& self.cache.packets_spec() == Seq::<StreamPacket>::empty()
        &&& self.cache.max_packets_spec() == DEFAULT_RTX_CACHE_PACKETS as int
        &&& self.cache.max_age_spec() == DEFAULT_RTX_CACHE_AGE_MILLIS as int
        &&& self.next_sr_at == (Instant { millis: 0 })
    }

    /// Cached packets are well-ordered and all assigned before `next_seq`.
    pub open spec fn wf(self) -> bool {
        &&& self.cache.wf()
        &&& forall|i: int|
            0 <= i < self.cache.packets_spec().len() ==> (
            #[trigger] self.cache.packets_spec()[i]).seq_no < self.next_seq
    }

    pub fn new(ssrc: Ssrc, rtx: Option<Ssrc>) -> (r: StreamTx)
        ensures
            r.is_fresh(ssrc, rtx),
            r.wf(),
    {
        StreamTx {
            ssrc,
            rtx,
            next_seq: 0,
            cache: RtxCache::new(
                DEFAULT_RTX_CACHE_PACKETS,
                Duration::from_millis(DEFAULT_RTX_CACHE_AGE_MILLIS),
            ),
            next_sr_at: Instant::new(0),
        }
    }

    /// When the next sender report is due.
    pub fn sender_report_at(&self) -> (r: Instant)
        ensures
            r == self.next_sr_at,
    {
        self.next_sr_at
    }

    /// At the report deadline, reschedule one report interval ahead and say
    /// a report is owed; before it, change nothing.
    pub fn poll_sender_report(&mut self, now: Instant, audio: bool) -> (r: bool)
        ensures
            r == (old(self).next_sr_at.millis <= now.millis),
            if r {
                *final(self) == (StreamTx {
                    next_sr_at: instant_plus(now, rr_interval_spec(audio)),
                    ..*old(self)
                })
            } else {
                *final(self) == *old(self)
            },
    {
        if self.next_sr_at.millis <= now.millis {
            self.next_sr_at = now.add(rr_interval(audio));
            true
        } else {
            false
        }
    }

    /// Assign the next extended sequence number.
    pub fn next_seq_no(&mut self) -> (r: SeqNo)
        requires
            old(self).next_seq < u64::MAX,
        ensures
            r == old(self).next_seq,
            *final(self) == (StreamTx { next_seq: (old(self).next_seq + 1) as u64, ..*old(self) }),
    {
        let r = self.next_seq;
        self.next_seq = self.next_seq + 1;
        r
    }

    /// Retain a just-sent packet for retransmission.
    pub fn cache_sent_packet(&mut self, packet: StreamPacket, now: Instant)
        requires
            old(self).wf(),
            forall|i: int|
                0 <= i < old(self).cache.packets_spec().len() ==> (#[trigger] old(
                    self,
                ).cache.packets_spec()[i]).seq_no < packet.seq_no,
            packet.seq_no < old(self).next_seq,
        ensures
            final(self).wf(),
            final(self).cache.packets_spec() == rtx_cache::evict_spec(
                old(self).cache.packets_spec().push(packet),
                now.millis as int,
                old(self).cache.max_age_spec(),
                old(self).cache.max_packets_spec(),
            ),
            final(self).ssrc == old(self).ssrc,
            final(self).rtx == old(self).rtx,
            final(self).next_seq == old(self).next_seq,
            final(self).next_sr_at == old(self).next_sr_at,
    {
        self.cache.cache_sent_packet(packet, now);
        proof {
            lemma_evict_from(
                old(self).cache.packets_spec().push(packet),
                now.millis as int,
                old(self).cache.max_age_spec(),
                old(self).cache.max_packets_spec(),
                self.next_seq,
            );
        }
    }

    /// Look a retained packet up by extended sequence number.
    pub fn get_cached_packet_by_seq_no(&self, seq: SeqNo) -> (r: Option<&StreamPacket>)
        ensures
            match r {
                Option::Some(p) => {
                    &&& rtx_cache::find_packet(self.cache.packets_spec(), seq) >= 0
                    &&& *p == self.cache.packets_spec()[rtx_cache::find_packet(
                        self.cache.packets_spec(),
                        seq,
                    )]
                    &&& p.seq_no == seq
                },
                Option::None => rtx_cache::find_packet(self.cache.packets_spec(), seq) == -1,
            },
    {
        self.cache.get_cached_packet_by_seq_no(seq)
    }
}

/// Every packet surviving eviction was in the pre-eviction sequence, so a
/// bound on all sequence numbers survives too.
proof fn lemma_evict_from(s: Seq<StreamPacket>, now: int, max_age: int, max_packets: int, bound: u64)
    requires
        forall|i: int| 0 <= i < s.len() ==> (#[trigger] s[i]).seq_no < bound,
    ensures
        forall|i: int|
            0 <= i < rtx_cache::evict_spec(s, now, max_age, max_packets).len() ==> (
            #[trigger] rtx_cache::evict_spec(s, now, max_age, max_packets)[i]).seq_no < bound,
    decreases s.len(),
{
    if s.len() == 0 {
    } else if s.len() > max_packets || s[0].timestamp.millis + max_age < now {
        assert(forall|i: int|
            0 <= i < s.drop_first().len() ==> (#[trigger] s.drop_first()[i]).seq_no < bound);
        lemma_evict_from(s.drop_first(), now, max_age, max_packets, bound);
        assert(rtx_cache::evict_spec(s, now, max_age, max_packets) == rtx_cache::evict_spec(
            s.drop_first(),
            now,
            max_age,
            max_packets,
        ));
    } else {
        assert(rtx_cache::evict_spec(s, now, max_age, max_packets) == s);
    }
}

/// Index of the stream with `ssrc` among the receive streams, or -1.
pub open spec fn rx_find(s: Seq<StreamRx>, ssrc: Ssrc) -> int
    decreases s.len(),
{
    if s.len() == 0 {
        -1
    } else if s[0].ssrc == ssrc {
        0
    } else {
        let rest = rx_find(s.drop_first(), ssrc);
        if rest == -1 {
            -1
        } else {
            rest + 1
        }
    }
}

/// Index of the stream with `ssrc` among the transmit streams, or -1.
pub open spec fn tx_find(s: Seq<StreamTx>, ssrc: Ssrc) -> int
    decreases s.len(),
{
    if s.len() == 0 {
        -1
    } else if s[0].ssrc == ssrc {
        0
    } else {
        let rest = tx_find(s.drop_first(), ssrc);
        if rest == -1 {
            -1
        } else {
            rest + 1
        }
    }
}

/// Holder of incoming/outgoing encoded streams, one per SSRC.
pub struct Streams {
    streams_rx: Vec<StreamRx>,
    streams_tx: Vec<StreamTx>,
}

impl Streams {
    /// SSRCs are unique per direction and every stream is well-formed.
    pub open spec fn wf(self) -> bool {
        &&& forall|i: int, j: int|
            0 <= i < j < self.rx_spec().len() ==> self.rx_spec()[i].ssrc != self.rx_spec()[j].ssrc
        &&& forall|i: int, j: int|
            0 <= i < j < self.tx_spec().len() ==> self.tx_spec()[i].ssrc != self.tx_spec()[j].ssrc
        &&& forall|i: int| 0 <= i < self.rx_spec().len() ==> (#[trigger] self.rx_spec()[i]).wf()
    }

    pub closed spec fn rx_spec(self) -> Seq<StreamRx> {
        self.streams_rx@
    }

    pub closed spec fn tx_spec(self) -> Seq<StreamTx> {
        self.streams_tx@
    }

    pub fn new() -> (r: Streams)
        ensures
            r.wf(),
            r.rx_spec() == Seq::<StreamRx>::empty(),
            r.tx_spec() == Seq::<StreamTx>::empty(),
    {
        Streams { streams_rx: Vec::new(), streams_tx: Vec::new() }
    }

    /// Declare that a receive stream with `ssrc` is expected: create it if
    /// it is new, and adopt the RTX SSRC when one is given.
    pub fn expect_stream_rx(&mut self, ssrc: Ssrc, rtx: Option<Ssrc>)
        requires
            old(self).wf(),
        ensures
            final(self).wf(),
            final(self).tx_spec() == old(self).tx_spec(),
            ({
                let f = rx_find(old(self).rx_spec(), ssrc);
                if f >= 0 {
                    final(self).rx_spec() == old(self).rx_spec().update(
                        f,
                        match rtx {
                            Option::Some(r) => StreamRx { rtx: Some(r), ..old(self).rx_spec()[f] },
                            Option::None => old(self).rx_spec()[f],
                        },
                    )
                } else {
                    &&& final(self).rx_spec().len() == old(self).rx_spec().len() + 1
                    &&& forall|k: int|
                        0 <= k < old(self).rx_spec().len() ==> final(self).rx_spec()[k] == old(
                            self,
                        ).rx_spec()[k]
                    &&& final(self).rx_spec()[old(self).rx_spec().len() as int].is_fresh_with(
                        ssrc,
                        rtx,
                    )
                }
            }),
    {
        let n = self.streams_rx.len();
        let mut i: usize = 0;
        while i < n
            invariant
                old(self).wf(),
                n == self.streams_rx@.len(),
                i <= n,
                self.streams_rx@ == old(self).streams_rx@,
                self.streams_tx@ == old(self).streams_tx@,
                forall|k: int| 0 <= k < i ==> self.streams_rx@[k].ssrc != ssrc,
            decreases n - i,
        {
            if self.streams_rx[i].ssrc == ssrc {
                proof {
                    lemma_rx_find_at(self.streams_rx@, ssrc, i as int);
                }
                if let Some(r) = rtx {
                    let mut s = self.streams_rx.remove(i);
                    s.set_rtx_ssrc(r);
                    self.streams_rx.insert(i, s);
                    proof {
                        assert(self.streams_rx@ =~= old(self).streams_rx@.update(
                            i as int,
                            StreamRx { rtx: Some(r), ..old(self).streams_rx@[i as int] },
                        ));
                    }
                }
                proof {
                    if rtx is None {
                        assert(self.streams_rx@ =~= old(self).streams_rx@.update(
                            i as int,
                            old(self).streams_rx@[i as int],
                        ));
                    }
                }
                return ;
            }
            i = i + 1;
        }
        proof {
            lemma_rx_find_none(self.streams_rx@, ssrc);
        }
        let mut s = StreamRx::new(ssrc);
        if let Some(r) = rtx {
            s.set_rtx_ssrc(r);
        }
        self.streams_rx.push(s);
    }

    /// Shared access to the receive stream with `ssrc`, when there is one.
    pub fn stream_rx(&self, ssrc: &Ssrc) -> (r: Option<&StreamRx>)
        ensures
            match r {
                Option::Some(s) => {
                    &&& rx_find(self.rx_spec(), *ssrc) >= 0
                    &&& *s == self.rx_spec()[rx_find(self.rx_spec(), *ssrc)]
                    &&& s.ssrc == *ssrc
                },
                Option::None => rx_find(self.rx_spec(), *ssrc) == -1,
            },
    {
        let n = self.streams_rx.len();
        let mut i: usize = 0;
        while i < n
            invariant
                n == self.streams_rx@.len(),
                i <= n,
                forall|k: int| 0 <= k < i ==> self.streams_rx@[k].ssrc != *ssrc,
            decreases n - i,
        {
            if self.streams_rx[i].ssrc == *ssrc {
                proof {
                    lemma_rx_find_at(self.streams_rx@, *ssrc, i as int);
                }
                return Some(&self.streams_rx[i]);
            }
            i = i + 1;
        }
        proof {
            lemma_rx_find_none(self.streams_rx@, *ssrc);
        }
        None
    }

    /// Declare a transmit stream with `ssrc`, creating it if it is new, and
    /// hand out mutable access to it.
    pub fn declare_stream_tx(&mut self, ssrc: Ssrc, rtx: Option<Ssrc>) -> (r: &mut StreamTx)
        requires
            old(self).wf(),
        ensures
            final(self).rx_spec() == old(self).rx_spec(),
            ({
                let f = tx_find(old(self).tx_spec(), ssrc);
                if f >= 0 {
                    &&& *r == old(self).tx_spec()[f]
                    &&& final(self).tx_spec() == old(self).tx_spec().update(f, *final(r))
                } else {
                    &&& r.is_fresh(ssrc, rtx)
                    &&& final(self).tx_spec().len() == old(self).tx_spec().len() + 1
                    &&& (forall|k: int|
                        0 <= k < old(self).tx_spec().len() ==> final(self).tx_spec()[k] == old(
                            self,
                        ).tx_spec()[k])
                    &&& final(self).tx_spec()[old(self).tx_spec().len() as int] == *final(r)
                }
            }),
            final(r).ssrc == ssrc ==> final(self).wf(),
    {
        let n = self.streams_tx.len();
        let mut i: usize = 0;
        while i < n
            invariant
                old(self).wf(),
                n == self.streams_tx@.len(),
                i <= n,
                self.streams_rx@ == old(self).streams_rx@,
                self.streams_tx@ == old(self).streams_tx@,
                forall|k: int| 0 <= k < i ==> self.streams_tx@[k].ssrc != ssrc,
            decreases n - i,
        {
            if self.streams_tx[i].ssrc == ssrc {
                proof {
                    lemma_tx_find_at(self.streams_tx@, ssrc, i as int);
                }
                return &mut self.streams_tx[i];
            }
            i = i + 1;
        }
        proof {
            lemma_tx_find_none(self.streams_tx@, ssrc);
        }
        let s = StreamTx::new(ssrc, rtx);
        self.streams_tx.push(s);
        let last = self.streams_tx.len() - 1;
        &mut self.streams_tx[last]
    }

    /// Shared access to the transmit stream with `ssrc`, when there is one.
    pub fn stream_tx(&self, ssrc: &Ssrc) -> (r: Option<&StreamTx>)
        ensures
            match r {
                Option::Some(s) => {
                    &&& tx_find(self.tx_spec(), *ssrc) >= 0
                    &&& *s == self.tx_spec()[tx_find(self.tx_spec(), *ssrc)]
                    &&& s.ssrc == *ssrc
                },
                Option::None => tx_find(self.tx_spec(), *ssrc) == -1,
            },
    {
        let n = self.streams_tx.len();
        let mut i: usize = 0;
        while i < n
            invariant
                n == self.streams_tx@.len(),
                i <= n,
                forall|k: int| 0 <= k < i ==> self.streams_tx@[k].ssrc != *ssrc,
            decreases n - i,
        {
            if self.streams_tx[i].ssrc == *ssrc {
                proof {
                    lemma_tx_find_at(self.streams_tx@, *ssrc, i as int);
                }
                return Some(&self.streams_tx[i]);
            }
            i = i + 1;
        }
        proof {
            lemma_tx_find_none(self.streams_tx@, *ssrc);
        }
        None
    }

    /// The earliest regular report deadline over all streams, or none when
    /// there is no stream.
    pub fn regular_feedback_at(&self) -> (r: Option<Instant>)
        ensures
            match r {
                Option::None => self.rx_spec().len() == 0 && self.tx_spec().len() == 0,
                Option::Some(t) => {
                    &&& (forall|i: int|
                        0 <= i < self.rx_spec().len() ==> t.millis <= (
                        #[trigger] self.rx_spec()[i]).next_rr_at.millis)
                    &&& (forall|i: int|
                        0 <= i < self.tx_spec().len() ==> t.millis <= (
                        #[trigger] self.tx_spec()[i]).next_sr_at.millis)
                    &&& ((exists|i: int|
                        0 <= i < self.rx_spec().len() && t == (
                        #[trigger] self.rx_spec()[i]).next_rr_at) || (exists|i: int|
                        0 <= i < self.tx_spec().len() && t == (
                        #[trigger] self.tx_spec()[i]).next_sr_at))
                },
            },
    {
        let mut best: Option<Instant> = None;
        let n = self.streams_rx.len();
        let mut i: usize = 0;
        while i < n
            invariant
                n == self.streams_rx@.len(),
                i <= n,
                match best {
                    Option::None => i == 0,
                    Option::Some(t) => {
                        &&& (forall|k: int|
                            0 <= k < i ==> t.millis <= (
                            #[trigger] self.streams_rx@[k]).next_rr_at.millis)
                        &&& (exists|k: int|
                            0 <= k < i && t == (#[trigger] self.streams_rx@[k]).next_rr_at)
                    },
                },
            decreases n - i,
        {
            let cand = self.streams_rx[i].receiver_report_at();
            best = match best {
                None => Some(cand),
                Some(t) => if cand.millis < t.millis {
                    Some(cand)
                } else {
                    Some(t)
                },
            };
            i = i + 1;
        }
        let m = self.streams_tx.len();
        let mut j: usize = 0;
        while j < m
            invariant
                m == self.streams_tx@.len(),
                j <= m,
                match best {
                    Option::None => j == 0 && self.streams_rx@.len() == 0,
                    Option::Some(t) => {
                        &&& (forall|k: int|
                            0 <= k < self.streams_rx@.len() ==> t.millis <= (
                            #[trigger] self.streams_rx@[k]).next_rr_at.millis)
                        &&& (forall|k: int|
                            0 <= k < j ==> t.millis <= (
                            #[trigger] self.streams_tx@[k]).next_sr_at.millis)
                        &&& ((exists|k: int|
                            0 <= k < self.streams_rx@.len() && t == (
                            #[trigger] self.streams_rx@[k]).next_rr_at) || (exists|k: int|
                            0 <= k < j && t == (#[trigger] self.streams_tx@[k]).next_sr_at))
                    },
                },
            decreases m - j,
        {
            let cand = self.streams_tx[j].sender_report_at();
            best = match best {
                None => Some(cand),
                Some(t) => if cand.millis < t.millis {
                    Some(cand)
                } else {
                    Some(t)
                },
            };
            j = j + 1;
        }
        best
    }

    /// The earliest scheduled NACK report instant over all receive
    /// streams' gap registers, as a wake-up deadline.
    pub fn nack_fire_at(&self) -> (r: Option<Instant>)
        ensures
            match r {
                Option::None => forall|i: int, j: int|
                    0 <= i < self.rx_spec().len() && 0 <= j < (
                    #[trigger] self.rx_spec()[i]).nack.entries_spec().len() ==> (
                    #[trigger] self.rx_spec()[i].nack.entries_spec()[j]).reports
                        >= nack::MAX_NACKS,
                Option::Some(t) => {
                    &&& (forall|i: int, j: int|
                        0 <= i < self.rx_spec().len() && 0 <= j < (
                        #[trigger] self.rx_spec()[i]).nack.entries_spec().len() && (
                        #[trigger] self.rx_spec()[i].nack.entries_spec()[j]).reports
                            < nack::MAX_NACKS ==> t.millis
                            <= self.rx_spec()[i].nack.entries_spec()[j].next_at)
                    &&& (exists|i: int, j: int|
                        0 <= i < self.rx_spec().len() && 0 <= j < (
                        #[trigger] self.rx_spec()[i]).nack.entries_spec().len() && (
                        #[trigger] self.rx_spec()[i].nack.entries_spec()[j]).reports
                            < nack::MAX_NACKS && t.millis
                            == self.rx_spec()[i].nack.entries_spec()[j].next_at)
                },
            },
    {
        let n = self.streams_rx.len();
        let mut best: Option<Instant> = None;
        let mut i: usize = 0;
        while i < n
            invariant
                n == self.streams_rx@.len(),
                i <= n,
                match best {
                    Option::None => forall|a: int, b: int|
                        0 <= a < i && 0 <= b < (
                        #[trigger] self.streams_rx@[a]).nack.entries_spec().len() ==> (
                        #[trigger] self.streams_rx@[a].nack.entries_spec()[b]).reports
                            >= nack::MAX_NACKS,
                    Option::Some(t) => {
                        &&& (forall|a: int, b: int|
                            0 <= a < i && 0 <= b < (
                            #[trigger] self.streams_rx@[a]).nack.entries_spec().len() && (
                            #[trigger] self.streams_rx@[a].nack.entries_spec()[b]).reports
                                < nack::MAX_NACKS ==> t.millis
                                <= self.streams_rx@[a].nack.entries_spec()[b].next_at)
                        &&& (exists|a: int, b: int|
                            0 <= a < i && 0 <= b < (
                            #[trigger] self.streams_rx@[a]).nack.entries_spec().len() && (
                            #[trigger] self.streams_rx@[a].nack.entries_spec()[b]).reports
                                < nack::MAX_NACKS && t.millis
                                == self.streams_rx@[a].nack.entries_spec()[b].next_at)
                    },
                },
            decreases n - i,
        {
            let cand = self.streams_rx[i].nack.next_fire_at();
            match cand {
                Some(c) => {
                    proof {
                        let b = choose|b: int|
                            0 <= b < self.streams_rx@[i as int].nack.entries_spec().len() && (
                            #[trigger] self.streams_rx@[i as int].nack.entries_spec()[b]).reports
                                < nack::MAX_NACKS && c
                                == self.streams_rx@[i as int].nack.entries_spec()[b].next_at;
                        assert(0 <= b);
                    }
                    best = match best {
                        None => Some(Instant::new(c)),
                        Some(t) => if c < t.millis {
                            Some(Instant::new(c))
                        } else {
                            Some(t)
                        },
                    };
                },
                None => {},
            }
            i = i + 1;
        }
        best
    }

    /// Whether any receive stream has a missing sequence due for NACK.
    pub fn need_nack(&self, now: Instant) -> (r: bool)
        requires
            self.wf(),
        ensures
            r == (exists|i: int|
                0 <= i < self.rx_spec().len() && nack::first_due(
                    (#[trigger] self.rx_spec()[i]).nack.entries_spec(),
                    now,
                ) >= 0),
    {
        let n = self.streams_rx.len();
        let mut i: usize = 0;
        while i < n
            invariant
                self.wf(),
                n == self.streams_rx@.len(),
                i <= n,
                forall|k: int|
                    0 <= k < i ==> nack::first_due(
                        (#[trigger] self.streams_rx@[k]).nack.entries_spec(),
                        now,
                    ) < 0,
            decreases n - i,
        {
            if self.streams_rx[i].has_nack(now) {
                return true;
            }
            i = i + 1;
        }
        false
    }

    /// Route one RTP packet to the receive stream owning its SSRC: extend
    /// the wire sequence and record the arrival against the gap register.
    /// A packet for an unknown SSRC, or one arriving after the extended
    /// counter has no headroom left, is dropped.
    pub fn rx_handle_rtp(&mut self, ssrc: Ssrc, wire_seq: u16, now: Instant) -> (r: Option<SeqNo>)
        requires
            old(self).wf(),
        ensures
            final(self).wf(),
            final(self).tx_spec() == old(self).tx_spec(),
            ({
                let f = rx_find(old(self).rx_spec(), ssrc);
                match r {
                    Option::Some(seq) => {
                        &&& f >= 0
                        &&& seq as int == rollover::extend_spec(
                            old(self).rx_spec()[f].register@,
                            wire_seq as int,
                            SEQ_MODULUS as int,
                        )
                        &&& final(self).rx_spec().len() == old(self).rx_spec().len()
                        &&& (forall|k: int|
                            0 <= k < old(self).rx_spec().len() && k != f ==> final(
                                self).rx_spec()[k] == old(self).rx_spec()[k])
                        &&& final(self).rx_spec()[f].register@ == seq as int
                        &&& nack::packet_received_post(
                            old(self).rx_spec()[f].nack,
                            final(self).rx_spec()[f].nack,
                            seq,
                            now,
                        )
                        &&& final(self).rx_spec()[f].ssrc == ssrc
                    },
                    Option::None => {
                        &&& final(self).rx_spec() == old(self).rx_spec()
                        &&& (f >= 0 ==> old(self).rx_spec()[f].register@ > (u64::MAX - SEQ_MODULUS
                            - nack::MAX_GAP) as int || old(self).rx_spec()[f].packets_received
                            == u64::MAX)
                    },
                }
            }),
    {
        let n = self.streams_rx.len();
        let mut i: usize = 0;
        while i < n
            invariant
                old(self).wf(),
                n == self.streams_rx@.len(),
                i <= n,
                self.streams_rx@ == old(self).streams_rx@,
                self.streams_tx@ == old(self).streams_tx@,
                forall|k: int| 0 <= k < i ==> self.streams_rx@[k].ssrc != ssrc,
            decreases n - i,
        {
            if self.streams_rx[i].ssrc == ssrc {
                proof {
                    lemma_rx_find_at(self.streams_rx@, ssrc, i as int);
                }
                if self.streams_rx[i].register.last() > u64::MAX - SEQ_MODULUS - nack::MAX_GAP
                    || self.streams_rx[i].packets_received == u64::MAX {
                    return None;
                }
                let rx = &mut self.streams_rx[i];
                let seq = rx.handle_rtp(wire_seq, now);
                return Some(seq);
            }
            i = i + 1;
        }
        proof {
            lemma_rx_find_none(self.streams_rx@, ssrc);
        }
        None
    }

    /// Whether any receive stream is declared.
    pub fn is_receiving(&self) -> (r: bool)
        ensures
            r == (self.rx_spec().len() > 0),
    {
        self.streams_rx.len() > 0
    }
}

/// When every index below `i` misses and `s[i]` matches, `i` is found.
proof fn lemma_rx_find_at(s: Seq<StreamRx>, ssrc: Ssrc, i: int)
    requires
        0 <= i < s.len(),
        s[i].ssrc == ssrc,
        forall|k: int| 0 <= k < i ==> s[k].ssrc != ssrc,
    ensures
        rx_find(s, ssrc) == i,
    decreases i,
{
    if i > 0 {
        assert(forall|k: int| 0 <= k < i - 1 ==> s.drop_first()[k] == s[k + 1]);
        assert(s.drop_first()[i - 1] == s[i]);
        lemma_rx_find_at(s.drop_first(), ssrc, i - 1);
    }
}

/// When no stream matches, nothing is found.
proof fn lemma_rx_find_none(s: Seq<StreamRx>, ssrc: Ssrc)
    requires
        forall|k: int| 0 <= k < s.len() ==> s[k].ssrc != ssrc,
    ensures
        rx_find(s, ssrc) == -1,
    decreases s.len(),
{
    if s.len() > 0 {
        assert(forall|k: int| 0 <= k < s.len() - 1 ==> s.drop_first()[k] == s[k + 1]);
        lemma_rx_find_none(s.drop_first(), ssrc);
    }
}

/// When every index below `i` misses and `s[i]` matches, `i` is found.
proof fn lemma_tx_find_at(s: Seq<StreamTx>, ssrc: Ssrc, i: int)
    requires
        0 <= i < s.len(),
        s[i].ssrc == ssrc,
        forall|k: int| 0 <= k < i ==> s[k].ssrc != ssrc,
    ensures
        tx_find(s, ssrc) == i,
    decreases i,
{
    if i > 0 {
        assert(forall|k: int| 0 <= k < i - 1 ==> s.drop_first()[k] == s[k + 1]);
        assert(s.drop_first()[i - 1] == s[i]);
        lemma_tx_find_at(s.drop_first(), ssrc, i - 1);
    }
}

/// When no stream matches, nothing is found.
proof fn lemma_tx_find_none(s: Seq<StreamTx>, ssrc: Ssrc)
    requires
        forall|k: int| 0 <= k < s.len() ==> s[k].ssrc != ssrc,
    ensures
        tx_find(s, ssrc) == -1,
    decreases s.len(),
{
    if s.len() > 0 {
        assert(forall|k: int| 0 <= k < s.len() - 1 ==> s.drop_first()[k] == s[k + 1]);
        lemma_tx_find_none(s.drop_first(), ssrc);
    }
}

} // verus!
