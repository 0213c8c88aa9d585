//! The session driver: one clock, input routing, output scheduling.
//!
//! The session owns the ICE agent and the stream registry, shares one
//! monotonic clock with the host, routes inbound datagrams by first-byte
//! classification, computes the next wake-up as the minimum over every
//! subsystem deadline, and gates media egress on a nominated pair.

use vstd::prelude::*;

use crate::ice;
use crate::ice::IceAgent;
use crate::nack;
use crate::rollover;
use crate::rollover::SEQ_MODULUS;
use crate::rtp;
use crate::rtp::DatagramKind;
use crate::rtp::SeqNo;
use crate::rtp::Ssrc;
use crate::streams;
use crate::streams::Streams;
use crate::time::Instant;

verus! {

/// Packets held for an SSRC no receive stream owns yet.
pub const UNKNOWN_SSRC_QUEUE: usize = 100;

/// One buffered packet waiting for its media line.
#[derive(Clone, Copy, Debug, PartialEq, Eq, Structural)]
pub struct PendingPacket {
    pub ssrc: Ssrc,
    pub wire_seq: u16,
    pub arrived: Instant,
}

/// A single-threaded, sans-I/O endpoint core.
pub struct Session {
    ice: IceAgent,
    streams: Streams,
    /// The last instant the host handed in; the clock never runs backward.
    now: Instant,
    /// Datagrams dropped for failing to parse; no event is surfaced.
    malformed_count: u64,
    /// Packets for unknown SSRCs, buffered pending media-line binding.
    unknown: Vec<PendingPacket>,
}

/// The packets of `s` that are not owned by `ssrc`, in order.
pub open spec fn without_ssrc(s: Seq<PendingPacket>, ssrc: Ssrc, n: int) -> Seq<PendingPacket>
    decreases n,
{
    if n <= 0 {
        Seq::empty()
    } else if s[n - 1].ssrc == ssrc {
        without_ssrc(s, ssrc, n - 1)
    } else {
        without_ssrc(s, ssrc, n - 1).push(s[n - 1])
    }
}

/// The packets of `s` that are owned by `ssrc`, in order.
pub open spec fn with_ssrc(s: Seq<PendingPacket>, ssrc: Ssrc, n: int) -> Seq<PendingPacket>
    decreases n,
{
    if n <= 0 {
        Seq::empty()
    } else if s[n - 1].ssrc == ssrc {
        with_ssrc(s, ssrc, n - 1).push(s[n - 1])
    } else {
        with_ssrc(s, ssrc, n - 1)
    }
}

impl Session {
    pub closed spec fn ice_spec(self) -> IceAgent {
        self.ice
    }

    pub closed spec fn streams_spec(self) -> Streams {
        self.streams
    }

    pub closed spec fn now_spec(self) -> Instant {
        self.now
    }

    pub closed spec fn malformed_count_spec(self) -> int {
        self.malformed_count as int
    }

    pub closed spec fn unknown_spec(self) -> Seq<PendingPacket> {
        self.unknown@
    }

    pub open spec fn wf(self) -> bool {
        &&& self.ice_spec().wf()
        &&& self.streams_spec().wf()
    }

    pub fn new() -> (r: Session)
        ensures
            r.wf(),
            r.ice_spec().state_spec() is New,
            r.streams_spec().rx_spec().len() == 0,
            r.streams_spec().tx_spec().len() == 0,
            r.now_spec() == (Instant { millis: 0 }),
            r.malformed_count_spec() == 0,
            r.unknown_spec() == Seq::<PendingPacket>::empty(),
    {
        Session {
            ice: IceAgent::new(),
            streams: Streams::new(),
            now: Instant::new(0),
            malformed_count: 0,
            unknown: Vec::new(),
        }
    }

    /// Mutable access to the connectivity agent.
    pub fn ice(&mut self) -> (r: &mut IceAgent)
        ensures
            *r == old(self).ice_spec(),
            final(self).ice_spec() == *final(r),
            final(self).streams_spec() == old(self).streams_spec(),
            final(self).now_spec() == old(self).now_spec(),
            final(self).malformed_count_spec() == old(self).malformed_count_spec(),
            final(self).unknown_spec() == old(self).unknown_spec(),
    {
        &mut self.ice
    }

    /// Mutable access to the stream registry.
    pub fn streams(&mut self) -> (r: &mut Streams)
        ensures
            *r == old(self).streams_spec(),
            final(self).streams_spec() == *final(r),
            final(self).ice_spec() == old(self).ice_spec(),
            final(self).now_spec() == old(self).now_spec(),
            final(self).malformed_count_spec() == old(self).malformed_count_spec(),
            final(self).unknown_spec() == old(self).unknown_spec(),
    {
        &mut self.streams
    }

    pub fn malformed_count(&self) -> (r: u64)
        ensures
            r as int == self.malformed_count_spec(),
    {
        self.malformed_count
    }

    /// Advance the shared clock and let the ICE agent run its check
    /// schedules: every pair takes one `pair_step` at `now` and the sent
    /// binding requests are counted.  Time never runs backward, and the
    /// agent state only moves forward.
    pub fn handle_timeout(&mut self, now: Instant)
        requires
            old(self).wf(),
            old(self).now_spec().millis <= now.millis,
            old(self).ice_spec().stats_spec().bind_request_sent <= u64::MAX - old(
                self,
            ).ice_spec().pairs_spec().len(),
        ensures
            final(self).wf(),
            final(self).now_spec() == now,
            final(self).ice_spec().pairs_spec().len() == old(self).ice_spec().pairs_spec().len(),
            forall|i: int|
                0 <= i < old(self).ice_spec().pairs_spec().len() ==> final(
                    self).ice_spec().pairs_spec()[i] == ice::pair_step(
                    #[trigger] old(self).ice_spec().pairs_spec()[i],
                    now,
                ),
            final(self).ice_spec().stats_spec().bind_request_sent as int == old(
                self,
            ).ice_spec().stats_spec().bind_request_sent as int + ice::sum_sends(
                old(self).ice_spec().pairs_spec(),
                now,
                old(self).ice_spec().pairs_spec().len() as int,
            ),
            final(self).ice_spec().stats_spec().bind_success_recv == old(
                self,
            ).ice_spec().stats_spec().bind_success_recv,
            final(self).ice_spec().stats_spec().bind_request_recv == old(
                self,
            ).ice_spec().stats_spec().bind_request_recv,
            final(self).ice_spec().stats_spec().discovered_recv_count == old(
                self,
            ).ice_spec().stats_spec().discovered_recv_count,
            final(self).ice_spec().stats_spec().nomination_send_count == old(
                self,
            ).ice_spec().stats_spec().nomination_send_count,
            final(self).ice_spec().state_spec() == ice::agent_state_of(
                final(self).ice_spec().pairs_spec(),
            ),
            ice::state_progresses(
                old(self).ice_spec().state_spec(),
                final(self).ice_spec().state_spec(),
            ),
            old(self).ice_spec().state_spec() is Disconnected ==> final(
                self).ice_spec().state_spec() is Disconnected,
            final(self).streams_spec() == old(self).streams_spec(),
            final(self).malformed_count_spec() == old(self).malformed_count_spec(),
            final(self).unknown_spec() == old(self).unknown_spec(),
    {
        self.now = now;
        self.ice.handle_timeout(now);
    }

    /// Route one inbound RTP datagram at `now`: classify it, parse the
    /// header, and hand the packet to the receive stream owning its SSRC.
    /// A datagram of any other kind is left to its own subsystem; a
    /// malformed one is dropped and counted, with no event surfaced.
    pub fn handle_rtp_datagram(&mut self, now: Instant, data: &Vec<u8>) -> (r: Option<
        (Ssrc, SeqNo),
    >)
        requires
            old(self).wf(),
            old(self).now_spec().millis <= now.millis,
            old(self).malformed_count_spec() < u64::MAX,
        ensures
            final(self).wf(),
            final(self).now_spec() == now,
            final(self).ice_spec() == old(self).ice_spec(),
            match r {
                Option::Some(ev) => {
                    &&& rtp::classify_spec(data@) is Rtp
                    &&& rtp::rtp_well_formed(data@)
                    &&& ev.0 == rtp::rtp_header_spec(data@).ssrc
                    &&& ({
                        let f = streams::rx_find(old(self).streams_spec().rx_spec(), ev.0);
                        &&& f >= 0
                        &&& ev.1 as int == rollover::extend_spec(
                            old(self).streams_spec().rx_spec()[f].register@,
                            rtp::rtp_header_spec(data@).sequence_number as int,
                            SEQ_MODULUS as int,
                        )
                        &&& nack::packet_received_post(
                            old(self).streams_spec().rx_spec()[f].nack,
                            final(self).streams_spec().rx_spec()[f].nack,
                            ev.1,
                            now,
                        )
                    })
                    &&& final(self).malformed_count_spec() == old(self).malformed_count_spec()
                    &&& final(self).unknown_spec() == old(self).unknown_spec()
                },
                Option::None => {
                    &&& final(self).streams_spec().rx_spec() == old(self).streams_spec().rx_spec()
                    &&& final(self).streams_spec().tx_spec() == old(self).streams_spec().tx_spec()
                    &&& (rtp::classify_spec(data@) is Rtp && !rtp::rtp_well_formed(data@)
                        ==> final(self).malformed_count_spec() == old(self).malformed_count_spec()
                        + 1 && final(self).unknown_spec() == old(self).unknown_spec())
                    &&& (!(rtp::classify_spec(data@) is Rtp) ==> final(
                        self).malformed_count_spec() == old(self).malformed_count_spec() && final(
                        self).unknown_spec() == old(self).unknown_spec())
                    &&& (rtp::classify_spec(data@) is Rtp && rtp::rtp_well_formed(data@)
                        && streams::rx_find(
                        old(self).streams_spec().rx_spec(),
                        rtp::rtp_header_spec(data@).ssrc,
                    ) == -1 ==> final(self).unknown_spec() == (
                    if old(self).unknown_spec().len() < UNKNOWN_SSRC_QUEUE {
                        old(self).unknown_spec().push(
                            PendingPacket {
                                ssrc: rtp::rtp_header_spec(data@).ssrc,
                                wire_seq: rtp::rtp_header_spec(data@).sequence_number,
                                arrived: now,
                            },
                        )
                    } else {
                        old(self).unknown_spec()
                    }))
                },
            },
    {
        self.now = now;
        let kind = rtp::classify(data);
        let is_rtp = match kind {
            DatagramKind::Rtp => true,
            _ => false,
        };
        if !is_rtp {
            return None;
        }
        match rtp::parse_rtp_header(data) {
            Ok((header, _len)) => {
                let known = self.streams.stream_rx(&header.ssrc).is_some();
                if !known {
                    if self.unknown.len() < UNKNOWN_SSRC_QUEUE {
                        self.unknown.push(
                            PendingPacket {
                                ssrc: header.ssrc,
                                wire_seq: header.sequence_number,
                                arrived: now,
                            },
                        );
                    }
                    return None;
                }
                match self.streams.rx_handle_rtp(header.ssrc, header.sequence_number, now) {
                    Some(seq) => Some((header.ssrc, seq)),
                    None => None,
                }
            },
            Err(_) => {
                self.malformed_count = self.malformed_count + 1;
                None
            },
        }
    }

    /// Hand back, and forget, every buffered packet for `ssrc`, in arrival
    /// order, so the host can replay them once the stream is declared.
    pub fn take_unknown(&mut self, ssrc: Ssrc) -> (r: Vec<PendingPacket>)
        requires
            old(self).wf(),
        ensures
            final(self).wf(),
            r@ == with_ssrc(old(self).unknown_spec(), ssrc, old(self).unknown_spec().len() as int),
            final(self).unknown_spec() == without_ssrc(
                old(self).unknown_spec(),
                ssrc,
                old(self).unknown_spec().len() as int,
            ),
            final(self).ice_spec() == old(self).ice_spec(),
            final(self).streams_spec() == old(self).streams_spec(),
            final(self).now_spec() == old(self).now_spec(),
            final(self).malformed_count_spec() == old(self).malformed_count_spec(),
    {
        let n = self.unknown.len();
        let mut taken: Vec<PendingPacket> = Vec::new();
        let mut kept: Vec<PendingPacket> = Vec::new();
        let mut i: usize = 0;
        while i < n
            invariant
                n == self.unknown@.len(),
                i <= n,
                self.unknown@ == old(self).unknown@,
                self.ice == old(self).ice,
                self.streams == old(self).streams,
                self.now == old(self).now,
                self.malformed_count == old(self).malformed_count,
                taken@ == with_ssrc(self.unknown@, ssrc, i as int),
                kept@ == without_ssrc(self.unknown@, ssrc, i as int),
            decreases n - i,
        {
            let p = self.unknown[i];
            if p.ssrc == ssrc {
                taken.push(p);
            } else {
                kept.push(p);
            }
            i = i + 1;
        }
        self.unknown = kept;
        taken
    }

    /// Whether a nominated pair exists, which is what gates media egress.
    pub fn can_send_media(&self) -> (r: bool)
        requires
            self.wf(),
        ensures
            r == ice::any_nominated(self.ice_spec().pairs_spec()),
    {
        let s = self.ice.state();
        proof {
            if ice::any_nominated(self.ice_spec().pairs_spec()) {
                assert(self.ice_spec().pairs_spec().len() > 0);
            }
        }
        s.is_connected()
    }

    /// The next wake-up: the earliest deadline over the ICE check
    /// schedules, the streams' regular feedback and the scheduled NACK
    /// reports, or none when nothing is pending.
    pub fn poll_timeout(&self) -> (r: Option<Instant>)
        ensures
            match r {
                Option::None => {
                    &&& (forall|i: int|
                        0 <= i < self.ice_spec().pairs_spec().len() ==> !ice::pair_active(
                            #[trigger] self.ice_spec().pairs_spec()[i],
                        ))
                    &&& self.streams_spec().rx_spec().len() == 0
                    &&& self.streams_spec().tx_spec().len() == 0
                },
                Option::Some(t) => {
                    &&& (forall|i: int|
                        0 <= i < self.ice_spec().pairs_spec().len() && ice::pair_active(
                            #[trigger] self.ice_spec().pairs_spec()[i],
                        ) ==> t.millis <= self.ice_spec().pairs_spec()[i].next_attempt_at.millis)
                    &&& (forall|i: int|
                        0 <= i < self.streams_spec().rx_spec().len() ==> t.millis <= (
                        #[trigger] self.streams_spec().rx_spec()[i]).next_rr_at.millis)
                    &&& (forall|i: int|
                        0 <= i < self.streams_spec().tx_spec().len() ==> t.millis <= (
                        #[trigger] self.streams_spec().tx_spec()[i]).next_sr_at.millis)
                    &&& (forall|i: int, j: int|
                        0 <= i < self.streams_spec().rx_spec().len() && 0 <= j < (
                        #[trigger] self.streams_spec().rx_spec()[i]).nack.entries_spec().len() && (
                        #[trigger] self.streams_spec().rx_spec()[i].nack.entries_spec()[j]).reports
                            < nack::MAX_NACKS ==> t.millis
                            <= self.streams_spec().rx_spec()[i].nack.entries_spec()[j].next_at)
                    &&& ((exists|i: int|
                        0 <= i < self.ice_spec().pairs_spec().len() && ice::pair_active(
                            #[trigger] self.ice_spec().pairs_spec()[i],
                        ) && t == self.ice_spec().pairs_spec()[i].next_attempt_at) || (exists|
                        i: int,
                    |
                        0 <= i < self.streams_spec().rx_spec().len() && t == (
                        #[trigger] self.streams_spec().rx_spec()[i]).next_rr_at) || (exists|i: int|
                        0 <= i < self.streams_spec().tx_spec().len() && t == (
                        #[trigger] self.streams_spec().tx_spec()[i]).next_sr_at) || (exists|
                        i: int,
                        j: int,
                    |
                        0 <= i < self.streams_spec().rx_spec().len() && 0 <= j < (
                        #[trigger] self.streams_spec().rx_spec()[i]).nack.entries_spec().len() && (
                        #[trigger] self.streams_spec().rx_spec()[i].nack.entries_spec()[j]).reports
                            < nack::MAX_NACKS && t.millis
                            == self.streams_spec().rx_spec()[i].nack.entries_spec()[j].next_at))
                },
            },
    {
        let ice_at = self.ice.poll_timeout();
        let feedback_at = self.streams.regular_feedback_at();
        let nack_at = self.streams.nack_fire_at();
        min_opt(min_opt(ice_at, feedback_at), nack_at)
    }
}

/// The earlier of two optional deadlines.
fn min_opt(a: Option<Instant>, b: Option<Instant>) -> (r: Option<Instant>)
    ensures
        match r {
            Option::None => a is None && b is None,
            Option::Some(t) => {
                &&& (a matches Option::Some(x) ==> t.millis <= x.millis)
                &&& (b matches Option::Some(x) ==> t.millis <= x.millis)
                &&& (a == Option::Some(t) || b == Option::Some(t))
            },
        },
{
    match (a, b) {
        (None, None) => None,
        (Some(x), None) => Some(x),
        (None, Some(y)) => Some(y),
        (Some(x), Some(y)) => if x.millis <= y.millis {
            Some(x)
        } else {
            Some(y)
        },
    }
}

} // verus!
