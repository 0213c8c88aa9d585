//! Short-window retention of sent packets for retransmission.
//!
//! The cache keeps sent packets keyed by extended sequence number for at
//! most a configured age or a configured count, whichever binds first;
//! eviction removes the oldest packets.  A NACK looks a packet up by its
//! sequence number and gets it only while it is still resident.

use vstd::prelude::*;

use crate::streams::StreamPacket;
use crate::time::Duration;
use crate::time::Instant;

verus! {

/// Default upper bound on resident packets.
pub const DEFAULT_RTX_CACHE_PACKETS: usize = 1024;

/// Default upper bound on a resident packet's age, in milliseconds.
pub const DEFAULT_RTX_CACHE_AGE_MILLIS: u64 = 1000;

/// The state of the cache after eviction at `now`: the longest suffix
/// whose length is within `max_packets` and whose oldest packet is no
/// older than `max_age`.
pub open spec fn evict_spec(s: Seq<StreamPacket>, now: int, max_age: int, max_packets: int) -> Seq<
    StreamPacket,
>
    decreases s.len(),
{
    if s.len() == 0 {
        s
    } else if s.len() > max_packets || s[0].timestamp.millis + max_age < now {
        evict_spec(s.drop_first(), now, max_age, max_packets)
    } else {
        s
    }
}

/// Index of the resident packet with sequence `seq`, or -1.
pub open spec fn find_packet(s: Seq<StreamPacket>, seq: u64) -> int
    decreases s.len(),
{
    if s.len() == 0 {
        -1
    } else if s[0].seq_no == seq {
        0
    } else {
        let rest = find_packet(s.drop_first(), seq);
        if rest == -1 {
            -1
        } else {
            rest + 1
        }
    }
}

/// Retention cache for one transmit stream.
pub struct RtxCache {
    max_packets: usize,
    max_age_millis: u64,
    packets: Vec<StreamPacket>,
}

impl RtxCache {
    /// Resident packets are in strictly ascending sequence order.
    pub open spec fn wf(self) -> bool {
        forall|i: int, j: int|
            0 <= i < j < self.packets_spec().len() ==> self.packets_spec()[i].seq_no
                < self.packets_spec()[j].seq_no
    }

    pub closed spec fn packets_spec(self) -> Seq<StreamPacket> {
        self.packets@
    }

    pub closed spec fn max_packets_spec(self) -> int {
        self.max_packets as int
    }

    pub closed spec fn max_age_spec(self) -> int {
        self.max_age_millis as int
    }

    pub fn new(max_packets: usize, max_age: Duration) -> (r: RtxCache)
        ensures
            r.wf(),
            r.packets_spec() == Seq::<StreamPacket>::empty(),
            r.max_packets_spec() == max_packets as int,
            r.max_age_spec() == max_age.millis as int,
    {
        RtxCache { max_packets, max_age_millis: max_age.millis, packets: Vec::new() }
    }

    /// Retain a just-sent packet and evict what the age and count bounds
    /// no longer allow.
    pub fn cache_sent_packet(&mut self, packet: StreamPacket, now: Instant)
        requires
            old(self).wf(),
            forall|i: int|
                0 <= i < old(self).packets_spec().len() ==> (
                #[trigger] old(self).packets_spec()[i]).seq_no < packet.seq_no,
        ensures
            final(self).wf(),
            final(self).max_packets_spec() == old(self).max_packets_spec(),
            final(self).max_age_spec() == old(self).max_age_spec(),
            final(self).packets_spec() == evict_spec(
                old(self).packets_spec().push(packet),
                now.millis as int,
                old(self).max_age_spec(),
                old(self).max_packets_spec(),
            ),
            final(self).packets_spec().len() <= old(self).max_packets_spec(),
    {
        self.packets.push(packet);
        proof {
            assert forall|i: int, j: int|
                0 <= i < j < self.packets@.len() implies self.packets@[i].seq_no
                < self.packets@[j].seq_no by {
                if j == self.packets@.len() - 1 {
                    assert(self.packets@[i] == old(self).packets_spec()[i]);
                } else {
                    assert(self.packets@[i] == old(self).packets_spec()[i]);
                    assert(self.packets@[j] == old(self).packets_spec()[j]);
                }
            }
        }
        let ghost orig = self.packets@;
        while self.packets.len() > 0 && (self.packets.len() > self.max_packets || self.packets[0]
            .timestamp
            .millis
            .saturating_add(self.max_age_millis) < now.millis)
            invariant
                self.max_packets == old(self).max_packets,
                self.max_age_millis == old(self).max_age_millis,
                forall|i: int, j: int|
                    0 <= i < j < self.packets@.len() ==> self.packets@[i].seq_no
                        < self.packets@[j].seq_no,
                evict_spec(
                    self.packets@,
                    now.millis as int,
                    self.max_age_millis as int,
                    self.max_packets as int,
                ) == evict_spec(
                    orig,
                    now.millis as int,
                    self.max_age_millis as int,
                    self.max_packets as int,
                ),
            decreases self.packets@.len(),
        {
            proof {
                let s = self.packets@;
                assert(s.len() > self.max_packets || s[0].timestamp.millis
                    + (self.max_age_millis as int) < (now.millis as int));
                assert(evict_spec(
                    s,
                    now.millis as int,
                    self.max_age_millis as int,
                    self.max_packets as int,
                ) == evict_spec(
                    s.drop_first(),
                    now.millis as int,
                    self.max_age_millis as int,
                    self.max_packets as int,
                ));
                assert(s.remove(0) =~= s.drop_first());
            }
            self.packets.remove(0);
        }
        proof {
            let s = self.packets@;
            if s.len() > 0 {
                assert(evict_spec(
                    s,
                    now.millis as int,
                    self.max_age_millis as int,
                    self.max_packets as int,
                ) == s);
            }
            assert(orig == old(self).packets_spec().push(packet));
        }
    }

    /// Look a resident packet up by extended sequence number.
    pub fn get_cached_packet_by_seq_no(&self, seq: u64) -> (r: Option<&StreamPacket>)
        ensures
            match r {
                Option::Some(p) => {
                    &&& find_packet(self.packets_spec(), seq) >= 0
                    &&& *p == self.packets_spec()[find_packet(self.packets_spec(), seq)]
                    &&& p.seq_no == seq
                },
                Option::None => find_packet(self.packets_spec(), seq) == -1,
            },
    {
        let n = self.packets.len();
        let mut i: usize = 0;
        while i < n
            invariant
                n == self.packets@.len(),
                i <= n,
                forall|k: int| 0 <= k < i ==> self.packets@[k].seq_no != seq,
            decreases n - i,
        {
            if self.packets[i].seq_no == seq {
                proof {
                    lemma_find_packet_at(self.packets@, seq, i as int);
                }
                return Some(&self.packets[i]);
            }
            i = i + 1;
        }
        proof {
            lemma_find_packet_none(self.packets@, seq);
        }
        None
    }
}

/// When every index below `i` misses and `s[i]` matches, `i` is found.
proof fn lemma_find_packet_at(s: Seq<StreamPacket>, seq: u64, i: int)
    requires
        0 <= i < s.len(),
        s[i].seq_no == seq,
        forall|k: int| 0 <= k < i ==> s[k].seq_no != seq,
    ensures
        find_packet(s, seq) == i,
    decreases i,
{
    if i > 0 {
        assert(forall|k: int| 0 <= k < i - 1 ==> s.drop_first()[k] == s[k + 1]);
        assert(s.drop_first()[i - 1] == s[i]);
        lemma_find_packet_at(s.drop_first(), seq, i - 1);
    }
}

/// When no entry matches, nothing is found.
proof fn lemma_find_packet_none(s: Seq<StreamPacket>, seq: u64)
    requires
        forall|k: int| 0 <= k < s.len() ==> s[k].seq_no != seq,
    ensures
        find_packet(s, seq) == -1,
    decreases s.len(),
{
    if s.len() > 0 {
        assert(forall|k: int| 0 <= k < s.len() - 1 ==> s.drop_first()[k] == s[k + 1]);
        lemma_find_packet_none(s.drop_first(), seq);
    }
}

} // verus!
