//! ICE agent: candidate pairs, check scheduling and state aggregation.
//!
//! Every local/remote candidate pair carries its own binding-check
//! schedule: a first request as soon as the pair exists, retransmissions
//! with doubled timeouts, and one final wait, after which the pair fails.
//! The agent state is an aggregate of the pair states and only ever moves
//! forward along `New < Checking < Connected < Completed`, with
//! `Disconnected` reachable from any of them once every pair has failed.

use vstd::prelude::*;

use crate::time::instant_plus;
use crate::time::Instant;

verus! {

/// Base retransmission timeout for binding requests, in milliseconds.
pub const RTO_MILLIS: u64 = 100;

/// Multiplier of the base timeout for the final wait.
pub const FINAL_WAIT_FACTOR: u64 = 16;

/// Binding requests sent per pair before it fails: the initial request,
/// seven retransmissions, and one final request before the last wait.
pub const MAX_BIND_REQUESTS: u64 = 9;

#[derive(Clone, Copy, Debug, PartialEq, Eq, Structural, Hash)]
pub enum CandidateKind {
    Host,
    ServerReflexive,
    PeerReflexive,
    Relay,
}

/// The type preference of a candidate kind, highest first.
pub open spec fn kind_preference(kind: CandidateKind) -> u32 {
    match kind {
        CandidateKind::Host => 126,
        CandidateKind::PeerReflexive => 110,
        CandidateKind::ServerReflexive => 100,
        CandidateKind::Relay => 0,
    }
}

/// A transport candidate.  Immutable once added.
#[derive(Clone, Copy, Debug, PartialEq, Eq, Structural)]
pub struct Candidate {
    pub ip: u32,
    pub port: u16,
    pub kind: CandidateKind,
    pub prio: u32,
}

/// The candidate priority: the kind preference in the top byte.
pub open spec fn candidate_prio(kind: CandidateKind) -> u32 {
    (kind_preference(kind) * 0x100_0000) as u32
}

impl Candidate {
    /// A host candidate for a local interface address.
    pub fn host(ip: u32, port: u16) -> (r: Candidate)
        ensures
            r == (Candidate {
                ip,
                port,
                kind: CandidateKind::Host,
                prio: candidate_prio(CandidateKind::Host),
            }),
    {
        Candidate { ip, port, kind: CandidateKind::Host, prio: 126 * 0x100_0000 }
    }
}

/// The pair priority derived from the controlling side's candidate
/// priority `g` and the controlled side's `d`.
pub open spec fn pair_priority(g: u32, d: u32) -> u64 {
    let lo = if g <= d {
        g as int
    } else {
        d as int
    };
    let hi = if g <= d {
        d as int
    } else {
        g as int
    };
    (lo * 0x1_0000_0000 + hi * 2 + if g > d {
        1int
    } else {
        0int
    }) as u64
}

#[derive(Clone, Copy, Debug, PartialEq, Eq, Structural)]
pub enum PairState {
    Waiting,
    InProgress,
    Succeeded,
    Failed,
}

/// One candidate pair with its binding-check schedule.
#[derive(Clone, Copy, Debug, PartialEq, Eq, Structural)]
pub struct CandidatePair {
    /// Index of the local candidate.
    pub local: usize,
    /// Index of the remote candidate.
    pub remote: usize,
    pub prio: u64,
    pub state: PairState,
    /// Binding requests sent on this pair so far.
    pub attempts: u64,
    /// When the next scheduled event of this pair is due.
    pub next_attempt_at: Instant,
    pub nominated: bool,
}

/// The retransmission delay after the `n`th request: the base timeout
/// doubled each time.
pub open spec fn retransmit_delay(n: int) -> int {
    if n <= 0 {
        100
    } else if n == 1 {
        200
    } else if n == 2 {
        400
    } else if n == 3 {
        800
    } else if n == 4 {
        1600
    } else if n == 5 {
        3200
    } else if n == 6 {
        6400
    } else {
        12800
    }
}

fn retransmit_delay_exec(n: u64) -> (r: u64)
    ensures
        r as int == retransmit_delay(n as int),
{
    if n == 0 {
        100
    } else if n == 1 {
        200
    } else if n == 2 {
        400
    } else if n == 3 {
        800
    } else if n == 4 {
        1600
    } else if n == 5 {
        3200
    } else if n == 6 {
        6400
    } else {
        12800
    }
}

/// Whether the pair still runs checks.
pub open spec fn pair_active(p: CandidatePair) -> bool {
    p.state is Waiting || p.state is InProgress
}

/// One timer tick of a pair at `now`: an active pair whose deadline has
/// passed either sends its next binding request (scheduling a doubled
/// retransmission timeout, or the final wait after the last request) or,
/// with no requests left, fails.  Anything else is untouched.
pub open spec fn pair_step(p: CandidatePair, now: Instant) -> CandidatePair {
    if pair_active(p) && p.next_attempt_at.millis <= now.millis {
        if p.attempts < MAX_BIND_REQUESTS {
            CandidatePair {
                state: PairState::InProgress,
                attempts: (p.attempts + 1) as u64,
                next_attempt_at: if p.attempts + 1 < MAX_BIND_REQUESTS {
                    instant_plus(now, retransmit_delay(p.attempts as int))
                } else {
                    instant_plus(now, (RTO_MILLIS * FINAL_WAIT_FACTOR) as int)
                },
                ..p
            }
        } else {
            CandidatePair { state: PairState::Failed, ..p }
        }
    } else {
        p
    }
}

/// Whether the tick sends a binding request on the pair.
pub open spec fn pair_sends(p: CandidatePair, now: Instant) -> int {
    if pair_active(p) && p.next_attempt_at.millis <= now.millis && p.attempts
        < MAX_BIND_REQUESTS {
        1
    } else {
        0
    }
}

/// Binding requests sent over the first `n` pairs in one tick.
pub open spec fn sum_sends(pairs: Seq<CandidatePair>, now: Instant, n: int) -> int
    decreases n,
{
    if n <= 0 {
        0
    } else {
        sum_sends(pairs, now, n - 1) + pair_sends(pairs[n - 1], now)
    }
}

#[derive(Clone, Copy, Debug, PartialEq, Eq, Structural)]
pub enum IceConnectionState {
    New,
    Checking,
    Connected,
    Completed,
    Disconnected,
}

impl IceConnectionState {
    pub fn is_disconnected(&self) -> (r: bool)
        ensures
            r == (*self is Disconnected),
    {
        match self {
            IceConnectionState::Disconnected => true,
            _ => false,
        }
    }

    pub fn is_connected(&self) -> (r: bool)
        ensures
            r == (*self is Connected || *self is Completed),
    {
        match self {
            IceConnectionState::Connected => true,
            IceConnectionState::Completed => true,
            _ => false,
        }
    }
}

/// The rank of a state along the forward order.
pub open spec fn state_rank(s: IceConnectionState) -> int {
    match s {
        IceConnectionState::New => 0,
        IceConnectionState::Checking => 1,
        IceConnectionState::Connected => 2,
        IceConnectionState::Completed => 3,
        IceConnectionState::Disconnected => 4,
    }
}

/// `b` is reachable from `a` without going backward: either forward along
/// `New < Checking < Connected < Completed` or a fall to `Disconnected`.
pub open spec fn state_progresses(a: IceConnectionState, b: IceConnectionState) -> bool {
    state_rank(a) <= state_rank(b) || b is Disconnected
}

/// A nominated pair that has succeeded carries media.
pub open spec fn pair_nominated(p: CandidatePair) -> bool {
    p.nominated && p.state is Succeeded
}

pub open spec fn any_nominated(pairs: Seq<CandidatePair>) -> bool {
    exists|i: int| 0 <= i < pairs.len() && pair_nominated(#[trigger] pairs[i])
}

pub open spec fn all_failed(pairs: Seq<CandidatePair>) -> bool {
    forall|i: int| 0 <= i < pairs.len() ==> (#[trigger] pairs[i]).state is Failed
}

/// No pair has checks left to run.
pub open spec fn all_settled(pairs: Seq<CandidatePair>) -> bool {
    forall|i: int| 0 <= i < pairs.len() ==> !pair_active(#[trigger] pairs[i])
}

/// The aggregate agent state: `New` with no pairs; `Connected` on a
/// nomination, `Completed` once no checks are pending besides it;
/// `Disconnected` when every pair has failed; otherwise `Checking`.
pub open spec fn agent_state_of(pairs: Seq<CandidatePair>) -> IceConnectionState {
    if pairs.len() == 0 {
        IceConnectionState::New
    } else if any_nominated(pairs) {
        if all_settled(pairs) {
            IceConnectionState::Completed
        } else {
            IceConnectionState::Connected
        }
    } else if all_failed(pairs) {
        IceConnectionState::Disconnected
    } else {
        IceConnectionState::Checking
    }
}

/// Every pair's candidate indices are within the two candidate lists.
pub open spec fn pairs_in_range(pairs: Seq<CandidatePair>, nl: int, nr: int) -> bool {
    forall|i: int|
        0 <= i < pairs.len() ==> (#[trigger] pairs[i]).local < nl && pairs[i].remote < nr
}

/// The pairs formed for a new local candidate all point at it, and at each
/// remote candidate in turn.
proof fn lemma_pairs_for_local_shape(li: int, lc: Candidate, remote: Seq<Candidate>, ctrl: bool)
    requires
        0 <= li <= usize::MAX,
        remote.len() <= usize::MAX,
    ensures
        pairs_for_local(li, lc, remote, ctrl).len() == remote.len(),
        forall|k: int|
            0 <= k < remote.len() ==> (#[trigger] pairs_for_local(li, lc, remote, ctrl)[k]).local
                as int == li && pairs_for_local(li, lc, remote, ctrl)[k].remote as int == k,
    decreases remote.len(),
{
    if remote.len() > 0 {
        lemma_pairs_for_local_shape(li, lc, remote.drop_last(), ctrl);
        let s = pairs_for_local(li, lc, remote, ctrl);
        let prev = pairs_for_local(li, lc, remote.drop_last(), ctrl);
        let last = fresh_pair(li, remote.len() - 1, lc, remote.last(), ctrl);
        assert(s == prev.push(last));
        assert forall|k: int| 0 <= k < remote.len() implies (#[trigger] s[k]).local as int == li
            && s[k].remote as int == k by {
            if k < remote.len() - 1 {
                assert(s[k] == prev[k]);
            } else {
                assert(s[k] == last);
            }
        }
    }
}

/// The pairs formed for a new remote candidate all point at it, and at each
/// local candidate in turn.
proof fn lemma_pairs_for_remote_shape(ri: int, rc: Candidate, local: Seq<Candidate>, ctrl: bool)
    requires
        0 <= ri <= usize::MAX,
        local.len() <= usize::MAX,
    ensures
        pairs_for_remote(ri, rc, local, ctrl).len() == local.len(),
        forall|k: int|
            0 <= k < local.len() ==> (#[trigger] pairs_for_remote(ri, rc, local, ctrl)[k]).remote
                as int == ri && pairs_for_remote(ri, rc, local, ctrl)[k].local as int == k,
    decreases local.len(),
{
    if local.len() > 0 {
        lemma_pairs_for_remote_shape(ri, rc, local.drop_last(), ctrl);
        let s = pairs_for_remote(ri, rc, local, ctrl);
        let prev = pairs_for_remote(ri, rc, local.drop_last(), ctrl);
        let last = fresh_pair(local.len() - 1, ri, local.last(), rc, ctrl);
        assert(s == prev.push(last));
        assert forall|k: int| 0 <= k < local.len() implies (#[trigger] s[k]).remote as int == ri
            && s[k].local as int == k by {
            if k < local.len() - 1 {
                assert(s[k] == prev[k]);
            } else {
                assert(s[k] == last);
            }
        }
    }
}

/// Testable counters of the agent.
#[derive(Clone, Copy, Debug, PartialEq, Eq, Structural)]
pub struct IceAgentStats {
    pub bind_request_sent: u64,
    pub bind_success_recv: u64,
    pub bind_request_recv: u64,
    pub discovered_recv_count: u64,
    pub nomination_send_count: u64,
}

impl IceAgentStats {
    pub fn zero() -> (r: IceAgentStats)
        ensures
            r == (IceAgentStats {
                bind_request_sent: 0,
                bind_success_recv: 0,
                bind_request_recv: 0,
                discovered_recv_count: 0,
                nomination_send_count: 0,
            }),
    {
        IceAgentStats {
            bind_request_sent: 0,
            bind_success_recv: 0,
            bind_request_recv: 0,
            discovered_recv_count: 0,
            nomination_send_count: 0,
        }
    }
}

/// Connectivity agent for one session.
pub struct IceAgent {
    local: Vec<Candidate>,
    remote: Vec<Candidate>,
    pairs: Vec<CandidatePair>,
    controlling: bool,
    /// Random 64-bit value breaking simultaneous role claims; handed in by
    /// the host and stable for the agent's life.
    tiebreaker: u64,
    state: IceConnectionState,
    stats: IceAgentStats,
}

/// The pairs added for a new local candidate against every known remote.
pub open spec fn pairs_for_local(
    li: int,
    lc: Candidate,
    remote: Seq<Candidate>,
    controlling: bool,
) -> Seq<CandidatePair>
    decreases remote.len(),
{
    if remote.len() == 0 {
        Seq::empty()
    } else {
        pairs_for_local(li, lc, remote.drop_last(), controlling).push(
            fresh_pair(li, remote.len() - 1, lc, remote.last(), controlling),
        )
    }
}

/// The pairs added for a new remote candidate against every known local.
pub open spec fn pairs_for_remote(
    ri: int,
    rc: Candidate,
    local: Seq<Candidate>,
    controlling: bool,
) -> Seq<CandidatePair>
    decreases local.len(),
{
    if local.len() == 0 {
        Seq::empty()
    } else {
        pairs_for_remote(ri, rc, local.drop_last(), controlling).push(
            fresh_pair(local.len() - 1, ri, local.last(), rc, controlling),
        )
    }
}

/// A pair as first formed: waiting, unchecked, due immediately.
pub open spec fn fresh_pair(
    li: int,
    ri: int,
    lc: Candidate,
    rc: Candidate,
    controlling: bool,
) -> CandidatePair {
    CandidatePair {
        local: li as usize,
        remote: ri as usize,
        prio: if controlling {
            pair_priority(lc.prio, rc.prio)
        } else {
            pair_priority(rc.prio, lc.prio)
        },
        state: PairState::Waiting,
        attempts: 0,
        next_attempt_at: Instant { millis: 0 },
        nominated: false,
    }
}

impl IceAgent {
    pub closed spec fn local_spec(self) -> Seq<Candidate> {
        self.local@
    }

    pub closed spec fn remote_spec(self) -> Seq<Candidate> {
        self.remote@
    }

    pub closed spec fn pairs_spec(self) -> Seq<CandidatePair> {
        self.pairs@
    }

    pub closed spec fn controlling_spec(self) -> bool {
        self.controlling
    }

    pub closed spec fn state_spec(self) -> IceConnectionState {
        self.state
    }

    pub closed spec fn stats_spec(self) -> IceAgentStats {
        self.stats
    }

    /// The advertised state is always the aggregate of the pair states,
    /// candidate priorities are within the 31 bits the pair priority
    /// formula expects, and every pair points at candidates the agent holds.
    pub open spec fn wf(self) -> bool {
        &&& self.state_spec() == agent_state_of(self.pairs_spec())
        &&& forall|i: int|
            0 <= i < self.local_spec().len() ==> (#[trigger] self.local_spec()[i]).prio
                < 0x8000_0000
        &&& forall|i: int|
            0 <= i < self.remote_spec().len() ==> (#[trigger] self.remote_spec()[i]).prio
                < 0x8000_0000
        &&& pairs_in_range(
            self.pairs_spec(),
            self.local_spec().len() as int,
            self.remote_spec().len() as int,
        )
    }

    pub fn new() -> (r: IceAgent)
        ensures
            r.wf(),
            r.local_spec() == Seq::<Candidate>::empty(),
            r.remote_spec() == Seq::<Candidate>::empty(),
            r.pairs_spec() == Seq::<CandidatePair>::empty(),
            r.state_spec() is New,
            r.stats_spec() == (IceAgentStats {
                bind_request_sent: 0,
                bind_success_recv: 0,
                bind_request_recv: 0,
                discovered_recv_count: 0,
                nomination_send_count: 0,
            }),
            !r.controlling_spec(),
    {
        IceAgent {
            local: Vec::new(),
            remote: Vec::new(),
            pairs: Vec::new(),
            controlling: false,
            tiebreaker: 0,
            state: IceConnectionState::New,
            stats: IceAgentStats::zero(),
        }
    }

    pub closed spec fn tiebreaker_spec(self) -> u64 {
        self.tiebreaker
    }

    /// Install the host-supplied random tiebreaker.
    pub fn set_tiebreaker(&mut self, tiebreaker: u64)
        requires
            old(self).wf(),
        ensures
            final(self).wf(),
            final(self).tiebreaker_spec() == tiebreaker,
            final(self).local_spec() == old(self).local_spec(),
            final(self).remote_spec() == old(self).remote_spec(),
            final(self).pairs_spec() == old(self).pairs_spec(),
            final(self).controlling_spec() == old(self).controlling_spec(),
            final(self).stats_spec() == old(self).stats_spec(),
            final(self).state_spec() == old(self).state_spec(),
    {
        self.tiebreaker = tiebreaker;
    }

    pub fn state(&self) -> (r: IceConnectionState)
        ensures
            r == self.state_spec(),
    {
        self.state
    }

    pub fn stats(&self) -> (r: IceAgentStats)
        ensures
            r == self.stats_spec(),
    {
        self.stats
    }

    pub fn controlling(&self) -> (r: bool)
        ensures
            r == self.controlling_spec(),
    {
        self.controlling
    }

    /// Declare which side nominates.  Allowed only before pairs exist, so
    /// pair priorities are derived from a stable role.
    pub fn set_controlling(&mut self, controlling: bool)
        requires
            old(self).wf(),
            old(self).pairs_spec().len() == 0,
        ensures
            final(self).wf(),
            final(self).controlling_spec() == controlling,
            final(self).local_spec() == old(self).local_spec(),
            final(self).remote_spec() == old(self).remote_spec(),
            final(self).pairs_spec() == old(self).pairs_spec(),
            final(self).stats_spec() == old(self).stats_spec(),
            final(self).state_spec() == old(self).state_spec(),
    {
        self.controlling = controlling;
    }

    /// Add a local candidate and lazily form its pairs against every known
    /// remote candidate.
    pub fn add_local_candidate(&mut self, c: Candidate)
        requires
            old(self).wf(),
            c.prio < 0x8000_0000,
        ensures
            final(self).wf(),
            final(self).local_spec() == old(self).local_spec().push(c),
            final(self).remote_spec() == old(self).remote_spec(),
            final(self).pairs_spec() == old(self).pairs_spec() + pairs_for_local(
                old(self).local_spec().len() as int,
                c,
                old(self).remote_spec(),
                old(self).controlling_spec(),
            ),
            final(self).stats_spec() == old(self).stats_spec(),
            final(self).controlling_spec() == old(self).controlling_spec(),
    {
        let li = self.local.len();
        self.local.push(c);
        let n = self.remote.len();
        let ghost pre_pairs = self.pairs@;
        let mut j: usize = 0;
        while j < n
            invariant
                n == self.remote@.len(),
                li < self.local@.len(),
                j <= n,
                self.remote@ == old(self).remote@,
                self.local@ == old(self).local@.push(c),
                old(self).wf(),
                c.prio < 0x8000_0000,
                self.controlling == old(self).controlling,
                self.stats == old(self).stats,
                self.state == old(self).state,
                self.pairs@ == pre_pairs + pairs_for_local(
                    li as int,
                    c,
                    self.remote@.take(j as int),
                    self.controlling,
                ),
            decreases n - j,
        {
            let rc = self.remote[j];
            let prio = if self.controlling {
                pair_prio_exec(c.prio, rc.prio)
            } else {
                pair_prio_exec(rc.prio, c.prio)
            };
            let p = CandidatePair {
                local: li,
                remote: j,
                prio,
                state: PairState::Waiting,
                attempts: 0,
                next_attempt_at: Instant::new(0),
                nominated: false,
            };
            proof {
                let tk = self.remote@.take(j as int + 1);
                assert(tk.drop_last() =~= self.remote@.take(j as int));
                assert(tk.last() == rc);
                assert(p == fresh_pair(li as int, j as int, c, rc, self.controlling));
            }
            self.pairs.push(p);
            j = j + 1;
        }
        proof {
            assert(self.remote@.take(n as int) =~= self.remote@);
            lemma_pairs_for_local_shape(li as int, c, self.remote@, self.controlling);
            assert(pairs_in_range(
                old(self).pairs_spec(),
                old(self).local_spec().len() as int,
                old(self).remote_spec().len() as int,
            ));
            assert forall|k: int| 0 <= k < self.pairs@.len() implies (
            #[trigger] self.pairs@[k]).local < self.local@.len() && self.pairs@[k].remote
                < self.remote@.len() by {
                if k < pre_pairs.len() {
                    assert(self.pairs@[k] == old(self).pairs_spec()[k]);
                    assert(old(self).pairs_spec()[k].local < old(self).local_spec().len());
                    assert(old(self).pairs_spec()[k].remote < old(self).remote_spec().len());
                } else {
                    assert(self.pairs@[k] == pairs_for_local(
                        li as int,
                        c,
                        self.remote@,
                        self.controlling,
                    )[k - pre_pairs.len()]);
                }
            }
            assert(pairs_in_range(
                self.pairs@,
                self.local@.len() as int,
                self.remote@.len() as int,
            ));
        }
        self.recompute_state();
    }

    /// Add a remote candidate and lazily form its pairs against every
    /// known local candidate.
    pub fn add_remote_candidate(&mut self, c: Candidate)
        requires
            old(self).wf(),
            c.prio < 0x8000_0000,
        ensures
            final(self).wf(),
            final(self).remote_spec() == old(self).remote_spec().push(c),
            final(self).local_spec() == old(self).local_spec(),
            final(self).pairs_spec() == old(self).pairs_spec() + pairs_for_remote(
                old(self).remote_spec().len() as int,
                c,
                old(self).local_spec(),
                old(self).controlling_spec(),
            ),
            final(self).stats_spec() == old(self).stats_spec(),
            final(self).controlling_spec() == old(self).controlling_spec(),
    {
        let ri = self.remote.len();
        self.remote.push(c);
        let n = self.local.len();
        let ghost pre_pairs = self.pairs@;
        let mut j: usize = 0;
        while j < n
            invariant
                n == self.local@.len(),
                ri < self.remote@.len(),
                j <= n,
                self.local@ == old(self).local@,
                self.remote@ == old(self).remote@.push(c),
                old(self).wf(),
                c.prio < 0x8000_0000,
                self.controlling == old(self).controlling,
                self.stats == old(self).stats,
                self.state == old(self).state,
                self.pairs@ == pre_pairs + pairs_for_remote(
                    ri as int,
                    c,
                    self.local@.take(j as int),
                    self.controlling,
                ),
            decreases n - j,
        {
            let lc = self.local[j];
            let prio = if self.controlling {
                pair_prio_exec(lc.prio, c.prio)
            } else {
                pair_prio_exec(c.prio, lc.prio)
            };
            let p = CandidatePair {
                local: j,
                remote: ri,
                prio,
                state: PairState::Waiting,
                attempts: 0,
                next_attempt_at: Instant::new(0),
                nominated: false,
            };
            proof {
                let tk = self.local@.take(j as int + 1);
                assert(tk.drop_last() =~= self.local@.take(j as int));
                assert(tk.last() == lc);
                assert(p == fresh_pair(j as int, ri as int, lc, c, self.controlling));
            }
            self.pairs.push(p);
            j = j + 1;
        }
        proof {
            assert(self.local@.take(n as int) =~= self.local@);
            lemma_pairs_for_remote_shape(ri as int, c, self.local@, self.controlling);
            assert(pairs_in_range(
                old(self).pairs_spec(),
                old(self).local_spec().len() as int,
                old(self).remote_spec().len() as int,
            ));
            assert forall|k: int| 0 <= k < self.pairs@.len() implies (
            #[trigger] self.pairs@[k]).local < self.local@.len() && self.pairs@[k].remote
                < self.remote@.len() by {
                if k < pre_pairs.len() {
                    assert(self.pairs@[k] == old(self).pairs_spec()[k]);
                    assert(old(self).pairs_spec()[k].local < old(self).local_spec().len());
                    assert(old(self).pairs_spec()[k].remote < old(self).remote_spec().len());
                } else {
                    assert(self.pairs@[k] == pairs_for_remote(
                        ri as int,
                        c,
                        self.local@,
                        self.controlling,
                    )[k - pre_pairs.len()]);
                }
            }
            assert(pairs_in_range(
                self.pairs@,
                self.local@.len() as int,
                self.remote@.len() as int,
            ));
        }
        self.recompute_state();
    }

    /// The next instant at which some pair has a scheduled event.
    pub fn poll_timeout(&self) -> (r: Option<Instant>)
        ensures
            match r {
                Option::None => forall|i: int|
                    0 <= i < self.pairs_spec().len() ==> !pair_active(
                        #[trigger] self.pairs_spec()[i],
                    ),
                Option::Some(t) => {
                    &&& (forall|i: int|
                        0 <= i < self.pairs_spec().len() && pair_active(
                            #[trigger] self.pairs_spec()[i],
                        ) ==> t.millis <= self.pairs_spec()[i].next_attempt_at.millis)
                    &&& (exists|i: int|
                        0 <= i < self.pairs_spec().len() && pair_active(
                            #[trigger] self.pairs_spec()[i],
                        ) && t == self.pairs_spec()[i].next_attempt_at)
                },
            },
    {
        let n = self.pairs.len();
        let mut best: Option<Instant> = None;
        let mut i: usize = 0;
        while i < n
            invariant
                n == self.pairs@.len(),
                i <= n,
                match best {
                    Option::None => forall|k: int|
                        0 <= k < i ==> !pair_active(#[trigger] self.pairs@[k]),
                    Option::Some(t) => {
                        &&& (forall|k: int|
                            0 <= k < i && pair_active(#[trigger] self.pairs@[k]) ==> t.millis
                                <= self.pairs@[k].next_attempt_at.millis)
                        &&& (exists|k: int|
                            0 <= k < i && pair_active(#[trigger] self.pairs@[k]) && t
                                == self.pairs@[k].next_attempt_at)
                    },
                },
            decreases n - i,
        {
            let p = self.pairs[i];
            let active = match p.state {
                PairState::Waiting => true,
                PairState::InProgress => true,
                _ => false,
            };
            if active {
                best = match best {
                    None => Some(p.next_attempt_at),
                    Some(t) => if p.next_attempt_at.millis < t.millis {
                        Some(p.next_attempt_at)
                    } else {
                        Some(t)
                    },
                };
            }
            i = i + 1;
        }
        best
    }

    /// Drive every pair's check schedule to `now`.  Binding requests sent
    /// in this tick are counted; pairs whose schedule is exhausted fail;
    /// the aggregate state moves forward only.
    pub fn handle_timeout(&mut self, now: Instant)
        requires
            old(self).wf(),
            old(self).stats_spec().bind_request_sent <= u64::MAX - old(self).pairs_spec().len(),
        ensures
            final(self).wf(),
            final(self).pairs_spec().len() == old(self).pairs_spec().len(),
            forall|i: int|
                0 <= i < old(self).pairs_spec().len() ==> final(self).pairs_spec()[i] == pair_step(
                    #[trigger] old(self).pairs_spec()[i],
                    now,
                ),
            final(self).stats_spec().bind_request_sent as int == old(
                self,
            ).stats_spec().bind_request_sent as int + sum_sends(
                old(self).pairs_spec(),
                now,
                old(self).pairs_spec().len() as int,
            ),
            final(self).stats_spec().bind_success_recv == old(self).stats_spec().bind_success_recv,
            final(self).stats_spec().bind_request_recv == old(self).stats_spec().bind_request_recv,
            final(self).stats_spec().discovered_recv_count == old(
                self,
            ).stats_spec().discovered_recv_count,
            final(self).stats_spec().nomination_send_count == old(
                self,
            ).stats_spec().nomination_send_count,
            final(self).state_spec() == agent_state_of(final(self).pairs_spec()),
            state_progresses(old(self).state_spec(), final(self).state_spec()),
            old(self).state_spec() is Disconnected ==> final(self).state_spec() is Disconnected,
            final(self).local_spec() == old(self).local_spec(),
            final(self).remote_spec() == old(self).remote_spec(),
            final(self).controlling_spec() == old(self).controlling_spec(),
            final(self).tiebreaker_spec() == old(self).tiebreaker_spec(),
    {
        let n = self.pairs.len();
        let mut i: usize = 0;
        while i < n
            invariant
                n == self.pairs@.len(),
                i <= n,
                old(self).wf(),
                old(self).stats_spec().bind_request_sent <= u64::MAX - n,
                self.local@ == old(self).local@,
                self.remote@ == old(self).remote@,
                self.controlling == old(self).controlling,
                self.tiebreaker == old(self).tiebreaker,
                self.state == old(self).state,
                forall|k: int|
                    0 <= k < i ==> self.pairs@[k] == pair_step(
                        #[trigger] old(self).pairs_spec()[k],
                        now,
                    ),
                forall|k: int| i <= k < n ==> self.pairs@[k] == old(self).pairs_spec()[k],
                self.stats.bind_request_sent as int == old(
                    self,
                ).stats_spec().bind_request_sent as int + sum_sends(
                    old(self).pairs_spec(),
                    now,
                    i as int,
                ),
                self.stats.bind_success_recv == old(self).stats_spec().bind_success_recv,
                self.stats.bind_request_recv == old(self).stats_spec().bind_request_recv,
                self.stats.discovered_recv_count == old(self).stats_spec().discovered_recv_count,
                self.stats.nomination_send_count == old(self).stats_spec().nomination_send_count,
                sum_sends(old(self).pairs_spec(), now, i as int) <= i,
            decreases n - i,
        {
            let p = self.pairs[i];
            let active = match p.state {
                PairState::Waiting => true,
                PairState::InProgress => true,
                _ => false,
            };
            proof {
                assert(sum_sends(old(self).pairs_spec(), now, i as int + 1) == sum_sends(
                    old(self).pairs_spec(),
                    now,
                    i as int,
                ) + pair_sends(old(self).pairs_spec()[i as int], now));
            }
            if active && p.next_attempt_at.millis <= now.millis {
                if p.attempts < MAX_BIND_REQUESTS {
                    let next = if p.attempts + 1 < MAX_BIND_REQUESTS {
                        now.add(crate::time::Duration::from_millis(retransmit_delay_exec(p.attempts)))
                    } else {
                        now.add(crate::time::Duration::from_millis(RTO_MILLIS * FINAL_WAIT_FACTOR))
                    };
                    let stepped = CandidatePair {
                        state: PairState::InProgress,
                        attempts: p.attempts + 1,
                        next_attempt_at: next,
                        ..p
                    };
                    proof {
                        assert(stepped == pair_step(old(self).pairs_spec()[i as int], now));
                    }
                    self.pairs.set(i, stepped);
                    self.stats.bind_request_sent = self.stats.bind_request_sent + 1;
                } else {
                    let stepped = CandidatePair { state: PairState::Failed, ..p };
                    proof {
                        assert(stepped == pair_step(old(self).pairs_spec()[i as int], now));
                    }
                    self.pairs.set(i, stepped);
                }
            } else {
                proof {
                    assert(self.pairs@[i as int] == pair_step(
                        old(self).pairs_spec()[i as int],
                        now,
                    ));
                }
            }
            i = i + 1;
        }
        proof {
            assert(pairs_in_range(
                old(self).pairs_spec(),
                old(self).local_spec().len() as int,
                old(self).remote_spec().len() as int,
            ));
            assert forall|k: int| 0 <= k < self.pairs@.len() implies (
            #[trigger] self.pairs@[k]).local < self.local@.len() && self.pairs@[k].remote
                < self.remote@.len() by {
                assert(self.pairs@[k] == pair_step(old(self).pairs_spec()[k], now));
                assert(old(self).pairs_spec()[k].local < old(self).local_spec().len());
                assert(old(self).pairs_spec()[k].remote < old(self).remote_spec().len());
            }
            assert(pairs_in_range(
                self.pairs@,
                self.local@.len() as int,
                self.remote@.len() as int,
            ));
        }
        self.recompute_state();
        proof {
            lemma_step_monotone(old(self).pairs_spec(), self.pairs@, now);
        }
    }

    /// Accept a successful binding response for the pair at `index`; the
    /// controlling side nominates the pair it just confirmed.
    pub fn handle_binding_success(&mut self, index: usize)
        requires
            old(self).wf(),
            index < old(self).pairs_spec().len(),
            pair_active(old(self).pairs_spec()[index as int]),
            old(self).stats_spec().bind_success_recv < u64::MAX,
            old(self).stats_spec().nomination_send_count < u64::MAX,
        ensures
            final(self).wf(),
            final(self).pairs_spec() == old(self).pairs_spec().update(
                index as int,
                CandidatePair {
                    state: PairState::Succeeded,
                    nominated: old(self).controlling_spec(),
                    ..old(self).pairs_spec()[index as int]
                },
            ),
            final(self).stats_spec() == (IceAgentStats {
                bind_success_recv: (old(self).stats_spec().bind_success_recv + 1) as u64,
                nomination_send_count: if old(self).controlling_spec() {
                    (old(self).stats_spec().nomination_send_count + 1) as u64
                } else {
                    old(self).stats_spec().nomination_send_count
                },
                ..old(self).stats_spec()
            }),
            final(self).state_spec() == agent_state_of(final(self).pairs_spec()),
            state_progresses(old(self).state_spec(), final(self).state_spec()),
            final(self).local_spec() == old(self).local_spec(),
            final(self).remote_spec() == old(self).remote_spec(),
            final(self).controlling_spec() == old(self).controlling_spec(),
            final(self).tiebreaker_spec() == old(self).tiebreaker_spec(),
    {
        let p = self.pairs[index];
        let upd = CandidatePair { state: PairState::Succeeded, nominated: self.controlling, ..p };
        self.pairs.set(index, upd);
        self.stats.bind_success_recv = self.stats.bind_success_recv + 1;
        if self.controlling {
            self.stats.nomination_send_count = self.stats.nomination_send_count + 1;
        }
        proof {
            assert(pairs_in_range(
                old(self).pairs_spec(),
                old(self).local_spec().len() as int,
                old(self).remote_spec().len() as int,
            ));
            assert forall|k: int| 0 <= k < self.pairs@.len() implies (
            #[trigger] self.pairs@[k]).local < self.local@.len() && self.pairs@[k].remote
                < self.remote@.len() by {
                assert(old(self).pairs_spec()[k].local < old(self).local_spec().len());
                assert(old(self).pairs_spec()[k].remote < old(self).remote_spec().len());
                if k != index {
                    assert(self.pairs@[k] == old(self).pairs_spec()[k]);
                }
            }
            assert(pairs_in_range(
                self.pairs@,
                self.local@.len() as int,
                self.remote@.len() as int,
            ));
        }
        self.recompute_state();
        proof {
            lemma_success_monotone(old(self).pairs_spec(), self.pairs@, index as int);
        }
    }

    /// Resolve a simultaneous role claim: a controlling agent that sees the
    /// controlling attribute in a received request keeps its role only with
    /// the numerically higher tiebreaker; otherwise it switches to the
    /// controlled role and derives every pair priority anew.
    pub fn handle_role_conflict(&mut self, remote_tiebreaker: u64)
        requires
            old(self).wf(),
            old(self).controlling_spec(),
        ensures
            final(self).wf(),
            final(self).controlling_spec() == (old(self).tiebreaker_spec() >= remote_tiebreaker),
            final(self).local_spec() == old(self).local_spec(),
            final(self).remote_spec() == old(self).remote_spec(),
            final(self).stats_spec() == old(self).stats_spec(),
            final(self).tiebreaker_spec() == old(self).tiebreaker_spec(),
            if old(self).tiebreaker_spec() >= remote_tiebreaker {
                final(self).pairs_spec() == old(self).pairs_spec()
            } else {
                &&& final(self).pairs_spec().len() == old(self).pairs_spec().len()
                &&& forall|i: int|
                    0 <= i < old(self).pairs_spec().len() ==> final(self).pairs_spec()[i] == (
                    CandidatePair {
                        prio: pair_priority(
                            old(self).remote_spec()[old(self).pairs_spec()[i].remote as int].prio,
                            old(self).local_spec()[old(self).pairs_spec()[i].local as int].prio,
                        ),
                        ..(#[trigger] old(self).pairs_spec()[i])
                    })
            },
            final(self).state_spec() == old(self).state_spec(),
    {
        if self.tiebreaker >= remote_tiebreaker {
            return ;
        }
        self.controlling = false;
        let n = self.pairs.len();
        let mut i: usize = 0;
        while i < n
            invariant
                n == self.pairs@.len(),
                i <= n,
                old(self).wf(),
                self.local@ == old(self).local@,
                self.remote@ == old(self).remote@,
                self.stats == old(self).stats,
                self.state == old(self).state,
                self.tiebreaker == old(self).tiebreaker,
                self.controlling == false,
                forall|k: int|
                    0 <= k < n ==> (#[trigger] old(self).pairs_spec()[k]).local < old(
                        self,
                    ).local_spec().len() && old(self).pairs_spec()[k].remote < old(
                        self,
                    ).remote_spec().len(),
                forall|k: int|
                    0 <= k < i ==> self.pairs@[k] == (CandidatePair {
                        prio: pair_priority(
                            old(self).remote_spec()[old(self).pairs_spec()[k].remote as int].prio,
                            old(self).local_spec()[old(self).pairs_spec()[k].local as int].prio,
                        ),
                        ..(#[trigger] old(self).pairs_spec()[k])
                    }),
                forall|k: int| i <= k < n ==> self.pairs@[k] == old(self).pairs_spec()[k],
            decreases n - i,
        {
            let p = self.pairs[i];
            proof {
                assert(p == old(self).pairs_spec()[i as int]);
                assert(old(self).pairs_spec()[i as int].local < old(self).local_spec().len());
                assert(old(self).pairs_spec()[i as int].remote < old(self).remote_spec().len());
                assert(old(self).local_spec()[p.local as int].prio < 0x8000_0000);
                assert(old(self).remote_spec()[p.remote as int].prio < 0x8000_0000);
            }
            let lc = self.local[p.local];
            let rc = self.remote[p.remote];
            let upd = CandidatePair { prio: pair_prio_exec(rc.prio, lc.prio), ..p };
            self.pairs.set(i, upd);
            i = i + 1;
        }
        proof {
            lemma_same_shape_same_state(old(self).pairs_spec(), self.pairs@);
            assert(pairs_in_range(
                old(self).pairs_spec(),
                old(self).local_spec().len() as int,
                old(self).remote_spec().len() as int,
            ));
            assert forall|k: int| 0 <= k < self.pairs@.len() implies (
            #[trigger] self.pairs@[k]).local < self.local@.len() && self.pairs@[k].remote
                < self.remote@.len() by {
                assert(self.pairs@[k].local == old(self).pairs_spec()[k].local);
                assert(self.pairs@[k].remote == old(self).pairs_spec()[k].remote);
                assert(old(self).pairs_spec()[k].local < old(self).local_spec().len());
                assert(old(self).pairs_spec()[k].remote < old(self).remote_spec().len());
            }
            assert(pairs_in_range(
                self.pairs@,
                self.local@.len() as int,
                self.remote@.len() as int,
            ));
        }
    }

    /// Count a received binding request; the controlled side honors a
    /// nomination carried on it when the pair's own check has succeeded.
    pub fn handle_binding_request(&mut self, index: usize, use_candidate: bool)
        requires
            old(self).wf(),
            index < old(self).pairs_spec().len(),
            old(self).stats_spec().bind_request_recv < u64::MAX,
        ensures
            final(self).wf(),
            final(self).pairs_spec() == old(self).pairs_spec().update(
                index as int,
                CandidatePair {
                    nominated: old(self).pairs_spec()[index as int].nominated || (use_candidate
                        && !old(self).controlling_spec() && old(
                        self,
                    ).pairs_spec()[index as int].state is Succeeded),
                    ..old(self).pairs_spec()[index as int]
                },
            ),
            final(self).stats_spec() == (IceAgentStats {
                bind_request_recv: (old(self).stats_spec().bind_request_recv + 1) as u64,
                ..old(self).stats_spec()
            }),
            final(self).state_spec() == agent_state_of(final(self).pairs_spec()),
            state_progresses(old(self).state_spec(), final(self).state_spec()),
            final(self).local_spec() == old(self).local_spec(),
            final(self).remote_spec() == old(self).remote_spec(),
            final(self).controlling_spec() == old(self).controlling_spec(),
            final(self).tiebreaker_spec() == old(self).tiebreaker_spec(),
    {
        let p = self.pairs[index];
        let honors = use_candidate && !self.controlling && match p.state {
            PairState::Succeeded => true,
            _ => false,
        };
        let upd = CandidatePair { nominated: p.nominated || honors, ..p };
        self.pairs.set(index, upd);
        self.stats.bind_request_recv = self.stats.bind_request_recv + 1;
        proof {
            assert(pairs_in_range(
                old(self).pairs_spec(),
                old(self).local_spec().len() as int,
                old(self).remote_spec().len() as int,
            ));
            assert forall|k: int| 0 <= k < self.pairs@.len() implies (
            #[trigger] self.pairs@[k]).local < self.local@.len() && self.pairs@[k].remote
                < self.remote@.len() by {
                assert(old(self).pairs_spec()[k].local < old(self).local_spec().len());
                assert(old(self).pairs_spec()[k].remote < old(self).remote_spec().len());
                if k != index {
                    assert(self.pairs@[k] == old(self).pairs_spec()[k]);
                }
            }
            assert(pairs_in_range(
                self.pairs@,
                self.local@.len() as int,
                self.remote@.len() as int,
            ));
        }
        self.recompute_state();
        proof {
            lemma_nomination_monotone(old(self).pairs_spec(), self.pairs@, index as int);
        }
    }

    /// Recompute the aggregate state from the pair states.
    fn recompute_state(&mut self)
        ensures
            final(self).state_spec() == agent_state_of(final(self).pairs_spec()),
            final(self).pairs_spec() == old(self).pairs_spec(),
            final(self).local_spec() == old(self).local_spec(),
            final(self).remote_spec() == old(self).remote_spec(),
            final(self).stats_spec() == old(self).stats_spec(),
            final(self).controlling_spec() == old(self).controlling_spec(),
            final(self).tiebreaker_spec() == old(self).tiebreaker_spec(),
    {
        let n = self.pairs.len();
        let mut nominated = false;
        let mut settled = true;
        let mut failed = true;
        let mut i: usize = 0;
        while i < n
            invariant
                n == self.pairs@.len(),
                i <= n,
                nominated == (exists|k: int|
                    0 <= k < i && pair_nominated(#[trigger] self.pairs@[k])),
                settled == (forall|k: int| 0 <= k < i ==> !pair_active(#[trigger] self.pairs@[k])),
                failed == (forall|k: int|
                    0 <= k < i ==> (#[trigger] self.pairs@[k]).state is Failed),
            decreases n - i,
        {
            let p = self.pairs[i];
            let is_nom = p.nominated && match p.state {
                PairState::Succeeded => true,
                _ => false,
            };
            let is_active = match p.state {
                PairState::Waiting => true,
                PairState::InProgress => true,
                _ => false,
            };
            let is_failed = match p.state {
                PairState::Failed => true,
                _ => false,
            };
            nominated = nominated || is_nom;
            settled = settled && !is_active;
            failed = failed && is_failed;
            i = i + 1;
        }
        self.state = if n == 0 {
            IceConnectionState::New
        } else if nominated {
            if settled {
                IceConnectionState::Completed
            } else {
                IceConnectionState::Connected
            }
        } else if failed {
            IceConnectionState::Disconnected
        } else {
            IceConnectionState::Checking
        };
    }
}

/// Pair priority, computed on candidate priorities.
fn pair_prio_exec(g: u32, d: u32) -> (r: u64)
    requires
        g < 0x8000_0000,
        d < 0x8000_0000,
    ensures
        r == pair_priority(g, d),
{
    let lo: u64 = if g <= d {
        g as u64
    } else {
        d as u64
    };
    let hi: u64 = if g <= d {
        d as u64
    } else {
        g as u64
    };
    let bit: u64 = if g > d {
        1
    } else {
        0
    };
    lo * 0x1_0000_0000 + hi * 2 + bit
}

/// One tick only moves the aggregate state forward: a step never revives
/// a failed pair, never forgets a nomination, and never invents one, so
/// the aggregate respects the forward order, and a disconnected agent
/// stays disconnected.
pub proof fn lemma_step_monotone(
    pre: Seq<CandidatePair>,
    post: Seq<CandidatePair>,
    now: Instant,
)
    requires
        pre.len() == post.len(),
        forall|i: int| 0 <= i < pre.len() ==> post[i] == pair_step(#[trigger] pre[i], now),
    ensures
        state_progresses(agent_state_of(pre), agent_state_of(post)),
        agent_state_of(pre) is Disconnected ==> agent_state_of(post) is Disconnected,
{
    if pre.len() == 0 {
    } else {
        if any_nominated(pre) {
            let i = choose|i: int| 0 <= i < pre.len() && pair_nominated(#[trigger] pre[i]);
            assert(post[i] == pair_step(pre[i], now));
            assert(pair_nominated(post[i]));
            assert(any_nominated(post));
            if all_settled(pre) {
                assert forall|k: int| 0 <= k < post.len() implies !pair_active(
                    #[trigger] post[k],
                ) by {
                    assert(post[k] == pair_step(pre[k], now));
                    assert(!pair_active(pre[k]));
                }
                assert(all_settled(post));
            }
        } else {
            assert forall|i: int| 0 <= i < post.len() implies !pair_nominated(
                #[trigger] post[i],
            ) by {
                assert(post[i] == pair_step(pre[i], now));
                assert(!pair_nominated(pre[i]));
            }
            assert(!any_nominated(post));
            if all_failed(pre) {
                assert forall|i: int| 0 <= i < post.len() implies (
                #[trigger] post[i]).state is Failed by {
                    assert(post[i] == pair_step(pre[i], now));
                    assert(pre[i].state is Failed);
                }
                assert(all_failed(post));
            }
        }
    }
}

/// Two pair lists with the same states and nominations aggregate to the
/// same agent state, whatever their priorities.
proof fn lemma_same_shape_same_state(pre: Seq<CandidatePair>, post: Seq<CandidatePair>)
    requires
        pre.len() == post.len(),
        forall|i: int|
            0 <= i < pre.len() ==> (#[trigger] post[i]).state == pre[i].state && post[i].nominated
                == pre[i].nominated,
    ensures
        agent_state_of(pre) == agent_state_of(post),
{
    assert(any_nominated(pre) == any_nominated(post)) by {
        if any_nominated(pre) {
            let i = choose|i: int| 0 <= i < pre.len() && pair_nominated(#[trigger] pre[i]);
            assert(pair_nominated(post[i]));
        }
        if any_nominated(post) {
            let i = choose|i: int| 0 <= i < post.len() && pair_nominated(#[trigger] post[i]);
            assert(pair_nominated(pre[i]));
        }
    }
    assert(all_failed(pre) == all_failed(post)) by {
        if all_failed(pre) {
            assert forall|i: int| 0 <= i < post.len() implies (
            #[trigger] post[i]).state is Failed by {
                assert(pre[i].state is Failed);
            }
        }
        if all_failed(post) {
            assert forall|i: int| 0 <= i < pre.len() implies (
            #[trigger] pre[i]).state is Failed by {
                assert(post[i].state is Failed);
            }
        }
    }
    assert(all_settled(pre) == all_settled(post)) by {
        if all_settled(pre) {
            assert forall|i: int| 0 <= i < post.len() implies !pair_active(#[trigger] post[i]) by {
                assert(!pair_active(pre[i]));
            }
        }
        if all_settled(post) {
            assert forall|i: int| 0 <= i < pre.len() implies !pair_active(#[trigger] pre[i]) by {
                assert(!pair_active(post[i]));
            }
        }
    }
}

/// Honoring a nomination on one pair only moves the aggregate forward.
proof fn lemma_nomination_monotone(pre: Seq<CandidatePair>, post: Seq<CandidatePair>, j: int)
    requires
        pre.len() == post.len(),
        0 <= j < pre.len(),
        forall|i: int| 0 <= i < pre.len() && i != j ==> post[i] == pre[i],
        post[j].state == pre[j].state,
        pre[j].nominated ==> post[j].nominated,
    ensures
        state_progresses(agent_state_of(pre), agent_state_of(post)),
        agent_state_of(pre) is Disconnected ==> agent_state_of(post) is Disconnected,
{
    assert(all_failed(pre) == all_failed(post)) by {
        if all_failed(pre) {
            assert forall|i: int| 0 <= i < post.len() implies (
            #[trigger] post[i]).state is Failed by {
                assert(pre[i].state is Failed);
            }
        }
        if all_failed(post) {
            assert forall|i: int| 0 <= i < pre.len() implies (
            #[trigger] pre[i]).state is Failed by {
                assert(post[i].state is Failed);
            }
        }
    }
    assert(all_settled(pre) == all_settled(post)) by {
        if all_settled(pre) {
            assert forall|i: int| 0 <= i < post.len() implies !pair_active(#[trigger] post[i]) by {
                assert(!pair_active(pre[i]));
            }
        }
        if all_settled(post) {
            assert forall|i: int| 0 <= i < pre.len() implies !pair_active(#[trigger] pre[i]) by {
                assert(!pair_active(post[i]));
            }
        }
    }
    if any_nominated(pre) {
        let i = choose|i: int| 0 <= i < pre.len() && pair_nominated(#[trigger] pre[i]);
        assert(pair_nominated(post[i]));
        assert(any_nominated(post));
    }
}

/// Accepting a success only moves the aggregate state forward.
pub proof fn lemma_success_monotone(pre: Seq<CandidatePair>, post: Seq<CandidatePair>, j: int)
    requires
        pre.len() == post.len(),
        0 <= j < pre.len(),
        pair_active(pre[j]),
        post[j].state is Succeeded,
        forall|i: int| 0 <= i < pre.len() && i != j ==> post[i] == pre[i],
        post[j].local == pre[j].local && post[j].remote == pre[j].remote,
    ensures
        state_progresses(agent_state_of(pre), agent_state_of(post)),
{
    assert(!(pre[j].state is Failed));
    assert(!all_failed(pre));
    if any_nominated(pre) {
        let i = choose|i: int| 0 <= i < pre.len() && pair_nominated(#[trigger] pre[i]);
        assert(i != j) by {
            assert(pair_active(pre[j]));
        }
        assert(pair_nominated(post[i]));
        assert(any_nominated(post));
    } else {
        assert(agent_state_of(pre) is Checking);
    }
}

} // verus!
