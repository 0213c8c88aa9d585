//! Receive-side register of missing sequence numbers.
//!
//! When a packet arrives above the highest extended sequence seen so far,
//! the gap in between is recorded as missing.  A missing sequence is
//! reported by NACK no sooner than `REORDER_DELAY_MILLIS` after the first
//! higher sequence was seen, at most `MAX_NACKS` times with exponential
//! backoff, and never once it is older than `AGE_OUT_MILLIS`.

use vstd::prelude::*;

use crate::time::Instant;

verus! {

/// A sequence is reported at most this many times.
pub const MAX_NACKS: u64 = 5;

/// A missing sequence is first reported this long after it was noticed.
pub const REORDER_DELAY_MILLIS: u64 = 30;

/// A missing sequence older than this is written off, never reported.
pub const AGE_OUT_MILLIS: u64 = 200;

/// A gap longer than this resets the register instead of filling entries.
pub const MAX_GAP: u64 = 512;

/// One missing extended sequence number.
#[derive(Clone, Copy, Debug, PartialEq, Eq, Structural)]
pub struct NackEntry {
    /// The missing extended sequence number.
    pub seq: u64,
    /// When the first higher sequence was seen, in host clock milliseconds.
    pub first_seen: u64,
    /// How many times this sequence has been reported so far.
    pub reports: u64,
    /// Earliest host clock millisecond of the next report.
    pub next_at: u64,
}

/// An entry is due for reporting at `now`: it has reports left, its backoff
/// has elapsed, and it has not aged out.
pub open spec fn due(e: NackEntry, now: Instant) -> bool {
    &&& e.reports < MAX_NACKS
    &&& e.next_at <= now.millis
    &&& now.millis <= e.first_seen + AGE_OUT_MILLIS
}

/// Index of the first due entry, or -1 when none is due.
pub open spec fn first_due(s: Seq<NackEntry>, now: Instant) -> int
    decreases s.len(),
{
    if s.len() == 0 {
        -1
    } else if due(s[0], now) {
        0
    } else {
        let rest = first_due(s.drop_first(), now);
        if rest == -1 {
            -1
        } else {
            rest + 1
        }
    }
}

/// Backoff multiplier after `reports` reports: doubles each time, capped.
pub open spec fn backoff_factor(reports: int) -> int {
    if reports <= 0 {
        1
    } else if reports == 1 {
        2
    } else if reports == 2 {
        4
    } else if reports == 3 {
        8
    } else {
        16
    }
}

/// Next report instant for an entry already reported `reports` times.
pub open spec fn backoff_at(now: int, reports: int) -> u64 {
    let raw = now + REORDER_DELAY_MILLIS * backoff_factor(reports);
    if raw > u64::MAX {
        u64::MAX
    } else {
        raw as u64
    }
}

/// The entry after one more report at `now`: the report count goes up by
/// one and the next report is scheduled a full backoff later.
pub open spec fn bumped(e: NackEntry, now: Instant) -> NackEntry {
    NackEntry {
        seq: e.seq,
        first_seen: e.first_seen,
        reports: (e.reports + 1) as u64,
        next_at: backoff_at(now.millis as int, e.reports as int),
    }
}

/// A missing sequence as first recorded: no reports yet, first report due
/// one reorder delay after notice.
pub open spec fn fresh_entry(seq: u64, now: Instant) -> NackEntry {
    NackEntry {
        seq,
        first_seen: now.millis,
        reports: 0,
        next_at: if now.millis + REORDER_DELAY_MILLIS > u64::MAX {
            u64::MAX
        } else {
            (now.millis + REORDER_DELAY_MILLIS) as u64
        },
    }
}

/// The entries made for the missing range `[from, to)`, all noticed at `now`.
pub open spec fn gap_entries(from: int, to: int, now: Instant) -> Seq<NackEntry>
    decreases to - from,
{
    if to <= from {
        Seq::empty()
    } else {
        gap_entries(from, to - 1, now).push(fresh_entry((to - 1) as u64, now))
    }
}

/// The first `n` entries of `s` that have not aged out at `now`.
pub open spec fn kept(s: Seq<NackEntry>, n: int, now: Instant) -> Seq<NackEntry>
    decreases n,
{
    if n <= 0 {
        Seq::empty()
    } else if now.millis <= s[n - 1].first_seen + AGE_OUT_MILLIS {
        kept(s, n - 1, now).push(s[n - 1])
    } else {
        kept(s, n - 1, now)
    }
}

/// `e` is one of the first `n` entries of `s`.
pub open spec fn appears(s: Seq<NackEntry>, n: int, e: NackEntry) -> bool {
    exists|j: int| 0 <= j < n && s[j] == e
}

/// Index of the entry for sequence `seq`, or -1.
pub open spec fn find_seq(s: Seq<NackEntry>, seq: u64) -> int
    decreases s.len(),
{
    if s.len() == 0 {
        -1
    } else if s[0].seq == seq {
        0
    } else {
        let rest = find_seq(s.drop_first(), seq);
        if rest == -1 {
            -1
        } else {
            rest + 1
        }
    }
}

/// Gap register for one receive stream.
pub struct NackRegister {
    entries: Vec<NackEntry>,
    highest: Option<u64>,
}

/// How `packet_received` takes `pre` to `post` on arrival of `seq` at
/// `now`: a first packet sets the high mark, a packet above it records the
/// gap (or resets on a gap beyond `MAX_GAP`), and a packet at or below it
/// fills its own entry.
pub open spec fn packet_received_post(
    pre: NackRegister,
    post: NackRegister,
    seq: u64,
    now: Instant,
) -> bool {
    match pre.highest_spec() {
        Option::None => {
            &&& post.highest_spec() == Option::Some(seq)
            &&& post.entries_spec() == pre.entries_spec()
        },
        Option::Some(h) => {
            if seq > h {
                if seq - h <= MAX_GAP {
                    &&& post.highest_spec() == Option::Some(seq)
                    &&& post.entries_spec() == pre.entries_spec() + gap_entries(
                        h + 1,
                        seq as int,
                        now,
                    )
                } else {
                    &&& post.highest_spec() == Option::Some(seq)
                    &&& post.entries_spec() == Seq::<NackEntry>::empty()
                }
            } else {
                let f = find_seq(pre.entries_spec(), seq);
                &&& post.highest_spec() == pre.highest_spec()
                &&& post.entries_spec() == (if f >= 0 {
                    pre.entries_spec().remove(f)
                } else {
                    pre.entries_spec()
                })
            }
        },
    }
}

/// How `poll` takes `pre` to `post` returning `r` at `now`: the first due
/// entry is reported and bumped; with none due nothing changes.
pub open spec fn poll_post(
    pre: NackRegister,
    post: NackRegister,
    r: Option<u64>,
    now: Instant,
) -> bool {
    &&& post.highest_spec() == pre.highest_spec()
    &&& ({
        let fd = first_due(pre.entries_spec(), now);
        if fd >= 0 {
            &&& r == Option::Some(pre.entries_spec()[fd].seq)
            &&& post.entries_spec() == pre.entries_spec().update(
                fd,
                bumped(pre.entries_spec()[fd], now),
            )
            &&& pre.entries_spec()[fd].reports < MAX_NACKS
            &&& now.millis <= pre.entries_spec()[fd].first_seen + AGE_OUT_MILLIS
        } else {
            &&& r is None
            &&& post.entries_spec() == pre.entries_spec()
            &&& forall|i: int|
                0 <= i < pre.entries_spec().len() ==> !due(
                    #[trigger] pre.entries_spec()[i],
                    now,
                )
        }
    })
}

/// Entries are strictly ascending, counted within bounds, and all below
/// the high mark; with no high mark there are no entries.
pub open spec fn register_wf(entries: Seq<NackEntry>, highest: Option<u64>) -> bool {
    &&& forall|i: int, j: int| 0 <= i < j < entries.len() ==> entries[i].seq < entries[j].seq
    &&& forall|i: int| 0 <= i < entries.len() ==> (#[trigger] entries[i]).reports <= MAX_NACKS
    &&& match highest {
        Option::None => entries.len() == 0,
        Option::Some(h) => forall|i: int|
            0 <= i < entries.len() ==> (#[trigger] entries[i]).seq < h,
    }
}

impl NackRegister {
    /// The register's entries and high mark are mutually well-formed.
    pub open spec fn wf(self) -> bool {
        register_wf(self.entries_spec(), self.highest_spec())
    }

    pub closed spec fn entries_spec(self) -> Seq<NackEntry> {
        self.entries@
    }

    pub closed spec fn highest_spec(self) -> Option<u64> {
        self.highest
    }

    pub fn new() -> (r: NackRegister)
        ensures
            r.wf(),
            r.entries_spec() == Seq::<NackEntry>::empty(),
            r.highest_spec() is None,
    {
        NackRegister { entries: Vec::new(), highest: None }
    }

    /// Record the arrival of extended sequence `seq` at `now`.
    ///
    /// A first packet only sets the high mark.  A packet above the high
    /// mark records the skipped range as missing, unless the gap exceeds
    /// `MAX_GAP`, which resets the register.  A packet at or below the high
    /// mark fills its own gap entry if one exists.
    pub fn packet_received(&mut self, seq: u64, now: Instant)
        requires
            old(self).wf(),
            seq <= u64::MAX - MAX_GAP,
        ensures
            final(self).wf(),
            packet_received_post(*old(self), *final(self), seq, now),
    {
        match self.highest {
            None => {
                self.highest = Some(seq);
            },
            Some(h) => {
                if seq > h {
                    if seq - h <= MAX_GAP {
                        let ghost pre = self.entries@;
                        let mut cur: u64 = h + 1;
                        while cur < seq
                            invariant
                                h < cur <= seq,
                                seq <= u64::MAX - MAX_GAP,
                                self.entries@ == pre + gap_entries(h + 1, cur as int, now),
                                self.highest == Some(h),
                                forall|i: int, j: int|
                                    0 <= i < j < self.entries@.len() ==> self.entries@[i].seq
                                        < self.entries@[j].seq,
                                forall|i: int|
                                    0 <= i < self.entries@.len() ==> (
                                    #[trigger] self.entries@[i]).reports <= MAX_NACKS,
                                forall|i: int|
                                    0 <= i < self.entries@.len() ==> (
                                    #[trigger] self.entries@[i]).seq < cur,
                            decreases seq - cur,
                        {
                            let e = NackEntry {
                                seq: cur,
                                first_seen: now.millis,
                                reports: 0,
                                next_at: now.millis.saturating_add(REORDER_DELAY_MILLIS),
                            };
                            proof {
                                assert(e == fresh_entry(cur, now));
                                assert(gap_entries(h + 1, cur as int + 1, now) == gap_entries(
                                    h + 1,
                                    cur as int,
                                    now,
                                ).push(e));
                            }
                            self.entries.push(e);
                            cur = cur + 1;
                        }
                        self.highest = Some(seq);
                    } else {
                        self.entries = Vec::new();
                        self.highest = Some(seq);
                    }
                } else {
                    let n = self.entries.len();
                    let mut i: usize = 0;
                    while i < n
                        invariant
                            old(self).wf(),
                            n == self.entries@.len(),
                            i <= n,
                            self.entries@ == old(self).entries@,
                            self.highest == old(self).highest,
                            forall|k: int| 0 <= k < i ==> self.entries@[k].seq != seq,
                        decreases n - i,
                    {
                        if self.entries[i].seq == seq {
                            let ghost pre = self.entries@;
                            proof {
                                assert(pre == old(self).entries_spec());
                                assert(forall|a: int, b: int|
                                    0 <= a < b < pre.len() ==> pre[a].seq < pre[b].seq);
                            }
                            self.entries.remove(i);
                            proof {
                                lemma_find_seq_at(pre, seq, i as int);
                                assert forall|k: int|
                                    0 <= k < self.entries@.len() implies (
                                #[trigger] self.entries@[k]).seq != seq by {
                                    if k < i {
                                        assert(self.entries@[k] == pre[k]);
                                        assert(pre[k].seq < pre[i as int].seq);
                                    } else {
                                        assert(self.entries@[k] == pre[k + 1]);
                                        assert(pre[i as int].seq < pre[k + 1].seq);
                                    }
                                }
                            }
                            return ;
                        }
                        i = i + 1;
                    }
                    proof {
                        lemma_find_seq_none(self.entries@, seq);
                    }
                }
            },
        }
    }

    /// Report the first due missing sequence at `now`, if any, counting the
    /// report against that sequence and scheduling its backoff.
    pub fn poll(&mut self, now: Instant) -> (r: Option<u64>)
        requires
            old(self).wf(),
        ensures
            final(self).wf(),
            poll_post(*old(self), *final(self), r, now),
    {
        let n = self.entries.len();
        let mut i: usize = 0;
        while i < n
            invariant
                old(self).wf(),
                n == self.entries@.len(),
                i <= n,
                self.entries@ == old(self).entries@,
                self.highest == old(self).highest,
                forall|k: int| 0 <= k < i ==> !due(#[trigger] self.entries@[k], now),
            decreases n - i,
        {
            let e = self.entries[i];
            if e.reports < MAX_NACKS && e.next_at <= now.millis && now.millis <= e.first_seen
                .saturating_add(AGE_OUT_MILLIS) {
                proof {
                    assert(due(e, now));
                    lemma_first_due_at(self.entries@, now, i as int);
                }
                let reports = e.reports;
                let next = compute_backoff(now, reports);
                let upd = NackEntry {
                    seq: e.seq,
                    first_seen: e.first_seen,
                    reports: reports + 1,
                    next_at: next,
                };
                proof {
                    assert(upd == bumped(e, now));
                }
                self.entries.set(i, upd);
                return Some(e.seq);
            }
            proof {
                if now.millis > e.first_seen.saturating_add(AGE_OUT_MILLIS) {
                    assert(now.millis > e.first_seen + AGE_OUT_MILLIS);
                }
                assert(!due(e, now));
            }
            i = i + 1;
        }
        proof {
            lemma_first_due_none(self.entries@, now);
        }
        None
    }

    /// Drop every entry that has aged out at `now`.
    pub fn prune(&mut self, now: Instant)
        requires
            old(self).wf(),
        ensures
            final(self).wf(),
            final(self).highest_spec() == old(self).highest_spec(),
            final(self).entries_spec() == kept(
                old(self).entries_spec(),
                old(self).entries_spec().len() as int,
                now,
            ),
    {
        let n = self.entries.len();
        let mut out: Vec<NackEntry> = Vec::new();
        let mut i: usize = 0;
        while i < n
            invariant
                old(self).wf(),
                n == self.entries@.len(),
                i <= n,
                self.entries@ == old(self).entries@,
                self.highest == old(self).highest,
                out@ == kept(self.entries@, i as int, now),
            decreases n - i,
        {
            let e = self.entries[i];
            if now.millis <= e.first_seen.saturating_add(AGE_OUT_MILLIS) {
                proof {
                    assert(now.millis <= e.first_seen + AGE_OUT_MILLIS);
                }
                out.push(e);
            } else {
                proof {
                    assert(now.millis > e.first_seen + AGE_OUT_MILLIS);
                }
            }
            i = i + 1;
        }
        proof {
            lemma_kept_wf(self.entries@, n as int, now);
            if let Some(h) = self.highest {
                assert forall|k: int| 0 <= k < out@.len() implies (#[trigger] out@[k]).seq < h by {
                    assert(appears(self.entries@, n as int, out@[k]));
                    let j = choose|j: int| 0 <= j < n && self.entries@[j] == out@[k];
                    assert(self.entries@[j].seq < h);
                }
            }
        }
        self.entries = out;
    }

    /// The earliest scheduled report instant over the entries that still
    /// have reports left, as a wake-up deadline.  The deadline may belong
    /// to an entry that will have aged out by then; polling at that instant
    /// then reports nothing.
    pub fn next_fire_at(&self) -> (r: Option<u64>)
        ensures
            match r {
                Option::None => forall|i: int|
                    0 <= i < self.entries_spec().len() ==> (
                    #[trigger] self.entries_spec()[i]).reports >= MAX_NACKS,
                Option::Some(t) => {
                    &&& (forall|i: int|
                        0 <= i < self.entries_spec().len() && (
                        #[trigger] self.entries_spec()[i]).reports < MAX_NACKS ==> t
                            <= self.entries_spec()[i].next_at)
                    &&& (exists|i: int|
                        0 <= i < self.entries_spec().len() && (
                        #[trigger] self.entries_spec()[i]).reports < MAX_NACKS && t
                            == self.entries_spec()[i].next_at)
                },
            },
    {
        let n = self.entries.len();
        let mut best: Option<u64> = None;
        let mut i: usize = 0;
        while i < n
            invariant
                n == self.entries@.len(),
                i <= n,
                match best {
                    Option::None => forall|k: int|
                        0 <= k < i ==> (#[trigger] self.entries@[k]).reports >= MAX_NACKS,
                    Option::Some(t) => {
                        &&& (forall|k: int|
                            0 <= k < i && (#[trigger] self.entries@[k]).reports < MAX_NACKS ==> t
                                <= self.entries@[k].next_at)
                        &&& (exists|k: int|
                            0 <= k < i && (#[trigger] self.entries@[k]).reports < MAX_NACKS && t
                                == self.entries@[k].next_at)
                    },
                },
            decreases n - i,
        {
            let e = self.entries[i];
            if e.reports < MAX_NACKS {
                best = match best {
                    None => Some(e.next_at),
                    Some(t) => if e.next_at < t {
                        Some(e.next_at)
                    } else {
                        Some(t)
                    },
                };
            }
            i = i + 1;
        }
        proof {
            match best {
                Option::None => {
                    assert forall|k: int|
                        0 <= k < self.entries_spec().len() implies (
                    #[trigger] self.entries_spec()[k]).reports >= MAX_NACKS by {
                        assert(self.entries@[k].reports >= MAX_NACKS);
                    }
                },
                Option::Some(t) => {
                    let k = choose|k: int|
                        0 <= k < n && (#[trigger] self.entries@[k]).reports < MAX_NACKS && t
                            == self.entries@[k].next_at;
                    assert(0 <= k < self.entries_spec().len() && (
                    #[trigger] self.entries_spec()[k]).reports < MAX_NACKS && t
                        == self.entries_spec()[k].next_at);
                },
            }
        }
        best
    }

    /// Whether some missing sequence is due for reporting at `now`.
    pub fn has_due(&self, now: Instant) -> (r: bool)
        requires
            self.wf(),
        ensures
            r == (first_due(self.entries_spec(), now) >= 0),
    {
        let n = self.entries.len();
        let mut i: usize = 0;
        while i < n
            invariant
                n == self.entries@.len(),
                i <= n,
                forall|k: int| 0 <= k < i ==> !due(#[trigger] self.entries@[k], now),
            decreases n - i,
        {
            let e = self.entries[i];
            if e.reports < MAX_NACKS && e.next_at <= now.millis && now.millis <= e.first_seen
                .saturating_add(AGE_OUT_MILLIS) {
                proof {
                    assert(due(e, now));
                    lemma_first_due_at(self.entries@, now, i as int);
                }
                return true;
            }
            proof {
                if now.millis > e.first_seen.saturating_add(AGE_OUT_MILLIS) {
                    assert(now.millis > e.first_seen + AGE_OUT_MILLIS);
                }
                assert(!due(e, now));
            }
            i = i + 1;
        }
        proof {
            lemma_first_due_none(self.entries@, now);
        }
        false
    }
}

/// One reorder delay times the backoff multiplier past `now`, saturating.
fn compute_backoff(now: Instant, reports: u64) -> (r: u64)
    ensures
        r == backoff_at(now.millis as int, reports as int),
{
    let factor: u64 = if reports == 0 {
        1
    } else if reports == 1 {
        2
    } else if reports == 2 {
        4
    } else if reports == 3 {
        8
    } else {
        16
    };
    now.millis.saturating_add(REORDER_DELAY_MILLIS * factor)
}

/// When every index below `i` misses and `s[i]` matches, `i` is found.
proof fn lemma_find_seq_at(s: Seq<NackEntry>, seq: u64, i: int)
    requires
        0 <= i < s.len(),
        s[i].seq == seq,
        forall|k: int| 0 <= k < i ==> s[k].seq != seq,
    ensures
        find_seq(s, seq) == i,
    decreases i,
{
    if i > 0 {
        assert(forall|k: int| 0 <= k < i - 1 ==> s.drop_first()[k] == s[k + 1]);
        assert(s.drop_first()[i - 1] == s[i]);
        lemma_find_seq_at(s.drop_first(), seq, i - 1);
    }
}

/// When no entry matches, nothing is found.
proof fn lemma_find_seq_none(s: Seq<NackEntry>, seq: u64)
    requires
        forall|k: int| 0 <= k < s.len() ==> s[k].seq != seq,
    ensures
        find_seq(s, seq) == -1,
    decreases s.len(),
{
    if s.len() > 0 {
        assert(forall|k: int| 0 <= k < s.len() - 1 ==> s.drop_first()[k] == s[k + 1]);
        lemma_find_seq_none(s.drop_first(), seq);
    }
}

/// When every index below `i` is not due and `s[i]` is due, `i` is the
/// first due index.
proof fn lemma_first_due_at(s: Seq<NackEntry>, now: Instant, i: int)
    requires
        0 <= i < s.len(),
        due(s[i], now),
        forall|k: int| 0 <= k < i ==> !due(#[trigger] s[k], now),
    ensures
        first_due(s, now) == i,
    decreases i,
{
    if i == 0 {
    } else {
        assert(!due(s[0], now));
        assert(s.drop_first()[i - 1] == s[i]);
        assert(forall|k: int| 0 <= k < i - 1 ==> s.drop_first()[k] == s[k + 1]);
        lemma_first_due_at(s.drop_first(), now, i - 1);
    }
}

/// When no entry is due, `first_due` reports none.
proof fn lemma_first_due_none(s: Seq<NackEntry>, now: Instant)
    requires
        forall|k: int| 0 <= k < s.len() ==> !due(#[trigger] s[k], now),
    ensures
        first_due(s, now) == -1,
    decreases s.len(),
{
    if s.len() > 0 {
        assert(forall|k: int| 0 <= k < s.len() - 1 ==> s.drop_first()[k] == s[k + 1]);
        lemma_first_due_none(s.drop_first(), now);
    }
}

/// Pruning keeps the order and the report bounds, and invents no entry.
proof fn lemma_kept_wf(s: Seq<NackEntry>, n: int, now: Instant)
    requires
        n <= s.len(),
        forall|i: int, j: int| 0 <= i < j < s.len() ==> s[i].seq < s[j].seq,
        forall|i: int| 0 <= i < s.len() ==> (#[trigger] s[i]).reports <= MAX_NACKS,
    ensures
        forall|i: int, j: int|
            0 <= i < j < kept(s, n, now).len() ==> kept(s, n, now)[i].seq < kept(s, n, now)[j].seq,
        forall|i: int|
            0 <= i < kept(s, n, now).len() ==> (#[trigger] kept(s, n, now)[i]).reports <= MAX_NACKS,
        forall|i: int|
            0 <= i < kept(s, n, now).len() ==> appears(s, n, #[trigger] kept(s, n, now)[i]),
    decreases n,
{
    if n > 0 {
        lemma_kept_wf(s, n - 1, now);
        let prev = kept(s, n - 1, now);
        let cur = kept(s, n, now);
        if now.millis <= s[n - 1].first_seen + AGE_OUT_MILLIS {
            assert(cur == prev.push(s[n - 1]));
            assert forall|i: int| 0 <= i < cur.len() implies appears(s, n, #[trigger] cur[i]) by {
                if i < prev.len() {
                    assert(appears(s, n - 1, prev[i]));
                    let j = choose|j: int| 0 <= j < n - 1 && s[j] == prev[i];
                    assert(0 <= j < n && s[j] == cur[i]);
                } else {
                    assert(cur[i] == s[n - 1]);
                }
            }
            assert forall|i: int, j: int| 0 <= i < j < cur.len() implies cur[i].seq < cur[j].seq by {
                if j == cur.len() - 1 {
                    assert(appears(s, n - 1, prev[i]));
                    let k = choose|k: int| 0 <= k < n - 1 && s[k] == prev[i];
                    assert(s[k].seq < s[n - 1].seq);
                } else {
                    assert(prev[i].seq < prev[j].seq);
                }
            }
        } else {
            assert(cur == prev);
            assert forall|i: int| 0 <= i < cur.len() implies appears(s, n, #[trigger] cur[i]) by {
                assert(appears(s, n - 1, prev[i]));
                let j = choose|j: int| 0 <= j < n - 1 && s[j] == prev[i];
                assert(0 <= j < n && s[j] == cur[i]);
            }
        }
    }
}

} // verus!
