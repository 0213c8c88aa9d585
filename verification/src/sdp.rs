//! Offer/answer reconciliation of payload types.
//!
//! The offerer sends its configuration in its own order.  The answerer
//! keeps its preferred order restricted to the intersection, adopts the
//! offered payload type for every codec it had not locked yet, and locks
//! every matched codec.  Codecs of the answerer absent from the offer stay
//! unlocked; with an empty intersection neither side changes at all.

use vstd::prelude::*;

use crate::format::CodecSpec;
use crate::format::PayloadParams;
use crate::rtp::Pt;

verus! {

/// First index in `s` whose codec spec is `c`, or -1.
pub open spec fn find_spec(s: Seq<PayloadParams>, c: CodecSpec) -> int
    decreases s.len(),
{
    if s.len() == 0 {
        -1
    } else if s[0].spec_ == c {
        0
    } else {
        let rest = find_spec(s.drop_first(), c);
        if rest == -1 {
            -1
        } else {
            rest + 1
        }
    }
}

pub open spec fn has_spec(s: Seq<PayloadParams>, c: CodecSpec) -> bool {
    find_spec(s, c) >= 0
}

/// Some entry of `own` has a counterpart in `offer`.
pub open spec fn any_match(own: Seq<PayloadParams>, offer: Seq<PayloadParams>) -> bool {
    exists|j: int| 0 <= j < own.len() && has_spec(offer, (#[trigger] own[j]).spec_)
}

/// The entry as the answerer keeps it after a match: locked, and carrying
/// the offered payload type unless its own was already locked.
pub open spec fn adopt(own: PayloadParams, offered_pt: Pt) -> PayloadParams {
    if own.locked {
        own
    } else {
        PayloadParams { pt: offered_pt, locked: true, ..own }
    }
}

/// The matched entries of `own`, in `own` order, adopted and locked.
pub open spec fn matched_part(own: Seq<PayloadParams>, offer: Seq<PayloadParams>) -> Seq<
    PayloadParams,
>
    decreases own.len(),
{
    if own.len() == 0 {
        Seq::empty()
    } else {
        let rest = matched_part(own.drop_last(), offer);
        if has_spec(offer, own.last().spec_) {
            rest.push(adopt(own.last(), offer[find_spec(offer, own.last().spec_)].pt))
        } else {
            rest
        }
    }
}

/// The unmatched entries of `own`, in `own` order, untouched.
pub open spec fn unmatched_part(own: Seq<PayloadParams>, offer: Seq<PayloadParams>) -> Seq<
    PayloadParams,
>
    decreases own.len(),
{
    if own.len() == 0 {
        Seq::empty()
    } else {
        let rest = unmatched_part(own.drop_last(), offer);
        if has_spec(offer, own.last().spec_) {
            rest
        } else {
            rest.push(own.last())
        }
    }
}

/// The answerer's configuration after a round with a non-empty
/// intersection: matched entries first in its own preferred order, then
/// its unmatched entries, unchanged and unlocked.
pub open spec fn answered_config(own: Seq<PayloadParams>, offer: Seq<PayloadParams>) -> Seq<
    PayloadParams,
> {
    matched_part(own, offer) + unmatched_part(own, offer)
}

/// The payload types the remote (offering) side uses, in offer order,
/// restricted to the matched entries.
pub open spec fn answer_remote_pts(offer: Seq<PayloadParams>, own: Seq<PayloadParams>) -> Seq<Pt>
    decreases offer.len(),
{
    if offer.len() == 0 {
        Seq::empty()
    } else {
        let rest = answer_remote_pts(offer.drop_last(), own);
        if has_spec(own, offer.last().spec_) {
            rest.push(offer.last().pt)
        } else {
            rest
        }
    }
}

/// A structured offer: the offerer's configuration in its own order.
#[derive(Debug)]
pub struct Offer {
    pub params: Vec<PayloadParams>,
}

/// A structured answer: the matched configuration in the answerer's order.
#[derive(Debug)]
pub struct Answer {
    pub params: Vec<PayloadParams>,
}

/// A side's codec configuration, in preference order.
pub struct CodecConfig {
    params: Vec<PayloadParams>,
}

impl CodecConfig {
    pub closed spec fn params_spec(self) -> Seq<PayloadParams> {
        self.params@
    }

    pub fn new() -> (r: CodecConfig)
        ensures
            r.params_spec() == Seq::<PayloadParams>::empty(),
    {
        CodecConfig { params: Vec::new() }
    }

    /// Append one unlocked entry.
    pub fn add_config(&mut self, pt: Pt, resend: Option<Pt>, spec_: CodecSpec)
        ensures
            final(self).params_spec() == old(self).params_spec().push(
                PayloadParams { pt, resend, spec_, locked: false },
            ),
    {
        self.params.push(PayloadParams::new(pt, resend, spec_));
    }

    pub fn params(&self) -> (r: &Vec<PayloadParams>)
        ensures
            r@ == self.params_spec(),
    {
        &self.params
    }

    pub fn len(&self) -> (r: usize)
        ensures
            r == self.params_spec().len(),
    {
        self.params.len()
    }

    /// Produce an offer carrying this configuration.
    pub fn create_offer(&self) -> (r: Offer)
        ensures
            r.params@ == self.params_spec(),
    {
        Offer { params: clone_params(&self.params) }
    }

    /// Answer `offer`: with a non-empty intersection, adopt and lock the
    /// matched codecs in this side's preferred order and keep unmatched
    /// codecs unlocked; with none, change nothing.  Returns the answer to
    /// send back and the remote payload types in offer order.
    pub fn accept_offer(&mut self, offer: &Offer) -> (r: (Answer, Vec<Pt>))
        ensures
            if any_match(old(self).params_spec(), offer.params@) {
                &&& final(self).params_spec() == answered_config(
                    old(self).params_spec(),
                    offer.params@,
                )
                &&& r.0.params@ == matched_part(old(self).params_spec(), offer.params@)
                &&& r.1@ == answer_remote_pts(offer.params@, old(self).params_spec())
            } else {
                &&& final(self).params_spec() == old(self).params_spec()
                &&& r.0.params@ == Seq::<PayloadParams>::empty()
                &&& r.1@ == Seq::<Pt>::empty()
            },
    {
        let ghost own0 = self.params@;
        let n = self.params.len();
        let mut matched: Vec<PayloadParams> = Vec::new();
        let mut unmatched: Vec<PayloadParams> = Vec::new();
        let mut i: usize = 0;
        while i < n
            invariant
                n == self.params@.len(),
                i <= n,
                self.params@ == own0,
                matched@ == matched_part(own0.take(i as int), offer.params@),
                unmatched@ == unmatched_part(own0.take(i as int), offer.params@),
            decreases n - i,
        {
            let p = self.params[i];
            proof {
                assert(own0.take(i as int + 1).drop_last() =~= own0.take(i as int));
                assert(own0.take(i as int + 1).last() == p);
            }
            match find_param(&offer.params, &p.spec_) {
                Some(k) => {
                    let adopted = if p.locked {
                        p
                    } else {
                        PayloadParams { pt: offer.params[k].pt, locked: true, ..p }
                    };
                    proof {
                        assert(adopted == adopt(p, offer.params@[find_spec(
                            offer.params@,
                            p.spec_,
                        )].pt));
                    }
                    matched.push(adopted);
                },
                None => {
                    unmatched.push(p);
                },
            }
            i = i + 1;
        }
        proof {
            assert(own0.take(n as int) =~= own0);
            lemma_matched_nonempty_iff_any_match(own0, offer.params@);
        }
        if matched.len() == 0 {
            return (Answer { params: Vec::new() }, Vec::new());
        }
        // The remote payload types, in offer order, restricted to matches.
        let m = offer.params.len();
        let mut remote: Vec<Pt> = Vec::new();
        let mut j: usize = 0;
        while j < m
            invariant
                m == offer.params@.len(),
                self.params@ == own0,
                j <= m,
                remote@ == answer_remote_pts(offer.params@.take(j as int), own0),
            decreases m - j,
        {
            let o = offer.params[j];
            proof {
                assert(offer.params@.take(j as int + 1).drop_last() =~= offer.params@.take(
                    j as int,
                ));
                assert(offer.params@.take(j as int + 1).last() == o);
            }
            if find_param(&self.params, &o.spec_).is_some() {
                remote.push(o.pt);
            }
            j = j + 1;
        }
        proof {
            assert(offer.params@.take(m as int) =~= offer.params@);
        }
        let answer = Answer { params: clone_params(&matched) };
        let mut combined = matched;
        let mut rest = unmatched;
        combined.append(&mut rest);
        self.params = combined;
        (answer, remote)
    }

    /// Complete a round as the offerer: lock every entry the answer kept,
    /// changing no payload type, and read the remote payload types off the
    /// answer in its order.
    pub fn accept_answer(&mut self, answer: &Answer) -> (r: Vec<Pt>)
        ensures
            final(self).params_spec().len() == old(self).params_spec().len(),
            forall|i: int|
                0 <= i < old(self).params_spec().len() ==> final(self).params_spec()[i] == (
                if has_spec(answer.params@, (#[trigger] old(self).params_spec()[i]).spec_) {
                    PayloadParams { locked: true, ..old(self).params_spec()[i] }
                } else {
                    old(self).params_spec()[i]
                }),
            r@.len() == answer.params@.len(),
            forall|i: int| 0 <= i < answer.params@.len() ==> r@[i] == answer.params@[i].pt,
    {
        let n = self.params.len();
        let mut i: usize = 0;
        while i < n
            invariant
                n == self.params@.len(),
                i <= n,
                old(self).params_spec().len() == n,
                forall|k: int| i <= k < n ==> self.params@[k] == old(self).params_spec()[k],
                forall|k: int|
                    0 <= k < i ==> self.params@[k] == (if has_spec(
                        answer.params@,
                        (#[trigger] old(self).params_spec()[k]).spec_,
                    ) {
                        PayloadParams { locked: true, ..old(self).params_spec()[k] }
                    } else {
                        old(self).params_spec()[k]
                    }),
            decreases n - i,
        {
            let p = self.params[i];
            if find_param(&answer.params, &p.spec_).is_some() {
                self.params.set(i, PayloadParams { locked: true, ..p });
            }
            i = i + 1;
        }
        let m = answer.params.len();
        let mut remote: Vec<Pt> = Vec::new();
        let mut j: usize = 0;
        while j < m
            invariant
                m == answer.params@.len(),
                j <= m,
                remote@.len() == j,
                forall|k: int| 0 <= k < j ==> remote@[k] == answer.params@[k].pt,
            decreases m - j,
        {
            remote.push(answer.params[j].pt);
            j = j + 1;
        }
        remote
    }
}

/// Find the first entry of `s` with codec spec `c`.
fn find_param(s: &Vec<PayloadParams>, c: &CodecSpec) -> (r: Option<usize>)
    ensures
        match r {
            Option::Some(k) => {
                &&& find_spec(s@, *c) == k as int
                &&& 0 <= k < s@.len()
                &&& s@[k as int].spec_ == *c
            },
            Option::None => find_spec(s@, *c) == -1,
        },
{
    let n = s.len();
    let mut i: usize = 0;
    while i < n
        invariant
            n == s@.len(),
            i <= n,
            forall|k: int| 0 <= k < i ==> s@[k].spec_ != *c,
        decreases n - i,
    {
        if params_spec_eq(&s[i].spec_, c) {
            proof {
                lemma_find_spec_at(s@, *c, i as int);
            }
            return Some(i);
        }
        i = i + 1;
    }
    proof {
        lemma_find_spec_none(s@, *c);
    }
    None
}

/// Structural equality of two codec specs.
fn params_spec_eq(a: &CodecSpec, b: &CodecSpec) -> (r: bool)
    ensures
        r == (*a == *b),
{
    let codec_eq = match (a.codec, b.codec) {
        (crate::format::Codec::Opus, crate::format::Codec::Opus) => true,
        (crate::format::Codec::Vp8, crate::format::Codec::Vp8) => true,
        (crate::format::Codec::H264, crate::format::Codec::H264) => true,
        (crate::format::Codec::Vp9, crate::format::Codec::Vp9) => true,
        (crate::format::Codec::Av1, crate::format::Codec::Av1) => true,
        _ => false,
    };
    let channels_eq = match (a.channels, b.channels) {
        (Option::None, Option::None) => true,
        (Option::Some(x), Option::Some(y)) => x == y,
        _ => false,
    };
    let profile_eq = match (a.format.profile_id, b.format.profile_id) {
        (Option::None, Option::None) => true,
        (Option::Some(x), Option::Some(y)) => x == y,
        _ => false,
    };
    let ptime_eq = match (a.format.min_ptime, b.format.min_ptime) {
        (Option::None, Option::None) => true,
        (Option::Some(x), Option::Some(y)) => x == y,
        _ => false,
    };
    codec_eq && a.clock_rate == b.clock_rate && channels_eq && profile_eq && ptime_eq
}

/// Copy a parameter list.
fn clone_params(s: &Vec<PayloadParams>) -> (r: Vec<PayloadParams>)
    ensures
        r@ == s@,
{
    let n = s.len();
    let mut out: Vec<PayloadParams> = Vec::new();
    let mut i: usize = 0;
    while i < n
        invariant
            n == s@.len(),
            i <= n,
            out@ == s@.take(i as int),
        decreases n - i,
    {
        out.push(s[i]);
        proof {
            assert(out@ =~= s@.take(i as int + 1));
        }
        i = i + 1;
    }
    proof {
        assert(s@.take(n as int) =~= s@);
    }
    out
}

/// When every index below `i` misses and `s[i]` matches, `i` is found.
proof fn lemma_find_spec_at(s: Seq<PayloadParams>, c: CodecSpec, i: int)
    requires
        0 <= i < s.len(),
        s[i].spec_ == c,
        forall|k: int| 0 <= k < i ==> s[k].spec_ != c,
    ensures
        find_spec(s, c) == i,
    decreases i,
{
    if i > 0 {
        assert(forall|k: int| 0 <= k < i - 1 ==> s.drop_first()[k] == s[k + 1]);
        assert(s.drop_first()[i - 1] == s[i]);
        lemma_find_spec_at(s.drop_first(), c, i - 1);
    }
}

/// When no entry matches, nothing is found.
proof fn lemma_find_spec_none(s: Seq<PayloadParams>, c: CodecSpec)
    requires
        forall|k: int| 0 <= k < s.len() ==> s[k].spec_ != c,
    ensures
        find_spec(s, c) == -1,
    decreases s.len(),
{
    if s.len() > 0 {
        assert(forall|k: int| 0 <= k < s.len() - 1 ==> s.drop_first()[k] == s[k + 1]);
        lemma_find_spec_none(s.drop_first(), c);
    }
}

/// The matched part is non-empty exactly when some entry matches.
pub proof fn lemma_matched_nonempty_iff_any_match(own: Seq<PayloadParams>, offer: Seq<PayloadParams>)
    ensures
        (matched_part(own, offer).len() > 0) == any_match(own, offer),
    decreases own.len(),
{
    if own.len() == 0 {
        assert(!any_match(own, offer));
    } else {
        lemma_matched_nonempty_iff_any_match(own.drop_last(), offer);
        if has_spec(offer, own.last().spec_) {
            assert(any_match(own, offer));
        } else {
            if any_match(own.drop_last(), offer) {
                let j = choose|j: int|
                    0 <= j < own.drop_last().len() && has_spec(
                        offer,
                        (#[trigger] own.drop_last()[j]).spec_,
                    );
                assert(own[j] == own.drop_last()[j]);
                assert(any_match(own, offer));
            }
            if any_match(own, offer) {
                let j = choose|j: int|
                    0 <= j < own.len() && has_spec(offer, (#[trigger] own[j]).spec_);
                assert(j < own.len() - 1) by {
                    assert(own.last().spec_ == own[own.len() - 1].spec_);
                }
                assert(own.drop_last()[j] == own[j]);
                assert(any_match(own.drop_last(), offer));
            }
        }
    }
}

/// A single round locks every matched codec on the answering side: every
/// entry of `own` with a counterpart in the offer appears in the answered
/// configuration locked, under the payload type the round fixed for it.
pub proof fn lemma_round_locks_matches(own: Seq<PayloadParams>, offer: Seq<PayloadParams>, j: int)
    requires
        0 <= j < own.len(),
        has_spec(offer, own[j].spec_),
    ensures
        exists|k: int|
            0 <= k < answered_config(own, offer).len() && #[trigger] answered_config(own, offer)[k]
                == adopt(own[j], offer[find_spec(offer, own[j].spec_)].pt) && answered_config(
                own,
                offer,
            )[k].locked == true,
    decreases own.len(),
{
    let result = answered_config(own, offer);
    let mp = matched_part(own, offer);
    lemma_matched_in(own, offer, j);
    let k = choose|k: int|
        0 <= k < mp.len() && #[trigger] mp[k] == adopt(own[j], offer[find_spec(
            offer,
            own[j].spec_,
        )].pt);
    assert(result[k] == mp[k]);
    assert(adopt(own[j], offer[find_spec(offer, own[j].spec_)].pt).locked);
}

/// Every matched entry of `own` lands in the matched part, adopted.
proof fn lemma_matched_in(own: Seq<PayloadParams>, offer: Seq<PayloadParams>, j: int)
    requires
        0 <= j < own.len(),
        has_spec(offer, own[j].spec_),
    ensures
        exists|k: int|
            0 <= k < matched_part(own, offer).len() && #[trigger] matched_part(own, offer)[k]
                == adopt(own[j], offer[find_spec(offer, own[j].spec_)].pt),
    decreases own.len(),
{
    let mp = matched_part(own, offer);
    if j == own.len() - 1 {
        assert(own.last() == own[j]);
        assert(mp.last() == adopt(own[j], offer[find_spec(offer, own[j].spec_)].pt));
        assert(mp[mp.len() - 1] == adopt(own[j], offer[find_spec(offer, own[j].spec_)].pt));
    } else {
        assert(own.drop_last()[j] == own[j]);
        lemma_matched_in(own.drop_last(), offer, j);
        let prev = matched_part(own.drop_last(), offer);
        let k = choose|k: int|
            0 <= k < prev.len() && #[trigger] prev[k] == adopt(own[j], offer[find_spec(
                offer,
                own[j].spec_,
            )].pt);
        assert(mp[k] == prev[k]);
    }
}

/// Locked payload types never change in a negotiation round: an already
/// locked entry of `own` reappears in the answered configuration exactly
/// as it was, locked and under its old payload type.
pub proof fn lemma_locked_pts_stable(own: Seq<PayloadParams>, offer: Seq<PayloadParams>, j: int)
    requires
        0 <= j < own.len(),
        own[j].locked,
    ensures
        exists|k: int|
            0 <= k < answered_config(own, offer).len() && #[trigger] answered_config(own, offer)[k]
                == own[j],
    decreases own.len(),
{
    let result = answered_config(own, offer);
    if has_spec(offer, own[j].spec_) {
        lemma_matched_in(own, offer, j);
        let mp = matched_part(own, offer);
        assert(adopt(own[j], offer[find_spec(offer, own[j].spec_)].pt) == own[j]);
        let k = choose|k: int| 0 <= k < mp.len() && #[trigger] mp[k] == own[j];
        assert(result[k] == mp[k]);
    } else {
        lemma_unmatched_in(own, offer, j);
        let up = unmatched_part(own, offer);
        let k = choose|k: int| 0 <= k < up.len() && #[trigger] up[k] == own[j];
        let mlen = matched_part(own, offer).len();
        assert(result[mlen + k] == up[k]);
    }
}

/// Every unmatched entry of `own` lands in the unmatched part, untouched.
proof fn lemma_unmatched_in(own: Seq<PayloadParams>, offer: Seq<PayloadParams>, j: int)
    requires
        0 <= j < own.len(),
        !has_spec(offer, own[j].spec_),
    ensures
        exists|k: int|
            0 <= k < unmatched_part(own, offer).len() && #[trigger] unmatched_part(own, offer)[k]
                == own[j],
    decreases own.len(),
{
    let up = unmatched_part(own, offer);
    if j == own.len() - 1 {
        assert(own.last() == own[j]);
        assert(up[up.len() - 1] == own[j]);
    } else {
        assert(own.drop_last()[j] == own[j]);
        lemma_unmatched_in(own.drop_last(), offer, j);
        let prev = unmatched_part(own.drop_last(), offer);
        let k = choose|k: int| 0 <= k < prev.len() && #[trigger] prev[k] == own[j];
        assert(up[k] == prev[k]);
    }
}

} // verus!
