//! Extension of cyclic wire counters to monotone 64-bit values.
//!
//! RTP carries 16-bit sequence numbers and 32-bit timestamps.  A register
//! keeps the last extended value per direction and projects each new wire
//! value to the unique 64-bit value with the same low bits that lies
//! closest to the register, ties resolved forward.  The projection is a
//! pure function of the register and the wire value.

use vstd::prelude::*;

verus! {

/// Wire range of an RTP sequence number.
pub const SEQ_MODULUS: u64 = 0x1_0000;

/// Wire range of an RTP timestamp.
pub const TIME_MODULUS: u64 = 0x1_0000_0000;

/// The projection of wire value `wire` against the last extended value
/// `prev`, for a cyclic counter of range `modulus`.
///
/// The result is congruent to `wire` and, among the non-negative values
/// with that property, closest to `prev`; on a tie the value at or above
/// `prev` wins.  `lemma_extend_reconstructs` states that characterisation.
pub open spec fn extend_spec(prev: int, wire: int, modulus: int) -> int {
    let low = prev % modulus;
    let roc = prev / modulus;
    let half = modulus / 2;
    if wire > low {
        if wire - low > half && roc > 0 {
            (roc - 1) * modulus + wire
        } else {
            roc * modulus + wire
        }
    } else {
        if low - wire >= half {
            (roc + 1) * modulus + wire
        } else {
            roc * modulus + wire
        }
    }
}

/// Any wire value fed in within a reordering window of half the wire range
/// is projected back to the very 64-bit counter it came from: if `actual`
/// is the originating counter and it lies in the half-open window
/// `(prev - modulus/2, prev + modulus/2]`, the projection of its wire
/// residue against `prev` is `actual` again.
pub proof fn lemma_extend_reconstructs(prev: int, actual: int, modulus: int)
    requires
        modulus >= 2,
        modulus % 2 == 0,
        prev >= 0,
        actual >= 0,
        prev - modulus / 2 < actual,
        actual <= prev + modulus / 2,
    ensures
        extend_spec(prev, actual % modulus, modulus) == actual,
{
    let m = modulus;
    let half = m / 2;
    let low = prev % m;
    let roc = prev / m;
    let wire = actual % m;
    let qa = actual / m;
    vstd::arithmetic::div_mod::lemma_fundamental_div_mod(prev, m);
    vstd::arithmetic::div_mod::lemma_fundamental_div_mod(actual, m);
    vstd::arithmetic::div_mod::lemma_mod_bound(prev, m);
    vstd::arithmetic::div_mod::lemma_mod_bound(actual, m);
    vstd::arithmetic::div_mod::lemma_div_pos_is_pos(prev, m);
    vstd::arithmetic::div_mod::lemma_div_pos_is_pos(actual, m);
    assert(half + half == m);
    let d = qa - roc;
    assert(actual - prev == d * m + (wire - low)) by (nonlinear_arith)
        requires
            prev == m * roc + low,
            actual == m * qa + wire,
            d == qa - roc,
    ;
    // The window and the residue bounds pin d to -1, 0 or 1.
    assert(-m - half < d * m) by {
        assert(d * m == (actual - prev) - (wire - low));
    }
    assert(d * m < half + m) by {
        assert(d * m == (actual - prev) - (wire - low));
    }
    assert(-2 < d && d < 2) by (nonlinear_arith)
        requires
            m >= 2,
            half + half == m,
            half >= 1,
            -m - half < d * m,
            d * m < half + m,
    ;
    if d == -1 {
        assert(d * m == -m) by (nonlinear_arith)
            requires
                d == -1,
        ;
        assert(actual - prev == wire - low - m);
        assert(wire - low > half);
        assert(wire > low);
        assert(roc > 0) by {
            assert(qa >= 0);
            assert(roc == qa + 1);
        }
        assert(extend_spec(prev, wire, m) == (roc - 1) * m + wire);
        assert((roc - 1) * m + wire == actual) by (nonlinear_arith)
            requires
                actual == m * qa + wire,
                qa == roc - 1,
        ;
    } else if d == 1 {
        assert(d * m == m) by (nonlinear_arith)
            requires
                d == 1,
        ;
        assert(actual - prev == m + (wire - low));
        assert(low - wire >= half);
        assert(wire < low);
        assert(extend_spec(prev, wire, m) == (roc + 1) * m + wire);
        assert((roc + 1) * m + wire == actual) by (nonlinear_arith)
            requires
                actual == m * qa + wire,
                qa == roc + 1,
        ;
    } else {
        assert(d == 0);
        assert(d * m == 0) by (nonlinear_arith)
            requires
                d == 0,
        ;
        assert(actual - prev == wire - low);
        if wire > low {
            assert(wire - low <= half);
            assert(extend_spec(prev, wire, m) == roc * m + wire);
        } else if wire < low {
            assert(low - wire < half);
            assert(extend_spec(prev, wire, m) == roc * m + wire);
        } else {
            assert(extend_spec(prev, wire, m) == roc * m + wire);
        }
        assert(roc * m + wire == actual) by (nonlinear_arith)
            requires
                actual == m * qa + wire,
                qa == roc,
        ;
    }
}

/// The projection always lands in the residue class of the wire value.
pub proof fn lemma_extend_congruent(prev: int, wire: int, modulus: int)
    requires
        modulus >= 2,
        prev >= 0,
        0 <= wire < modulus,
    ensures
        extend_spec(prev, wire, modulus) % modulus == wire,
{
    let low = prev % modulus;
    let roc = prev / modulus;
    vstd::arithmetic::div_mod::lemma_fundamental_div_mod(prev, modulus);
    vstd::arithmetic::div_mod::lemma_mod_bound(prev, modulus);
    vstd::arithmetic::div_mod::lemma_div_pos_is_pos(prev, modulus);
    let k = if wire > low {
        if wire - low > modulus / 2 && roc > 0 {
            roc - 1
        } else {
            roc
        }
    } else {
        if low - wire >= modulus / 2 {
            roc + 1
        } else {
            roc
        }
    };
    assert(extend_spec(prev, wire, modulus) == k * modulus + wire);
    assert((k * modulus + wire) % modulus == wire) by (nonlinear_arith)
        requires
            modulus >= 2,
            0 <= wire < modulus,
    ;
}

/// Per-direction rollover register.  `last` is the extended value of the
/// most recent wire value accepted by `update`.
pub struct RolloverRegister {
    last: u64,
}

impl RolloverRegister {
    pub closed spec fn view(self) -> int {
        self.last as int
    }

    pub fn new(initial: u64) -> (r: RolloverRegister)
        ensures
            r@ == initial as int,
    {
        RolloverRegister { last: initial }
    }

    pub fn last(&self) -> (r: u64)
        ensures
            r as int == self@,
    {
        self.last
    }

    /// Project a 16-bit wire sequence number without mutating the register.
    pub fn probe_seq(&self, wire: u16) -> (r: u64)
        requires
            self@ <= u64::MAX - SEQ_MODULUS,
        ensures
            r as int == extend_spec(self@, wire as int, SEQ_MODULUS as int),
    {
        extend_u64(self.last, wire as u64, SEQ_MODULUS)
    }

    /// Project and accept a 16-bit wire sequence number.
    pub fn update_seq(&mut self, wire: u16) -> (r: u64)
        requires
            old(self)@ <= u64::MAX - SEQ_MODULUS,
        ensures
            r as int == extend_spec(old(self)@, wire as int, SEQ_MODULUS as int),
            r as int <= old(self)@ + SEQ_MODULUS,
            final(self)@ == r as int,
    {
        let r = extend_u64(self.last, wire as u64, SEQ_MODULUS);
        self.last = r;
        r
    }

    /// Project a 32-bit wire timestamp without mutating the register.
    pub fn probe_time(&self, wire: u32) -> (r: u64)
        requires
            self@ <= u64::MAX - TIME_MODULUS,
        ensures
            r as int == extend_spec(self@, wire as int, TIME_MODULUS as int),
    {
        extend_u64(self.last, wire as u64, TIME_MODULUS)
    }

    /// Project and accept a 32-bit wire timestamp.
    pub fn update_time(&mut self, wire: u32) -> (r: u64)
        requires
            old(self)@ <= u64::MAX - TIME_MODULUS,
        ensures
            r as int == extend_spec(old(self)@, wire as int, TIME_MODULUS as int),
            final(self)@ == r as int,
    {
        let r = extend_u64(self.last, wire as u64, TIME_MODULUS);
        self.last = r;
        r
    }
}

/// Shared projection body for both wire widths.
fn extend_u64(prev: u64, wire: u64, modulus: u64) -> (r: u64)
    requires
        modulus >= 2,
        modulus % 2 == 0,
        wire < modulus,
        prev <= u64::MAX - modulus,
    ensures
        r as int == extend_spec(prev as int, wire as int, modulus as int),
        r as int <= prev as int + modulus as int,
{
    let low = prev % modulus;
    let roc = prev / modulus;
    let half = modulus / 2;
    proof {
        vstd::arithmetic::div_mod::lemma_fundamental_div_mod(prev as int, modulus as int);
        vstd::arithmetic::div_mod::lemma_mod_bound(prev as int, modulus as int);
        assert(roc * modulus <= prev) by (nonlinear_arith)
            requires
                prev as int == modulus as int * roc as int + low as int,
                low as int >= 0,
        ;
    }
    if wire > low {
        if wire - low > half && roc > 0 {
            proof {
                assert((roc - 1) as int * modulus as int == roc as int * modulus as int
                    - modulus as int) by (nonlinear_arith)
                    requires
                        roc >= 1,
                ;
            }
            (roc - 1) * modulus + wire
        } else {
            roc * modulus + wire
        }
    } else {
        if low - wire >= half {
            proof {
                assert((roc + 1) as int * modulus as int == roc as int * modulus as int
                    + modulus as int) by (nonlinear_arith);
            }
            (roc + 1) * modulus + wire
        } else {
            roc * modulus + wire
        }
    }
}

} // verus!
