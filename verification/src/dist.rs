use vstd::arithmetic::div_mod::lemma_fundamental_div_mod;
use vstd::prelude::*;

use crate::base::{
    base_is_canonical, base_is_transition, base_is_valid_call, is_canonical, is_transition,
    is_valid_call, Base,
};
use crate::seqs::Sequence;

verus! {

/// Longest alignment the engine accepts; keeps every product the exact
/// distance comparison forms inside 128 bits.
pub const MAX_ALIGN: usize = 262144;

/// Fixed-point scale of the fractional transition and transversion
/// weights of the ambiguity-weighted variant: weights are kept as
/// integer multiples of 1 / SCALE.
pub const SCALE: u64 = 16777216;

/// Largest denominator a distance may carry: MAX_ALIGN * SCALE.
pub const DEN_MAX: u64 = 4398046511104;

/// The exact ingredients of one K2P distance: the transition proportion
/// p = p_num / den and the transversion proportion q = q_num / den.
/// The distance itself is the real number
///     -0.5 * ln((1 - 2p - q) * sqrt(1 - 2q)),
/// which a caller outside the verified core evaluates; everything the
/// matrix assembly needs (ordering, zero test, domain checks) is decided
/// here exactly on the integers.
#[derive(Clone, Copy, PartialEq, Eq, Structural, Debug)]
pub struct Stats {
    pub p_num: u64,
    pub q_num: u64,
    pub den: u64,
}

/// A defined distance: positive denominator in range, the formula's
/// argument 1 - 2p - q positive and 1 - 2q nonnegative.
pub open spec fn stats_wf(s: Stats) -> bool {
    &&& 1 <= s.den <= DEN_MAX
    &&& 2 * s.p_num + s.q_num < s.den
    &&& 2 * s.q_num <= s.den
}

/// The outcome of one pairwise comparison: a defined distance, or
/// undefined (no comparable positions, or the formula's domain is left).
#[derive(Clone, Copy, PartialEq, Eq, Structural, Debug)]
pub enum Distance {
    Undefined,
    Value(Stats),
}

/// Turns the tallies of one comparison into a distance: undefined when
/// no position was comparable or the closed form has no value, the exact
/// proportions otherwise.
pub open spec fn classify_spec(p_num: int, q_num: int, den: int) -> Distance {
    if den <= 0 {
        Distance::Undefined
    } else if den - 2 * p_num - q_num <= 0 {
        Distance::Undefined
    } else if den - 2 * q_num < 0 {
        Distance::Undefined
    } else {
        Distance::Value(
            Stats { p_num: p_num as u64, q_num: q_num as u64, den: den as u64 },
        )
    }
}

pub fn classify(p_num: u64, q_num: u64, den: u64) -> (d: Distance)
    requires
        den <= DEN_MAX,
        p_num <= 8 * den,
        q_num <= 8 * den,
    ensures
        d == classify_spec(p_num as int, q_num as int, den as int),
        d matches Distance::Value(s) ==> stats_wf(s),
{
    if den == 0 {
        Distance::Undefined
    } else if den <= 2 * p_num + q_num {
        Distance::Undefined
    } else if den < 2 * q_num {
        Distance::Undefined
    } else {
        Distance::Value(Stats { p_num, q_num, den })
    }
}

/// Both calls of a position take part in a comparison: neither is a gap,
/// an N or the absence sentinel.
pub open spec fn valid_pair(a: Base, b: Base) -> bool {
    is_valid_call(a) && is_valid_call(b)
}

/// Number of comparable positions among the first n.
pub open spec fn n_valid(s1: Seq<Base>, s2: Seq<Base>, n: int) -> int
    decreases n,
{
    if n <= 0 {
        0
    } else {
        n_valid(s1, s2, n - 1) + if valid_pair(s1[n - 1], s2[n - 1]) {
            1int
        } else {
            0int
        }
    }
}

/// Number of canonical transition mismatches among the first n positions.
pub open spec fn n_ts(s1: Seq<Base>, s2: Seq<Base>, n: int) -> int
    decreases n,
{
    if n <= 0 {
        0
    } else {
        n_ts(s1, s2, n - 1) + if valid_pair(s1[n - 1], s2[n - 1]) && is_transition(
            s1[n - 1],
            s2[n - 1],
        ) {
            1int
        } else {
            0int
        }
    }
}

/// Number of canonical transversion mismatches among the first n
/// positions: both calls canonical, different, and not a transition.
pub open spec fn n_tv(s1: Seq<Base>, s2: Seq<Base>, n: int) -> int
    decreases n,
{
    if n <= 0 {
        0
    } else {
        n_tv(s1, s2, n - 1) + if valid_pair(s1[n - 1], s2[n - 1]) && is_canonical(s1[n - 1])
            && is_canonical(s2[n - 1]) && s1[n - 1] != s2[n - 1] && !is_transition(
            s1[n - 1],
            s2[n - 1],
        ) {
            1int
        } else {
            0int
        }
    }
}

/// The plain K2P distance of two aligned call lists: mismatches at
/// comparable positions where both calls are canonical are classified as
/// transitions or transversions; every other comparable position counts
/// toward the length only.
pub open spec fn k2p_spec(s1: Seq<Base>, s2: Seq<Base>) -> Distance {
    classify_spec(
        n_ts(s1, s2, s1.len() as int),
        n_tv(s1, s2, s1.len() as int),
        n_valid(s1, s2, s1.len() as int),
    )
}

/// Plain K2P distance between two sequences of one alignment.
pub fn k2p(seq1: &Sequence, seq2: &Sequence) -> (d: Distance)
    requires
        seq1.seq@.len() == seq2.seq@.len(),
        seq1.seq@.len() <= MAX_ALIGN,
    ensures
        d == k2p_spec(seq1.seq@, seq2.seq@),
        d matches Distance::Value(s) ==> stats_wf(s),
{
    let ghost s1 = seq1.seq@;
    let ghost s2 = seq2.seq@;
    let n = seq1.seq.len();
    let mut ts: u64 = 0;
    let mut tv: u64 = 0;
    let mut valid: u64 = 0;
    for i in 0..n
        invariant
            n == s1.len(),
            s1.len() == s2.len(),
            n <= MAX_ALIGN,
            seq1.seq@ == s1,
            seq2.seq@ == s2,
            ts + tv <= valid,
            valid <= i,
            ts == n_ts(s1, s2, i as int),
            tv == n_tv(s1, s2, i as int),
            valid == n_valid(s1, s2, i as int),
    {
        let b1 = seq1.seq[i];
        let b2 = seq2.seq[i];
        if base_is_valid_call(b1) && base_is_valid_call(b2) {
            valid = valid + 1;
            if b1 != b2 && base_is_canonical(b1) && base_is_canonical(b2) {
                if base_is_transition(b1, b2) {
                    ts = ts + 1;
                } else {
                    tv = tv + 1;
                }
            }
        }
    }
    classify(ts, tv, valid)
}

/// A defined distance that is exactly zero: both proportions vanish, so
/// the closed form is -0.5 ln 1. Rendering treats it as "identical",
/// distinct from every undefined sentinel.
pub open spec fn is_zero_dist(d: Distance) -> bool {
    d matches Distance::Value(s) && s.p_num == 0 && s.q_num == 0
}

pub fn distance_is_zero(d: &Distance) -> (r: bool)
    ensures
        r == is_zero_dist(*d),
{
    match d {
        Distance::Value(s) => s.p_num == 0 && s.q_num == 0,
        Distance::Undefined => false,
    }
}

/// Numerator of w = (1 - 2p - q)^2 * (1 - 2q), the quantity whose
/// logarithm the distance is: the distance equals -0.25 * ln(w), a
/// strictly decreasing map, so the engine orders distances by ordering
/// the rationals w exactly, the other way round.
pub open spec fn w_num(s: Stats) -> int {
    (s.den - 2 * s.p_num - s.q_num) * (s.den - 2 * s.p_num - s.q_num) * (s.den - 2 * s.q_num)
}

pub open spec fn w_den(s: Stats) -> int {
    s.den * s.den * s.den
}

/// Exact order of two defined distances: the distance of s1 is at most
/// the distance of s2 exactly when w of s1 is at least w of s2.
pub open spec fn stats_le(s1: Stats, s2: Stats) -> bool {
    w_num(s2) * w_den(s1) <= w_num(s1) * w_den(s2)
}

/// Exact comparison of two nonnegative fractions a / b and c / d by the
/// Euclidean method, free of overflow for any 128-bit operands.
fn frac_le(a: u128, b: u128, c: u128, d: u128) -> (r: bool)
    requires
        b >= 1,
        d >= 1,
    ensures
        r == (a * d <= c * b),
    decreases b + d,
{
    let q1 = a / b;
    let r1 = a % b;
    let q2 = c / d;
    let r2 = c % d;
    proof {
        lemma_fundamental_div_mod(a as int, b as int);
        lemma_fundamental_div_mod(c as int, d as int);
        vstd::arithmetic::div_mod::lemma_mod_bound(a as int, b as int);
        vstd::arithmetic::div_mod::lemma_mod_bound(c as int, d as int);
        assert(a == b * q1 + r1);
        assert(c == d * q2 + r2);
    }
    if q1 < q2 {
        proof {
            assert(a * d < c * b) by (nonlinear_arith)
                requires
                    a == b * q1 + r1,
                    c == d * q2 + r2,
                    0 <= r1 < b,
                    0 <= r2,
                    q1 < q2,
                    b >= 1,
                    d >= 1,
                    q1 >= 0,
                    q2 >= 0,
            ;
        }
        true
    } else if q2 < q1 {
        proof {
            assert(c * b < a * d) by (nonlinear_arith)
                requires
                    a == b * q1 + r1,
                    c == d * q2 + r2,
                    0 <= r2 < d,
                    0 <= r1,
                    q2 < q1,
                    b >= 1,
                    d >= 1,
                    q1 >= 0,
                    q2 >= 0,
            ;
        }
        false
    } else {
        proof {
            assert((a * d <= c * b) == (r1 * d <= r2 * b)) by (nonlinear_arith)
                requires
                    a == b * q1 + r1,
                    c == d * q2 + r2,
                    q1 == q2,
                    0 <= r1,
                    0 <= r2,
                    b >= 1,
                    d >= 1,
            ;
        }
        if r1 == 0 {
            proof {
                assert(r1 * d <= r2 * b) by (nonlinear_arith)
                    requires
                        r1 == 0,
                        r2 >= 0,
                        b >= 1,
                ;
            }
            true
        } else if r2 == 0 {
            proof {
                assert(r1 * d > r2 * b) by (nonlinear_arith)
                    requires
                        r2 == 0,
                        r1 >= 1,
                        d >= 1,
                ;
            }
            false
        } else {
            let rec = frac_le(d, r2, b, r1);
            proof {
                assert((d * r1 <= b * r2) == (r1 * d <= r2 * b)) by (nonlinear_arith);
            }
            rec
        }
    }
}

/// The three factors of w and of its denominator, in machine integers.
fn w_parts(s: &Stats) -> (r: (u128, u128))
    requires
        stats_wf(*s),
    ensures
        r.0 == w_num(*s),
        r.1 == w_den(*s),
        r.1 >= 1,
{
    let u: u64 = s.den - (2 * s.p_num + s.q_num);
    let v: u64 = s.den - 2 * s.q_num;
    let n: u64 = s.den;
    proof {
        let dm = DEN_MAX as int;
        assert((u as int) * (u as int) <= dm * dm) by (nonlinear_arith)
            requires
                0 <= u <= DEN_MAX,
                dm == DEN_MAX as int,
        ;
        assert((n as int) * (n as int) <= dm * dm) by (nonlinear_arith)
            requires
                0 <= n <= DEN_MAX,
                dm == DEN_MAX as int,
        ;
    }
    let uu: u128 = (u as u128) * (u as u128);
    let nn: u128 = (n as u128) * (n as u128);
    proof {
        let dm = DEN_MAX as int;
        assert((uu as int) * (v as int) <= dm * dm * dm) by (nonlinear_arith)
            requires
                0 <= uu <= dm * dm,
                0 <= v <= dm,
                dm == DEN_MAX as int,
        ;
        assert((nn as int) * (n as int) <= dm * dm * dm) by (nonlinear_arith)
            requires
                0 <= nn <= dm * dm,
                0 <= n <= dm,
                dm == DEN_MAX as int,
        ;
        assert(nn >= 1) by (nonlinear_arith)
            requires
                n >= 1,
                nn == (n as int) * (n as int),
        ;
        assert((nn as int) * (n as int) >= 1) by (nonlinear_arith)
            requires
                nn >= 1,
                n >= 1,
        ;
    }
    let a: u128 = uu * (v as u128);
    let b: u128 = nn * (n as u128);
    (a, b)
}

/// Exact "less or equal" on defined distances.
pub fn stats_cmp_le(s1: &Stats, s2: &Stats) -> (r: bool)
    requires
        stats_wf(*s1),
        stats_wf(*s2),
    ensures
        r == stats_le(*s1, *s2),
{
    let (a1, b1) = w_parts(s1);
    let (a2, b2) = w_parts(s2);
    frac_le(a2, b2, a1, b1)
}

} // verus!
