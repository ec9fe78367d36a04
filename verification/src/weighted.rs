use vstd::arithmetic::div_mod::{lemma_div_by_multiple, lemma_div_is_ordered, lemma_div_pos_is_pos};
use vstd::prelude::*;

use crate::base::{
    amb_index, base_amb_index, base_canon_index, base_is_canonical, base_is_transition,
    base_is_valid_call, canon_index, in_rep_set, is_canonical, is_valid_call, rep_set_contains,
    Base,
};
use crate::dist::{
    classify, classify_spec, n_ts, n_tv, n_valid, stats_wf, valid_pair, Distance, MAX_ALIGN, SCALE,
};
use crate::freq::{freq_wf, AmbiguityInfo, Frequencies};
use crate::seqs::Sequence;

verus! {

/// Sum of the canonical counts of one replacement set.
pub open spec fn set_sum(f: Frequencies, code: int) -> int {
    (if in_rep_set(code, 0) {
        f.count@[0] as int
    } else {
        0int
    }) + (if in_rep_set(code, 1) {
        f.count@[1] as int
    } else {
        0int
    }) + (if in_rep_set(code, 2) {
        f.count@[2] as int
    } else {
        0int
    }) + (if in_rep_set(code, 3) {
        f.count@[3] as int
    } else {
        0int
    })
}

/// Denominator of one replacement set's fractional frequencies: the sum
/// of its candidates' counts, floored at one so that a set without
/// evidence yields zero frequencies rather than a division by zero.
pub open spec fn rep_den_spec(f: Frequencies, code: int) -> int {
    if set_sum(f, code) >= 1 {
        set_sum(f, code)
    } else {
        1
    }
}

/// Numerator of the fractional frequency of canonical base `x` in
/// replacement set `code`: the base's count inside the set, zero outside.
pub open spec fn freq_num_spec(f: Frequencies, code: int, x: int) -> int {
    if in_rep_set(code, x) {
        f.count@[x] as int
    } else {
        0
    }
}

/// The resolution vector of one comparable call: a canonical call is the
/// one-hot vector over denominator one; an ambiguity code is its
/// replacement set's fractional frequency row.
pub open spec fn fvec_num(f: Frequencies, b: Base, x: int) -> int {
    if is_canonical(b) {
        if canon_index(b) == x {
            1
        } else {
            0
        }
    } else {
        freq_num_spec(f, amb_index(b), x)
    }
}

pub open spec fn fvec_den(f: Frequencies, b: Base) -> int {
    if is_canonical(b) {
        1
    } else {
        rep_den_spec(f, amb_index(b))
    }
}

/// Whether a column's ambiguous-call percentage lies strictly below the
/// threshold tn / td; the percentage is ambiguous / max(1, all calls).
pub open spec fn pct_below(f: Frequencies, tn: int, td: int) -> bool {
    let total = f.ambiguous_count + f.normal_count;
    f.ambiguous_count * td < tn * (if total >= 1 {
        total as int
    } else {
        1int
    })
}

pub fn pct_is_below(f: &Frequencies, tn: u64, td: u64) -> (r: bool)
    requires
        freq_wf(*f),
    ensures
        r == pct_below(*f, tn as int, td as int),
{
    let total = f.ambiguous_count + f.normal_count;
    let t: u64 = if total >= 1 {
        total
    } else {
        1
    };
    proof {
        lemma_mul_le(f.ambiguous_count as int, 18446744073709551615, td as int, 18446744073709551615);
        lemma_mul_le(tn as int, 18446744073709551615, t as int, 18446744073709551615);
    }
    (f.ambiguous_count as u128) * (td as u128) < (tn as u128) * (t as u128)
}

/// Bounded factors give a bounded product.
pub proof fn lemma_mul_le(x: int, ubx: int, y: int, uby: int)
    requires
        0 <= x <= ubx,
        0 <= y <= uby,
    ensures
        0 <= x * y <= ubx * uby,
{
    assert(0 <= x * y <= ubx * uby) by (nonlinear_arith)
        requires
            0 <= x <= ubx,
            0 <= y <= uby,
    ;
}

/// The resolution vector, in machine integers.
pub struct FVec {
    pub a: u64,
    pub c: u64,
    pub g: u64,
    pub t: u64,
    pub den: u64,
}

/// Largest resolution denominator: three candidate counts, each at most
/// MAX_SEQS.
pub const REP_DEN_MAX: u64 = 12884901888;

fn rep_den_of(f: &Frequencies, code: usize) -> (r: u64)
    requires
        freq_wf(*f),
        code < 10,
    ensures
        r == rep_den_spec(*f, code as int),
        1 <= r <= REP_DEN_MAX,
{
    let mut s: u64 = 0;
    if rep_set_contains(code, 0) {
        s = s + f.count[0];
    }
    if rep_set_contains(code, 1) {
        s = s + f.count[1];
    }
    if rep_set_contains(code, 2) {
        s = s + f.count[2];
    }
    if rep_set_contains(code, 3) {
        s = s + f.count[3];
    }
    if s >= 1 {
        s
    } else {
        1
    }
}

fn freq_num_of(f: &Frequencies, code: usize, x: usize) -> (r: u64)
    requires
        freq_wf(*f),
        code < 10,
        x < 4,
    ensures
        r == freq_num_spec(*f, code as int, x as int),
        r <= rep_den_spec(*f, code as int),
{
    if rep_set_contains(code, x) {
        f.count[x]
    } else {
        0
    }
}

fn resolve(f: &Frequencies, b: Base) -> (r: FVec)
    requires
        freq_wf(*f),
        is_valid_call(b),
    ensures
        r.a == fvec_num(*f, b, 0),
        r.c == fvec_num(*f, b, 1),
        r.g == fvec_num(*f, b, 2),
        r.t == fvec_num(*f, b, 3),
        r.den == fvec_den(*f, b),
        1 <= r.den <= REP_DEN_MAX,
        r.a <= r.den,
        r.c <= r.den,
        r.g <= r.den,
        r.t <= r.den,
{
    if base_is_canonical(b) {
        let ci = base_canon_index(b);
        FVec {
            a: if ci == 0 {
                1
            } else {
                0
            },
            c: if ci == 1 {
                1
            } else {
                0
            },
            g: if ci == 2 {
                1
            } else {
                0
            },
            t: if ci == 3 {
                1
            } else {
                0
            },
            den: 1,
        }
    } else {
        let code = base_amb_index(b);
        assert(code < 10);
        let den = rep_den_of(f, code);
        FVec {
            a: freq_num_of(f, code, 0),
            c: freq_num_of(f, code, 1),
            g: freq_num_of(f, code, 2),
            t: freq_num_of(f, code, 3),
            den,
        }
    }
}

/// Fractional transition weight of one resolved position pair, as the
/// numerator over the product of the two resolution denominators: the
/// cross products that pair A with G or C with T across the two sides.
pub open spec fn ts_num_at(f1: Frequencies, b1: Base, f2: Frequencies, b2: Base) -> int {
    fvec_num(f1, b1, 0) * fvec_num(f2, b2, 2) + fvec_num(f1, b1, 2) * fvec_num(f2, b2, 0)
        + fvec_num(f1, b1, 1) * fvec_num(f2, b2, 3) + fvec_num(f1, b1, 3) * fvec_num(f2, b2, 1)
}

/// Fractional transversion weight: the eight remaining cross products
/// between distinct canonical bases.
pub open spec fn tv_num_at(f1: Frequencies, b1: Base, f2: Frequencies, b2: Base) -> int {
    fvec_num(f1, b1, 0) * fvec_num(f2, b2, 3) + fvec_num(f1, b1, 3) * fvec_num(f2, b2, 0)
        + fvec_num(f1, b1, 0) * fvec_num(f2, b2, 1) + fvec_num(f1, b1, 1) * fvec_num(f2, b2, 0)
        + fvec_num(f1, b1, 2) * fvec_num(f2, b2, 3) + fvec_num(f1, b1, 3) * fvec_num(f2, b2, 2)
        + fvec_num(f1, b1, 2) * fvec_num(f2, b2, 1) + fvec_num(f1, b1, 1) * fvec_num(f2, b2, 2)
}

pub open spec fn pair_den_at(f1: Frequencies, b1: Base, f2: Frequencies, b2: Base) -> int {
    fvec_den(f1, b1) * fvec_den(f2, b2)
}

/// The fixed-point transition weight of one resolved position: the exact
/// rational weight, scaled by SCALE and rounded down.
pub open spec fn ts_fix_at(f1: Frequencies, b1: Base, f2: Frequencies, b2: Base) -> int {
    (ts_num_at(f1, b1, f2, b2) * SCALE) / pair_den_at(f1, b1, f2, b2)
}

pub open spec fn tv_fix_at(f1: Frequencies, b1: Base, f2: Frequencies, b2: Base) -> int {
    (tv_num_at(f1, b1, f2, b2) * SCALE) / pair_den_at(f1, b1, f2, b2)
}

/// A comparable position whose calls differ and are not both canonical:
/// the weighted variant resolves or excludes it.
pub open spec fn amb_pos(s1: Seq<Base>, s2: Seq<Base>, j: int) -> bool {
    valid_pair(s1[j], s2[j]) && s1[j] != s2[j] && !(is_canonical(s1[j]) && is_canonical(s2[j]))
}

/// Such a position is resolved when both groups' ambiguous-call
/// percentages at the column lie below the threshold; otherwise it is
/// excluded from the comparison altogether.
pub open spec fn resolved_pos(
    s1: Seq<Base>,
    s2: Seq<Base>,
    row1: Seq<Frequencies>,
    row2: Seq<Frequencies>,
    tn: int,
    td: int,
    j: int,
) -> bool {
    amb_pos(s1, s2, j) && pct_below(row1[j], tn, td) && pct_below(row2[j], tn, td)
}

/// Number of excluded positions among the first n.
pub open spec fn n_excl(
    s1: Seq<Base>,
    s2: Seq<Base>,
    row1: Seq<Frequencies>,
    row2: Seq<Frequencies>,
    tn: int,
    td: int,
    n: int,
) -> int
    decreases n,
{
    if n <= 0 {
        0
    } else {
        n_excl(s1, s2, row1, row2, tn, td, n - 1) + if amb_pos(s1, s2, n - 1) && !resolved_pos(
            s1,
            s2,
            row1,
            row2,
            tn,
            td,
            n - 1,
        ) {
            1int
        } else {
            0int
        }
    }
}

/// Fixed-point fractional transition weight of the first n positions.
pub open spec fn ts_fix(
    s1: Seq<Base>,
    s2: Seq<Base>,
    row1: Seq<Frequencies>,
    row2: Seq<Frequencies>,
    tn: int,
    td: int,
    n: int,
) -> int
    decreases n,
{
    if n <= 0 {
        0
    } else {
        ts_fix(s1, s2, row1, row2, tn, td, n - 1) + if resolved_pos(s1, s2, row1, row2, tn, td, n - 1) {
            ts_fix_at(row1[n - 1], s1[n - 1], row2[n - 1], s2[n - 1])
        } else {
            0int
        }
    }
}

/// Fixed-point fractional transversion weight of the first n positions.
pub open spec fn tv_fix(
    s1: Seq<Base>,
    s2: Seq<Base>,
    row1: Seq<Frequencies>,
    row2: Seq<Frequencies>,
    tn: int,
    td: int,
    n: int,
) -> int
    decreases n,
{
    if n <= 0 {
        0
    } else {
        tv_fix(s1, s2, row1, row2, tn, td, n - 1) + if resolved_pos(s1, s2, row1, row2, tn, td, n - 1) {
            tv_fix_at(row1[n - 1], s1[n - 1], row2[n - 1], s2[n - 1])
        } else {
            0int
        }
    }
}

/// The ambiguity-weighted K2P distance: canonical mismatches count as in
/// the plain variant; a differing position with an ambiguous side is
/// either resolved into fixed-point fractional transition and
/// transversion weights (both groups' percentages below the threshold)
/// or excluded from the comparable length.
pub open spec fn k2p_ambiguity_spec(
    s1: Seq<Base>,
    s2: Seq<Base>,
    row1: Seq<Frequencies>,
    row2: Seq<Frequencies>,
    tn: int,
    td: int,
) -> Distance {
    let n = s1.len() as int;
    classify_spec(
        n_ts(s1, s2, n) * SCALE + ts_fix(s1, s2, row1, row2, tn, td, n),
        n_tv(s1, s2, n) * SCALE + tv_fix(s1, s2, row1, row2, tn, td, n),
        (n_valid(s1, s2, n) - n_excl(s1, s2, row1, row2, tn, td, n)) * SCALE,
    )
}

/// The fixed-point fractional weights of one resolved position: both
/// calls' resolution vectors crossed, scaled and floored.
fn frac_weights(f1: &Frequencies, b1: Base, f2: &Frequencies, b2: Base) -> (r: (u64, u64))
    requires
        freq_wf(*f1),
        freq_wf(*f2),
        is_valid_call(b1),
        is_valid_call(b2),
    ensures
        r.0 == ts_fix_at(*f1, b1, *f2, b2),
        r.1 == tv_fix_at(*f1, b1, *f2, b2),
        r.0 <= 4 * SCALE,
        r.1 <= 8 * SCALE,
{
    let v1 = resolve(f1, b1);
    let v2 = resolve(f2, b2);
    proof {
        lemma_mul_le(v1.a as int, REP_DEN_MAX as int, v2.g as int, REP_DEN_MAX as int);
        lemma_mul_le(v1.g as int, REP_DEN_MAX as int, v2.a as int, REP_DEN_MAX as int);
        lemma_mul_le(v1.c as int, REP_DEN_MAX as int, v2.t as int, REP_DEN_MAX as int);
        lemma_mul_le(v1.t as int, REP_DEN_MAX as int, v2.c as int, REP_DEN_MAX as int);
        lemma_mul_le(v1.a as int, REP_DEN_MAX as int, v2.t as int, REP_DEN_MAX as int);
        lemma_mul_le(v1.t as int, REP_DEN_MAX as int, v2.a as int, REP_DEN_MAX as int);
        lemma_mul_le(v1.a as int, REP_DEN_MAX as int, v2.c as int, REP_DEN_MAX as int);
        lemma_mul_le(v1.c as int, REP_DEN_MAX as int, v2.a as int, REP_DEN_MAX as int);
        lemma_mul_le(v1.g as int, REP_DEN_MAX as int, v2.t as int, REP_DEN_MAX as int);
        lemma_mul_le(v1.t as int, REP_DEN_MAX as int, v2.g as int, REP_DEN_MAX as int);
        lemma_mul_le(v1.g as int, REP_DEN_MAX as int, v2.c as int, REP_DEN_MAX as int);
        lemma_mul_le(v1.c as int, REP_DEN_MAX as int, v2.g as int, REP_DEN_MAX as int);
        lemma_mul_le(v1.den as int, REP_DEN_MAX as int, v2.den as int, REP_DEN_MAX as int);
    }
    let nts: u128 = (v1.a as u128) * (v2.g as u128) + (v1.g as u128) * (v2.a as u128) + (
    v1.c as u128) * (v2.t as u128) + (v1.t as u128) * (v2.c as u128);
    let ntv: u128 = (v1.a as u128) * (v2.t as u128) + (v1.t as u128) * (v2.a as u128) + (
    v1.a as u128) * (v2.c as u128) + (v1.c as u128) * (v2.a as u128) + (v1.g as u128) * (
    v2.t as u128) + (v1.t as u128) * (v2.g as u128) + (v1.g as u128) * (v2.c as u128) + (
    v1.c as u128) * (v2.g as u128);
    let dd: u128 = (v1.den as u128) * (v2.den as u128);
    proof {
        lemma_cross_bounds(v1, v2);
        lemma_mul_le(
            nts as int,
            4 * (REP_DEN_MAX as int) * (REP_DEN_MAX as int),
            SCALE as int,
            SCALE as int,
        );
        lemma_mul_le(
            ntv as int,
            8 * (REP_DEN_MAX as int) * (REP_DEN_MAX as int),
            SCALE as int,
            SCALE as int,
        );
    }
    let c_ts_wide: u128 = (nts * (SCALE as u128)) / dd;
    let c_tv_wide: u128 = (ntv * (SCALE as u128)) / dd;
    proof {
        lemma_fix_bound(nts as int, dd as int, 4);
        lemma_fix_bound(ntv as int, dd as int, 8);
    }
    (c_ts_wide as u64, c_tv_wide as u64)
}

/// Ambiguity-weighted K2P distance between two sequences of one
/// alignment, against the model the alignment was tallied into.
#[verifier::rlimit(100)]
pub fn k2p_ambiguity(seq1: &Sequence, seq2: &Sequence, info: &AmbiguityInfo) -> (d: Distance)
    requires
        seq1.seq@.len() == seq2.seq@.len(),
        seq1.seq@.len() <= MAX_ALIGN,
        seq1.group < info.groups@.len(),
        seq2.group < info.groups@.len(),
        info.groups@[seq1.group as int]@.len() == seq1.seq@.len(),
        info.groups@[seq2.group as int]@.len() == seq2.seq@.len(),
        crate::freq::info_wf(*info),
    ensures
        d == k2p_ambiguity_spec(
            seq1.seq@,
            seq2.seq@,
            info.groups@[seq1.group as int]@,
            info.groups@[seq2.group as int]@,
            info.threshold_num as int,
            info.threshold_den as int,
        ),
        d matches Distance::Value(s) ==> stats_wf(s),
{
    let ghost s1 = seq1.seq@;
    let ghost s2 = seq2.seq@;
    let ghost row1 = info.groups@[seq1.group as int]@;
    let ghost row2 = info.groups@[seq2.group as int]@;
    let ghost tn = info.threshold_num as int;
    let ghost td = info.threshold_den as int;
    let n = seq1.seq.len();
    let tnum = info.threshold_num;
    let tden = info.threshold_den;
    let r1 = &info.groups[seq1.group];
    let r2 = &info.groups[seq2.group];
    let mut ts: u64 = 0;
    let mut tv: u64 = 0;
    let mut valid: u64 = 0;
    let mut excl: u64 = 0;
    let mut tsf: u64 = 0;
    let mut tvf: u64 = 0;
    for i in 0..n
        invariant
            n == s1.len(),
            s1.len() == s2.len(),
            n <= MAX_ALIGN,
            seq1.seq@ == s1,
            seq2.seq@ == s2,
            r1@ == row1,
            r2@ == row2,
            row1.len() == n,
            row2.len() == n,
            tn == tnum,
            td == tden,
            crate::freq::info_wf(*info),
            forall|j: int| 0 <= j < n ==> freq_wf(#[trigger] row1[j]),
            forall|j: int| 0 <= j < n ==> freq_wf(#[trigger] row2[j]),
            ts + tv + excl <= valid,
            valid <= i,
            SCALE == 16777216,
            ts * SCALE + tsf <= 4 * SCALE * (valid - excl),
            tv * SCALE + tvf <= 8 * SCALE * (valid - excl),
            ts == n_ts(s1, s2, i as int),
            tv == n_tv(s1, s2, i as int),
            valid == n_valid(s1, s2, i as int),
            excl == n_excl(s1, s2, row1, row2, tn, td, i as int),
            tsf == ts_fix(s1, s2, row1, row2, tn, td, i as int),
            tvf == tv_fix(s1, s2, row1, row2, tn, td, i as int),
    {
        let b1 = seq1.seq[i];
        let b2 = seq2.seq[i];
        if base_is_valid_call(b1) && base_is_valid_call(b2) {
            valid = valid + 1;
            if b1 != b2 {
                if base_is_canonical(b1) && base_is_canonical(b2) {
                    if base_is_transition(b1, b2) {
                        ts = ts + 1;
                    } else {
                        tv = tv + 1;
                    }
                } else {
                    let f1 = &r1[i];
                    let f2 = &r2[i];
                    if pct_is_below(f1, tnum, tden) && pct_is_below(f2, tnum, tden) {
                        let (c_ts, c_tv) = frac_weights(f1, b1, f2, b2);
                        tsf = tsf + c_ts;
                        tvf = tvf + c_tv;
                        proof {
                            assert(resolved_pos(s1, s2, row1, row2, tn, td, i as int));
                        }
                    } else {
                        excl = excl + 1;
                    }
                }
            }
        }
    }
    proof {
        assert(valid - excl <= MAX_ALIGN);
    }
    let l_eff: u64 = valid - excl;
    let den: u64 = l_eff * SCALE;
    let p_num: u64 = ts * SCALE + tsf;
    let q_num: u64 = tv * SCALE + tvf;
    classify(p_num, q_num, den)
}

/// The cross-product numerators of one resolved position stay within
/// four and eight times the pair denominator.
proof fn lemma_cross_bounds(v1: FVec, v2: FVec)
    requires
        v1.a <= v1.den,
        v1.c <= v1.den,
        v1.g <= v1.den,
        v1.t <= v1.den,
        v2.a <= v2.den,
        v2.c <= v2.den,
        v2.g <= v2.den,
        v2.t <= v2.den,
        1 <= v1.den,
        1 <= v2.den,
    ensures
        v1.a * v2.g + v1.g * v2.a + v1.c * v2.t + v1.t * v2.c <= 4 * (v1.den * v2.den),
        v1.a * v2.t + v1.t * v2.a + v1.a * v2.c + v1.c * v2.a + v1.g * v2.t + v1.t * v2.g + v1.g
            * v2.c + v1.c * v2.g <= 8 * (v1.den * v2.den),
        1 <= v1.den * v2.den,
{
    assert(v1.a * v2.g + v1.g * v2.a + v1.c * v2.t + v1.t * v2.c <= 4 * (v1.den * v2.den))
        by (nonlinear_arith)
        requires
            v1.a <= v1.den,
            v1.c <= v1.den,
            v1.g <= v1.den,
            v1.t <= v1.den,
            v2.a <= v2.den,
            v2.c <= v2.den,
            v2.g <= v2.den,
            v2.t <= v2.den,
            0 <= v1.a,
            0 <= v1.c,
            0 <= v1.g,
            0 <= v1.t,
            0 <= v2.a,
            0 <= v2.c,
            0 <= v2.g,
            0 <= v2.t,
            1 <= v1.den,
            1 <= v2.den,
    ;
    assert(v1.a * v2.t + v1.t * v2.a + v1.a * v2.c + v1.c * v2.a + v1.g * v2.t + v1.t * v2.g + v1.g
        * v2.c + v1.c * v2.g <= 8 * (v1.den * v2.den)) by (nonlinear_arith)
        requires
            v1.a <= v1.den,
            v1.c <= v1.den,
            v1.g <= v1.den,
            v1.t <= v1.den,
            v2.a <= v2.den,
            v2.c <= v2.den,
            v2.g <= v2.den,
            v2.t <= v2.den,
            0 <= v1.a,
            0 <= v1.c,
            0 <= v1.g,
            0 <= v1.t,
            0 <= v2.a,
            0 <= v2.c,
            0 <= v2.g,
            0 <= v2.t,
            1 <= v1.den,
            1 <= v2.den,
    ;
    assert(1 <= v1.den * v2.den) by (nonlinear_arith)
        requires
            1 <= v1.den,
            1 <= v2.den,
    ;
}

/// A scaled weight of at most k times the denominator stays, after the
/// flooring division, at most k times the scale.
proof fn lemma_fix_bound(num: int, dd: int, k: int)
    requires
        1 <= dd,
        0 <= num <= k * dd,
        1 <= k,
    ensures
        0 <= (num * SCALE) / dd <= k * SCALE,
{
    assert(num * SCALE <= (k * SCALE) * dd) by (nonlinear_arith)
        requires
            0 <= num <= k * dd,
            1 <= dd,
            1 <= k,
    ;
    assert(0 <= num * SCALE) by (nonlinear_arith)
        requires
            0 <= num,
    ;
    lemma_div_is_ordered(num * SCALE, (k * SCALE) * dd, dd);
    lemma_div_by_multiple(k * SCALE, dd);
    lemma_div_pos_is_pos(num * SCALE, dd);
}

} // verus!
