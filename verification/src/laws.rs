use vstd::prelude::*;

use crate::base::Base;
use crate::dedup::Offset;
use crate::dist::{classify_spec, is_zero_dist, k2p_spec, n_ts, n_tv, n_valid, MAX_ALIGN, SCALE};
use crate::freq::{AmbiguityInfo, Frequencies};
use crate::matrix::{grouped_cell_ok, max_ok, min_ok, pair_bound, pair_dist, MinMaxCell};
use crate::seqs::Sequence;
use crate::weighted::{
    amb_pos, k2p_ambiguity_spec, n_excl, pair_den_at, pct_below, resolved_pos, ts_fix, ts_fix_at,
    ts_num_at, tv_fix, tv_fix_at, tv_num_at,
};

verus! {

proof fn lemma_self_tallies(s: Seq<Base>, n: int)
    ensures
        n_ts(s, s, n) == 0,
        n_tv(s, s, n) == 0,
    decreases n,
{
    if n > 0 {
        lemma_self_tallies(s, n - 1);
    }
}

proof fn lemma_self_weighted_tallies(
    s: Seq<Base>,
    row1: Seq<Frequencies>,
    row2: Seq<Frequencies>,
    tn: int,
    td: int,
    n: int,
)
    ensures
        n_excl(s, s, row1, row2, tn, td, n) == 0,
        ts_fix(s, s, row1, row2, tn, td, n) == 0,
        tv_fix(s, s, row1, row2, tn, td, n) == 0,
    decreases n,
{
    if n > 0 {
        lemma_self_weighted_tallies(s, row1, row2, tn, td, n - 1);
    }
}

proof fn lemma_valid_bounds(s1: Seq<Base>, s2: Seq<Base>, n: int)
    requires
        n >= 0,
    ensures
        0 <= n_valid(s1, s2, n) <= n,
    decreases n,
{
    if n > 0 {
        lemma_valid_bounds(s1, s2, n - 1);
    }
}

/// A sequence with at least one comparable position against itself is at
/// distance exactly zero from itself: no position differs, so both
/// proportions are zero and the closed form gives -0.5 ln 1 = 0.
pub proof fn lemma_self_distance_zero(s: Seq<Base>)
    requires
        s.len() <= MAX_ALIGN,
        n_valid(s, s, s.len() as int) >= 1,
    ensures
        is_zero_dist(k2p_spec(s, s)),
{
    lemma_self_tallies(s, s.len() as int);
    lemma_valid_bounds(s, s, s.len() as int);
}

/// The same, under the ambiguity-weighted variant with any model: no
/// position differs, so nothing is resolved or excluded either.
pub proof fn lemma_self_distance_zero_weighted(
    s: Seq<Base>,
    row1: Seq<Frequencies>,
    row2: Seq<Frequencies>,
    tn: int,
    td: int,
)
    requires
        s.len() <= MAX_ALIGN,
        n_valid(s, s, s.len() as int) >= 1,
    ensures
        is_zero_dist(k2p_ambiguity_spec(s, s, row1, row2, tn, td)),
{
    lemma_self_tallies(s, s.len() as int);
    lemma_self_weighted_tallies(s, row1, row2, tn, td, s.len() as int);
    lemma_valid_bounds(s, s, s.len() as int);
    let l = n_valid(s, s, s.len() as int);
    assert(l * SCALE >= 1 * SCALE) by (nonlinear_arith)
        requires
            l >= 1,
    ;
}

proof fn lemma_tallies_sym(s1: Seq<Base>, s2: Seq<Base>, n: int)
    ensures
        n_valid(s1, s2, n) == n_valid(s2, s1, n),
        n_ts(s1, s2, n) == n_ts(s2, s1, n),
        n_tv(s1, s2, n) == n_tv(s2, s1, n),
    decreases n,
{
    if n > 0 {
        lemma_tallies_sym(s1, s2, n - 1);
    }
}

/// The plain distance is symmetric in its two sequences.
pub proof fn lemma_k2p_sym(s1: Seq<Base>, s2: Seq<Base>)
    requires
        s1.len() == s2.len(),
    ensures
        k2p_spec(s1, s2) == k2p_spec(s2, s1),
{
    lemma_tallies_sym(s1, s2, s1.len() as int);
}

proof fn lemma_cross_sym(f1: Frequencies, b1: Base, f2: Frequencies, b2: Base)
    ensures
        ts_num_at(f1, b1, f2, b2) == ts_num_at(f2, b2, f1, b1),
        tv_num_at(f1, b1, f2, b2) == tv_num_at(f2, b2, f1, b1),
        pair_den_at(f1, b1, f2, b2) == pair_den_at(f2, b2, f1, b1),
        ts_fix_at(f1, b1, f2, b2) == ts_fix_at(f2, b2, f1, b1),
        tv_fix_at(f1, b1, f2, b2) == tv_fix_at(f2, b2, f1, b1),
{
}

proof fn lemma_weighted_tallies_sym(
    s1: Seq<Base>,
    s2: Seq<Base>,
    row1: Seq<Frequencies>,
    row2: Seq<Frequencies>,
    tn: int,
    td: int,
    n: int,
)
    ensures
        n_excl(s1, s2, row1, row2, tn, td, n) == n_excl(s2, s1, row2, row1, tn, td, n),
        ts_fix(s1, s2, row1, row2, tn, td, n) == ts_fix(s2, s1, row2, row1, tn, td, n),
        tv_fix(s1, s2, row1, row2, tn, td, n) == tv_fix(s2, s1, row2, row1, tn, td, n),
    decreases n,
{
    if n > 0 {
        lemma_weighted_tallies_sym(s1, s2, row1, row2, tn, td, n - 1);
        if resolved_pos(s1, s2, row1, row2, tn, td, n - 1) {
            lemma_cross_sym(row1[n - 1], s1[n - 1], row2[n - 1], s2[n - 1]);
        }
    }
}

/// The ambiguity-weighted distance is symmetric in its two sequences,
/// with the model rows swapped along with them.
pub proof fn lemma_k2p_ambiguity_sym(
    s1: Seq<Base>,
    s2: Seq<Base>,
    row1: Seq<Frequencies>,
    row2: Seq<Frequencies>,
    tn: int,
    td: int,
)
    requires
        s1.len() == s2.len(),
    ensures
        k2p_ambiguity_spec(s1, s2, row1, row2, tn, td) == k2p_ambiguity_spec(
            s2,
            s1,
            row2,
            row1,
            tn,
            td,
        ),
{
    lemma_tallies_sym(s1, s2, s1.len() as int);
    lemma_weighted_tallies_sym(s1, s2, row1, row2, tn, td, s1.len() as int);
}

/// Two sequences without a single comparable position have no distance:
/// the result is undefined.
pub proof fn lemma_no_valid_undefined(s1: Seq<Base>, s2: Seq<Base>)
    requires
        n_valid(s1, s2, s1.len() as int) == 0,
    ensures
        k2p_spec(s1, s2) is Undefined,
{
}

proof fn lemma_excl_bounds(
    s1: Seq<Base>,
    s2: Seq<Base>,
    row1: Seq<Frequencies>,
    row2: Seq<Frequencies>,
    tn: int,
    td: int,
    n: int,
)
    requires
        n >= 0,
    ensures
        0 <= n_excl(s1, s2, row1, row2, tn, td, n) <= n_valid(s1, s2, n),
    decreases n,
{
    if n > 0 {
        lemma_excl_bounds(s1, s2, row1, row2, tn, td, n - 1);
    }
}

/// The same under the ambiguity-weighted variant: with nothing
/// comparable, nothing can be excluded either, and the result is
/// undefined.
pub proof fn lemma_no_valid_undefined_weighted(
    s1: Seq<Base>,
    s2: Seq<Base>,
    row1: Seq<Frequencies>,
    row2: Seq<Frequencies>,
    tn: int,
    td: int,
)
    requires
        n_valid(s1, s2, s1.len() as int) == 0,
    ensures
        k2p_ambiguity_spec(s1, s2, row1, row2, tn, td) is Undefined,
{
    lemma_excl_bounds(s1, s2, row1, row2, tn, td, s1.len() as int);
    let l = n_valid(s1, s2, s1.len() as int) - n_excl(s1, s2, row1, row2, tn, td, s1.len() as int);
    assert(l * SCALE <= 0) by (nonlinear_arith)
        requires
            l <= 0,
    ;
}

/// Count of comparable, differing, not-both-canonical positions among
/// the first n: the positions the weighted variant must resolve or
/// exclude.
pub open spec fn n_amb_pos(s1: Seq<Base>, s2: Seq<Base>, n: int) -> int
    decreases n,
{
    if n <= 0 {
        0
    } else {
        n_amb_pos(s1, s2, n - 1) + if amb_pos(s1, s2, n - 1) {
            1int
        } else {
            0int
        }
    }
}

proof fn lemma_pct_never_below_zero(f: Frequencies, td: int)
    requires
        td >= 0,
    ensures
        !pct_below(f, 0, td),
{
    let amb = f.ambiguous_count as int;
    assert(amb * td >= 0) by (nonlinear_arith)
        requires
            amb >= 0,
            td >= 0,
    ;
}

proof fn lemma_threshold_zero_tallies(
    s1: Seq<Base>,
    s2: Seq<Base>,
    row1: Seq<Frequencies>,
    row2: Seq<Frequencies>,
    td: int,
    n: int,
)
    requires
        td >= 0,
    ensures
        n_excl(s1, s2, row1, row2, 0, td, n) == n_amb_pos(s1, s2, n),
        ts_fix(s1, s2, row1, row2, 0, td, n) == 0,
        tv_fix(s1, s2, row1, row2, 0, td, n) == 0,
    decreases n,
{
    if n > 0 {
        lemma_threshold_zero_tallies(s1, s2, row1, row2, td, n - 1);
        if amb_pos(s1, s2, n - 1) {
            lemma_pct_never_below_zero(row1[n - 1], td);
        }
    }
}

/// With threshold zero no percentage lies strictly below it, so every
/// comparable, differing position with an ambiguous side is excluded:
/// the weighted variant degenerates to the plain tallies over the
/// comparable length less those positions, and no fractional weight is
/// ever accumulated. (A position where both sides carry the same
/// ambiguity code never enters: only differing calls are weighed.)
pub proof fn lemma_threshold_zero_excludes(
    s1: Seq<Base>,
    s2: Seq<Base>,
    row1: Seq<Frequencies>,
    row2: Seq<Frequencies>,
    td: int,
)
    requires
        td >= 0,
    ensures
        k2p_ambiguity_spec(s1, s2, row1, row2, 0, td) == classify_spec(
            n_ts(s1, s2, s1.len() as int) * SCALE,
            n_tv(s1, s2, s1.len() as int) * SCALE,
            (n_valid(s1, s2, s1.len() as int) - n_amb_pos(s1, s2, s1.len() as int)) * SCALE,
        ),
{
    lemma_threshold_zero_tallies(s1, s2, row1, row2, td, s1.len() as int);
}

/// The distance of one matrix pair does not depend on the order of its
/// indices.
pub proof fn lemma_pair_dist_sym(
    seqs: Seq<Sequence>,
    info: Option<AmbiguityInfo>,
    i: int,
    j: int,
)
    requires
        0 <= i < seqs.len(),
        0 <= j < seqs.len(),
        crate::matrix::dist_ctx_ok(seqs, info),
    ensures
        pair_dist(seqs, info, i, j) == pair_dist(seqs, info, j, i),
{
    match info {
        None => {
            lemma_k2p_sym(seqs[i].seq@, seqs[j].seq@);
        },
        Some(fi) => {
            lemma_k2p_ambiguity_sym(
                seqs[i].seq@,
                seqs[j].seq@,
                fi.groups@[seqs[i].group as int]@,
                fi.groups@[seqs[j].group as int]@,
                fi.threshold_num as int,
                fi.threshold_den as int,
            );
        },
    }
}

/// The extrema of a group pair's scan do not depend on the order of the
/// two runs: the grouped matrix is symmetric before its triangular
/// storage, and the transpose pass reconstructs exactly the cell of the
/// unordered pair.
pub proof fn lemma_grouped_cell_sym(
    cell: MinMaxCell,
    seqs: Seq<Sequence>,
    info: Option<AmbiguityInfo>,
    offsets: Seq<Offset>,
    dup: Seq<bool>,
    g1: int,
    g2: int,
)
    requires
        crate::matrix::dist_ctx_ok(seqs, info),
        0 <= g1 < offsets.len(),
        0 <= g2 < offsets.len(),
        forall|g: int|
            0 <= g < offsets.len() ==> crate::matrix::offset_ok(
                #[trigger] offsets[g],
                seqs.len() as int,
            ),
        grouped_cell_ok(cell, seqs, info, offsets, dup, g1, g2),
    ensures
        grouped_cell_ok(cell, seqs, info, offsets, dup, g2, g1),
{
    lemma_scan_swap(cell, seqs, info, offsets[g1], offsets[g2]);
}

proof fn lemma_scan_swap(
    cell: MinMaxCell,
    seqs: Seq<Sequence>,
    info: Option<AmbiguityInfo>,
    o1: Offset,
    o2: Offset,
)
    requires
        crate::matrix::dist_ctx_ok(seqs, info),
        crate::matrix::offset_ok(o1, seqs.len() as int),
        crate::matrix::offset_ok(o2, seqs.len() as int),
    ensures
        min_ok(cell.min, seqs, info, o1, o2) ==> min_ok(cell.min, seqs, info, o2, o1),
        max_ok(cell.max, seqs, info, o1, o2) ==> max_ok(cell.max, seqs, info, o2, o1),
{
    assert forall|i: int, j: int|
        crate::matrix::in_run(o2, i) && crate::matrix::in_run(o1, j) && i != j implies #[trigger] pair_bound(
        seqs,
        info,
        i,
        j,
    ) == pair_bound(seqs, info, j, i) by {
        lemma_pair_dist_sym(seqs, info, i, j);
    }
    if min_ok(cell.min, seqs, info, o1, o2) && cell.min != crate::matrix::Bound::PlusInf {
        let (i0, j0) = choose|i0: int, j0: int|
            crate::matrix::in_run(o1, i0) && crate::matrix::in_run(o2, j0) && i0 != j0
                && #[trigger] pair_bound(seqs, info, i0, j0) == Some(cell.min);
        lemma_pair_dist_sym(seqs, info, i0, j0);
        assert(pair_bound(seqs, info, j0, i0) == Some(cell.min));
    }
    if max_ok(cell.max, seqs, info, o1, o2) && cell.max != crate::matrix::Bound::MinusInf {
        let (i0, j0) = choose|i0: int, j0: int|
            crate::matrix::in_run(o1, i0) && crate::matrix::in_run(o2, j0) && i0 != j0
                && #[trigger] pair_bound(seqs, info, i0, j0) == Some(cell.max);
        lemma_pair_dist_sym(seqs, info, i0, j0);
        assert(pair_bound(seqs, info, j0, i0) == Some(cell.max));
    }
}

} // verus!
