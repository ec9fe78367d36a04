use vstd::prelude::*;

use rayon::iter::{IntoParallelIterator, ParallelIterator};

use crate::dedup::Offset;
use crate::dist::{k2p, k2p_spec, stats_le, stats_wf, w_den, w_num, Distance, Stats, MAX_ALIGN};
use crate::freq::{info_wf, AmbiguityInfo};
use crate::seqs::Sequence;
use crate::weighted::{k2p_ambiguity, k2p_ambiguity_spec};

verus! {

/// One end of a min/max cell of the grouped matrix: minus infinity, a
/// defined distance, or plus infinity. A defined distance whose w is
/// zero (infinite divergence) is canonicalised to PlusInf, so the order
/// below is total over well-formed bounds.
#[derive(Clone, Copy, PartialEq, Eq, Structural, Debug)]
pub enum Bound {
    MinusInf,
    Fin(Stats),
    PlusInf,
}

pub open spec fn bound_wf(b: Bound) -> bool {
    b matches Bound::Fin(s) ==> stats_wf(s) && w_num(s) > 0
}

/// The order of the real distances the bounds stand for: minus infinity
/// below every defined distance, plus infinity above, defined distances
/// by their w rationals, the other way round.
pub open spec fn bound_le(a: Bound, b: Bound) -> bool {
    match (a, b) {
        (Bound::MinusInf, _) => true,
        (_, Bound::PlusInf) => true,
        (Bound::PlusInf, _) => false,
        (_, Bound::MinusInf) => false,
        (Bound::Fin(s1), Bound::Fin(s2)) => stats_le(s1, s2),
    }
}

/// The exact zero distance, forced onto a diagonal cell whose group
/// holds exact duplicates.
pub open spec fn zero_bound() -> Bound {
    Bound::Fin(Stats { p_num: 0, q_num: 0, den: 1 })
}

pub fn make_zero_bound() -> (r: Bound)
    ensures
        r == zero_bound(),
        bound_wf(r),
{
    proof {
        let s = Stats { p_num: 0, q_num: 0, den: 1 };
        assert(s.den - 2 * s.p_num - s.q_num == 1);
        assert((1int) * (1int) * (1int) == 1);
        assert(w_num(s) == 1);
    }
    Bound::Fin(Stats { p_num: 0, q_num: 0, den: 1 })
}

proof fn lemma_stats_le_trans(a: Stats, b: Stats, c: Stats)
    requires
        b.den >= 1,
        stats_le(a, b),
        stats_le(b, c),
    ensures
        stats_le(a, c),
{
    let na = w_num(a);
    let nb = w_num(b);
    let nc = w_num(c);
    let da = w_den(a);
    let db = w_den(b);
    let dc = w_den(c);
    assert(nc * da <= na * dc) by (nonlinear_arith)
        requires
            nb * da <= na * db,
            nc * db <= nb * dc,
            da == (a.den as int) * (a.den as int) * (a.den as int),
            db == (b.den as int) * (b.den as int) * (b.den as int),
            dc == (c.den as int) * (c.den as int) * (c.den as int),
            a.den >= 0,
            b.den >= 1,
            c.den >= 0,
            na == w_num(a),
            nb == w_num(b),
            nc == w_num(c),
            da == w_den(a),
            db == w_den(b),
            dc == w_den(c),
    ;
}

pub proof fn lemma_bound_le_trans(a: Bound, b: Bound, c: Bound)
    requires
        bound_wf(b),
        bound_le(a, b),
        bound_le(b, c),
    ensures
        bound_le(a, c),
{
    match (a, b, c) {
        (Bound::Fin(s1), Bound::Fin(s2), Bound::Fin(s3)) => {
            lemma_stats_le_trans(s1, s2, s3);
        },
        _ => {},
    }
}

pub proof fn lemma_bound_le_total(a: Bound, b: Bound)
    ensures
        bound_le(a, b) || bound_le(b, a),
{
}

pub fn bound_cmp_le(a: &Bound, b: &Bound) -> (r: bool)
    requires
        bound_wf(*a),
        bound_wf(*b),
    ensures
        r == bound_le(*a, *b),
{
    match (a, b) {
        (Bound::MinusInf, _) => true,
        (_, Bound::PlusInf) => true,
        (Bound::PlusInf, _) => false,
        (_, Bound::MinusInf) => false,
        (Bound::Fin(s1), Bound::Fin(s2)) => crate::dist::stats_cmp_le(s1, s2),
    }
}

/// Strictly less: the negation of the reverse order.
pub fn bound_cmp_lt(a: &Bound, b: &Bound) -> (r: bool)
    requires
        bound_wf(*a),
        bound_wf(*b),
    ensures
        r == !bound_le(*b, *a),
{
    !bound_cmp_le(b, a)
}

/// A defined distance as a bound: an undefined comparison yields none
/// and takes no part in the extrema; a defined distance with w zero is
/// the real plus infinity.
pub open spec fn bound_of(d: Distance) -> Option<Bound> {
    match d {
        Distance::Undefined => None,
        Distance::Value(s) => Some(
            if s.den == 2 * s.q_num {
                Bound::PlusInf
            } else {
                Bound::Fin(s)
            },
        ),
    }
}

pub fn to_bound(d: &Distance) -> (r: Option<Bound>)
    requires
        *d matches Distance::Value(s) ==> stats_wf(s),
    ensures
        r == bound_of(*d),
        r matches Some(b) ==> bound_wf(b),
{
    match d {
        Distance::Undefined => None,
        Distance::Value(s) => {
            if s.den == 2 * s.q_num {
                Some(Bound::PlusInf)
            } else {
                proof {
                    let u = s.den - 2 * s.p_num - s.q_num;
                    let v = s.den - 2 * s.q_num;
                    assert(u * u * v >= 1) by (nonlinear_arith)
                        requires
                            u >= 1,
                            v >= 1,
                    ;
                }
                Some(Bound::Fin(*s))
            }
        },
    }
}

/// How a cell value must render: exact zero as the distinct
/// "identical" marker, every sentinel and undefined value as the
/// distinct "undefined" marker, anything else as a number. The
/// distinction is exact: a defined distance renders as identical
/// precisely when both of its proportions vanish.
#[derive(Clone, Copy, PartialEq, Eq, Structural, Debug)]
pub enum CellClass {
    Identical,
    Undefined,
    Numeric,
}

pub open spec fn bound_class_spec(b: Bound) -> CellClass {
    match b {
        Bound::MinusInf => CellClass::Undefined,
        Bound::PlusInf => CellClass::Undefined,
        Bound::Fin(s) => if s.p_num == 0 && s.q_num == 0 {
            CellClass::Identical
        } else {
            CellClass::Numeric
        },
    }
}

pub fn bound_class(b: &Bound) -> (r: CellClass)
    ensures
        r == bound_class_spec(*b),
{
    match b {
        Bound::MinusInf => CellClass::Undefined,
        Bound::PlusInf => CellClass::Undefined,
        Bound::Fin(s) => {
            if s.p_num == 0 && s.q_num == 0 {
                CellClass::Identical
            } else {
                CellClass::Numeric
            }
        },
    }
}

/// The class of a raw full-matrix cell: undefined comparisons render as
/// undefined, the exact zero as identical, the rest as numbers.
pub fn distance_class(d: &Distance) -> (r: CellClass)
    ensures
        *d is Undefined ==> r == CellClass::Undefined,
        *d matches Distance::Value(s) ==> r == (if crate::dist::is_zero_dist(*d) {
            CellClass::Identical
        } else {
            CellClass::Numeric
        }),
{
    match d {
        Distance::Undefined => CellClass::Undefined,
        Distance::Value(s) => {
            if s.p_num == 0 && s.q_num == 0 {
                CellClass::Identical
            } else {
                CellClass::Numeric
            }
        },
    }
}

/// The model argument as a spec value.
pub open spec fn info_view(info: Option<&AmbiguityInfo>) -> Option<AmbiguityInfo> {
    match info {
        None => None,
        Some(fi) => Some(*fi),
    }
}

/// The distance of one pair of sequences under the chosen variant: the
/// plain distance without a model, the ambiguity-weighted one with it.
pub open spec fn pair_dist(seqs: Seq<Sequence>, info: Option<AmbiguityInfo>, i: int, j: int) -> Distance {
    match info {
        None => k2p_spec(seqs[i].seq@, seqs[j].seq@),
        Some(fi) => k2p_ambiguity_spec(
            seqs[i].seq@,
            seqs[j].seq@,
            fi.groups@[seqs[i].group as int]@,
            fi.groups@[seqs[j].group as int]@,
            fi.threshold_num as int,
            fi.threshold_den as int,
        ),
    }
}

pub open spec fn pair_bound(seqs: Seq<Sequence>, info: Option<AmbiguityInfo>, i: int, j: int) -> Option<
    Bound,
> {
    bound_of(pair_dist(seqs, info, i, j))
}

/// What the aggregation needs of its inputs: one alignment length within
/// range, and, when a model is given, a well-formed model that covers
/// every sequence's group with rows of the alignment's length.
pub open spec fn dist_ctx_ok(seqs: Seq<Sequence>, info: Option<AmbiguityInfo>) -> bool {
    &&& forall|k1: int, k2: int|
        0 <= k1 < seqs.len() && 0 <= k2 < seqs.len() ==> (#[trigger] seqs[k1]).seq@.len() == (
        #[trigger] seqs[k2]).seq@.len()
    &&& forall|k: int| 0 <= k < seqs.len() ==> (#[trigger] seqs[k]).seq@.len() <= MAX_ALIGN
    &&& (info matches Some(fi) ==> {
        &&& info_wf(fi)
        &&& forall|k: int|
            0 <= k < seqs.len() ==> (#[trigger] seqs[k]).group < fi.groups@.len()
        &&& forall|k: int|
            0 <= k < seqs.len() ==> fi.groups@[(#[trigger] seqs[k]).group as int]@.len()
                == seqs[k].seq@.len()
    })
}

/// One pairwise distance, by the variant the model argument selects:
/// absent, the plain distance; present, the ambiguity-weighted one.
pub fn distance(seq1: &Sequence, seq2: &Sequence, info: Option<&AmbiguityInfo>) -> (d: Distance)
    requires
        seq1.seq@.len() == seq2.seq@.len(),
        seq1.seq@.len() <= MAX_ALIGN,
        info matches Some(fi) ==> {
            &&& info_wf(*fi)
            &&& seq1.group < fi.groups@.len()
            &&& seq2.group < fi.groups@.len()
            &&& fi.groups@[seq1.group as int]@.len() == seq1.seq@.len()
            &&& fi.groups@[seq2.group as int]@.len() == seq2.seq@.len()
        },
    ensures
        info is None ==> d == k2p_spec(seq1.seq@, seq2.seq@),
        info matches Some(fi) ==> d == k2p_ambiguity_spec(
            seq1.seq@,
            seq2.seq@,
            fi.groups@[seq1.group as int]@,
            fi.groups@[seq2.group as int]@,
            fi.threshold_num as int,
            fi.threshold_den as int,
        ),
        d matches Distance::Value(s) ==> stats_wf(s),
{
    match info {
        None => k2p(seq1, seq2),
        Some(fi) => k2p_ambiguity(seq1, seq2, fi),
    }
}

/// Index i lies in the run the offset describes.
pub open spec fn in_run(o: Offset, i: int) -> bool {
    o.offset <= i < o.offset + o.count
}

pub open spec fn offset_ok(o: Offset, n: int) -> bool {
    o.count > 0 ==> o.offset + o.count <= n
}

/// m is a lower bound of every defined distance of the cross product of
/// the two runs (the same index never compared to itself), and is either
/// one of them or plus infinity, the sentinel of a scan that saw none.
pub open spec fn min_ok(
    m: Bound,
    seqs: Seq<Sequence>,
    info: Option<AmbiguityInfo>,
    o1: Offset,
    o2: Offset,
) -> bool {
    &&& forall|i: int, j: int|
        #![trigger pair_bound(seqs, info, i, j)]
        (in_run(o1, i) && in_run(o2, j) && i != j) ==> (pair_bound(seqs, info, i, j) matches Some(
        b) ==> bound_le(m, b))
    &&& (m == Bound::PlusInf || exists|i: int, j: int|
        #![trigger pair_bound(seqs, info, i, j)]
        in_run(o1, i) && in_run(o2, j) && i != j && pair_bound(seqs, info, i, j) == Some(m))
}

/// The upper counterpart: minus infinity when the scan saw nothing.
pub open spec fn max_ok(
    m: Bound,
    seqs: Seq<Sequence>,
    info: Option<AmbiguityInfo>,
    o1: Offset,
    o2: Offset,
) -> bool {
    &&& forall|i: int, j: int|
        #![trigger pair_bound(seqs, info, i, j)]
        (in_run(o1, i) && in_run(o2, j) && i != j) ==> (pair_bound(seqs, info, i, j) matches Some(
        b) ==> bound_le(b, m))
    &&& (m == Bound::MinusInf || exists|i: int, j: int|
        #![trigger pair_bound(seqs, info, i, j)]
        in_run(o1, i) && in_run(o2, j) && i != j && pair_bound(seqs, info, i, j) == Some(m))
}

/// The scanned prefix: pairs lexicographically before (ci, cj).
pub open spec fn lex_before(i: int, j: int, ci: int, cj: int) -> bool {
    i < ci || (i == ci && j < cj)
}

spec fn min_ok_upto(
    m: Bound,
    seqs: Seq<Sequence>,
    info: Option<AmbiguityInfo>,
    o1: Offset,
    o2: Offset,
    ci: int,
    cj: int,
) -> bool {
    &&& forall|i: int, j: int|
        #![trigger pair_bound(seqs, info, i, j)]
        (in_run(o1, i) && in_run(o2, j) && i != j && lex_before(i, j, ci, cj)) ==> (pair_bound(
            seqs,
            info,
            i,
            j,
        ) matches Some(b) ==> bound_le(m, b))
    &&& (m == Bound::PlusInf || exists|i: int, j: int|
        #![trigger pair_bound(seqs, info, i, j)]
        in_run(o1, i) && in_run(o2, j) && i != j && lex_before(i, j, ci, cj) && pair_bound(
            seqs,
            info,
            i,
            j,
        ) == Some(m))
}

spec fn max_ok_upto(
    m: Bound,
    seqs: Seq<Sequence>,
    info: Option<AmbiguityInfo>,
    o1: Offset,
    o2: Offset,
    ci: int,
    cj: int,
) -> bool {
    &&& forall|i: int, j: int|
        #![trigger pair_bound(seqs, info, i, j)]
        (in_run(o1, i) && in_run(o2, j) && i != j && lex_before(i, j, ci, cj)) ==> (pair_bound(
            seqs,
            info,
            i,
            j,
        ) matches Some(b) ==> bound_le(b, m))
    &&& (m == Bound::MinusInf || exists|i: int, j: int|
        #![trigger pair_bound(seqs, info, i, j)]
        in_run(o1, i) && in_run(o2, j) && i != j && lex_before(i, j, ci, cj) && pair_bound(
            seqs,
            info,
            i,
            j,
        ) == Some(m))
}

/// A min/max pair of one grouped matrix cell.
#[derive(Clone, Copy, PartialEq, Eq, Structural, Debug)]
pub struct MinMaxCell {
    pub min: Bound,
    pub max: Bound,
}

/// Scans the cross product of two runs and keeps the least and greatest
/// defined distance, exactly as ordered by the w rationals.
pub fn scan_pair(seqs: &Vec<Sequence>, info: Option<&AmbiguityInfo>, o1: Offset, o2: Offset) -> (r:
    MinMaxCell)
    requires
        dist_ctx_ok(seqs@, info_view(info)),
        offset_ok(o1, seqs@.len() as int),
        offset_ok(o2, seqs@.len() as int),
    ensures
        min_ok(r.min, seqs@, info_view(info), o1, o2),
        max_ok(r.max, seqs@, info_view(info), o1, o2),
        bound_wf(r.min),
        bound_wf(r.max),
{
    let ghost gseqs = seqs@;
    let ghost ginfo = info_view(info);
    let mut mn = Bound::PlusInf;
    let mut mx = Bound::MinusInf;
    if o1.count == 0 || o2.count == 0 {
        return MinMaxCell { min: mn, max: mx };
    }
    let n = seqs.len();
    let i_end = o1.offset + o1.count;
    let j_end = o2.offset + o2.count;
    let mut i = o1.offset;
    while i < i_end
        invariant
            seqs@ == gseqs,
            ginfo == info_view(info),
            dist_ctx_ok(gseqs, ginfo),
            o1.count > 0,
            o2.count > 0,
            i_end == o1.offset + o1.count,
            j_end == o2.offset + o2.count,
            i_end <= gseqs.len(),
            j_end <= gseqs.len(),
            o1.offset <= i <= i_end,
            bound_wf(mn),
            bound_wf(mx),
            min_ok_upto(mn, gseqs, ginfo, o1, o2, i as int, o2.offset as int),
            max_ok_upto(mx, gseqs, ginfo, o1, o2, i as int, o2.offset as int),
        decreases i_end - i,
    {
        let mut j = o2.offset;
        while j < j_end
            invariant
                seqs@ == gseqs,
                ginfo == info_view(info),
                dist_ctx_ok(gseqs, ginfo),
                i_end == o1.offset + o1.count,
                j_end == o2.offset + o2.count,
                i_end <= gseqs.len(),
                j_end <= gseqs.len(),
                o1.offset <= i < i_end,
                o2.offset <= j <= j_end,
                bound_wf(mn),
                bound_wf(mx),
                min_ok_upto(mn, gseqs, ginfo, o1, o2, i as int, j as int),
                max_ok_upto(mx, gseqs, ginfo, o1, o2, i as int, j as int),
            decreases j_end - j,
        {
            if i != j {
                let d = distance(&seqs[i], &seqs[j], info);
                proof {
                    assert(d == pair_dist(gseqs, ginfo, i as int, j as int));
                }
                let ob = to_bound(&d);
                if let Some(b) = ob {
                    proof {
                        assert(pair_bound(gseqs, ginfo, i as int, j as int) == Some(b));
                    }
                    if bound_cmp_lt(&b, &mn) {
                        proof {
                            lemma_bound_le_total(mn, b);
                            assert forall|ii: int, jj: int|
                                in_run(o1, ii) && in_run(o2, jj) && ii != jj && lex_before(
                                    ii,
                                    jj,
                                    i as int,
                                    j as int,
                                ) implies ((#[trigger] pair_bound(gseqs, ginfo, ii, jj)) matches Some(
                            bb) ==> bound_le(b, bb)) by {
                                if pair_bound(gseqs, ginfo, ii, jj) is Some {
                                    lemma_bound_le_trans(
                                        b,
                                        mn,
                                        pair_bound(gseqs, ginfo, ii, jj)->Some_0,
                                    );
                                }
                            }
                        }
                        mn = b;
                    }
                    if bound_cmp_lt(&mx, &b) {
                        proof {
                            lemma_bound_le_total(mx, b);
                            assert forall|ii: int, jj: int|
                                in_run(o1, ii) && in_run(o2, jj) && ii != jj && lex_before(
                                    ii,
                                    jj,
                                    i as int,
                                    j as int,
                                ) implies ((#[trigger] pair_bound(gseqs, ginfo, ii, jj)) matches Some(
                            bb) ==> bound_le(bb, b)) by {
                                if pair_bound(gseqs, ginfo, ii, jj) is Some {
                                    lemma_bound_le_trans(
                                        pair_bound(gseqs, ginfo, ii, jj)->Some_0,
                                        mx,
                                        b,
                                    );
                                }
                            }
                        }
                        mx = b;
                    }
                }
            }
            j = j + 1;
        }
        i = i + 1;
    }
    MinMaxCell { min: mn, max: mx }
}

/// What one grouped matrix cell must hold for the unordered group pair
/// (g1, g2): the scanned extrema, except on the diagonal, where a group
/// with duplicates forces a zero minimum (and, alone, a zero maximum),
/// and a singleton group without duplicates carries the undefined
/// sentinel pair.
pub open spec fn grouped_cell_ok(
    cell: MinMaxCell,
    seqs: Seq<Sequence>,
    info: Option<AmbiguityInfo>,
    offsets: Seq<Offset>,
    dup: Seq<bool>,
    g1: int,
    g2: int,
) -> bool {
    let o1 = offsets[g1];
    let o2 = offsets[g2];
    if g1 == g2 && dup[g1] {
        &&& cell.min == zero_bound()
        &&& (o1.count == 1 ==> cell.max == zero_bound())
        &&& (o1.count != 1 ==> max_ok(cell.max, seqs, info, o1, o2))
    } else if g1 == g2 && o1.count == 1 {
        cell.min == Bound::MinusInf && cell.max == Bound::PlusInf
    } else {
        min_ok(cell.min, seqs, info, o1, o2) && max_ok(cell.max, seqs, info, o1, o2)
    }
}

pub open spec fn grouped_row_ok(
    row: Seq<MinMaxCell>,
    seqs: Seq<Sequence>,
    info: Option<AmbiguityInfo>,
    offsets: Seq<Offset>,
    dup: Seq<bool>,
    g1: int,
) -> bool {
    &&& row.len() == offsets.len() - g1
    &&& forall|g2: int|
        g1 <= g2 < offsets.len() ==> grouped_cell_ok(
            #[trigger] row[g2 - g1],
            seqs,
            info,
            offsets,
            dup,
            g1,
            g2,
        )
}

/// One worker's row of the grouped matrix: the cells of every pair
/// (g1, g2) with g2 from g1 upward.
pub fn grouped_row(
    seqs: &Vec<Sequence>,
    info: Option<&AmbiguityInfo>,
    offsets: &Vec<Offset>,
    dup: &Vec<bool>,
    g1: usize,
) -> (row: Vec<MinMaxCell>)
    requires
        dist_ctx_ok(seqs@, info_view(info)),
        forall|g: int|
            0 <= g < offsets@.len() ==> offset_ok(#[trigger] offsets@[g], seqs@.len() as int),
        dup@.len() == offsets@.len(),
        g1 < offsets@.len(),
    ensures
        grouped_row_ok(row@, seqs@, info_view(info), offsets@, dup@, g1 as int),
{
    let n_groups = offsets.len();
    let mut row: Vec<MinMaxCell> = Vec::new();
    let o1 = *(&offsets[g1]);
    for g2 in g1..n_groups
        invariant
            dist_ctx_ok(seqs@, info_view(info)),
            forall|g: int|
                0 <= g < offsets@.len() ==> offset_ok(#[trigger] offsets@[g], seqs@.len() as int),
            dup@.len() == offsets@.len(),
            g1 < offsets@.len(),
            n_groups == offsets@.len(),
            o1 == offsets@[g1 as int],
            row@.len() == g2 - g1,
            forall|gg: int|
                g1 <= gg < g2 ==> grouped_cell_ok(
                    #[trigger] row@[gg - g1],
                    seqs@,
                    info_view(info),
                    offsets@,
                    dup@,
                    g1 as int,
                    gg,
                ),
    {
        let o2 = *(&offsets[g2]);
        let mut cell = scan_pair(seqs, info, o1, o2);
        if g1 == g2 {
            if dup[g1] {
                cell.min = make_zero_bound();
                if o1.count == 1 {
                    cell.max = make_zero_bound();
                }
            } else if o1.count == 1 {
                cell.min = Bound::MinusInf;
                cell.max = Bound::PlusInf;
            }
        }
        row.push(cell);
    }
    row
}

pub open spec fn full_row_ok(
    row: Seq<Distance>,
    seqs: Seq<Sequence>,
    info: Option<AmbiguityInfo>,
    i: int,
) -> bool {
    &&& row.len() == seqs.len() - i
    &&& forall|j: int|
        i <= j < seqs.len() ==> #[trigger] row[j - i] == pair_dist(seqs, info, i, j)
}

/// One worker's row of the full matrix: the raw distance of sequence i
/// against every sequence from i onward, the self comparison included.
pub fn full_row(seqs: &Vec<Sequence>, info: Option<&AmbiguityInfo>, i: usize) -> (row: Vec<
    Distance,
>)
    requires
        dist_ctx_ok(seqs@, info_view(info)),
        i < seqs@.len(),
    ensures
        full_row_ok(row@, seqs@, info_view(info), i as int),
{
    let n = seqs.len();
    let mut row: Vec<Distance> = Vec::new();
    for j in i..n
        invariant
            dist_ctx_ok(seqs@, info_view(info)),
            i < seqs@.len(),
            n == seqs@.len(),
            row@.len() == j - i,
            forall|jj: int|
                i <= jj < j ==> #[trigger] row@[jj - i] == pair_dist(
                    seqs@,
                    info_view(info),
                    i as int,
                    jj,
                ),
    {
        let d = distance(&seqs[i], &seqs[j], info);
        row.push(d);
    }
    row
}

/// Relies on rayon's IntoParallelIterator for ranges with map and
/// collect into Vec: an indexed parallel map collects its results in
/// index order, one per index, each the closure's result for that
/// index. The closure only calls the verified grouped_row.
#[verifier::external_body]
fn par_grouped_rows(
    seqs: &Vec<Sequence>,
    info: Option<&AmbiguityInfo>,
    offsets: &Vec<Offset>,
    dup: &Vec<bool>,
) -> (rows: Vec<Vec<MinMaxCell>>)
    requires
        dist_ctx_ok(seqs@, info_view(info)),
        forall|g: int|
            0 <= g < offsets@.len() ==> offset_ok(#[trigger] offsets@[g], seqs@.len() as int),
        dup@.len() == offsets@.len(),
    ensures
        rows@.len() == offsets@.len(),
        forall|g1: int|
            0 <= g1 < offsets@.len() ==> grouped_row_ok(
                (#[trigger] rows@[g1])@,
                seqs@,
                info_view(info),
                offsets@,
                dup@,
                g1,
            ),
{
    (0..offsets.len()).into_par_iter().map(|g1| grouped_row(seqs, info, offsets, dup, g1)).collect()
}

/// Relies on rayon's IntoParallelIterator for ranges with map and
/// collect into Vec, as in par_grouped_rows; the closure only calls the
/// verified full_row.
#[verifier::external_body]
fn par_full_rows(seqs: &Vec<Sequence>, info: Option<&AmbiguityInfo>) -> (rows: Vec<Vec<Distance>>)
    requires
        dist_ctx_ok(seqs@, info_view(info)),
    ensures
        rows@.len() == seqs@.len(),
        forall|i: int|
            0 <= i < seqs@.len() ==> full_row_ok((#[trigger] rows@[i])@, seqs@, info_view(info), i),
{
    (0..seqs.len()).into_par_iter().map(|i| full_row(seqs, info, i)).collect()
}

/// Mirrors the per-row upper-triangular results into the
/// lower-triangular output: row r of the result holds, for each c at
/// most r, what worker c computed for its pair (c, r).
pub fn transpose_grouped(rows: &Vec<Vec<MinMaxCell>>) -> (m: Vec<Vec<MinMaxCell>>)
    requires
        forall|g: int|
            0 <= g < rows@.len() ==> (#[trigger] rows@[g])@.len() == rows@.len() - g,
    ensures
        m@.len() == rows@.len(),
        forall|r: int| 0 <= r < m@.len() ==> (#[trigger] m@[r])@.len() == r + 1,
        forall|r: int, c: int|
            0 <= c <= r < m@.len() ==> #[trigger] m@[r]@[c] == rows@[c]@[r - c],
{
    let n = rows.len();
    let mut m: Vec<Vec<MinMaxCell>> = Vec::new();
    for r in 0..n
        invariant
            n == rows@.len(),
            forall|g: int|
                0 <= g < rows@.len() ==> (#[trigger] rows@[g])@.len() == rows@.len() - g,
            m@.len() == r,
            forall|rr: int| 0 <= rr < r ==> (#[trigger] m@[rr])@.len() == rr + 1,
            forall|rr: int, c: int|
                0 <= c <= rr < r ==> #[trigger] m@[rr]@[c] == rows@[c]@[rr - c],
    {
        let mut line: Vec<MinMaxCell> = Vec::new();
        let mut c: usize = 0;
        while c <= r
            invariant
                n == rows@.len(),
                r < n,
                forall|g: int|
                    0 <= g < rows@.len() ==> (#[trigger] rows@[g])@.len() == rows@.len() - g,
                c <= r + 1,
                line@.len() == c,
                forall|cc: int| 0 <= cc < c ==> #[trigger] line@[cc] == rows@[cc]@[r - cc],
            decreases r + 1 - c,
        {
            line.push(rows[c][r - c]);
            c = c + 1;
        }
        m.push(line);
    }
    m
}

pub fn transpose_full(rows: &Vec<Vec<Distance>>) -> (m: Vec<Vec<Distance>>)
    requires
        forall|g: int|
            0 <= g < rows@.len() ==> (#[trigger] rows@[g])@.len() == rows@.len() - g,
    ensures
        m@.len() == rows@.len(),
        forall|r: int| 0 <= r < m@.len() ==> (#[trigger] m@[r])@.len() == r + 1,
        forall|r: int, c: int|
            0 <= c <= r < m@.len() ==> #[trigger] m@[r]@[c] == rows@[c]@[r - c],
{
    let n = rows.len();
    let mut m: Vec<Vec<Distance>> = Vec::new();
    for r in 0..n
        invariant
            n == rows@.len(),
            forall|g: int|
                0 <= g < rows@.len() ==> (#[trigger] rows@[g])@.len() == rows@.len() - g,
            m@.len() == r,
            forall|rr: int| 0 <= rr < r ==> (#[trigger] m@[rr])@.len() == rr + 1,
            forall|rr: int, c: int|
                0 <= c <= rr < r ==> #[trigger] m@[rr]@[c] == rows@[c]@[rr - c],
    {
        let mut line: Vec<Distance> = Vec::new();
        let mut c: usize = 0;
        while c <= r
            invariant
                n == rows@.len(),
                r < n,
                forall|g: int|
                    0 <= g < rows@.len() ==> (#[trigger] rows@[g])@.len() == rows@.len() - g,
                c <= r + 1,
                line@.len() == c,
                forall|cc: int| 0 <= cc < c ==> #[trigger] line@[cc] == rows@[cc]@[r - cc],
            decreases r + 1 - c,
        {
            line.push(rows[c][r - c]);
            c = c + 1;
        }
        m.push(line);
    }
    m
}

/// The grouped species-by-species matrix: one min/max cell per unordered
/// group pair, self pairs included, in lower-triangular storage; cell
/// [r][c] holds the pair (c, r).
pub fn compute_grouped_matrix(
    seqs: &Vec<Sequence>,
    info: Option<&AmbiguityInfo>,
    offsets: &Vec<Offset>,
    dup: &Vec<bool>,
) -> (m: Vec<Vec<MinMaxCell>>)
    requires
        dist_ctx_ok(seqs@, info_view(info)),
        forall|g: int|
            0 <= g < offsets@.len() ==> offset_ok(#[trigger] offsets@[g], seqs@.len() as int),
        dup@.len() == offsets@.len(),
    ensures
        m@.len() == offsets@.len(),
        forall|r: int| 0 <= r < m@.len() ==> (#[trigger] m@[r])@.len() == r + 1,
        forall|r: int, c: int|
            0 <= c <= r < m@.len() ==> grouped_cell_ok(
                #[trigger] m@[r]@[c],
                seqs@,
                info_view(info),
                offsets@,
                dup@,
                c,
                r,
            ),
{
    let rows = par_grouped_rows(seqs, info, offsets, dup);
    let m = transpose_grouped(&rows);
    proof {
        assert forall|r: int, c: int| 0 <= c <= r < m@.len() implies grouped_cell_ok(
            #[trigger] m@[r]@[c],
            seqs@,
            info_view(info),
            offsets@,
            dup@,
            c,
            r,
        ) by {
            assert(m@[r]@[c] == rows@[c]@[r - c]);
            assert(grouped_row_ok((rows@[c])@, seqs@, info_view(info), offsets@, dup@, c));
        }
    }
    m
}

/// The full sequence-by-sequence matrix of raw distances, in
/// lower-triangular storage; cell [r][c] is the distance of sequences c
/// and r, the diagonal the self distance.
pub fn compute_full_matrix(seqs: &Vec<Sequence>, info: Option<&AmbiguityInfo>) -> (m: Vec<
    Vec<Distance>,
>)
    requires
        dist_ctx_ok(seqs@, info_view(info)),
    ensures
        m@.len() == seqs@.len(),
        forall|r: int| 0 <= r < m@.len() ==> (#[trigger] m@[r])@.len() == r + 1,
        forall|r: int, c: int|
            0 <= c <= r < m@.len() ==> #[trigger] m@[r]@[c] == pair_dist(
                seqs@,
                info_view(info),
                c,
                r,
            ),
{
    let rows = par_full_rows(seqs, info);
    let m = transpose_full(&rows);
    proof {
        assert forall|r: int, c: int| 0 <= c <= r < m@.len() implies #[trigger] m@[r]@[c]
            == pair_dist(seqs@, info_view(info), c, r) by {
            assert(m@[r]@[c] == rows@[c]@[r - c]);
            assert(full_row_ok((rows@[c])@, seqs@, info_view(info), c));
        }
    }
    m
}

} // verus!
