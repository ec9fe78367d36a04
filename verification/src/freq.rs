use vstd::prelude::*;

use crate::base::{base_canon_index, base_is_canonical, canon_index, is_canonical, Base};
use crate::seqs::Sequence;

verus! {

/// Most sequences one run may tally; keeps every count inside the range
/// the exact fractional arithmetic of the weighted distance needs.
pub const MAX_SEQS: u64 = 4294967296;

/// Per species group and per alignment column: how many unambiguous
/// calls of each canonical base were seen, how many unambiguous calls in
/// all, and how many calls that were not canonical (ambiguity codes,
/// N, gaps and absence all count here). The fractional frequencies and
/// the ambiguous-call percentage of the model are exact rationals over
/// these tallies and are derived where they are used.
pub struct Frequencies {
    pub count: Vec<u64>,
    pub normal_count: u64,
    pub ambiguous_count: u64,
}

/// Count, among the first calls of `seqs` in group `g`, of canonical base
/// `b` (by `canon_index`) at column `i`.
pub open spec fn count_base(seqs: Seq<Sequence>, g: int, i: int, b: int) -> int
    decreases seqs.len(),
{
    if seqs.len() == 0 {
        0
    } else {
        let s = seqs.last();
        count_base(seqs.drop_last(), g, i, b) + if s.group == g && 0 <= i < s.seq@.len()
            && is_canonical(s.seq@[i]) && canon_index(s.seq@[i]) == b {
            1int
        } else {
            0int
        }
    }
}

/// Count of canonical calls of group `g` at column `i`.
pub open spec fn count_normal(seqs: Seq<Sequence>, g: int, i: int) -> int
    decreases seqs.len(),
{
    if seqs.len() == 0 {
        0
    } else {
        let s = seqs.last();
        count_normal(seqs.drop_last(), g, i) + if s.group == g && 0 <= i < s.seq@.len()
            && is_canonical(s.seq@[i]) {
            1int
        } else {
            0int
        }
    }
}

/// Count of non-canonical calls of group `g` at column `i`.
pub open spec fn count_ambig(seqs: Seq<Sequence>, g: int, i: int) -> int
    decreases seqs.len(),
{
    if seqs.len() == 0 {
        0
    } else {
        let s = seqs.last();
        count_ambig(seqs.drop_last(), g, i) + if s.group == g && 0 <= i < s.seq@.len()
            && !is_canonical(s.seq@[i]) {
            1int
        } else {
            0int
        }
    }
}

pub proof fn lemma_counts_bounded(seqs: Seq<Sequence>, g: int, i: int, b: int)
    ensures
        0 <= count_base(seqs, g, i, b) <= seqs.len(),
        0 <= count_normal(seqs, g, i) <= seqs.len(),
        0 <= count_ambig(seqs, g, i) <= seqs.len(),
    decreases seqs.len(),
{
    if seqs.len() > 0 {
        lemma_counts_bounded(seqs.drop_last(), g, i, b);
    }
}

/// One tallying step: the counts over one more sequence.
pub proof fn lemma_counts_step(seqs: Seq<Sequence>, k: int, g: int, i: int, b: int)
    requires
        0 <= k < seqs.len(),
    ensures
        count_base(seqs.take(k + 1), g, i, b) == count_base(seqs.take(k), g, i, b) + (
        if seqs[k].group == g && 0 <= i < seqs[k].seq@.len() && is_canonical(seqs[k].seq@[i])
            && canon_index(seqs[k].seq@[i]) == b {
            1int
        } else {
            0int
        }),
        count_normal(seqs.take(k + 1), g, i) == count_normal(seqs.take(k), g, i) + (
        if seqs[k].group == g && 0 <= i < seqs[k].seq@.len() && is_canonical(seqs[k].seq@[i]) {
            1int
        } else {
            0int
        }),
        count_ambig(seqs.take(k + 1), g, i) == count_ambig(seqs.take(k), g, i) + (
        if seqs[k].group == g && 0 <= i < seqs[k].seq@.len() && !is_canonical(seqs[k].seq@[i]) {
            1int
        } else {
            0int
        }),
{
    assert(seqs.take(k + 1).drop_last() =~= seqs.take(k));
    assert(seqs.take(k + 1).last() == seqs[k]);
}

/// The tallies of one column cell agree with the sequences.
pub open spec fn cell_matches(f: Frequencies, seqs: Seq<Sequence>, g: int, i: int) -> bool {
    &&& f.count@.len() == 4
    &&& forall|b: int| 0 <= b < 4 ==> f.count@[b] == count_base(seqs, g, i, b)
    &&& f.normal_count == count_normal(seqs, g, i)
    &&& f.ambiguous_count == count_ambig(seqs, g, i)
}

/// The numeric shape the weighted distance needs of a cell.
pub open spec fn freq_wf(f: Frequencies) -> bool {
    &&& f.count@.len() == 4
    &&& forall|b: int| 0 <= b < 4 ==> f.count@[b] <= MAX_SEQS
    &&& f.normal_count <= MAX_SEQS
    &&& f.ambiguous_count <= MAX_SEQS
}

impl Frequencies {
    /// A cell with nothing tallied yet.
    pub fn new() -> (f: Frequencies)
        ensures
            f.count@.len() == 4,
            forall|b: int| 0 <= b < 4 ==> f.count@[b] == 0,
            f.normal_count == 0,
            f.ambiguous_count == 0,
    {
        let mut count: Vec<u64> = Vec::new();
        count.push(0);
        count.push(0);
        count.push(0);
        count.push(0);
        Frequencies { count, normal_count: 0, ambiguous_count: 0 }
    }
}

/// The per-group, per-column tallies of a whole alignment, with the
/// ambiguity threshold the weighted distance compares percentages to,
/// held as the exact rational threshold_num / threshold_den.
pub struct AmbiguityInfo {
    pub groups: Vec<Vec<Frequencies>>,
    pub threshold_num: u64,
    pub threshold_den: u64,
}

/// The whole table agrees with the sequences.
pub open spec fn info_matches(
    info: AmbiguityInfo,
    seqs: Seq<Sequence>,
    n_groups: int,
    len: int,
) -> bool {
    &&& info.groups@.len() == n_groups
    &&& forall|g: int| 0 <= g < n_groups ==> #[trigger] info.groups@[g]@.len() == len
    &&& forall|g: int, i: int|
        0 <= g < n_groups && 0 <= i < len ==> cell_matches(
            #[trigger] info.groups@[g]@[i],
            seqs,
            g,
            i,
        )
}

/// The numeric shape the weighted distance needs of a whole table.
pub open spec fn info_wf(info: AmbiguityInfo) -> bool {
    &&& info.threshold_den >= 1
    &&& forall|g: int, i: int|
        0 <= g < info.groups@.len() && 0 <= i < info.groups@[g]@.len() ==> freq_wf(
            #[trigger] info.groups@[g]@[i],
        )
}

fn tally_cell(cell: &mut Frequencies, b: Base)
    requires
        old(cell).count@.len() == 4,
        forall|x: int| 0 <= x < 4 ==> old(cell).count@[x] < MAX_SEQS,
        old(cell).normal_count < MAX_SEQS,
        old(cell).ambiguous_count < MAX_SEQS,
    ensures
        final(cell).count@.len() == 4,
        is_canonical(b) ==> {
            &&& final(cell).count@ == old(cell).count@.update(
                canon_index(b),
                (old(cell).count@[canon_index(b)] + 1) as u64,
            )
            &&& final(cell).normal_count == old(cell).normal_count + 1
            &&& final(cell).ambiguous_count == old(cell).ambiguous_count
        },
        !is_canonical(b) ==> {
            &&& final(cell).count@ == old(cell).count@
            &&& final(cell).normal_count == old(cell).normal_count
            &&& final(cell).ambiguous_count == old(cell).ambiguous_count + 1
        },
{
    if base_is_canonical(b) {
        let bi = base_canon_index(b);
        let cur = cell.count[bi];
        cell.count[bi] = cur + 1;
        cell.normal_count = cell.normal_count + 1;
    } else {
        cell.ambiguous_count = cell.ambiguous_count + 1;
    }
}

/// Builds the ambiguity model: tallies every sequence of the alignment
/// (duplicates included) into its group's column cells, and records the
/// exact threshold. Degenerate groups keep all-zero tallies, which
/// downstream reads as no evidence.
pub fn compute_frequencies(
    sequences: &Vec<Sequence>,
    n_groups: usize,
    threshold_num: u64,
    threshold_den: u64,
) -> (info: AmbiguityInfo)
    requires
        sequences@.len() >= 1,
        sequences@.len() <= MAX_SEQS,
        forall|k: int| 0 <= k < sequences@.len() ==> (#[trigger] sequences@[k]).group < n_groups,
        forall|k: int|
            0 <= k < sequences@.len() ==> (#[trigger] sequences@[k]).seq@.len()
                == sequences@[0].seq@.len(),
        threshold_den >= 1,
        threshold_num <= threshold_den,
    ensures
        info_matches(info, sequences@, n_groups as int, sequences@[0].seq@.len() as int),
        info_wf(info),
        info.threshold_num == threshold_num,
        info.threshold_den == threshold_den,
{
    let len = sequences[0].seq.len();
    let ghost seqs = sequences@;
    let mut groups: Vec<Vec<Frequencies>> = Vec::new();
    for g in 0..n_groups
        invariant
            groups@.len() == g,
            forall|gg: int| 0 <= gg < g ==> #[trigger] groups@[gg]@.len() == len,
            forall|gg: int, i: int|
                0 <= gg < g && 0 <= i < len ==> cell_matches(
                    #[trigger] groups@[gg]@[i],
                    seqs.take(0),
                    gg,
                    i,
                ),
    {
        let mut row: Vec<Frequencies> = Vec::new();
        for i in 0..len
            invariant
                row@.len() == i,
                forall|j: int| 0 <= j < i ==> cell_matches(#[trigger] row@[j], seqs.take(0), g as int, j),
        {
            let f = Frequencies::new();
            proof {
                assert(seqs.take(0) =~= Seq::<Sequence>::empty());
            }
            row.push(f);
        }
        groups.push(row);
    }
    let n = sequences.len();
    for k in 0..n
        invariant
            n == seqs.len(),
            seqs == sequences@,
            n <= MAX_SEQS,
            groups@.len() == n_groups,
            len == seqs[0].seq@.len(),
            forall|kk: int| 0 <= kk < n ==> (#[trigger] seqs[kk]).group < n_groups,
            forall|kk: int| 0 <= kk < n ==> (#[trigger] seqs[kk]).seq@.len() == len,
            forall|gg: int| 0 <= gg < n_groups ==> #[trigger] groups@[gg]@.len() == len,
            forall|gg: int, i: int|
                0 <= gg < n_groups && 0 <= i < len ==> cell_matches(
                    #[trigger] groups@[gg]@[i],
                    seqs.take(k as int),
                    gg,
                    i,
                ),
    {
        let g = sequences[k].group;
        for i in 0..len
            invariant
                0 <= k < n,
                n == seqs.len(),
                seqs == sequences@,
                n <= MAX_SEQS,
                groups@.len() == n_groups,
                len == seqs[0].seq@.len(),
                g == seqs[k as int].group,
                g < n_groups,
                forall|kk: int| 0 <= kk < n ==> (#[trigger] seqs[kk]).group < n_groups,
                forall|kk: int| 0 <= kk < n ==> (#[trigger] seqs[kk]).seq@.len() == len,
                forall|gg: int| 0 <= gg < n_groups ==> #[trigger] groups@[gg]@.len() == len,
                forall|gg: int, j: int|
                    0 <= gg < n_groups && 0 <= j < len && (gg != g || j >= i) ==> cell_matches(
                        #[trigger] groups@[gg]@[j],
                        seqs.take(k as int),
                        gg,
                        j,
                    ),
                forall|j: int|
                    0 <= j < i ==> cell_matches(
                        #[trigger] groups@[g as int]@[j],
                        seqs.take(k as int + 1),
                        g as int,
                        j,
                    ),
        {
            let b = sequences[k].seq[i];
            proof {
                lemma_counts_bounded(seqs.take(k as int), g as int, i as int, 0);
                lemma_counts_bounded(seqs.take(k as int), g as int, i as int, 1);
                lemma_counts_bounded(seqs.take(k as int), g as int, i as int, 2);
                lemma_counts_bounded(seqs.take(k as int), g as int, i as int, 3);
            }
            tally_cell(&mut groups[g][i], b);
            proof {
                lemma_counts_step(seqs, k as int, g as int, i as int, 0);
                lemma_counts_step(seqs, k as int, g as int, i as int, 1);
                lemma_counts_step(seqs, k as int, g as int, i as int, 2);
                lemma_counts_step(seqs, k as int, g as int, i as int, 3);
            }
        }
        proof {
            assert forall|gg: int, j: int|
                0 <= gg < n_groups && 0 <= j < len implies cell_matches(
                #[trigger] groups@[gg]@[j],
                seqs.take(k as int + 1),
                gg,
                j,
            ) by {
                if gg != g as int {
                    lemma_counts_step(seqs, k as int, gg, j, 0);
                    lemma_counts_step(seqs, k as int, gg, j, 1);
                    lemma_counts_step(seqs, k as int, gg, j, 2);
                    lemma_counts_step(seqs, k as int, gg, j, 3);
                }
            }
        }
    }
    proof {
        assert(seqs.take(n as int) =~= seqs);
        assert forall|g: int, i: int|
            0 <= g < n_groups && 0 <= i < len implies freq_wf(#[trigger] groups@[g]@[i]) by {
            lemma_counts_bounded(seqs, g, i, 0);
            lemma_counts_bounded(seqs, g, i, 1);
            lemma_counts_bounded(seqs, g, i, 2);
            lemma_counts_bounded(seqs, g, i, 3);
        }
    }
    AmbiguityInfo { groups, threshold_num, threshold_den }
}

} // verus!
