use vstd::prelude::*;

use crate::seqs::{same_key, sequences_equal, Sequence};

verus! {

/// A contiguous run of deduplicated sequences belonging to one species
/// group: where the run starts and how many sequences it holds. A group
/// with no retained sequence keeps count zero and a sentinel offset that
/// must never be dereferenced.
#[derive(Clone, Copy, Debug)]
pub struct Offset {
    pub offset: usize,
    pub count: usize,
}

/// No earlier sequence has the same (group, calls) key: position j holds
/// the first occurrence of its key.
pub open spec fn is_first(seqs: Seq<Sequence>, j: int) -> bool {
    forall|k: int| 0 <= k < j ==> !same_key(#[trigger] seqs[k], seqs[j])
}

/// The retained sequences of group g among the first n, in input order:
/// first occurrences only.
pub open spec fn kept_of_group(seqs: Seq<Sequence>, g: int, n: int) -> Seq<Sequence>
    decreases n,
{
    if n <= 0 {
        Seq::empty()
    } else {
        let pre = kept_of_group(seqs, g, n - 1);
        if seqs[n - 1].group == g && is_first(seqs, n - 1) {
            pre.push(seqs[n - 1])
        } else {
            pre
        }
    }
}

/// Whether any of the first n sequences of group g repeats an earlier key.
pub open spec fn has_dup(seqs: Seq<Sequence>, g: int, n: int) -> bool
    decreases n,
{
    if n <= 0 {
        false
    } else {
        has_dup(seqs, g, n - 1) || (seqs[n - 1].group == g && !is_first(seqs, n - 1))
    }
}

/// How many sequences are retained in all groups before group g.
pub open spec fn kept_before(seqs: Seq<Sequence>, g: int) -> int
    decreases g,
{
    if g <= 0 {
        0
    } else {
        kept_before(seqs, g - 1) + kept_of_group(seqs, g - 1, seqs.len() as int).len()
    }
}

pub proof fn lemma_kept_before_nonneg(seqs: Seq<Sequence>, g: int)
    ensures
        kept_before(seqs, g) >= 0,
    decreases g,
{
    if g > 0 {
        lemma_kept_before_nonneg(seqs, g - 1);
    }
}

/// The runs of earlier groups end before a later group's run starts.
pub proof fn lemma_kept_before_step_le(seqs: Seq<Sequence>, g1: int, g2: int)
    requires
        0 <= g1 < g2,
    ensures
        kept_before(seqs, g1) + kept_of_group(seqs, g1, seqs.len() as int).len() <= kept_before(
            seqs,
            g2,
        ),
    decreases g2,
{
    if g2 > g1 + 1 {
        lemma_kept_before_step_le(seqs, g1, g2 - 1);
    }
}

/// Two sequences that agree in every observable part.
pub open spec fn seq_like(a: Sequence, b: Sequence) -> bool {
    a.index == b.index && a.group == b.group && a.name@ == b.name@ && a.seq@ == b.seq@
}

/// Every retained sequence of group g carries group g and is one of the
/// input sequences.
pub proof fn lemma_kept_elems(seqs: Seq<Sequence>, g: int, n: int)
    requires
        n <= seqs.len(),
    ensures
        forall|j: int|
            0 <= j < kept_of_group(seqs, g, n).len() ==> (#[trigger] kept_of_group(seqs, g, n)[j]).group
                == g,
        forall|j: int|
            #![trigger kept_of_group(seqs, g, n)[j]]
            0 <= j < kept_of_group(seqs, g, n).len() ==> exists|k: int|
                0 <= k < n && kept_of_group(seqs, g, n)[j] == #[trigger] seqs[k],
    decreases n,
{
    if n > 0 {
        lemma_kept_elems(seqs, g, n - 1);
        if seqs[n - 1].group == g && is_first(seqs, n - 1) {
            assert forall|j: int|
                #![trigger kept_of_group(seqs, g, n)[j]]
                0 <= j < kept_of_group(seqs, g, n).len() implies exists|k: int|
                0 <= k < n && kept_of_group(seqs, g, n)[j] == #[trigger] seqs[k] by {
                if j < kept_of_group(seqs, g, n - 1).len() {
                    let k0 = choose|k: int|
                        0 <= k < n - 1 && kept_of_group(seqs, g, n - 1)[j] == #[trigger] seqs[k];
                    assert(kept_of_group(seqs, g, n)[j] == seqs[k0]);
                } else {
                    assert(kept_of_group(seqs, g, n)[j] == seqs[n - 1]);
                }
            }
        }
    }
}

/// Collapses exact duplicates: the first occurrence of each
/// (group, calls) key is retained; every later occurrence is dropped and
/// marks its group as holding duplicates. Retained sequences come out
/// bucketed by group, each group's run in input order, with the runs in
/// group order, together with each group's run boundaries.
pub fn remove_duplicates(sequences: &Vec<Sequence>, n_groups: usize) -> (r: (
    Vec<Sequence>,
    Vec<Offset>,
    Vec<bool>,
))
    requires
        forall|k: int| 0 <= k < sequences@.len() ==> (#[trigger] sequences@[k]).group < n_groups,
    ensures
        r.0@.len() == kept_before(sequences@, n_groups as int),
        r.1@.len() == n_groups,
        r.2@.len() == n_groups,
        forall|g: int|
            0 <= g < n_groups ==> (#[trigger] r.1@[g]).count == kept_of_group(
                sequences@,
                g,
                sequences@.len() as int,
            ).len(),
        forall|g: int|
            0 <= g < n_groups && (#[trigger] r.1@[g]).count > 0 ==> r.1@[g].offset == kept_before(
                sequences@,
                g,
            ),
        forall|g: int|
            0 <= g < n_groups && (#[trigger] r.1@[g]).count == 0 ==> r.1@[g].offset == usize::MAX,
        forall|g: int, j: int|
            0 <= g < n_groups && 0 <= j < r.1@[g].count ==> seq_like(
                #[trigger] r.0@[kept_before(sequences@, g) + j],
                kept_of_group(sequences@, g, sequences@.len() as int)[j],
            ),
        forall|g: int|
            0 <= g < n_groups ==> r.2@[g] == has_dup(sequences@, g, sequences@.len() as int),
{
    let ghost seqs = sequences@;
    let n = sequences.len();
    let mut dup: Vec<bool> = Vec::new();
    let mut buckets: Vec<Vec<Sequence>> = Vec::new();
    for g in 0..n_groups
        invariant
            dup@.len() == g,
            buckets@.len() == g,
            forall|gg: int| 0 <= gg < g ==> #[trigger] dup@[gg] == false,
            forall|gg: int| 0 <= gg < g ==> (#[trigger] buckets@[gg])@.len() == 0,
    {
        dup.push(false);
        buckets.push(Vec::new());
    }
    for k in 0..n
        invariant
            n == seqs.len(),
            seqs == sequences@,
            forall|kk: int| 0 <= kk < n ==> (#[trigger] seqs[kk]).group < n_groups,
            dup@.len() == n_groups,
            buckets@.len() == n_groups,
            forall|g: int| 0 <= g < n_groups ==> #[trigger] dup@[g] == has_dup(seqs, g, k as int),
            forall|g: int|
                0 <= g < n_groups ==> (#[trigger] buckets@[g])@.len() == kept_of_group(
                    seqs,
                    g,
                    k as int,
                ).len(),
            forall|g: int, j: int|
                0 <= g < n_groups && 0 <= j < kept_of_group(seqs, g, k as int).len() ==> seq_like(
                    #[trigger] buckets@[g]@[j],
                    kept_of_group(seqs, g, k as int)[j],
                ),
    {
        let s = &sequences[k];
        let mut fresh = true;
        for j in 0..k
            invariant
                n == seqs.len(),
                seqs == sequences@,
                0 <= k < n,
                *s == seqs[k as int],
                fresh == (forall|jj: int| 0 <= jj < j ==> !same_key(#[trigger] seqs[jj], seqs[k as int])),
        {
            if sequences_equal(&sequences[j], s) {
                fresh = false;
            }
        }
        let g = s.group;
        if fresh {
            let c = s.clone();
            buckets[g].push(c);
        } else {
            dup[g] = true;
        }
    }
    let mut out: Vec<Sequence> = Vec::new();
    let mut offsets: Vec<Offset> = Vec::new();
    for g in 0..n_groups
        invariant
            n == seqs.len(),
            seqs == sequences@,
            buckets@.len() == n_groups,
            forall|gg: int|
                0 <= gg < n_groups ==> (#[trigger] buckets@[gg])@.len() == kept_of_group(
                    seqs,
                    gg,
                    n as int,
                ).len(),
            forall|gg: int, j: int|
                0 <= gg < n_groups && 0 <= j < kept_of_group(seqs, gg, n as int).len()
                    ==> seq_like(
                    #[trigger] buckets@[gg]@[j],
                    kept_of_group(seqs, gg, n as int)[j],
                ),
            offsets@.len() == g,
            out@.len() == kept_before(seqs, g as int),
            forall|gg: int|
                0 <= gg < g ==> (#[trigger] offsets@[gg]).count == kept_of_group(
                    seqs,
                    gg,
                    n as int,
                ).len(),
            forall|gg: int|
                0 <= gg < g && (#[trigger] offsets@[gg]).count > 0 ==> offsets@[gg].offset
                    == kept_before(seqs, gg),
            forall|gg: int|
                0 <= gg < g && (#[trigger] offsets@[gg]).count == 0 ==> offsets@[gg].offset
                    == usize::MAX,
            forall|gg: int, j: int|
                0 <= gg < g && 0 <= j < offsets@[gg].count ==> seq_like(
                    #[trigger] out@[kept_before(seqs, gg) + j],
                    kept_of_group(seqs, gg, n as int)[j],
                ),
    {
        let cnt = buckets[g].len();
        let off: usize = if cnt == 0 {
            usize::MAX
        } else {
            out.len()
        };
        offsets.push(Offset { offset: off, count: cnt });
        let mut j: usize = 0;
        while j < cnt
            invariant
                0 <= j <= cnt,
                g < n_groups,
                n == seqs.len(),
                buckets@.len() == n_groups,
                cnt == kept_of_group(seqs, g as int, n as int).len(),
                forall|gg: int|
                    0 <= gg < n_groups ==> (#[trigger] buckets@[gg])@.len() == kept_of_group(
                        seqs,
                        gg,
                        n as int,
                    ).len(),
                forall|gg: int, jj: int|
                    0 <= gg < n_groups && 0 <= jj < kept_of_group(seqs, gg, n as int).len()
                        ==> seq_like(
                        #[trigger] buckets@[gg]@[jj],
                        kept_of_group(seqs, gg, n as int)[jj],
                    ),
                out@.len() == kept_before(seqs, g as int) + j,
                forall|gg: int, jj: int|
                    0 <= gg < g && 0 <= jj < kept_of_group(seqs, gg, n as int).len() ==> seq_like(
                        #[trigger] out@[kept_before(seqs, gg) + jj],
                        kept_of_group(seqs, gg, n as int)[jj],
                    ),
                forall|jj: int|
                    0 <= jj < j ==> seq_like(
                        #[trigger] out@[kept_before(seqs, g as int) + jj],
                        kept_of_group(seqs, g as int, n as int)[jj],
                    ),
            decreases cnt - j,
        {
            let c = buckets[g][j].clone();
            out.push(c);
            j = j + 1;
            proof {
                lemma_kept_before_nonneg(seqs, g as int);
                assert forall|gg: int, jj: int|
                    0 <= gg < g && 0 <= jj < kept_of_group(seqs, gg, n as int).len() implies seq_like(
                    #[trigger] out@[kept_before(seqs, gg) + jj],
                    kept_of_group(seqs, gg, n as int)[jj],
                ) by {
                    lemma_kept_before_nonneg(seqs, gg);
                    lemma_kept_before_step_le(seqs, gg, g as int);
                }
            }
        }
    }
    (out, offsets, dup)
}

} // verus!
