use vstd::prelude::*;

use crate::base::Base;

verus! {

/// One aligned DNA sequence: its position in input order, the species
/// group it was assigned to, its display name, and its calls. All
/// sequences of one alignment must have equal call lists; callers of the
/// distance functions state that as a precondition.
pub struct Sequence {
    pub index: usize,
    pub group: usize,
    pub name: String,
    pub seq: Vec<Base>,
}

impl Clone for Sequence {
    fn clone(&self) -> (r: Self)
        ensures
            r.index == self.index,
            r.group == self.group,
            r.name@ == self.name@,
            r.seq@ == self.seq@,
    {
        let mut calls: Vec<Base> = Vec::new();
        for i in 0..self.seq.len()
            invariant
                calls@ =~= self.seq@.take(i as int),
        {
            calls.push(self.seq[i]);
        }
        proof {
            assert(calls@ =~= self.seq@);
        }
        Sequence { index: self.index, group: self.group, name: self.name.clone(), seq: calls }
    }
}

/// Identity for deduplication: the species group and the call list;
/// name and input position do not take part.
pub open spec fn same_key(a: Sequence, b: Sequence) -> bool {
    a.group == b.group && a.seq@ == b.seq@
}

pub fn sequences_equal(a: &Sequence, b: &Sequence) -> (r: bool)
    ensures
        r == same_key(*a, *b),
{
    if a.group != b.group {
        return false;
    }
    if a.seq.len() != b.seq.len() {
        proof {
            assert(a.seq@ != b.seq@);
        }
        return false;
    }
    for i in 0..a.seq.len()
        invariant
            a.seq@.len() == b.seq@.len(),
            a.group == b.group,
            forall|j: int| 0 <= j < i ==> a.seq@[j] == b.seq@[j],
    {
        if a.seq[i] != b.seq[i] {
            return false;
        }
    }
    proof {
        assert(a.seq@ =~= b.seq@);
    }
    true
}

} // verus!
