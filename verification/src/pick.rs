//! Picking the best of a row of scores.

use vstd::prelude::*;

verus! {

/// The index of the first greatest of `scores`; 0 where there is none.
pub open spec fn first_best(scores: Seq<int>) -> int
    decreases scores.len(),
{
    if scores.len() <= 1 {
        0
    } else {
        let earlier = first_best(scores.drop_last());
        if scores.last() > scores[earlier] {
            scores.len() - 1
        } else {
            earlier
        }
    }
}

/// The index of the last greatest of `scores`; 0 where there is none.
pub open spec fn last_best(scores: Seq<int>) -> int
    decreases scores.len(),
{
    if scores.len() <= 1 {
        0
    } else {
        let earlier = last_best(scores.drop_last());
        if scores[earlier] > scores.last() {
            earlier
        } else {
            scores.len() - 1
        }
    }
}

/// `first_best` points at a greatest score, and every score before it is smaller.
pub proof fn lemma_first_best(scores: Seq<int>)
    requires
        scores.len() > 0,
    ensures
        0 <= first_best(scores) < scores.len(),
        forall|j: int|
            0 <= j < scores.len() ==> #[trigger] scores[j] <= scores[first_best(scores)],
        forall|j: int|
            0 <= j < first_best(scores) ==> #[trigger] scores[j] < scores[first_best(scores)],
    decreases scores.len(),
{
    if scores.len() > 1 {
        let shorter = scores.drop_last();
        lemma_first_best(shorter);
        assert forall|j: int| 0 <= j < shorter.len() implies #[trigger] scores[j] == shorter[j] by {}
    }
}

/// `last_best` points at a greatest score, and every score after it is smaller.
pub proof fn lemma_last_best(scores: Seq<int>)
    requires
        scores.len() > 0,
    ensures
        0 <= last_best(scores) < scores.len(),
        forall|j: int|
            0 <= j < scores.len() ==> #[trigger] scores[j] <= scores[last_best(scores)],
        forall|j: int|
            last_best(scores) < j < scores.len() ==> #[trigger] scores[j] < scores[last_best(
                scores,
            )],
    decreases scores.len(),
{
    if scores.len() > 1 {
        let shorter = scores.drop_last();
        lemma_last_best(shorter);
        assert forall|j: int| 0 <= j < shorter.len() implies #[trigger] scores[j] == shorter[j] by {}
    }
}

/// The scores as integers.
pub open spec fn as_ints(scores: Seq<i32>) -> Seq<int> {
    Seq::new(scores.len(), |i: int| scores[i] as int)
}

/// The index of the first greatest score.
pub fn pick_first_best(scores: &Vec<i32>) -> (best: usize)
    requires
        scores@.len() > 0,
    ensures
        best == first_best(as_ints(scores@)),
        best < scores@.len(),
{
    let mut best: usize = 0;
    let mut i: usize = 1;
    proof {
        assert(as_ints(scores@.take(1)).len() == 1);
    }
    while i < scores.len()
        invariant
            1 <= i <= scores@.len(),
            best < i,
            best == first_best(as_ints(scores@.take(i as int))),
        decreases scores@.len() - i,
    {
        proof {
            let longer = as_ints(scores@.take(i + 1));
            assert(longer.drop_last() =~= as_ints(scores@.take(i as int)));
        }
        if scores[i] > scores[best] {
            best = i;
        }
        i += 1;
    }
    proof {
        assert(scores@.take(scores@.len() as int) =~= scores@);
    }
    best
}

/// The index of the last greatest score.
pub fn pick_last_best(scores: &Vec<i32>) -> (best: usize)
    requires
        scores@.len() > 0,
    ensures
        best == last_best(as_ints(scores@)),
        best < scores@.len(),
{
    let mut best: usize = 0;
    let mut i: usize = 1;
    proof {
        assert(as_ints(scores@.take(1)).len() == 1);
    }
    while i < scores.len()
        invariant
            1 <= i <= scores@.len(),
            best < i,
            best == last_best(as_ints(scores@.take(i as int))),
        decreases scores@.len() - i,
    {
        proof {
            let longer = as_ints(scores@.take(i + 1));
            assert(longer.drop_last() =~= as_ints(scores@.take(i as int)));
        }
        if !(scores[best] > scores[i]) {
            best = i;
        }
        i += 1;
    }
    proof {
        assert(scores@.take(scores@.len() as int) =~= scores@);
    }
    best
}

} // verus!
