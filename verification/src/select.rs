//! Choosing the first least element of a sequence.
//!
//! Both the spot selection of the acquisition loop and the two stages of the
//! grid search pick a minimum and break ties in favour of the element met
//! first. This module states that rule once.

use vstd::prelude::*;

verus! {

/// Whether `i` is the position of the first least element of `s`.
pub open spec fn is_first_least(s: Seq<int>, i: int) -> bool {
    &&& 0 <= i < s.len()
    &&& forall|j: int| 0 <= j < s.len() ==> s[i] <= #[trigger] s[j]
    &&& forall|j: int| 0 <= j < i ==> s[i] < #[trigger] s[j]
}

/// The position of the first least element of `s`; 0 for the empty sequence.
pub open spec fn first_least(s: Seq<int>) -> int
    decreases s.len(),
{
    if s.len() <= 1 {
        0
    } else {
        let rest = first_least(s.drop_last());
        if s.last() < s[rest] {
            s.len() - 1
        } else {
            rest
        }
    }
}

/// `first_least` names the first least element of a non-empty sequence.
pub proof fn lemma_first_least(s: Seq<int>)
    requires
        s.len() > 0,
    ensures
        is_first_least(s, first_least(s)),
    decreases s.len(),
{
    if s.len() > 1 {
        let front = s.drop_last();
        lemma_first_least(front);
        let rest = first_least(front);
        assert(forall|j: int| 0 <= j < front.len() ==> front[j] == s[j]);
        assert(forall|j: int| 0 <= j < front.len() ==> front[rest] <= #[trigger] front[j]);
        assert(forall|j: int| 0 <= j < rest ==> front[rest] < #[trigger] front[j]);
    }
}

/// No sequence has two first least elements.
pub proof fn lemma_first_least_unique(s: Seq<int>, i: int, j: int)
    requires
        is_first_least(s, i),
        is_first_least(s, j),
    ensures
        i == j,
{
    if i < j {
        assert(s[j] < s[i]);
        assert(s[i] <= s[j]);
    } else if j < i {
        assert(s[i] < s[j]);
        assert(s[j] <= s[i]);
    }
}

/// The scores of `v` as mathematical integers.
pub open spec fn scores_of(v: Seq<i64>) -> Seq<int> {
    v.map_values(|x: i64| x as int)
}

/// The position of the first least score, or `None` where there is no score.
pub fn argmin(scores: &[i64]) -> (best: Option<usize>)
    ensures
        best is None <==> scores@.len() == 0,
        best is Some ==> best->Some_0 == first_least(scores_of(scores@)),
        best is Some ==> is_first_least(scores_of(scores@), best->Some_0 as int),
{
    if scores.len() == 0 {
        return None;
    }
    let mut best: usize = 0;
    let mut i: usize = 1;
    while i < scores.len()
        invariant
            1 <= i <= scores@.len(),
            best < i,
            is_first_least(scores_of(scores@).take(i as int), best as int),
        decreases scores@.len() - i,
    {
        let ghost before = scores_of(scores@).take(i as int);
        let ghost after = scores_of(scores@).take(i + 1);
        let ghost previous = best;
        if scores[i] < scores[best] {
            best = i;
        }
        proof {
            assert(forall|j: int| 0 <= j < i ==> before[j] == after[j]);
            assert(forall|j: int| 0 <= j < i ==> before[previous as int] <= #[trigger] before[j]);
            assert(forall|j: int|
                0 <= j < previous ==> before[previous as int] < #[trigger] before[j]);
        }
        i = i + 1;
    }
    proof {
        let all = scores_of(scores@);
        assert(all.take(i as int) =~= all);
        lemma_first_least(all);
        lemma_first_least_unique(all, best as int, first_least(all));
    }
    Some(best)
}

} // verus!
