//! Ranking of candidates by score: higher scores first, equal scores in
//! input order.

use vstd::prelude::*;

verus! {

/// Candidate `a` comes before candidate `b`: it has the higher score, or the
/// same score and the earlier place in the input.
pub open spec fn outranks(scores: Seq<u64>, a: int, b: int) -> bool {
    scores[a] > scores[b] || (scores[a] == scores[b] && a < b)
}

/// `order` lists each of the first `count` candidates exactly once, every
/// listed candidate before all those that it outranks.
pub open spec fn ranks(order: Seq<usize>, scores: Seq<u64>, count: int) -> bool {
    &&& order.len() == count
    &&& forall|k: int| 0 <= k < order.len() ==> (#[trigger] order[k]) < count
    &&& forall|c: usize| c < count ==> #[trigger] order.contains(c)
    &&& forall|i: int, j: int|
        #![trigger order[i], order[j]]
        0 <= i < j < order.len() ==> outranks(scores, order[i] as int, order[j] as int)
}

/// `order` is a ranking of all the candidates that `scores` holds.
pub open spec fn is_ranking(order: Seq<usize>, scores: Seq<u64>) -> bool {
    ranks(order, scores, scores.len() as int)
}

/// The ranking of the candidates: by `lemma_ranking_unique` there is at most
/// one, and by `lemma_ranking_exists` there is one.
pub open spec fn ranking(scores: Seq<u64>) -> Seq<usize> {
    choose|order: Seq<usize>| is_ranking(order, scores)
}

/// The place at which candidate `c` enters `order`: behind the leading
/// candidates whose score is at least its own.
spec fn slot(order: Seq<usize>, scores: Seq<u64>, c: int) -> int
    decreases order.len(),
{
    if order.len() == 0 || scores[order[0] as int] < scores[c] {
        0
    } else {
        1 + slot(order.subrange(1, order.len() as int), scores, c)
    }
}

proof fn lemma_slot(order: Seq<usize>, scores: Seq<u64>, c: int)
    ensures
        0 <= slot(order, scores, c) <= order.len(),
        forall|k: int|
            0 <= k < slot(order, scores, c) ==> scores[(#[trigger] order[k]) as int] >= scores[c],
        slot(order, scores, c) < order.len() ==> scores[order[slot(order, scores, c)] as int]
            < scores[c],
    decreases order.len(),
{
    if order.len() == 0 || scores[order[0] as int] < scores[c] {
    } else {
        let rest = order.subrange(1, order.len() as int);
        lemma_slot(rest, scores, c);
        let p = slot(rest, scores, c);
        assert forall|k: int| 0 <= k < p + 1 implies scores[(#[trigger] order[k]) as int]
            >= scores[c] by {
            if k > 0 {
                assert(rest[k - 1] == order[k]);
            }
        }
        if p < rest.len() {
            assert(rest[p] == order[p + 1]);
        }
    }
}

/// Entering candidate `count` at place `p` of a ranking of the first `count`
/// candidates gives a ranking of the first `count + 1`, where the candidates
/// before `p` score at least as much and the one at `p` scores less.
pub proof fn lemma_insert_ranks(order: Seq<usize>, scores: Seq<u64>, count: usize, p: int)
    requires
        ranks(order, scores, count as int),
        count < usize::MAX,
        0 <= p <= order.len(),
        forall|k: int| 0 <= k < p ==> scores[(#[trigger] order[k]) as int] >= scores[count as int],
        p < order.len() ==> scores[order[p] as int] < scores[count as int],
    ensures
        ranks(order.insert(p, count), scores, count + 1),
{
    let next = order.insert(p, count);
    assert(next.len() == count + 1);
    assert forall|k: int| 0 <= k < next.len() implies (#[trigger] next[k]) < count + 1 by {
        if k < p {
            assert(next[k] == order[k]);
        } else if k > p {
            assert(next[k] == order[k - 1]);
        }
    }
    assert forall|c: usize| c < count + 1 implies #[trigger] next.contains(c) by {
        if c == count {
            assert(next[p] == c);
        } else {
            assert(order.contains(c));
            let at = choose|at: int| 0 <= at < order.len() && order[at] == c;
            if at < p {
                assert(next[at] == c);
            } else {
                assert(next[at + 1] == c);
            }
        }
    }
    assert forall|i: int, j: int|
        #![trigger next[i], next[j]]
        0 <= i < j < next.len() implies outranks(scores, next[i] as int, next[j] as int) by {
        let from_i = if i < p {
            i
        } else {
            i - 1
        };
        let from_j = if j < p {
            j
        } else {
            j - 1
        };
        if i != p {
            assert(next[i] == order[from_i]);
        }
        if j != p {
            assert(next[j] == order[from_j]);
        }
        if j == p {
            assert(scores[order[i] as int] >= scores[count as int]);
            assert(order[i] < count);
        } else if i == p {
            assert(p < order.len());
            if from_j > p {
                assert(outranks(scores, order[p] as int, order[from_j] as int));
            }
        } else {
            assert(outranks(scores, order[from_i] as int, order[from_j] as int));
        }
    }
}

proof fn lemma_ranks_exist(scores: Seq<u64>, count: usize) -> (order: Seq<usize>)
    ensures
        ranks(order, scores, count as int),
    decreases count,
{
    if count == 0 {
        let order = Seq::<usize>::empty();
        assert(ranks(order, scores, 0));
        order
    } else {
        let before = lemma_ranks_exist(scores, (count - 1) as usize);
        let p = slot(before, scores, count - 1);
        lemma_slot(before, scores, count - 1);
        lemma_insert_ranks(before, scores, (count - 1) as usize, p);
        before.insert(p, (count - 1) as usize)
    }
}

/// Two orders that hold the same candidates, each with every candidate before
/// all those that it outranks, are the same order.
proof fn lemma_same_members_same_order(a: Seq<usize>, b: Seq<usize>, scores: Seq<u64>)
    requires
        forall|i: int, j: int|
            #![trigger a[i], a[j]]
            0 <= i < j < a.len() ==> outranks(scores, a[i] as int, a[j] as int),
        forall|i: int, j: int|
            #![trigger b[i], b[j]]
            0 <= i < j < b.len() ==> outranks(scores, b[i] as int, b[j] as int),
        forall|c: usize| a.contains(c) <==> b.contains(c),
    ensures
        a == b,
    decreases a.len(),
{
    if a.len() == 0 {
        if b.len() > 0 {
            assert(b.contains(b[0]));
            assert(a.contains(b[0]));
        }
        assert(a =~= b);
    } else {
        assert(a.contains(a[0]));
        assert(b.contains(a[0]));
        let j = choose|j: int| 0 <= j < b.len() && b[j] == a[0];
        assert(b.contains(b[0]));
        assert(a.contains(b[0]));
        let i = choose|i: int| 0 <= i < a.len() && a[i] == b[0];
        if i > 0 && j > 0 {
            assert(outranks(scores, a[0] as int, a[i] as int));
            assert(outranks(scores, b[0] as int, b[j] as int));
        }
        assert(a[0] == b[0]);
        let rest_a = a.subrange(1, a.len() as int);
        let rest_b = b.subrange(1, b.len() as int);
        assert forall|c: usize| rest_a.contains(c) <==> rest_b.contains(c) by {
            if rest_a.contains(c) {
                let k = choose|k: int| 0 <= k < rest_a.len() && rest_a[k] == c;
                assert(a[k + 1] == c);
                assert(outranks(scores, a[0] as int, a[k + 1] as int));
                assert(a.contains(c));
                assert(b.contains(c));
                let m = choose|m: int| 0 <= m < b.len() && b[m] == c;
                assert(m > 0);
                assert(rest_b[m - 1] == c);
            }
            if rest_b.contains(c) {
                let k = choose|k: int| 0 <= k < rest_b.len() && rest_b[k] == c;
                assert(b[k + 1] == c);
                assert(outranks(scores, b[0] as int, b[k + 1] as int));
                assert(b.contains(c));
                assert(a.contains(c));
                let m = choose|m: int| 0 <= m < a.len() && a[m] == c;
                assert(m > 0);
                assert(rest_a[m - 1] == c);
            }
        }
        assert forall|i: int, j: int|
            #![trigger rest_a[i], rest_a[j]]
            0 <= i < j < rest_a.len() implies outranks(
            scores,
            rest_a[i] as int,
            rest_a[j] as int,
        ) by {
            assert(outranks(scores, a[i + 1] as int, a[j + 1] as int));
        }
        assert forall|i: int, j: int|
            #![trigger rest_b[i], rest_b[j]]
            0 <= i < j < rest_b.len() implies outranks(
            scores,
            rest_b[i] as int,
            rest_b[j] as int,
        ) by {
            assert(outranks(scores, b[i + 1] as int, b[j + 1] as int));
        }
        lemma_same_members_same_order(rest_a, rest_b, scores);
        assert(a =~= seq![a[0]] + rest_a);
        assert(b =~= seq![b[0]] + rest_b);
    }
}

/// The scores fix the ranking: any two rankings of the same scores are equal.
pub proof fn lemma_ranking_unique(a: Seq<usize>, b: Seq<usize>, scores: Seq<u64>)
    requires
        is_ranking(a, scores),
        is_ranking(b, scores),
    ensures
        a == b,
{
    assert forall|c: usize| a.contains(c) <==> b.contains(c) by {
        if a.contains(c) {
            let k = choose|k: int| 0 <= k < a.len() && a[k] == c;
            assert(a[k] < scores.len());
        }
        if b.contains(c) {
            let k = choose|k: int| 0 <= k < b.len() && b[k] == c;
            assert(b[k] < scores.len());
        }
    }
    lemma_same_members_same_order(a, b, scores);
}

/// Every list of scores that a machine can index has a ranking, and
/// `ranking` names it.
pub proof fn lemma_ranking_exists(scores: Seq<u64>)
    requires
        scores.len() <= usize::MAX,
    ensures
        is_ranking(ranking(scores), scores),
{
    let order = lemma_ranks_exist(scores, scores.len() as usize);
    assert(is_ranking(order, scores));
}

/// In a ranking the scores never rise from one place to the next.
pub proof fn lemma_ranking_descends(order: Seq<usize>, scores: Seq<u64>)
    requires
        is_ranking(order, scores),
    ensures
        forall|i: int, j: int|
            #![trigger order[i], order[j]]
            0 <= i <= j < order.len() ==> scores[order[i] as int] >= scores[order[j] as int],
{
    assert forall|i: int, j: int|
        #![trigger order[i], order[j]]
        0 <= i <= j < order.len() implies scores[order[i] as int] >= scores[order[j] as int] by {
        if i < j {
            assert(outranks(scores, order[i] as int, order[j] as int));
        }
    }
}

/// Ranks the candidates by score, highest first; candidates with equal
/// scores keep their input order.
pub fn rank_by_score(scores: &[u64]) -> (order: Vec<usize>)
    ensures
        is_ranking(order@, scores@),
        order@ == ranking(scores@),
{
    let mut order: Vec<usize> = Vec::new();
    let mut c: usize = 0;
    while c < scores.len()
        invariant
            c <= scores@.len(),
            ranks(order@, scores@, c as int),
        decreases scores@.len() - c,
    {
        let mut p: usize = 0;
        while p < order.len() && scores[order[p]] >= scores[c]
            invariant
                c < scores@.len(),
                p <= order@.len(),
                ranks(order@, scores@, c as int),
                forall|k: int| 0 <= k < p ==> scores@[(#[trigger] order@[k]) as int] >= scores@[c as int],
            decreases order@.len() - p,
        {
            p = p + 1;
        }
        proof {
            lemma_insert_ranks(order@, scores@, c, p as int);
        }
        order.insert(p, c);
        c = c + 1;
    }
    proof {
        assert(is_ranking(order@, scores@));
        lemma_ranking_unique(order@, ranking(scores@), scores@);
    }
    order
}

} // verus!
