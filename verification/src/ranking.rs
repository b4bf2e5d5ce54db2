//! The order in which scored candidates are shown: best score first, and among
//! equal scores the candidate that was given first.

use vstd::prelude::*;
use itertools::Itertools;

verus! {

/// Whether candidate `i` is shown before candidate `j`: it has the higher
/// score, or the same score and the earlier position. Both must hold a score.
pub open spec fn outranks(scores: Seq<Option<i64>>, i: int, j: int) -> bool {
    let a = scores[i].unwrap();
    let b = scores[j].unwrap();
    a > b || (a == b && i < j)
}

/// Whether `order` is the ranking of the candidates whose scores are given:
/// it lists the positions that hold a score, each of them once, and every
/// position in it outranks the positions after it.
pub open spec fn is_ranking(scores: Seq<Option<i64>>, order: Seq<usize>) -> bool {
    &&& forall|k: int|
        0 <= k < order.len() ==> (#[trigger] order[k]) < scores.len() && scores[order[k] as int]
            is Some
    &&& forall|i: int|
        0 <= i < scores.len() && (#[trigger] scores[i]) is Some ==> exists|k: int|
            0 <= k < order.len() && #[trigger] order[k] == i
    &&& forall|k: int, l: int|
        0 <= k < l < order.len() ==> outranks(
            scores,
            (#[trigger] order[k]) as int,
            (#[trigger] order[l]) as int,
        )
}

/// Two rankings of the same scores agree on their first `k` places.
proof fn lemma_rankings_agree(scores: Seq<Option<i64>>, a: Seq<usize>, b: Seq<usize>, k: int)
    requires
        is_ranking(scores, a),
        is_ranking(scores, b),
        0 <= k <= a.len(),
        k <= b.len(),
    ensures
        forall|j: int| 0 <= j < k ==> a[j] == b[j],
    decreases k,
{
    if k > 0 {
        let n = k - 1;
        lemma_rankings_agree(scores, a, b, n);
        let x = a[n];
        let y = b[n];
        assert(scores[x as int] is Some);
        assert(scores[y as int] is Some);
        let m = choose|m: int| 0 <= m < b.len() && b[m] == x;
        let p = choose|p: int| 0 <= p < a.len() && a[p] == y;
        if m < n {
            assert(a[m] == b[m]);
            assert(outranks(scores, a[m] as int, a[n] as int));
        } else if p < n {
            assert(a[p] == b[p]);
            assert(outranks(scores, b[p] as int, b[n] as int));
        } else if m > n && p > n {
            assert(outranks(scores, b[n] as int, b[m] as int));
            assert(outranks(scores, a[n] as int, a[p] as int));
        } else if m > n {
            assert(p == n);
            assert(outranks(scores, b[n] as int, b[m] as int));
        }
    }
}

/// The scores fix their ranking: two sequences that both rank the same scores
/// are the same sequence.
pub proof fn lemma_ranking_unique(scores: Seq<Option<i64>>, a: Seq<usize>, b: Seq<usize>)
    requires
        is_ranking(scores, a),
        is_ranking(scores, b),
    ensures
        a == b,
{
    if a.len() <= b.len() {
        lemma_rankings_agree(scores, a, b, a.len() as int);
        if a.len() < b.len() {
            let n = a.len() as int;
            assert(scores[b[n] as int] is Some);
            let m = choose|m: int| 0 <= m < a.len() && a[m] == b[n];
            assert(a[m] == b[m]);
            assert(outranks(scores, b[m] as int, b[n] as int));
        }
    } else {
        lemma_rankings_agree(scores, a, b, b.len() as int);
        let n = b.len() as int;
        assert(scores[a[n] as int] is Some);
        let m = choose|m: int| 0 <= m < b.len() && b[m] == a[n];
        assert(a[m] == b[m]);
        assert(outranks(scores, a[m] as int, a[n] as int));
    }
    assert(a =~= b);
}

/// A ranking names no position twice.
pub proof fn lemma_ranking_no_duplicates(scores: Seq<Option<i64>>, order: Seq<usize>)
    requires
        is_ranking(scores, order),
    ensures
        order.no_duplicates(),
{
    assert forall|k: int, l: int|
        0 <= k < order.len() && 0 <= l < order.len() && k != l implies order[k] != order[l] by {
        if k < l {
            assert(outranks(scores, order[k] as int, order[l] as int));
        } else {
            assert(outranks(scores, order[l] as int, order[k] as int));
        }
    }
}

/// Whether `output` holds the items of `input`, item `from[k]` in place `k`,
/// in ascending order of their first component, with items of equal first
/// component in the order in which `input` has them.
pub open spec fn is_stable_sort_by_key(
    input: Seq<(i64, usize)>,
    output: Seq<(i64, usize)>,
    from: Seq<int>,
) -> bool {
    &&& from.len() == input.len()
    &&& output.len() == input.len()
    &&& forall|k: int|
        0 <= k < from.len() ==> 0 <= #[trigger] from[k] < input.len() && output[k] == input[from[k]]
    &&& forall|i: int| 0 <= i < input.len() ==> #[trigger] from.contains(i)
    &&& forall|k: int, l: int|
        0 <= k < l < from.len() ==> {
            let first = input[#[trigger] from[k]].0;
            let second = input[#[trigger] from[l]].0;
            first < second || (first == second && from[k] < from[l])
        }
}

/// Calls `Itertools::sorted_by_key` with the first component of each pair as
/// the key. That method collects the items and sorts them with the stable
/// `slice::sort_by_key`: the result is a rearrangement of the input in
/// ascending key order that keeps items of equal key in their given order.
#[verifier::external_body]
fn sorted_by_key(pairs: Vec<(i64, usize)>) -> (sorted: Vec<(i64, usize)>)
    ensures
        exists|from: Seq<int>| is_stable_sort_by_key(pairs@, sorted@, from),
{
    pairs.into_iter().sorted_by_key(|pair| pair.0).collect()
}

/// The sort key of a score: keys ascend as scores descend.
pub open spec fn descending_key(score: i64) -> int {
    -1 - score
}

/// Ranks candidates by their scores. The result lists the positions that hold
/// a score, highest score first; positions with equal scores keep their given
/// order. A position without a score is left out.
pub fn rank_order(scores: &Vec<Option<i64>>) -> (order: Vec<usize>)
    ensures
        is_ranking(scores@, order@),
{
    let mut kept: Vec<(i64, usize)> = Vec::new();
    let mut i: usize = 0;
    while i < scores.len()
        invariant
            i <= scores.len(),
            forall|j: int|
                0 <= j < kept.len() ==> (#[trigger] kept[j]).1 < i && scores[kept[j].1 as int]
                    is Some && kept[j].0 == descending_key(scores[kept[j].1 as int].unwrap()),
            forall|j: int, h: int|
                0 <= j < h < kept.len() ==> (#[trigger] kept[j]).1 < (#[trigger] kept[h]).1,
            forall|p: int|
                0 <= p < i && (#[trigger] scores[p]) is Some ==> exists|j: int|
                    0 <= j < kept.len() && (#[trigger] kept[j]).1 == p,
        decreases scores.len() - i,
    {
        if let Some(score) = scores[i] {
            let ghost before = kept@;
            kept.push((-1 - score, i));
            proof {
                assert forall|p: int|
                    0 <= p < i + 1 && (#[trigger] scores[p]) is Some implies exists|j: int|
                    0 <= j < kept.len() && (#[trigger] kept[j]).1 == p by {
                    if p < i {
                        let j = choose|j: int|
                            0 <= j < before.len() && (#[trigger] before[j]).1 == p;
                        assert(kept[j].1 == p);
                    } else {
                        assert(kept[kept.len() - 1].1 == p);
                    }
                }
            }
        }
        i += 1;
    }
    let ghost input = kept@;
    let sorted = sorted_by_key(kept);
    let ghost from = choose|from: Seq<int>| is_stable_sort_by_key(input, sorted@, from);
    let mut order: Vec<usize> = Vec::new();
    let mut k: usize = 0;
    while k < sorted.len()
        invariant
            k <= sorted.len(),
            order.len() == k,
            forall|j: int| 0 <= j < k ==> #[trigger] order[j] == sorted[j].1,
        decreases sorted.len() - k,
    {
        order.push(sorted[k].1);
        k += 1;
    }
    proof {
        assert forall|k: int| 0 <= k < order.len() implies (#[trigger] order[k]) < scores.len()
            && scores[order[k] as int] is Some by {
            assert(sorted[k] == input[from[k]]);
        }
        assert forall|p: int|
            0 <= p < scores.len() && (#[trigger] scores[p]) is Some implies exists|k: int|
            0 <= k < order.len() && #[trigger] order[k] == p by {
            let j = choose|j: int| 0 <= j < input.len() && (#[trigger] input[j]).1 == p;
            assert(from.contains(j));
            let k = choose|k: int| 0 <= k < from.len() && #[trigger] from[k] == j;
            assert(sorted[k] == input[from[k]]);
            assert(order[k] == p);
        }
        assert forall|k: int, l: int| 0 <= k < l < order.len() implies outranks(
            scores@,
            (#[trigger] order[k]) as int,
            (#[trigger] order[l]) as int,
        ) by {
            assert(sorted[k] == input[from[k]]);
            assert(sorted[l] == input[from[l]]);
            let first = input[from[k]];
            let second = input[from[l]];
            if first.0 == second.0 {
                assert(from[k] < from[l]);
                assert(first.1 < second.1);
            }
        }
    }
    order
}

} // verus!
