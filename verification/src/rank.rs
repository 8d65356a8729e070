//! Ordering candidates by their distance from a query.

use crate::candidate::{signature_text, Function, FunctionView};
use crate::distance::{edit_distance, levenshtein_distance};
use crate::query::{Query, QueryView};
use vstd::prelude::*;

verus! {

/// How far a candidate is from a query: the distance between the names, if
/// the query has a name, plus the distance between the signatures, if the
/// query has a signature.
pub open spec fn total_distance(query: QueryView, candidate: FunctionView) -> nat {
    (match query.name {
        Some(name) => edit_distance(candidate.name, name),
        None => 0,
    }) + (match query.normalised_signature {
        Some(signature) => edit_distance(signature_text(candidate), signature),
        None => 0,
    })
}

/// The distance of each candidate from the query, in the candidates' order.
pub open spec fn distances(query: QueryView, candidates: Seq<Function>) -> Seq<nat> {
    Seq::new(candidates.len(), |i: int| total_distance(query, candidates[i]@))
}

/// Whether candidate `i` comes before candidate `j` in the ranking: it is
/// nearer, or as near and earlier in the list.
pub open spec fn precedes(distances: Seq<nat>, i: int, j: int) -> bool {
    distances[i] < distances[j] || (distances[i] == distances[j] && i < j)
}

/// The lesser of two numbers.
pub open spec fn min2(x: nat, y: nat) -> nat {
    if x <= y {
        x
    } else {
        y
    }
}

/// Whether `order` lists the positions of the `limit` best candidates, best
/// first: as many as the limit allows, each a position in the list, each
/// before the next in the ranking, and every candidate left out behind every
/// one listed.
pub open spec fn is_ranking(distances: Seq<nat>, limit: nat, order: Seq<int>) -> bool {
    &&& order.len() == min2(limit, distances.len())
    &&& forall|k: int| 0 <= k < order.len() ==> 0 <= #[trigger] order[k] < distances.len()
    &&& forall|k: int, l: int|
        0 <= k < l < order.len() ==> precedes(distances, #[trigger] order[k], #[trigger] order[l])
    &&& forall|i: int, k: int|
        0 <= i < distances.len() && !order.contains(i) && 0 <= k < order.len()
            ==> #[trigger] precedes(distances, order[k], i)
}

/// One distance list and one limit have one ranking only: equal distances
/// leave the candidates in the order of the list, so nothing is left to
/// choice.
pub proof fn lemma_ranking_unique(distances: Seq<nat>, limit: nat, first: Seq<int>, second: Seq<int>)
    requires
        is_ranking(distances, limit, first),
        is_ranking(distances, limit, second),
    ensures
        first == second,
{
    assert forall|k: int| 0 <= k < first.len() implies first[k] == second[k] by {
        lemma_ranking_agrees(distances, limit, first, second, k);
    }
}

/// Two rankings of one list agree at every place.
proof fn lemma_ranking_agrees(
    distances: Seq<nat>,
    limit: nat,
    first: Seq<int>,
    second: Seq<int>,
    k: int,
)
    requires
        is_ranking(distances, limit, first),
        is_ranking(distances, limit, second),
        0 <= k < first.len(),
    ensures
        first[k] == second[k],
    decreases k,
{
    assert forall|j: int| 0 <= j < k implies first[j] == second[j] by {
        lemma_ranking_agrees(distances, limit, first, second, j);
    }
    let x = first[k];
    let y = second[k];
    if x != y {
        // In `second`, `x` stands behind place `k` or nowhere: `y` precedes it.
        if second.contains(x) {
            let m = choose|m: int| 0 <= m < second.len() && second[m] == x;
            assert(k < m);
        }
        assert(precedes(distances, y, x));
        // In `first`, `y` stands behind place `k` or nowhere: `x` precedes it.
        if first.contains(y) {
            let l = choose|l: int| 0 <= l < first.len() && first[l] == y;
            assert(k < l);
        }
        assert(precedes(distances, x, y));
    }
}

/// The ranking of a distance list under a limit: the positions of the
/// `limit` nearest candidates, nearest first, ties in the order of the list.
pub open spec fn ranking(distances: Seq<nat>, limit: nat) -> Seq<int> {
    choose|order: Seq<int>| is_ranking(distances, limit, order)
}

/// Whatever meets the conditions of a ranking is the ranking.
pub proof fn lemma_ranking_is(distances: Seq<nat>, limit: nat, order: Seq<int>)
    requires
        is_ranking(distances, limit, order),
    ensures
        ranking(distances, limit) == order,
{
    lemma_ranking_unique(distances, limit, ranking(distances, limit), order);
}

/// Where all candidates are at one distance, the ranking is the start of the
/// list as it stands.
pub proof fn lemma_ranking_of_ties(distances: Seq<nat>, limit: nat)
    requires
        forall|i: int, j: int|
            0 <= i < distances.len() && 0 <= j < distances.len() ==> distances[i] == distances[j],
    ensures
        ranking(distances, limit) == Seq::new(min2(limit, distances.len()), |k: int| k),
{
    let order = Seq::new(min2(limit, distances.len()), |k: int| k);
    assert forall|i: int, k: int|
        0 <= i < distances.len() && !order.contains(i) && 0 <= k < order.len() implies #[trigger] precedes(
        distances,
        order[k],
        i,
    ) by {
        if i < order.len() {
            assert(order[i] == i);
        }
    }
    lemma_ranking_is(distances, limit, order);
}

/// A query without name and signature puts every candidate at distance 0, so
/// the candidates come back in the order in which they were given.
pub proof fn lemma_ranking_without_query(query: QueryView, candidates: Seq<Function>, limit: nat)
    requires
        query.name.is_none(),
        query.normalised_signature.is_none(),
    ensures
        ranking(distances(query, candidates), limit) == Seq::new(
            min2(limit, candidates.len()),
            |k: int| k,
        ),
{
    lemma_ranking_of_ties(distances(query, candidates), limit);
}

/// A place in a ranking: a candidate's position in the list that was ranked,
/// and its distance from the query.
#[derive(Debug, Clone, Copy, PartialEq, Eq, Structural)]
pub struct RankedResult {
    pub distance: u128,
    pub index: usize,
}

/// The positions that a list of results names, in order.
pub open spec fn positions(results: Seq<RankedResult>) -> Seq<int> {
    results.map_values(|r: RankedResult| r.index as int)
}

/// The distance of `candidate` from `query`, as a number wide enough for the
/// sum of two distances.
pub fn score(query: &Query, candidate: &Function) -> (total: u128)
    ensures
        total == total_distance(query@, candidate@),
{
    let by_name: usize = match &query.name {
        Some(name) => levenshtein_distance(candidate.name.as_str(), name.as_str()),
        None => 0,
    };
    let by_signature: usize = match &query.normalised_signature {
        Some(signature) => {
            let own = candidate.normalised_signature();
            levenshtein_distance(own.as_str(), signature.as_str())
        },
        None => 0,
    };
    by_name as u128 + by_signature as u128
}

/// How many entries of `flags` are set.
pub open spec fn count_set(flags: Seq<bool>) -> nat
    decreases flags.len(),
{
    if flags.len() == 0 {
        0
    } else {
        count_set(flags.drop_last()) + if flags.last() {
            1nat
        } else {
            0nat
        }
    }
}

proof fn lemma_count_set_after_setting(flags: Seq<bool>, i: int)
    requires
        0 <= i < flags.len(),
        !flags[i],
    ensures
        count_set(flags.update(i, true)) == count_set(flags) + 1,
    decreases flags.len(),
{
    if i == flags.len() - 1 {
        assert(flags.update(i, true).drop_last() == flags.drop_last());
    } else {
        lemma_count_set_after_setting(flags.drop_last(), i);
        assert(flags.update(i, true).drop_last() == flags.drop_last().update(i, true));
    }
}

proof fn lemma_count_set_leaves_one(flags: Seq<bool>)
    requires
        count_set(flags) < flags.len(),
    ensures
        exists|i: int| 0 <= i < flags.len() && !flags[i],
    decreases flags.len(),
{
    if flags.last() {
        lemma_count_set_leaves_one(flags.drop_last());
        let i = choose|i: int| 0 <= i < flags.drop_last().len() && !flags.drop_last()[i];
        assert(!flags[i]);
    } else {
        assert(!flags[flags.len() - 1]);
    }
}

/// The first candidate not yet taken that no other such candidate precedes.
fn next_best(scores: &Vec<u128>, taken: &Vec<bool>, Ghost(distances): Ghost<Seq<nat>>) -> (best: usize)
    requires
        scores@.len() == taken@.len(),
        distances.len() == scores@.len(),
        forall|i: int| 0 <= i < scores@.len() ==> scores@[i] == distances[i],
        exists|i: int| 0 <= i < taken@.len() && !taken@[i],
    ensures
        best < taken@.len(),
        !taken@[best as int],
        forall|i: int|
            0 <= i < taken@.len() && !taken@[i] && i != best ==> #[trigger] precedes(
                distances,
                best as int,
                i,
            ),
{
    let n = scores.len();
    let mut best: usize = 0;
    let mut found = false;
    let mut i: usize = 0;
    while i < n
        invariant
            i <= n,
            n == scores@.len(),
            n == taken@.len(),
            distances.len() == n,
            forall|j: int| 0 <= j < n ==> scores@[j] == distances[j],
            found ==> best < i && !taken@[best as int],
            !found ==> forall|j: int| 0 <= j < i ==> taken@[j],
            found ==> forall|j: int|
                0 <= j < i && !taken@[j] && j != best ==> #[trigger] precedes(
                    distances,
                    best as int,
                    j,
                ),
        decreases n - i,
    {
        if !taken[i] && (!found || scores[i] < scores[best]) {
            proof {
                assert forall|j: int| 0 <= j < i && !taken@[j] implies #[trigger] precedes(
                    distances,
                    i as int,
                    j,
                ) by {
                    if j != best {
                        assert(precedes(distances, best as int, j));
                    }
                }
            }
            best = i;
            found = true;
        }
        i += 1;
    }
    best
}

/// Ranks `candidates` by their distance from `query` and returns the best
/// `limit` of them, nearest first, each with its distance and its position in
/// `candidates`. Candidates at one distance keep the order they came in.
/// With fewer than `limit` candidates all are returned.
pub fn rank_scored(query: &Query, candidates: &Vec<Function>, limit: usize) -> (results: Vec<
    RankedResult,
>)
    ensures
        results@.len() == min2(limit as nat, candidates@.len()),
        positions(results@) == ranking(distances(query@, candidates@), limit as nat),
        is_ranking(distances(query@, candidates@), limit as nat, positions(results@)),
        forall|k: int|
            0 <= k < results@.len() ==> (#[trigger] results@[k]).index == ranking(
                distances(query@, candidates@),
                limit as nat,
            )[k] && results@[k].index < candidates@.len() && results@[k].distance
                == total_distance(query@, candidates@[results@[k].index as int]@),
{
    let n = candidates.len();
    let ghost dist = distances(query@, candidates@);
    let mut scores: Vec<u128> = Vec::new();
    let mut taken: Vec<bool> = Vec::new();
    let mut i: usize = 0;
    while i < n
        invariant
            i <= n,
            n == candidates@.len(),
            dist == distances(query@, candidates@),
            scores@.len() == i,
            taken@.len() == i,
            forall|j: int| 0 <= j < i ==> scores@[j] == dist[j],
            forall|j: int| 0 <= j < i ==> !taken@[j],
            count_set(taken@) == 0,
        decreases n - i,
    {
        scores.push(score(query, &candidates[i]));
        proof {
            assert(taken@.push(false).drop_last() == taken@);
        }
        taken.push(false);
        i += 1;
    }
    let wanted = if limit < n { limit } else { n };
    let mut results: Vec<RankedResult> = Vec::new();
    while results.len() < wanted
        invariant
            wanted == min2(limit as nat, n as nat),
            n == candidates@.len(),
            dist == distances(query@, candidates@),
            dist.len() == n,
            scores@.len() == n,
            taken@.len() == n,
            results@.len() <= wanted,
            forall|j: int| 0 <= j < n ==> scores@[j] == dist[j],
            count_set(taken@) == results@.len(),
            forall|j: int| 0 <= j < n ==> (taken@[j] <==> positions(results@).contains(j)),
            forall|k: int|
                0 <= k < results@.len() ==> (#[trigger] results@[k]).index < n
                    && results@[k].distance == dist[results@[k].index as int],
            forall|k: int, l: int|
                0 <= k < l < results@.len() ==> precedes(
                    dist,
                    #[trigger] positions(results@)[k],
                    #[trigger] positions(results@)[l],
                ),
            forall|j: int, k: int|
                0 <= j < n && !taken@[j] && 0 <= k < results@.len() ==> #[trigger] precedes(
                    dist,
                    positions(results@)[k],
                    j,
                ),
        decreases wanted - results@.len(),
    {
        proof {
            lemma_count_set_leaves_one(taken@);
        }
        let best = next_best(&scores, &taken, Ghost(dist));
        let ghost before = positions(results@);
        let ghost taken_before = taken@;
        results.push(RankedResult { distance: scores[best], index: best });
        taken.set(best, true);
        proof {
            lemma_count_set_after_setting(taken_before, best as int);
            let after = positions(results@);
            assert(after == before.push(best as int));
            assert forall|j: int| 0 <= j < n implies (taken@[j] <==> after.contains(j)) by {
                if j == best {
                    assert(after[before.len() as int] == j);
                } else if taken_before[j] {
                    let k = choose|k: int| 0 <= k < before.len() && before[k] == j;
                    assert(after[k] == j);
                } else if after.contains(j) {
                    let k = choose|k: int| 0 <= k < after.len() && after[k] == j;
                    assert(before[k] == j);
                }
            }
        }
    }
    proof {
        lemma_ranking_is(dist, limit as nat, positions(results@));
    }
    results
}

/// Ranks `candidates` by their distance from `query` and returns the best
/// `limit` of them, nearest first. Candidates at one distance keep the order
/// they came in; with fewer than `limit` candidates all are returned.
pub fn rank<'a>(query: &Query, candidates: &'a Vec<Function>, limit: usize) -> (best: Vec<
    &'a Function,
>)
    ensures
        best@.len() == min2(limit as nat, candidates@.len()),
        forall|k: int|
            0 <= k < best@.len() ==> *(#[trigger] best@[k]) == candidates@[ranking(
                distances(query@, candidates@),
                limit as nat,
            )[k]],
{
    let results = rank_scored(query, candidates, limit);
    let mut best: Vec<&'a Function> = Vec::new();
    let mut k: usize = 0;
    while k < results.len()
        invariant
            k <= results@.len(),
            best@.len() == k,
            forall|j: int|
                0 <= j < results@.len() ==> (#[trigger] results@[j]).index < candidates@.len(),
            forall|j: int| 0 <= j < k ==> *best@[j] == candidates@[results@[j].index as int],
        decreases results@.len() - k,
    {
        best.push(&candidates[results[k].index]);
        k += 1;
    }
    best
}

} // verus!
