//! The similarity ranker: scores every candidate against a query embedding,
//! orders candidates by score, and truncates to the requested count.
//!
//! Ordering is expressed over `(key, position)` pairs; positions are the
//! candidates' original indices, so ties between equal keys always keep the
//! earlier candidate first and the order is fully determined. The same pair
//! sort also orders records by timestamp and facet labels by count.

use vstd::prelude::*;
use vstd::relations::{sorted_by, total_ordering};
use vstd::seq_lib::lemma_sorted_unique;
use crate::embeddings::{cosine_similarity, spec_cosine};
use crate::math::embedding_wf;
use crate::models::{is_response_of, Memory, MemoryResponse, MemoryView, SearchResult};

verus! {

/// Ranking order on `(key, position)` pairs: larger keys first; among equal
/// keys, smaller positions first.
pub open spec fn rank_le(x: (i128, usize), y: (i128, usize)) -> bool {
    x.0 > y.0 || (x.0 == y.0 && x.1 <= y.1)
}

/// `rank_le` as a relation value.
pub open spec fn rank_leq() -> spec_fn((i128, usize), (i128, usize)) -> bool {
    |x: (i128, usize), y: (i128, usize)| rank_le(x, y)
}

/// The ranking order is a total order, so a sequence of pairs with distinct
/// positions has exactly one sorted arrangement.
pub proof fn lemma_rank_total()
    ensures
        total_ordering(rank_leq()),
{
    let r = rank_leq();
    assert forall|x: (i128, usize)| #[trigger] r(x, x) by {}
    assert forall|x: (i128, usize), y: (i128, usize)| #[trigger] r(x, y) && #[trigger] r(
        y,
        x,
    ) implies x == y by {
        assert(x.0 == y.0 && x.1 == y.1);
    }
    assert forall|x: (i128, usize), y: (i128, usize), z: (i128, usize)|
        #[trigger] r(x, y) && #[trigger] r(y, z) implies r(x, z) by {}
    assert forall|x: (i128, usize), y: (i128, usize)| #[trigger] r(x, y) || #[trigger] r(
        y,
        x,
    ) by {}
}

/// Sorts `(key, position)` pairs into ranking order by insertion.
pub fn sort_pairs(v: &Vec<(i128, usize)>) -> (out: Vec<(i128, usize)>)
    ensures
        out@ == v@.sort_by(rank_leq()),
{
    broadcast use vstd::seq_lib::group_to_multiset_ensures;
    broadcast use vstd::seq_lib::to_multiset_insert;

    let mut out: Vec<(i128, usize)> = Vec::new();
    let mut i: usize = 0;
    proof {
        assert(out@.to_multiset() =~= v@.take(0).to_multiset());
    }
    while i < v.len()
        invariant
            0 <= i <= v@.len(),
            out@.len() == i,
            sorted_by(out@, rank_leq()),
            out@.to_multiset() == v@.take(i as int).to_multiset(),
        decreases v@.len() - i,
    {
        broadcast use vstd::seq_lib::group_to_multiset_ensures;
        broadcast use vstd::seq_lib::to_multiset_insert;

        let x = v[i];
        let mut j: usize = 0;
        while j < out.len() && (out[j].0 > x.0 || (out[j].0 == x.0 && out[j].1 <= x.1))
            invariant
                0 <= j <= out@.len(),
                forall|t: int| 0 <= t < j ==> rank_le(out@[t], x),
            decreases out@.len() - j,
        {
            j = j + 1;
        }
        let ghost prev = out@;
        out.insert(j, x);
        proof {
            prev.insert_ensures(j as int, x);
            let rl = rank_leq();
            assert forall|p: int, q: int| 0 <= p < q < out@.len() implies #[trigger] rl(
                out@[p],
                out@[q],
            ) by {
                let jj = j as int;
                if q < jj {
                    assert(rl(prev[p], prev[q]));
                } else if q == jj {
                    assert(rank_le(prev[p], x));
                } else if p < jj {
                    // q > jj: out[q] == prev[q - 1], and jj <= q - 1
                    if p == q - 1 {
                        assert(rank_le(out@[p], out@[q]));
                    } else {
                        assert(rl(prev[p], prev[q - 1]));
                    }
                } else if p == jj {
                    // x against the tail: the probe stopped at jj, so the
                    // element there does not rank before x.
                    if jj < prev.len() {
                        assert(!rank_le(prev[jj], x));
                        assert(rank_le(x, prev[jj]));
                        if q - 1 == jj {
                        } else {
                            assert(rl(prev[jj], prev[q - 1]));
                        }
                    }
                } else {
                    assert(rl(prev[p - 1], prev[q - 1]));
                }
            }
            assert(v@.take(i as int + 1) =~= v@.take(i as int).push(x));
            assert(out@.to_multiset() =~= v@.take(i as int + 1).to_multiset());
        }
        i = i + 1;
    }
    proof {
        assert(v@.take(v@.len() as int) =~= v@);
        lemma_rank_total();
        v@.lemma_sort_by_ensures(rank_leq());
        lemma_sorted_unique(out@, v@.sort_by(rank_leq()), rank_leq());
        assert(out@ =~= v@.sort_by(rank_leq()));
    }
    out
}

/// The views of a sequence of records.
pub open spec fn views_of(s: Seq<Memory>) -> Seq<MemoryView> {
    s.map_values(|m: Memory| m@)
}

/// The score of every candidate against the query, paired with the
/// candidate's position.
pub open spec fn score_pairs(q: Seq<i32>, cands: Seq<MemoryView>) -> Seq<(i128, usize)> {
    Seq::new(cands.len(), |i: int| (spec_cosine(q, cands[i].embedding) as i128, i as usize))
}

/// All candidates' score pairs in ranking order.
pub open spec fn ranked_pairs(q: Seq<i32>, cands: Seq<MemoryView>) -> Seq<(i128, usize)> {
    score_pairs(q, cands).sort_by(rank_leq())
}

/// What the ranking order delivers: one pair per candidate, arranged so
/// that scores never increase, and ties keep the earlier candidate first.
pub proof fn lemma_ranked_pairs_sorted(q: Seq<i32>, cands: Seq<MemoryView>)
    ensures
        ranked_pairs(q, cands).len() == cands.len(),
        sorted_by(ranked_pairs(q, cands), rank_leq()),
        ranked_pairs(q, cands).to_multiset() == score_pairs(q, cands).to_multiset(),
{
    broadcast use vstd::seq_lib::group_to_multiset_ensures;

    lemma_rank_total();
    score_pairs(q, cands).lemma_sort_by_ensures(rank_leq());
    assert(ranked_pairs(q, cands).len() == ranked_pairs(q, cands).to_multiset().len());
    assert(score_pairs(q, cands).len() == score_pairs(q, cands).to_multiset().len());
}

/// Number of results a ranking query returns: `k`, unless fewer candidates
/// exist.
pub open spec fn rank_len(k: int, n: int) -> int {
    if k <= n {
        k
    } else {
        n
    }
}

/// Ranks `candidates` against `query` and returns the top `k` results in
/// score order. Never returns more than `k` results, and fewer than `k`
/// only when fewer candidates exist; ties keep the earlier candidate first.
pub fn rank(query: &Vec<i32>, candidates: &Vec<Memory>, k: usize) -> (out: Vec<SearchResult>)
    requires
        embedding_wf(query@),
        forall|i: int| 0 <= i < candidates@.len() ==> (#[trigger] candidates@[i]).wf(),
    ensures
        out@.len() == rank_len(k as int, candidates@.len() as int),
        forall|i: int|
            0 <= i < out@.len() ==> {
                let p = ranked_pairs(query@, views_of(candidates@))[i];
                &&& (#[trigger] out@[i]).score as int == p.0 as int
                &&& 0 <= p.1 < candidates@.len()
                &&& is_response_of(out@[i].memory, candidates@[p.1 as int]@)
            },
        forall|i: int, j: int|
            0 <= i < j < out@.len() ==> (#[trigger] out@[i]).score >= (#[trigger] out@[j]).score,
{
    broadcast use vstd::seq_lib::group_to_multiset_ensures;

    let ghost cviews = views_of(candidates@);
    let n = candidates.len();
    let mut pairs: Vec<(i128, usize)> = Vec::new();
    let mut i: usize = 0;
    proof {
        assert(pairs@ =~= score_pairs(query@, cviews).take(0));
    }
    while i < n
        invariant
            0 <= i <= n,
            n == candidates@.len(),
            embedding_wf(query@),
            forall|t: int| 0 <= t < candidates@.len() ==> (#[trigger] candidates@[t]).wf(),
            cviews == views_of(candidates@),
            pairs@ == score_pairs(query@, cviews).take(i as int),
            forall|t: int|
                0 <= t < i ==> -1000000 <= spec_cosine(
                    query@,
                    (#[trigger] cviews[t]).embedding,
                ) <= 1000000,
        decreases n - i,
    {
        let score = cosine_similarity(query, &candidates[i].embedding);
        pairs.push((score as i128, i));
        proof {
            assert(cviews[i as int] == candidates@[i as int]@);
            assert(pairs@ =~= score_pairs(query@, cviews).take(i as int + 1));
        }
        i = i + 1;
    }
    proof {
        assert(score_pairs(query@, cviews).take(n as int) =~= score_pairs(query@, cviews));
    }
    let sorted = sort_pairs(&pairs);
    proof {
        lemma_rank_total();
        pairs@.lemma_sort_by_ensures(rank_leq());
        assert(sorted@.to_multiset() == pairs@.to_multiset());
        assert(sorted@.len() == sorted@.to_multiset().len());
        assert(pairs@.len() == pairs@.to_multiset().len());
        assert(sorted@.len() == pairs@.len());
        assert forall|t: int| 0 <= t < sorted@.len() implies score_pairs(query@, cviews).contains(
            #[trigger] sorted@[t],
        ) by {
            assert(sorted@.contains(sorted@[t]));
            assert(sorted@.to_multiset().count(sorted@[t]) > 0);
            assert(pairs@.to_multiset().count(sorted@[t]) > 0);
        }
        assert forall|t: int| 0 <= t < sorted@.len() implies -1000000 <= (
        #[trigger] sorted@[t]).0 <= 1000000 by {
            assert(score_pairs(query@, cviews).contains(sorted@[t]));
            let w = choose|w: int|
                0 <= w < score_pairs(query@, cviews).len() && score_pairs(query@, cviews)[w]
                    == sorted@[t];
            assert(pairs@[w] == score_pairs(query@, cviews)[w]);
        }
    }
    let m = if k < n {
        k
    } else {
        n
    };
    let mut out: Vec<SearchResult> = Vec::new();
    let mut j: usize = 0;
    while j < m
        invariant
            0 <= j <= m,
            m == rank_len(k as int, candidates@.len() as int),
            m <= sorted@.len(),
            n == candidates@.len(),
            cviews == views_of(candidates@),
            sorted@ == ranked_pairs(query@, cviews),
            sorted@.to_multiset() == score_pairs(query@, cviews).to_multiset(),
            out@.len() == j,
            forall|t: int|
                0 <= t < sorted@.len() ==> score_pairs(query@, cviews).contains(
                    #[trigger] sorted@[t],
                ),
            forall|t: int|
                0 <= t < sorted@.len() ==> -1000000 <= (#[trigger] sorted@[t]).0 <= 1000000,
            forall|t: int|
                0 <= t < n ==> -1000000 <= spec_cosine(
                    query@,
                    (#[trigger] cviews[t]).embedding,
                ) <= 1000000,
            forall|t: int|
                0 <= t < j ==> {
                    let p = ranked_pairs(query@, cviews)[t];
                    &&& (#[trigger] out@[t]).score as int == p.0 as int
                    &&& 0 <= p.1 < candidates@.len()
                    &&& is_response_of(out@[t].memory, candidates@[p.1 as int]@)
                },
        decreases m - j,
    {
        let (s, idx) = sorted[j];
        proof {
            assert(score_pairs(query@, cviews).contains(sorted@[j as int]));
            let w = choose|w: int|
                0 <= w < score_pairs(query@, cviews).len() && score_pairs(query@, cviews)[w]
                    == sorted@[j as int];
            assert(score_pairs(query@, cviews)[w].1 == w as usize);
            assert(idx as int == w);
            assert(s as int == spec_cosine(query@, cviews[idx as int].embedding) as int);
            assert(cviews[idx as int] == candidates@[idx as int]@);
        }
        let record = candidates[idx].duplicate();
        let resp = MemoryResponse::from_memory(record);
        out.push(SearchResult { memory: resp, score: s as i64 });
        j = j + 1;
    }
    proof {
        let rl = rank_leq();
        assert forall|i: int, j2: int| 0 <= i < j2 < out@.len() implies (
        #[trigger] out@[i]).score >= (#[trigger] out@[j2]).score by {
            assert(rl(sorted@[i], sorted@[j2]));
            assert(rank_le(sorted@[i], sorted@[j2]));
        }
    }
    out
}

} // verus!
