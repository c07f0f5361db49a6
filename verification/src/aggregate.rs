//! Facet aggregation: frequency counts of tags and source labels across
//! all stored records, ordered by count descending.
//!
//! Counting policy: a record contributes at most once to each tag bucket,
//! even when its tag list repeats a tag; so a bucket's count is the number
//! of records carrying the tag. A record without a source contributes to no
//! source bucket. Ties between equal counts keep first-occurrence order.

use vstd::prelude::*;
use crate::models::{Memory, MemoryView};
use crate::ranking::{rank_leq, sort_pairs, views_of};

verus! {

/// Number of records among the first `n` of `s` that carry tag `t`.
pub open spec fn count_tag_prefix(s: Seq<MemoryView>, t: Seq<char>, n: int) -> int
    decreases n,
{
    if n <= 0 {
        0
    } else {
        count_tag_prefix(s, t, n - 1) + if s[n - 1].tags.contains(t) {
            1int
        } else {
            0int
        }
    }
}

/// Number of records in `s` that carry tag `t`.
pub open spec fn tag_occurrences(s: Seq<MemoryView>, t: Seq<char>) -> int {
    count_tag_prefix(s, t, s.len() as int)
}

/// Appends `t` to `acc` unless it is already present.
pub open spec fn insert_new(acc: Seq<Seq<char>>, t: Seq<char>) -> Seq<Seq<char>> {
    if acc.contains(t) {
        acc
    } else {
        acc.push(t)
    }
}

/// Folds a record's tag list into the accumulated key order.
pub open spec fn fold_tags(acc: Seq<Seq<char>>, tags: Seq<Seq<char>>) -> Seq<Seq<char>>
    decreases tags.len(),
{
    if tags.len() == 0 {
        acc
    } else {
        fold_tags(insert_new(acc, tags[0]), tags.drop_first())
    }
}

/// The distinct tags of the first `n` records, in first-occurrence order.
pub open spec fn distinct_tags_prefix(s: Seq<MemoryView>, n: int) -> Seq<Seq<char>>
    decreases n,
{
    if n <= 0 {
        Seq::empty()
    } else {
        fold_tags(distinct_tags_prefix(s, n - 1), s[n - 1].tags)
    }
}

/// The distinct tags of all records, in first-occurrence order.
pub open spec fn distinct_tags(s: Seq<MemoryView>) -> Seq<Seq<char>> {
    distinct_tags_prefix(s, s.len() as int)
}

/// Each distinct tag's count paired with its first-occurrence position.
pub open spec fn count_pairs(s: Seq<MemoryView>) -> Seq<(i128, usize)> {
    Seq::new(
        distinct_tags(s).len(),
        |i: int| (tag_occurrences(s, distinct_tags(s)[i]) as i128, i as usize),
    )
}

/// The distinct tags' positions ordered by count descending,
/// first-occurrence order among equal counts.
pub open spec fn count_order(s: Seq<MemoryView>) -> Seq<(i128, usize)> {
    count_pairs(s).sort_by(rank_leq())
}

/// A record reduced to its source label: the tag list of the reduced
/// record holds the source, or nothing.
pub open spec fn source_as_tags(m: MemoryView) -> MemoryView {
    MemoryView {
        tags: match m.source {
            Option::Some(sv) => seq![sv],
            Option::None => Seq::empty(),
        },
        ..m
    }
}

/// All records reduced to their source labels.
pub open spec fn sources_view(s: Seq<MemoryView>) -> Seq<MemoryView> {
    s.map_values(|m: MemoryView| source_as_tags(m))
}

/// The key column of a counting table.
pub open spec fn keys_of(s: Seq<(String, usize)>) -> Seq<Seq<char>> {
    Seq::new(s.len(), |i: int| s[i].0@)
}

/// The keys of a counting table are pairwise distinct.
pub open spec fn distinct_keys(k: Seq<Seq<char>>) -> bool {
    forall|w1: int, w2: int| 0 <= w1 < w2 < k.len() ==> k[w1] != k[w2]
}

/// Folding a list extended by one more tag inserts that tag last.
proof fn lemma_fold_tags_snoc(acc: Seq<Seq<char>>, tags: Seq<Seq<char>>, t: Seq<char>)
    ensures
        fold_tags(acc, tags.push(t)) == insert_new(fold_tags(acc, tags), t),
    decreases tags.len(),
{
    let ext = tags.push(t);
    assert(ext.len() == tags.len() + 1);
    assert(fold_tags(acc, ext) == fold_tags(insert_new(acc, ext[0]), ext.drop_first()));
    if tags.len() == 0 {
        assert(ext[0] == t);
        assert(ext.drop_first() =~= Seq::<Seq<char>>::empty());
        assert(fold_tags(insert_new(acc, t), ext.drop_first()) == insert_new(acc, t));
        assert(fold_tags(acc, tags) == acc);
    } else {
        assert(ext[0] == tags[0]);
        assert(ext.drop_first() =~= tags.drop_first().push(t));
        lemma_fold_tags_snoc(insert_new(acc, tags[0]), tags.drop_first(), t);
        assert(fold_tags(acc, tags) == fold_tags(insert_new(acc, tags[0]), tags.drop_first()));
    }
}

/// What the fold contains: exactly the accumulator's keys and the folded
/// tags.
proof fn lemma_fold_tags_contains(acc: Seq<Seq<char>>, tags: Seq<Seq<char>>, x: Seq<char>)
    ensures
        fold_tags(acc, tags).contains(x) <==> acc.contains(x) || tags.contains(x),
    decreases tags.len(),
{
    if tags.len() > 0 {
        lemma_fold_tags_contains(insert_new(acc, tags[0]), tags.drop_first(), x);
        assert(tags.contains(x) <==> (tags[0] == x || tags.drop_first().contains(x))) by {
            if tags.contains(x) {
                let i = choose|i: int| 0 <= i < tags.len() && tags[i] == x;
                if i > 0 {
                    assert(tags.drop_first()[i - 1] == x);
                }
            }
            if tags.drop_first().contains(x) {
                let i = choose|i: int| 0 <= i < tags.drop_first().len() && tags.drop_first()[i]
                    == x;
                assert(tags[i + 1] == x);
            }
        }
        if acc.contains(x) || tags[0] == x {
            assert(insert_new(acc, tags[0]).contains(x)) by {
                if acc.contains(x) {
                    let i = choose|i: int| 0 <= i < acc.len() && acc[i] == x;
                    assert(insert_new(acc, tags[0])[i] == x);
                } else {
                    if !acc.contains(tags[0]) {
                        assert(insert_new(acc, tags[0]).last() == x);
                    }
                }
            }
        }
        if insert_new(acc, tags[0]).contains(x) {
            assert(acc.contains(x) || tags[0] == x) by {
                if !acc.contains(tags[0]) {
                    let i = choose|i: int|
                        0 <= i < insert_new(acc, tags[0]).len() && insert_new(acc, tags[0])[i]
                            == x;
                    if i < acc.len() {
                        assert(acc[i] == x);
                    }
                }
            }
        }
    }
}

/// A tag is among the first `n` records' distinct tags exactly when one of
/// those records carries it.
proof fn lemma_distinct_prefix_contains(s: Seq<MemoryView>, n: int, t: Seq<char>)
    requires
        n <= s.len(),
    ensures
        distinct_tags_prefix(s, n).contains(t) <==> exists|k: int|
            0 <= k < n && (#[trigger] s[k]).tags.contains(t),
    decreases n,
{
    if n > 0 {
        lemma_distinct_prefix_contains(s, n - 1, t);
        lemma_fold_tags_contains(distinct_tags_prefix(s, n - 1), s[n - 1].tags, t);
    }
}

/// Tag counts lie between zero and the number of records considered, and
/// are zero exactly when no considered record carries the tag.
proof fn lemma_count_tag_bounds(s: Seq<MemoryView>, t: Seq<char>, n: int)
    requires
        0 <= n,
    ensures
        0 <= count_tag_prefix(s, t, n) <= n,
        count_tag_prefix(s, t, n) == 0 <==> !(exists|k: int|
            0 <= k < n && (#[trigger] s[k]).tags.contains(t)),
    decreases n,
{
    if n > 0 {
        lemma_count_tag_bounds(s, t, n - 1);
        if s[n - 1].tags.contains(t) {
        }
    }
}

/// Looks a key up in the counting table.
fn find_key(counts: &Vec<(String, usize)>, t: &String) -> (o: Option<usize>)
    ensures
        match o {
            Option::Some(w) => 0 <= w < counts@.len() && counts@[w as int].0@ == t@,
            Option::None => forall|w: int|
                0 <= w < counts@.len() ==> (#[trigger] counts@[w]).0@ != t@,
        },
{
    let mut i: usize = 0;
    while i < counts.len()
        invariant
            0 <= i <= counts@.len(),
            forall|w: int| 0 <= w < i ==> (#[trigger] counts@[w]).0@ != t@,
        decreases counts@.len() - i,
    {
        if counts[i].0.eq(t) {
            return Option::Some(i);
        }
        i = i + 1;
    }
    Option::None
}

/// A pushed sequence contains exactly the old elements and the new one.
proof fn lemma_contains_push<A>(s: Seq<A>, x: A, y: A)
    ensures
        s.push(x).contains(y) <==> s.contains(y) || x == y,
{
    if s.contains(y) {
        let i = choose|i: int| 0 <= i < s.len() && s[i] == y;
        assert(s.push(x)[i] == y);
    }
    if x == y {
        assert(s.push(x)[s.len() as int] == y);
    }
    if s.push(x).contains(y) {
        let i = choose|i: int| 0 <= i < s.push(x).len() && s.push(x)[i] == y;
        if i < s.len() {
            assert(s[i] == y);
        }
    }
}

/// Builds the counting table: distinct tags in first-occurrence order,
/// each with the number of records carrying it.
fn collect_tag_counts(records: &Vec<Memory>) -> (counts: Vec<(String, usize)>)
    ensures
        keys_of(counts@) == distinct_tags(views_of(records@)),
        counts@.len() == distinct_tags(views_of(records@)).len(),
        forall|w: int|
            0 <= w < counts@.len() ==> (#[trigger] counts@[w]).1 == tag_occurrences(
                views_of(records@),
                keys_of(counts@)[w],
            ),
{
    let ghost sv = views_of(records@);
    let n = records.len();
    let mut counts: Vec<(String, usize)> = Vec::new();
    let mut i: usize = 0;
    proof {
        assert(keys_of(counts@) =~= distinct_tags_prefix(sv, 0));
    }
    while i < n
        invariant
            0 <= i <= n,
            n == records@.len(),
            sv == views_of(records@),
            keys_of(counts@) == distinct_tags_prefix(sv, i as int),
            distinct_keys(keys_of(counts@)),
            forall|w: int|
                0 <= w < counts@.len() ==> (#[trigger] counts@[w]).1 == count_tag_prefix(
                    sv,
                    keys_of(counts@)[w],
                    i as int,
                ),
        decreases n - i,
    {
        let tags: &Vec<String> = &records[i].tags;
        let ghost tl = sv[i as int].tags;
        let ghost base = distinct_tags_prefix(sv, i as int);
        proof {
            assert(sv[i as int] == records@[i as int]@);
            assert(tl == tags.deep_view());
            assert(tl.take(0) =~= Seq::<Seq<char>>::empty());
            assert(fold_tags(base, tl.take(0)) == base);
        }
        let m = tags.len();
        let mut j: usize = 0;
        while j < m
            invariant
                0 <= j <= m,
                0 <= i < n,
                n == records@.len(),
                m == tags@.len(),
                sv == views_of(records@),
                tags@ == records@[i as int].tags@,
                tl == tags.deep_view(),
                tl == sv[i as int].tags,
                base == distinct_tags_prefix(sv, i as int),
                keys_of(counts@) == fold_tags(base, tl.take(j as int)),
                distinct_keys(keys_of(counts@)),
                forall|w: int|
                    0 <= w < counts@.len() ==> (#[trigger] counts@[w]).1 == count_tag_prefix(
                        sv,
                        keys_of(counts@)[w],
                        i as int,
                    ) + (if tl.take(j as int).contains(keys_of(counts@)[w]) {
                        1int
                    } else {
                        0int
                    }),
            decreases m - j,
        {
            let t: &String = &tags[j];
            proof {
                assert(tl[j as int] == tags@[j as int]@);
            }
            let mut k: usize = 0;
            let mut dup = false;
            while k < j
                invariant
                    0 <= k <= j <= m,
                    m == tags@.len(),
                    tl == tags.deep_view(),
                    t@ == tl[j as int],
                    dup ==> tl.take(j as int).contains(tl[j as int]),
                    !dup ==> forall|q: int| 0 <= q < k ==> tl[q] != tl[j as int],
                decreases j - k,
            {
                if tags[k].eq(t) {
                    proof {
                        assert(tl.take(j as int)[k as int] == tl[j as int]);
                    }
                    dup = true;
                    k = j;
                } else {
                    k = k + 1;
                }
            }
            proof {
                assert(tl.take(j as int + 1) =~= tl.take(j as int).push(tl[j as int]));
                lemma_fold_tags_snoc(base, tl.take(j as int), tl[j as int]);
            }
            if dup {
                proof {
                    lemma_fold_tags_contains(base, tl.take(j as int), tl[j as int]);
                    assert(keys_of(counts@).contains(tl[j as int]));
                    assert(insert_new(keys_of(counts@), tl[j as int]) == keys_of(counts@));
                    assert forall|w: int| 0 <= w < counts@.len() implies tl.take(
                        j as int + 1,
                    ).contains(keys_of(counts@)[w]) == tl.take(j as int).contains(
                        keys_of(counts@)[w],
                    ) by {
                        lemma_contains_push(tl.take(j as int), tl[j as int], keys_of(counts@)[w]);
                    }
                }
            } else {
                proof {
                    assert(!tl.take(j as int).contains(tl[j as int])) by {
                        if tl.take(j as int).contains(tl[j as int]) {
                            let q = choose|q: int|
                                0 <= q < j && tl.take(j as int)[q] == tl[j as int];
                            assert(tl[q] == tl[j as int]);
                        }
                    }
                }
                let found = find_key(&counts, t);
                match found {
                    Option::Some(w) => {
                        let key2 = counts[w].0.clone();
                        let c = counts[w].1;
                        proof {
                            lemma_count_tag_bounds(sv, keys_of(counts@)[w as int], i as int);
                            assert(c <= i);
                        }
                        let ghost prior = counts@;
                        counts[w] = (key2, c + 1);
                        proof {
                            assert(keys_of(counts@) =~= keys_of(prior));
                            assert(keys_of(counts@).contains(tl[j as int])) by {
                                assert(keys_of(counts@)[w as int] == tl[j as int]);
                            }
                            assert(insert_new(keys_of(prior), tl[j as int]) == keys_of(prior));
                            assert forall|w2: int| 0 <= w2 < counts@.len() implies (
                            #[trigger] counts@[w2]).1 == count_tag_prefix(
                                sv,
                                keys_of(counts@)[w2],
                                i as int,
                            ) + (if tl.take(j as int + 1).contains(keys_of(counts@)[w2]) {
                                1int
                            } else {
                                0int
                            }) by {
                                lemma_contains_push(
                                    tl.take(j as int),
                                    tl[j as int],
                                    keys_of(counts@)[w2],
                                );
                                if w2 != w as int {
                                    assert(counts@[w2] == prior[w2]);
                                    assert(keys_of(counts@)[w2] != tl[j as int]);
                                }
                            }
                        }
                    },
                    Option::None => {
                        proof {
                            assert(!keys_of(counts@).contains(tl[j as int])) by {
                                if keys_of(counts@).contains(tl[j as int]) {
                                    let q = choose|q: int|
                                        0 <= q < keys_of(counts@).len() && keys_of(counts@)[q]
                                            == tl[j as int];
                                    assert(counts@[q].0@ == t@);
                                }
                            }
                            lemma_fold_tags_contains(base, tl.take(j as int), tl[j as int]);
                            lemma_distinct_prefix_contains(sv, i as int, tl[j as int]);
                            lemma_count_tag_bounds(sv, tl[j as int], i as int);
                            assert(count_tag_prefix(sv, tl[j as int], i as int) == 0);
                        }
                        let ghost prior = counts@;
                        counts.push((t.clone(), 1));
                        proof {
                            assert(keys_of(counts@) =~= keys_of(prior).push(tl[j as int]));
                            assert(distinct_keys(keys_of(counts@))) by {
                                let ks = keys_of(counts@);
                                assert forall|w1: int, w2: int|
                                    0 <= w1 < w2 < ks.len() implies ks[w1] != ks[w2] by {
                                    if w2 == ks.len() - 1 {
                                        assert(!keys_of(prior).contains(ks[w2]));
                                        assert(keys_of(prior)[w1] == ks[w1]);
                                    }
                                }
                            }
                            assert forall|w2: int| 0 <= w2 < counts@.len() implies (
                            #[trigger] counts@[w2]).1 == count_tag_prefix(
                                sv,
                                keys_of(counts@)[w2],
                                i as int,
                            ) + (if tl.take(j as int + 1).contains(keys_of(counts@)[w2]) {
                                1int
                            } else {
                                0int
                            }) by {
                                lemma_contains_push(
                                    tl.take(j as int),
                                    tl[j as int],
                                    keys_of(counts@)[w2],
                                );
                                if w2 < counts@.len() - 1 {
                                    assert(counts@[w2] == prior[w2]);
                                    assert(!keys_of(prior).contains(tl[j as int]));
                                    assert(keys_of(prior)[w2] == keys_of(counts@)[w2]);
                                }
                            }
                        }
                    },
                }
            }
            j = j + 1;
        }
        proof {
            assert(tl.take(m as int) =~= tl);
            assert(distinct_tags_prefix(sv, i as int + 1) == fold_tags(base, sv[i as int].tags));
            assert forall|w: int| 0 <= w < counts@.len() implies (#[trigger] counts@[w]).1
                == count_tag_prefix(sv, keys_of(counts@)[w], i as int + 1) by {
                assert(count_tag_prefix(sv, keys_of(counts@)[w], i as int + 1) == count_tag_prefix(
                    sv,
                    keys_of(counts@)[w],
                    i as int,
                ) + (if sv[i as int].tags.contains(keys_of(counts@)[w]) {
                    1int
                } else {
                    0int
                }));
            }
        }
        i = i + 1;
    }
    counts
}

/// The table's rows ordered by count descending, first-occurrence order
/// among equal counts.
pub open spec fn table_order(c: Seq<(String, usize)>) -> Seq<(i128, usize)> {
    Seq::new(c.len(), |i: int| (c[i].1 as i128, i as usize)).sort_by(rank_leq())
}

/// The sorted table `r` is `counts` rearranged by `table_order`.
pub open spec fn sorted_table_post(counts: Seq<(String, usize)>, r: Seq<(String, usize)>) -> bool {
    &&& r.len() == counts.len()
    &&& forall|t: int|
        0 <= t < r.len() ==> {
            let w = table_order(counts)[t].1 as int;
            &&& 0 <= w < counts.len()
            &&& (#[trigger] r[t]).0@ == counts[w].0@
            &&& r[t].1 == counts[w].1
        }
}

/// Orders a counting table by count descending, keeping first-occurrence
/// order among equal counts.
fn sort_counts(counts: Vec<(String, usize)>) -> (r: Vec<(String, usize)>)
    ensures
        sorted_table_post(counts@, r@),
{
    broadcast use vstd::seq_lib::group_to_multiset_ensures;

    let ghost raw = Seq::new(counts@.len(), |i: int| (counts@[i].1 as i128, i as usize));
    let n = counts.len();
    let mut pairs: Vec<(i128, usize)> = Vec::new();
    let mut i: usize = 0;
    proof {
        assert(pairs@ =~= raw.take(0));
    }
    while i < n
        invariant
            0 <= i <= n,
            n == counts@.len(),
            raw == Seq::new(counts@.len(), |t: int| (counts@[t].1 as i128, t as usize)),
            pairs@ == raw.take(i as int),
        decreases n - i,
    {
        pairs.push((counts[i].1 as i128, i));
        proof {
            assert(pairs@ =~= raw.take(i as int + 1));
        }
        i = i + 1;
    }
    proof {
        assert(raw.take(n as int) =~= raw);
    }
    let sorted = sort_pairs(&pairs);
    proof {
        crate::ranking::lemma_rank_total();
        pairs@.lemma_sort_by_ensures(rank_leq());
        assert(sorted@.len() == sorted@.to_multiset().len());
        assert(pairs@.len() == pairs@.to_multiset().len());
        assert forall|t: int| 0 <= t < sorted@.len() implies 0 <= (#[trigger] sorted@[t]).1
            < n by {
            assert(sorted@.contains(sorted@[t]));
            assert(sorted@.to_multiset().count(sorted@[t]) > 0);
            assert(pairs@.to_multiset().count(sorted@[t]) > 0);
            assert(pairs@.contains(sorted@[t]));
            let w = choose|w: int| 0 <= w < pairs@.len() && pairs@[w] == sorted@[t];
            assert(raw[w].1 == w as usize);
        }
    }
    let mut r: Vec<(String, usize)> = Vec::new();
    let mut j: usize = 0;
    while j < n
        invariant
            0 <= j <= n,
            n == counts@.len(),
            raw == Seq::new(counts@.len(), |t: int| (counts@[t].1 as i128, t as usize)),
            sorted@ == table_order(counts@),
            sorted@.len() == n,
            forall|t: int| 0 <= t < sorted@.len() ==> 0 <= (#[trigger] sorted@[t]).1 < n,
            r@.len() == j,
            forall|t: int|
                0 <= t < j ==> {
                    let w = table_order(counts@)[t].1 as int;
                    &&& (#[trigger] r@[t]).0@ == counts@[w].0@
                    &&& r@[t].1 == counts@[w].1
                },
        decreases n - j,
    {
        let (c, idx) = sorted[j];
        r.push((counts[idx].0.clone(), counts[idx].1));
        j = j + 1;
    }
    r
}

/// What the facet listings promise: one row per distinct key in `d`,
/// ordered by count descending (first-occurrence order among ties), each
/// row carrying the key and the number of records bearing it.
pub open spec fn counts_post(sv: Seq<MemoryView>, r: Seq<(String, usize)>) -> bool {
    &&& r.len() == distinct_tags(sv).len()
    &&& forall|t: int|
        0 <= t < r.len() ==> 0 <= (#[trigger] count_order(sv)[t]).1 < distinct_tags(sv).len()
    &&& forall|t: int|
        0 <= t < r.len() ==> (#[trigger] r[t]).0@ == distinct_tags(sv)[count_order(
            sv,
        )[t].1 as int]
    &&& forall|t: int|
        0 <= t < r.len() ==> (#[trigger] r[t]).1 == tag_occurrences(
            sv,
            distinct_tags(sv)[count_order(sv)[t].1 as int],
        )
}

/// Tag frequencies across all records, ordered by count descending.
pub fn tag_counts_of(records: &Vec<Memory>) -> (r: Vec<(String, usize)>)
    ensures
        counts_post(views_of(records@), r@),
{
    let ghost sv = views_of(records@);
    let counts = collect_tag_counts(records);
    let ghost d = distinct_tags(sv);
    proof {
        assert(Seq::new(counts@.len(), |i: int| (counts@[i].1 as i128, i as usize))
            =~= count_pairs(sv));
    }
    let r = sort_counts(counts);
    proof {
        assert(table_order(counts@) == count_order(sv));
        lemma_counts_post_bridge(sv, counts@, r@);
    }
    r
}

/// Bridges the sorted table back to the canonical facet-listing contract.
proof fn lemma_counts_post_bridge(
    sv: Seq<MemoryView>,
    counts: Seq<(String, usize)>,
    r: Seq<(String, usize)>,
)
    requires
        keys_of(counts) == distinct_tags(sv),
        counts.len() == distinct_tags(sv).len(),
        forall|w: int|
            0 <= w < counts.len() ==> (#[trigger] counts[w]).1 == tag_occurrences(
                sv,
                keys_of(counts)[w],
            ),
        table_order(counts) == count_order(sv),
        sorted_table_post(counts, r),
    ensures
        counts_post(sv, r),
{
    let d = distinct_tags(sv);
    let order = count_order(sv);
    assert(r.len() == d.len());
    assert forall|t: int| 0 <= t < r.len() implies 0 <= (#[trigger] count_order(sv)[t]).1
        < distinct_tags(sv).len() by {
        assert(r[t] == r[t]);
        assert(table_order(counts)[t] == order[t]);
    }
    assert forall|t: int| 0 <= t < r.len() implies (#[trigger] r[t]).0@ == distinct_tags(
        sv,
    )[count_order(sv)[t].1 as int] by {
        let w = order[t].1 as int;
        assert(r[t] == r[t]);
        assert(table_order(counts)[t].1 as int == w);
        assert(0 <= w < counts.len());
        assert(r[t].0@ == counts[w].0@);
        assert(keys_of(counts)[w] == counts[w].0@);
        assert(d[w] == counts[w].0@);
    }
    assert forall|t: int| 0 <= t < r.len() implies (#[trigger] r[t]).1 == tag_occurrences(
        sv,
        distinct_tags(sv)[count_order(sv)[t].1 as int],
    ) by {
        let w = order[t].1 as int;
        assert(r[t] == r[t]);
        assert(table_order(counts)[t].1 as int == w);
        assert(0 <= w < counts.len());
        assert(keys_of(counts)[w] == counts[w].0@);
        assert(d[w] == counts[w].0@);
        assert(r[t].1 == counts[w].1);
        assert(counts[w].1 == tag_occurrences(sv, d[w]));
    }
}

/// Source-label frequencies across all records, ordered by count
/// descending; records without a source contribute to no bucket.
pub fn source_counts_of(records: &Vec<Memory>) -> (r: Vec<(String, usize)>)
    ensures
        counts_post(sources_view(views_of(records@)), r@),
{
    let ghost sv = views_of(records@);
    let n = records.len();
    let mut reduced: Vec<Memory> = Vec::new();
    let mut i: usize = 0;
    proof {
        assert(views_of(reduced@) =~= sources_view(sv).take(0));
    }
    while i < n
        invariant
            0 <= i <= n,
            n == records@.len(),
            sv == views_of(records@),
            reduced@.len() == i,
            views_of(reduced@) == sources_view(sv).take(i as int),
        decreases n - i,
    {
        let mut m = records[i].duplicate();
        let keys: Vec<String> = match &records[i].source {
            Option::None => Vec::new(),
            Option::Some(s) => {
                let mut v: Vec<String> = Vec::new();
                v.push(s.clone());
                v
            },
        };
        m.tags = keys;
        let ghost mv = m@;
        proof {
            assert(sv[i as int] == records@[i as int]@);
            assert(mv.tags =~= source_as_tags(sv[i as int]).tags);
            assert(mv =~= source_as_tags(sv[i as int]));
        }
        reduced.push(m);
        proof {
            assert(reduced@[i as int]@ == mv);
            assert(views_of(reduced@) =~= sources_view(sv).take(i as int + 1));
        }
        i = i + 1;
    }
    proof {
        assert(sources_view(sv).take(n as int) =~= sources_view(sv));
    }
    let counts = collect_tag_counts(&reduced);
    proof {
        assert(Seq::new(counts@.len(), |i: int| (counts@[i].1 as i128, i as usize)) =~= count_pairs(
            sources_view(sv),
        ));
    }
    let r = sort_counts(counts);
    proof {
        assert(table_order(counts@) == count_order(sources_view(sv)));
        lemma_counts_post_bridge(sources_view(sv), counts@, r@);
    }
    r
}

} // verus!
