//! The memory store: a durable record repository offering create,
//! fetch-all, paginated and filtered fetch, delete, count, recent-text
//! listing and facet aggregation. Records are held in creation order;
//! identifiers grow monotonically and are never reused, so a deleted
//! record's id stays dead for the store's lifetime.

use vstd::prelude::*;
use crate::math::embedding_wf;
use crate::models::{Memory, MemoryView};
use crate::ranking::{rank_leq, sort_pairs, views_of};

verus! {

/// Cap on how many texts feed profile synthesis.
pub const TEXT_LIMIT: usize = 100;

/// Each record's creation time paired with its storage position: the key
/// under which listings are ordered, newest first, storage order among
/// equal timestamps.
pub open spec fn time_pairs(s: Seq<MemoryView>) -> Seq<(i128, usize)> {
    Seq::new(s.len(), |i: int| (s[i].created_at as i128, i as usize))
}

/// The view of an optional borrowed string.
pub open spec fn opt_ref_view(o: Option<&String>) -> Option<Seq<char>> {
    match o {
        Option::None => Option::None,
        Option::Some(s) => Option::Some(s@),
    }
}

/// A record passes the conjunctive facet filters: it carries the requested
/// tag (if one is given) and bears the requested source label (if one is
/// given); an absent filter admits every record.
pub open spec fn matches_filters(
    m: MemoryView,
    tag: Option<Seq<char>>,
    source: Option<Seq<char>>,
) -> bool {
    &&& match tag {
        Option::Some(t) => m.tags.contains(t),
        Option::None => true,
    }
    &&& match source {
        Option::Some(sv) => m.source == Option::Some(sv),
        Option::None => true,
    }
}

/// The pair predicate behind a filtered listing.
pub open spec fn filter_pred(
    s: Seq<MemoryView>,
    tag: Option<Seq<char>>,
    source: Option<Seq<char>>,
) -> spec_fn((i128, usize)) -> bool {
    |p: (i128, usize)| 0 <= p.1 < s.len() && matches_filters(s[p.1 as int], tag, source)
}

/// The matching records' time pairs, newest first.
pub open spec fn ordered_matches(
    s: Seq<MemoryView>,
    tag: Option<Seq<char>>,
    source: Option<Seq<char>>,
) -> Seq<(i128, usize)> {
    time_pairs(s).filter(filter_pred(s, tag, source)).sort_by(rank_leq())
}

/// All records' time pairs, newest first.
pub open spec fn by_recency(s: Seq<MemoryView>) -> Seq<(i128, usize)> {
    time_pairs(s).sort_by(rank_leq())
}

/// What the listing order delivers: one pair per matching record,
/// arranged so that creation times never increase, and ties keep storage
/// order.
pub proof fn lemma_ordered_matches_sorted(
    s: Seq<MemoryView>,
    tag: Option<Seq<char>>,
    source: Option<Seq<char>>,
)
    ensures
        vstd::relations::sorted_by(ordered_matches(s, tag, source), rank_leq()),
        ordered_matches(s, tag, source).to_multiset() == time_pairs(s).filter(
            filter_pred(s, tag, source),
        ).to_multiset(),
{
    crate::ranking::lemma_rank_total();
    time_pairs(s).filter(filter_pred(s, tag, source)).lemma_sort_by_ensures(rank_leq());
}

/// First index of the requested page within `n` matches: pages are
/// 1-indexed, a page below 1 reads like page 1, and a page beyond the data
/// starts (and ends) at `n`.
pub open spec fn page_start(page: int, per_page: int, n: int) -> int {
    let off = if page >= 1 {
        (page - 1) * per_page
    } else {
        0
    };
    if off <= n {
        off
    } else {
        n
    }
}

/// One past the last index of the requested page within `n` matches.
pub open spec fn page_end(page: int, per_page: int, n: int) -> int {
    let st = page_start(page, per_page, n);
    if st + per_page <= n {
        st + per_page
    } else {
        n
    }
}

/// Whether `v` holds a string whose characters equal `t`'s.
pub fn contains_string(v: &Vec<String>, t: &String) -> (r: bool)
    ensures
        r == v.deep_view().contains(t@),
{
    let mut i: usize = 0;
    while i < v.len()
        invariant
            0 <= i <= v@.len(),
            forall|k: int| 0 <= k < i ==> v.deep_view()[k] != t@,
        decreases v@.len() - i,
    {
        if v[i].eq(t) {
            proof {
                assert(v.deep_view()[i as int] == t@);
            }
            return true;
        }
        i = i + 1;
    }
    false
}

/// Whether a record passes the facet filters.
fn record_matches(m: &Memory, tag: Option<&String>, source: Option<&String>) -> (r: bool)
    ensures
        r == matches_filters(m@, opt_ref_view(tag), opt_ref_view(source)),
{
    let tag_ok = match tag {
        Option::None => true,
        Option::Some(t) => contains_string(&m.tags, t),
    };
    if !tag_ok {
        return false;
    }
    match source {
        Option::None => true,
        Option::Some(sf) => match &m.source {
            Option::None => false,
            Option::Some(ms) => ms.eq(sf),
        },
    }
}

/// Relies on `chrono::Utc::now` (via `timestamp_millis`) for creation
/// timestamps. Nothing is promised of the value: callers state what holds
/// for every timestamp.
#[verifier::external_body]
fn now_millis() -> i64 {
    chrono::Utc::now().timestamp_millis()
}

/// Some record in `s` carries the identifier `id`.
pub open spec fn contains_id(s: Seq<MemoryView>, id: u64) -> bool {
    exists|i: int| 0 <= i < s.len() && s[i].id == id
}

/// The store's internal invariant over its abstract state: identifiers
/// strictly increase in storage order, stay below the next free identifier,
/// and every embedding respects the engine's dimension and coordinate
/// ceilings.
pub open spec fn store_inv(s: Seq<MemoryView>, next: u64) -> bool {
    &&& forall|i: int, j: int| 0 <= i < j < s.len() ==> (#[trigger] s[i].id) < (#[trigger] s[j].id)
    &&& forall|i: int| 0 <= i < s.len() ==> (#[trigger] s[i].id) < next
    &&& forall|i: int| 0 <= i < s.len() ==> embedding_wf((#[trigger] s[i]).embedding)
}

/// The record repository.
pub struct MemoryStore {
    records: Vec<Memory>,
    next_id: u64,
}

impl MemoryStore {
    /// The abstract state: the stored records in storage order.
    pub closed spec fn recs(&self) -> Seq<MemoryView> {
        views_of(self.records@)
    }

    /// The identifier the next created record will receive.
    pub closed spec fn nid(&self) -> u64 {
        self.next_id
    }

    /// The store is well formed.
    pub open spec fn wf(&self) -> bool {
        store_inv(self.recs(), self.nid())
    }

    /// Creates an empty store.
    pub fn new() -> (s: MemoryStore)
        ensures
            s.wf(),
            s.recs() == Seq::<MemoryView>::empty(),
            s.nid() == 1,
    {
        let s = MemoryStore { records: Vec::new(), next_id: 1 };
        proof {
            assert(s.recs() =~= Seq::<MemoryView>::empty());
        }
        s
    }

    /// Persists a new record carrying the given timestamp. The new record
    /// receives the next free identifier and is appended to the stored
    /// sequence; `created_at` and `updated_at` are both set to `now`.
    pub fn create_memory_at(
        &mut self,
        text: String,
        tags: Vec<String>,
        source: Option<String>,
        embedding: Vec<i32>,
        now: i64,
    ) -> (m: Memory)
        requires
            old(self).wf(),
            old(self).nid() < u64::MAX,
            embedding_wf(embedding@),
        ensures
            final(self).wf(),
            final(self).recs() == old(self).recs().push(m@),
            final(self).nid() == old(self).nid() + 1,
            m@.id == old(self).nid(),
            m@.text == text@,
            m@.tags == tags.deep_view(),
            m@.source == crate::models::opt_view(source),
            m@.embedding == embedding@,
            m@.created_at == now,
            m@.updated_at == now,
    {
        let m = Memory {
            id: self.next_id,
            text,
            tags,
            source,
            embedding,
            created_at: now,
            updated_at: now,
        };
        let copy = m.duplicate();
        self.records.push(copy);
        self.next_id = self.next_id + 1;
        proof {
            assert(self.recs() =~= old(self).recs().push(m@));
        }
        m
    }

    /// Persists a new record stamped with the current wall-clock time.
    /// Everything but the timestamp value is pinned: the record is appended,
    /// carries the next free identifier, and its two timestamps coincide.
    pub fn create_memory(
        &mut self,
        text: String,
        tags: Vec<String>,
        source: Option<String>,
        embedding: Vec<i32>,
    ) -> (m: Memory)
        requires
            old(self).wf(),
            old(self).nid() < u64::MAX,
            embedding_wf(embedding@),
        ensures
            final(self).wf(),
            final(self).recs() == old(self).recs().push(m@),
            final(self).nid() == old(self).nid() + 1,
            m@.id == old(self).nid(),
            m@.text == text@,
            m@.tags == tags.deep_view(),
            m@.source == crate::models::opt_view(source),
            m@.embedding == embedding@,
            m@.created_at == m@.updated_at,
    {
        let now = now_millis();
        self.create_memory_at(text, tags, source, embedding, now)
    }

    /// Returns copies of all records in storage order; no further ordering
    /// is promised to callers.
    pub fn get_all_memories(&self) -> (r: Vec<Memory>)
        ensures
            views_of(r@) == self.recs(),
            r@.len() == self.recs().len(),
    {
        let mut r: Vec<Memory> = Vec::new();
        let mut i: usize = 0;
        proof {
            assert(views_of(r@) =~= self.recs().take(0));
        }
        while i < self.records.len()
            invariant
                0 <= i <= self.records@.len(),
                views_of(r@) == self.recs().take(i as int),
                r@.len() == i,
            decreases self.records@.len() - i,
        {
            r.push(self.records[i].duplicate());
            proof {
                assert(views_of(r@) =~= self.recs().take(i as int + 1));
            }
            i = i + 1;
        }
        proof {
            assert(self.recs().take(self.recs().len() as int) =~= self.recs());
        }
        r
    }

    /// Whether another record can still receive a fresh identifier.
    pub fn can_create(&self) -> (b: bool)
        ensures
            b == (self.nid() < u64::MAX),
    {
        self.next_id < u64::MAX
    }

    /// The number of stored records.
    pub fn count_memories(&self) -> (n: usize)
        ensures
            n == self.recs().len(),
    {
        self.records.len()
    }

    /// Removes the record with the given identifier, returning it if it was
    /// present. A missing identifier is a normal outcome, not an error, and
    /// after the call no record with that identifier remains — so deleting
    /// the same identifier twice always reports absence the second time.
    pub fn delete_memory(&mut self, id: u64) -> (r: Option<Memory>)
        requires
            old(self).wf(),
        ensures
            final(self).wf(),
            final(self).nid() == old(self).nid(),
            !contains_id(final(self).recs(), id),
            match r {
                Option::Some(m) => contains_id(old(self).recs(), id) && exists|i: int|
                    0 <= i < old(self).recs().len() && old(self).recs()[i].id == id && m@ == old(
                        self,
                    ).recs()[i] && final(self).recs() == old(self).recs().remove(i),
                Option::None => !contains_id(old(self).recs(), id) && final(self).recs() == old(
                    self,
                ).recs(),
            },
    {
        let mut i: usize = 0;
        while i < self.records.len()
            invariant
                0 <= i <= self.records@.len(),
                *self == *old(self),
                old(self).wf(),
                forall|t: int| 0 <= t < i ==> (#[trigger] self.recs()[t]).id != id,
            decreases self.records@.len() - i,
        {
            if self.records[i].id == id {
                let m = self.records.remove(i);
                proof {
                    let ghost prior = old(self).recs();
                    assert(m@ == prior[i as int]);
                    assert(self.recs() =~= prior.remove(i as int));
                    assert forall|t: int|
                        0 <= t < self.recs().len() implies (#[trigger] self.recs()[t]).id
                        != id by {
                        if t < i {
                            assert(self.recs()[t] == prior[t]);
                        } else {
                            assert(self.recs()[t] == prior[t + 1]);
                            assert(prior[i as int].id < prior[t + 1].id);
                        }
                    }
                }
                return Option::Some(m);
            }
            i = i + 1;
        }
        proof {
            assert(!contains_id(self.recs(), id));
        }
        Option::None
    }

    /// Returns the requested page of records matching the facet filters,
    /// ordered by creation time descending, storage order among equal
    /// timestamps. Pages are 1-indexed; a page at or below 1 starts at the
    /// first match, and a page beyond the matches is empty.
    pub fn get_memories_paginated(
        &self,
        page: usize,
        per_page: usize,
        tag: Option<&String>,
        source: Option<&String>,
    ) -> (r: Vec<Memory>)
        ensures
            ({
                let ord = ordered_matches(self.recs(), opt_ref_view(tag), opt_ref_view(source));
                let st = page_start(page as int, per_page as int, ord.len() as int);
                let en = page_end(page as int, per_page as int, ord.len() as int);
                &&& r@.len() == en - st
                &&& forall|i: int|
                    0 <= i < r@.len() ==> (#[trigger] r@[i])@ == self.recs()[ord[st + i].1 as int]
            }),
    {
        broadcast use vstd::seq_lib::group_to_multiset_ensures;

        let ghost sviews = self.recs();
        let ghost tv = opt_ref_view(tag);
        let ghost sv = opt_ref_view(source);
        let ghost pred = filter_pred(sviews, tv, sv);
        let n = self.records.len();
        let mut pairs: Vec<(i128, usize)> = Vec::new();
        let mut i: usize = 0;
        proof {
            assert(time_pairs(sviews).take(0) =~= Seq::<(i128, usize)>::empty());
            assert(Seq::<(i128, usize)>::empty().filter(pred) =~= Seq::<(i128, usize)>::empty())
                by {
                reveal(Seq::filter);
            }
            assert(pairs@ =~= time_pairs(sviews).take(0).filter(pred));
        }
        while i < n
            invariant
                0 <= i <= n,
                n == self.records@.len(),
                sviews == self.recs(),
                tv == opt_ref_view(tag),
                sv == opt_ref_view(source),
                pred == filter_pred(sviews, tv, sv),
                pairs@ == time_pairs(sviews).take(i as int).filter(pred),
            decreases n - i,
        {
            broadcast use Seq::lemma_filter_push;

            let keep = record_matches(&self.records[i], tag, source);
            proof {
                assert(sviews[i as int] == self.records@[i as int]@);
                assert(time_pairs(sviews)[i as int] == (
                    sviews[i as int].created_at as i128,
                    i as usize,
                ));
                assert(time_pairs(sviews).take(i as int + 1) =~= time_pairs(sviews).take(
                    i as int,
                ).push((sviews[i as int].created_at as i128, i as usize)));
            }
            if keep {
                pairs.push((self.records[i].created_at as i128, i));
            }
            i = i + 1;
        }
        proof {
            assert(time_pairs(sviews).take(n as int) =~= time_pairs(sviews));
        }
        let sorted = sort_pairs(&pairs);
        proof {
            crate::ranking::lemma_rank_total();
            pairs@.lemma_sort_by_ensures(rank_leq());
            assert(sorted@.len() == sorted@.to_multiset().len());
            assert(pairs@.len() == pairs@.to_multiset().len());
            assert forall|t: int| 0 <= t < sorted@.len() implies pred(#[trigger] sorted@[t]) by {
                assert(sorted@.contains(sorted@[t]));
                assert(sorted@.to_multiset().count(sorted@[t]) > 0);
                assert(pairs@.to_multiset().count(sorted@[t]) > 0);
                assert(pairs@.contains(sorted@[t]));
                let w = choose|w: int| 0 <= w < pairs@.len() && pairs@[w] == sorted@[t];
                time_pairs(sviews).lemma_filter_pred(pred, w);
            }
        }
        let flen = sorted.len();
        let start: usize = if page >= 1 {
            match (page - 1).checked_mul(per_page) {
                Option::Some(o) => if o <= flen {
                    o
                } else {
                    flen
                },
                Option::None => flen,
            }
        } else {
            0
        };
        proof {
            assert(start as int == page_start(page as int, per_page as int, flen as int));
        }
        let end: usize = match start.checked_add(per_page) {
            Option::Some(e) => if e <= flen {
                e
            } else {
                flen
            },
            Option::None => flen,
        };
        proof {
            assert(end as int == page_end(page as int, per_page as int, flen as int));
        }
        let mut out: Vec<Memory> = Vec::new();
        let mut j: usize = start;
        while j < end
            invariant
                start <= j <= end,
                end <= sorted@.len(),
                n == self.records@.len(),
                sviews == self.recs(),
                pred == filter_pred(sviews, tv, sv),
                sorted@ == ordered_matches(sviews, tv, sv),
                forall|t: int| 0 <= t < sorted@.len() ==> pred(#[trigger] sorted@[t]),
                out@.len() == j - start,
                forall|t: int|
                    0 <= t < out@.len() ==> (#[trigger] out@[t])@ == sviews[sorted@[start
                        + t].1 as int],
            decreases end - j,
        {
            let (c, idx) = sorted[j];
            proof {
                assert(pred(sorted@[j as int]));
            }
            out.push(self.records[idx].duplicate());
            j = j + 1;
        }
        out
    }

    /// The texts of the most recent records, newest first, capped at
    /// `TEXT_LIMIT`; they are the input to profile synthesis.
    pub fn get_all_texts(&self) -> (r: Vec<String>)
        ensures
            ({
                let ord = by_recency(self.recs());
                let m = if TEXT_LIMIT as int <= ord.len() {
                    TEXT_LIMIT as int
                } else {
                    ord.len() as int
                };
                &&& r@.len() == m
                &&& forall|i: int|
                    0 <= i < r@.len() ==> (#[trigger] r@[i])@ == self.recs()[ord[i].1 as int].text
            }),
    {
        broadcast use vstd::seq_lib::group_to_multiset_ensures;

        let ghost sviews = self.recs();
        let n = self.records.len();
        let mut pairs: Vec<(i128, usize)> = Vec::new();
        let mut i: usize = 0;
        proof {
            assert(pairs@ =~= time_pairs(sviews).take(0));
        }
        while i < n
            invariant
                0 <= i <= n,
                n == self.records@.len(),
                sviews == self.recs(),
                pairs@ == time_pairs(sviews).take(i as int),
            decreases n - i,
        {
            pairs.push((self.records[i].created_at as i128, i));
            proof {
                assert(sviews[i as int] == self.records@[i as int]@);
                assert(pairs@ =~= time_pairs(sviews).take(i as int + 1));
            }
            i = i + 1;
        }
        proof {
            assert(time_pairs(sviews).take(n as int) =~= time_pairs(sviews));
        }
        let sorted = sort_pairs(&pairs);
        proof {
            crate::ranking::lemma_rank_total();
            pairs@.lemma_sort_by_ensures(rank_leq());
            assert(sorted@.len() == sorted@.to_multiset().len());
            assert(pairs@.len() == pairs@.to_multiset().len());
            assert forall|t: int| 0 <= t < sorted@.len() implies 0 <= (
            #[trigger] sorted@[t]).1 < n by {
                assert(sorted@.contains(sorted@[t]));
                assert(sorted@.to_multiset().count(sorted@[t]) > 0);
                assert(pairs@.to_multiset().count(sorted@[t]) > 0);
                assert(pairs@.contains(sorted@[t]));
                let w = choose|w: int| 0 <= w < pairs@.len() && pairs@[w] == sorted@[t];
                assert(time_pairs(sviews)[w].1 == w as usize);
            }
        }
        let m: usize = if TEXT_LIMIT < sorted.len() {
            TEXT_LIMIT
        } else {
            sorted.len()
        };
        let mut out: Vec<String> = Vec::new();
        let mut j: usize = 0;
        while j < m
            invariant
                0 <= j <= m,
                m <= sorted@.len(),
                m == if TEXT_LIMIT as int <= by_recency(sviews).len() {
                    TEXT_LIMIT as int
                } else {
                    by_recency(sviews).len() as int
                },
                n == self.records@.len(),
                sviews == self.recs(),
                sorted@ == by_recency(sviews),
                forall|t: int| 0 <= t < sorted@.len() ==> 0 <= (#[trigger] sorted@[t]).1 < n,
                out@.len() == j,
                forall|t: int|
                    0 <= t < out@.len() ==> (#[trigger] out@[t])@ == sviews[sorted@[t].1 as int].text,
            decreases m - j,
        {
            let (c, idx) = sorted[j];
            out.push(self.records[idx].text.clone());
            proof {
                assert(self.records@[idx as int].text@ == sviews[idx as int].text);
            }
            j = j + 1;
        }
        out
    }

    /// Tag frequencies across all records, ordered by count descending;
    /// a record counts once per distinct tag it carries.
    pub fn get_tag_counts(&self) -> (r: Vec<(String, usize)>)
        ensures
            crate::aggregate::counts_post(self.recs(), r@),
    {
        crate::aggregate::tag_counts_of(&self.records)
    }

    /// Source-label frequencies across all records, ordered by count
    /// descending; records without a source contribute to no bucket.
    pub fn get_source_counts(&self) -> (r: Vec<(String, usize)>)
        ensures
            crate::aggregate::counts_post(
                crate::aggregate::sources_view(self.recs()),
                r@,
            ),
    {
        crate::aggregate::source_counts_of(&self.records)
    }
}

} // verus!
