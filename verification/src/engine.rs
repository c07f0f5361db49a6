//! Request-level decisions of the engine: input validation, limit and
//! page clamping, the search pipeline over the store, statistics
//! assembly, bulk-create tallying, and error texts. The transport only
//! moves bytes; every decision it acts on is made here.

use vstd::prelude::*;
use crate::aggregate::{count_order, distinct_tags, sources_view, tag_occurrences};
use crate::math::embedding_wf;
use crate::models::{
    BulkResponse, EngineError, MemoryView, SearchResult, SourceCount, StatsResponse, TagCount,
};
use crate::ranking::{rank, rank_len, ranked_pairs, views_of};
use crate::store::MemoryStore;
use crate::textfmt::{decimal_chars, push_decimal, push_decimal_usize, trim_of, trim_str};

verus! {

/// Results returned by a search when the caller names no cap.
pub const DEFAULT_SEARCH_LIMIT: usize = 5;

/// Hard ceiling on the number of search results.
pub const MAX_SEARCH_LIMIT: usize = 50;

/// Page number assumed when the caller names none.
pub const DEFAULT_PAGE: usize = 1;

/// Records per page when the caller names none.
pub const DEFAULT_PAGE_SIZE: usize = 20;

/// Hard ceiling on records per page.
pub const MAX_PAGE_SIZE: usize = 100;

/// The effective search cap: the requested one held to the ceiling, or
/// the default when none was requested.
pub open spec fn clamp_spec(limit: Option<usize>) -> usize {
    match limit {
        Option::Some(l) => if l <= MAX_SEARCH_LIMIT {
            l
        } else {
            MAX_SEARCH_LIMIT
        },
        Option::None => DEFAULT_SEARCH_LIMIT,
    }
}

/// Holds a requested search cap to the engine's ceiling.
pub fn clamp_limit(limit: Option<usize>) -> (r: usize)
    ensures
        r == clamp_spec(limit),
{
    match limit {
        Option::Some(l) => if l <= MAX_SEARCH_LIMIT {
            l
        } else {
            MAX_SEARCH_LIMIT
        },
        Option::None => DEFAULT_SEARCH_LIMIT,
    }
}

/// The effective page and page size for a listing request.
pub fn page_params(page: Option<usize>, per_page: Option<usize>) -> (r: (usize, usize))
    ensures
        r.0 == match page {
            Option::Some(p) => p,
            Option::None => DEFAULT_PAGE,
        },
        r.1 == match per_page {
            Option::Some(pp) => if pp <= MAX_PAGE_SIZE {
                pp
            } else {
                MAX_PAGE_SIZE
            },
            Option::None => DEFAULT_PAGE_SIZE,
        },
{
    let p = match page {
        Option::Some(p) => p,
        Option::None => DEFAULT_PAGE,
    };
    let pp = match per_page {
        Option::Some(pp) => if pp <= MAX_PAGE_SIZE {
            pp
        } else {
            MAX_PAGE_SIZE
        },
        Option::None => DEFAULT_PAGE_SIZE,
    };
    (p, pp)
}

/// Whether a submitted text is acceptable: it must hold something besides
/// whitespace. Validation happens before any embedding or storage work.
pub fn is_valid_text(text: &str) -> (r: bool)
    ensures
        r == (trim_of(text@).len() != 0),
        text@.len() == 0 ==> r == false,
{
    let trimmed = trim_str(text);
    !trimmed.as_str().is_empty()
}

/// Ranks the whole store against a query embedding and returns the top
/// results, at most the clamped limit, ties keeping the earlier record.
pub fn search_memories(store: &MemoryStore, query_embedding: &Vec<i32>, limit: Option<usize>) -> (out: Vec<
    SearchResult,
>)
    requires
        store.wf(),
        embedding_wf(query_embedding@),
    ensures
        out@.len() == rank_len(clamp_spec(limit) as int, store.recs().len() as int),
        forall|i: int|
            0 <= i < out@.len() ==> {
                let p = ranked_pairs(query_embedding@, store.recs())[i];
                &&& (#[trigger] out@[i]).score as int == p.0 as int
                &&& 0 <= p.1 < store.recs().len()
                &&& crate::models::is_response_of(out@[i].memory, store.recs()[p.1 as int])
            },
        forall|i: int, j: int|
            0 <= i < j < out@.len() ==> (#[trigger] out@[i]).score >= (#[trigger] out@[j]).score,
{
    let k = clamp_limit(limit);
    let all = store.get_all_memories();
    proof {
        assert forall|i: int| 0 <= i < all@.len() implies (#[trigger] all@[i]).wf() by {
            assert(views_of(all@)[i] == all@[i]@);
            assert(embedding_wf(store.recs()[i].embedding));
        }
    }
    let out = rank(query_embedding, &all, k);
    proof {
        assert(views_of(all@) == store.recs());
    }
    out
}

/// Statistics rows for tags: the canonical facet listing rendered as
/// `TagCount` rows.
pub open spec fn tag_rows_post(sv: Seq<MemoryView>, rows: Seq<TagCount>) -> bool {
    &&& rows.len() == distinct_tags(sv).len()
    &&& forall|t: int|
        0 <= t < rows.len() ==> (#[trigger] rows[t]).tag@ == distinct_tags(sv)[count_order(
            sv,
        )[t].1 as int]
    &&& forall|t: int|
        0 <= t < rows.len() ==> (#[trigger] rows[t]).count == tag_occurrences(
            sv,
            distinct_tags(sv)[count_order(sv)[t].1 as int],
        )
}

/// Statistics rows for sources, over the records reduced to their source
/// labels.
pub open spec fn source_rows_post(sv: Seq<MemoryView>, rows: Seq<SourceCount>) -> bool {
    let red = sources_view(sv);
    &&& rows.len() == distinct_tags(red).len()
    &&& forall|t: int|
        0 <= t < rows.len() ==> (#[trigger] rows[t]).source@ == distinct_tags(red)[count_order(
            red,
        )[t].1 as int]
    &&& forall|t: int|
        0 <= t < rows.len() ==> (#[trigger] rows[t]).count == tag_occurrences(
            red,
            distinct_tags(red)[count_order(red)[t].1 as int],
        )
}

/// Assembles the statistics reply: the total record count and the tag and
/// source listings, each ordered by count descending.
pub fn build_stats(store: &MemoryStore) -> (r: StatsResponse)
    ensures
        r.total_memories == store.recs().len(),
        tag_rows_post(store.recs(), r.tags@),
        source_rows_post(store.recs(), r.sources@),
{
    let total = store.count_memories();
    let tc = store.get_tag_counts();
    let mut tags: Vec<TagCount> = Vec::new();
    let mut i: usize = 0;
    while i < tc.len()
        invariant
            0 <= i <= tc@.len(),
            crate::aggregate::counts_post(store.recs(), tc@),
            tags@.len() == i,
            forall|t: int|
                0 <= t < i ==> (#[trigger] tags@[t]).tag@ == tc@[t].0@ && tags@[t].count
                    == tc@[t].1,
        decreases tc@.len() - i,
    {
        tags.push(TagCount { tag: tc[i].0.clone(), count: tc[i].1 });
        i = i + 1;
    }
    let sc = store.get_source_counts();
    let mut sources: Vec<SourceCount> = Vec::new();
    let mut j: usize = 0;
    while j < sc.len()
        invariant
            0 <= j <= sc@.len(),
            crate::aggregate::counts_post(sources_view(store.recs()), sc@),
            sources@.len() == j,
            forall|t: int|
                0 <= t < j ==> (#[trigger] sources@[t]).source@ == sc@[t].0@ && sources@[t].count
                    == sc@[t].1,
        decreases sc@.len() - j,
    {
        sources.push(SourceCount { source: sc[j].0.clone(), count: sc[j].1 });
        j = j + 1;
    }
    proof {
        assert forall|t: int| 0 <= t < tags@.len() implies (#[trigger] tags@[t]).tag@
            == distinct_tags(store.recs())[count_order(store.recs())[t].1 as int] by {
            assert(tc@[t] == tc@[t]);
        }
        assert forall|t: int| 0 <= t < sources@.len() implies (#[trigger] sources@[t]).source@
            == distinct_tags(sources_view(store.recs()))[count_order(
            sources_view(store.recs()),
        )[t].1 as int] by {
            assert(sc@[t] == sc@[t]);
        }
    }
    StatsResponse { total_memories: total, tags, sources }
}

/// The bulk-create error line for an item whose text was empty.
pub open spec fn bulk_empty_text_message(i: int) -> Seq<char> {
    "Item "@ + decimal_chars(i) + ": empty text"@
}

/// The bulk-create error line for an item whose embedding call failed.
pub open spec fn bulk_embed_failure_message(i: int, err: Seq<char>) -> Seq<char> {
    "Item "@ + decimal_chars(i) + ": embedding failed: "@ + err
}

/// A fresh bulk-create tally: nothing created, nothing failed.
pub fn bulk_new() -> (b: BulkResponse)
    ensures
        b.created == 0,
        b.failed == 0,
        b.errors@ == Seq::<String>::empty(),
{
    let b = BulkResponse { created: 0, failed: 0, errors: Vec::new() };
    proof {
        assert(b.errors@ =~= Seq::<String>::empty());
    }
    b
}

/// Notes one successfully created item.
pub fn bulk_note_created(b: &mut BulkResponse)
    requires
        old(b).created < usize::MAX,
    ensures
        final(b).created == old(b).created + 1,
        final(b).failed == old(b).failed,
        final(b).errors@ == old(b).errors@,
{
    b.created = b.created + 1;
}

/// Notes one rejected item: its text was empty, so it was neither
/// embedded nor stored. The failure is tallied and an error line recorded;
/// the batch goes on.
pub fn bulk_note_empty_text(b: &mut BulkResponse, index: usize)
    requires
        old(b).failed < usize::MAX,
    ensures
        final(b).created == old(b).created,
        final(b).failed == old(b).failed + 1,
        final(b).errors@.len() == old(b).errors@.len() + 1,
        final(b).errors@.take(old(b).errors@.len() as int) == old(b).errors@,
        final(b).errors@.last()@ == bulk_empty_text_message(index as int),
{
    let mut msg = String::from_str("Item ");
    push_decimal_usize(&mut msg, index);
    msg.append(": empty text");
    b.errors.push(msg);
    b.failed = b.failed + 1;
    proof {
        assert(b.errors@.take(old(b).errors@.len() as int) =~= old(b).errors@);
    }
}

/// Notes one item whose embedding call failed; the failure is tallied, an
/// error line records the upstream message, and the batch goes on.
pub fn bulk_note_embed_failure(b: &mut BulkResponse, index: usize, err: &String)
    requires
        old(b).failed < usize::MAX,
    ensures
        final(b).created == old(b).created,
        final(b).failed == old(b).failed + 1,
        final(b).errors@.len() == old(b).errors@.len() + 1,
        final(b).errors@.take(old(b).errors@.len() as int) == old(b).errors@,
        final(b).errors@.last()@ == bulk_embed_failure_message(index as int, err@),
{
    let mut msg = String::from_str("Item ");
    push_decimal_usize(&mut msg, index);
    msg.append(": embedding failed: ");
    msg.append(err.as_str());
    b.errors.push(msg);
    b.failed = b.failed + 1;
    proof {
        assert(b.errors@.take(old(b).errors@.len() as int) =~= old(b).errors@);
    }
}

/// The bulk-create error line for an item the store refused to persist.
pub open spec fn bulk_store_failure_message(i: int, err: Seq<char>) -> Seq<char> {
    "Item "@ + decimal_chars(i) + ": "@ + err
}

/// Notes one item the store could not persist; the failure is tallied, an
/// error line records the store's message, and the batch goes on.
pub fn bulk_note_store_failure(b: &mut BulkResponse, index: usize, err: &String)
    requires
        old(b).failed < usize::MAX,
    ensures
        final(b).created == old(b).created,
        final(b).failed == old(b).failed + 1,
        final(b).errors@.len() == old(b).errors@.len() + 1,
        final(b).errors@.take(old(b).errors@.len() as int) == old(b).errors@,
        final(b).errors@.last()@ == bulk_store_failure_message(index as int, err@),
{
    let mut msg = String::from_str("Item ");
    push_decimal_usize(&mut msg, index);
    msg.append(": ");
    msg.append(err.as_str());
    b.errors.push(msg);
    b.failed = b.failed + 1;
    proof {
        assert(b.errors@.take(old(b).errors@.len() as int) =~= old(b).errors@);
    }
}

/// The text of each engine failure, for the transport layer to report.
pub open spec fn error_message_view(e: EngineError) -> Seq<char> {
    match e {
        EngineError::ValidationError(m) => m@,
        EngineError::UpstreamUnavailable(m) => "failed to reach the inference service: "@ + m@,
        EngineError::UpstreamError { status, body } => "inference request failed ("@
            + decimal_chars(status as int) + "): "@ + body@,
        EngineError::UpstreamProtocolError(m) => "malformed inference response: "@ + m@,
        EngineError::PersistenceError(m) => "storage failure: "@ + m@,
        EngineError::IntegrityError(m) => "no record returned after creation: "@ + m@,
        EngineError::NotFound => "not found"@,
    }
}

impl EngineError {
    /// Renders the failure as text.
    pub fn message(&self) -> (r: String)
        ensures
            r@ == error_message_view(*self),
    {
        match self {
            EngineError::ValidationError(m) => m.clone(),
            EngineError::UpstreamUnavailable(m) => {
                let mut s = String::from_str("failed to reach the inference service: ");
                s.append(m.as_str());
                s
            },
            EngineError::UpstreamError { status, body } => {
                let mut s = String::from_str("inference request failed (");
                push_decimal(&mut s, *status as u64);
                s.append("): ");
                s.append(body.as_str());
                proof {
                    assert(s@ =~= error_message_view(*self));
                }
                s
            },
            EngineError::UpstreamProtocolError(m) => {
                let mut s = String::from_str("malformed inference response: ");
                s.append(m.as_str());
                s
            },
            EngineError::PersistenceError(m) => {
                let mut s = String::from_str("storage failure: ");
                s.append(m.as_str());
                s
            },
            EngineError::IntegrityError(m) => {
                let mut s = String::from_str("no record returned after creation: ");
                s.append(m.as_str());
                s
            },
            EngineError::NotFound => String::from_str("not found"),
        }
    }
}

} // verus!
