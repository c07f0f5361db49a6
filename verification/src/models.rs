//! Record and API data types of the memory engine, and the error taxonomy.

use vstd::prelude::*;
use crate::math::embedding_wf;
use crate::textfmt::{decimal_chars, u64_to_string};

verus! {

/// A persisted memory record. `id` is assigned by the store and never
/// reused; `text` is non-empty after validation; `embedding` is the
/// fixed-point vector attached at write time. The engine has no update
/// path, so `created_at` and `updated_at` always coincide.
#[derive(Debug, Clone, PartialEq)]
pub struct Memory {
    pub id: u64,
    pub text: String,
    pub tags: Vec<String>,
    pub source: Option<String>,
    pub embedding: Vec<i32>,
    pub created_at: i64,
    pub updated_at: i64,
}

/// Copies a vector of strings element by element.
pub fn clone_string_vec(v: &Vec<String>) -> (r: Vec<String>)
    ensures
        r@ == v@,
{
    let mut r: Vec<String> = Vec::new();
    let mut i: usize = 0;
    while i < v.len()
        invariant
            0 <= i <= v@.len(),
            r@ == v@.take(i as int),
        decreases v@.len() - i,
    {
        r.push(v[i].clone());
        proof {
            assert(r@ =~= v@.take(i as int + 1));
        }
        i = i + 1;
    }
    proof {
        assert(v@.take(v@.len() as int) =~= v@);
    }
    r
}

/// Copies a vector of fixed-point coordinates.
pub fn clone_i32_vec(v: &Vec<i32>) -> (r: Vec<i32>)
    ensures
        r@ == v@,
{
    let mut r: Vec<i32> = Vec::new();
    let mut i: usize = 0;
    while i < v.len()
        invariant
            0 <= i <= v@.len(),
            r@ == v@.take(i as int),
        decreases v@.len() - i,
    {
        r.push(v[i]);
        proof {
            assert(r@ =~= v@.take(i as int + 1));
        }
        i = i + 1;
    }
    proof {
        assert(v@.take(v@.len() as int) =~= v@);
    }
    r
}

/// Copies an optional string.
pub fn clone_opt_string(o: &Option<String>) -> (r: Option<String>)
    ensures
        r == *o,
{
    match o {
        Option::None => Option::None,
        Option::Some(s) => Option::Some(s.clone()),
    }
}

/// The view of an optional string.
pub open spec fn opt_view(o: Option<String>) -> Option<Seq<char>> {
    match o {
        Option::None => Option::None,
        Option::Some(s) => Option::Some(s@),
    }
}

/// The mathematical abstraction of a stored record.
#[verifier::ext_equal]
pub ghost struct MemoryView {
    pub id: u64,
    pub text: Seq<char>,
    pub tags: Seq<Seq<char>>,
    pub source: Option<Seq<char>>,
    pub embedding: Seq<i32>,
    pub created_at: i64,
    pub updated_at: i64,
}

impl View for Memory {
    type V = MemoryView;

    open spec fn view(&self) -> MemoryView {
        MemoryView {
            id: self.id,
            text: self.text@,
            tags: self.tags.deep_view(),
            source: opt_view(self.source),
            embedding: self.embedding@,
            created_at: self.created_at,
            updated_at: self.updated_at,
        }
    }
}

impl Memory {
    /// A record is well formed when its embedding respects the engine's
    /// dimension and coordinate ceilings.
    pub open spec fn wf(self) -> bool {
        embedding_wf(self.embedding@)
    }

    /// Returns an exact copy of the record; the store hands out copies,
    /// never live references.
    pub fn duplicate(&self) -> (r: Memory)
        ensures
            r@ == self@,
            r.wf() == self.wf(),
    {
        let r = Memory {
            id: self.id,
            text: self.text.clone(),
            tags: clone_string_vec(&self.tags),
            source: clone_opt_string(&self.source),
            embedding: clone_i32_vec(&self.embedding),
            created_at: self.created_at,
            updated_at: self.updated_at,
        };
        proof {
            assert(r.tags.deep_view() =~= self.tags.deep_view());
            assert(r@ =~= self@);
        }
        r
    }
}

/// A memory record in presentation form: the identifier is rendered in
/// decimal and the embedding is not exposed.
#[derive(Debug, Clone, PartialEq)]
pub struct MemoryResponse {
    pub id: String,
    pub text: String,
    pub tags: Vec<String>,
    pub source: Option<String>,
    pub created_at: i64,
    pub updated_at: i64,
}

/// The presentation form `r` faithfully renders the record `m`.
pub open spec fn is_response_of(r: MemoryResponse, m: MemoryView) -> bool {
    &&& r.id@ == decimal_chars(m.id as int)
    &&& r.text@ == m.text
    &&& r.tags.deep_view() == m.tags
    &&& opt_view(r.source) == m.source
    &&& r.created_at == m.created_at
    &&& r.updated_at == m.updated_at
}

impl MemoryResponse {
    /// Renders a record for presentation.
    pub fn from_memory(m: Memory) -> (r: MemoryResponse)
        ensures
            is_response_of(r, m@),
    {
        MemoryResponse {
            id: u64_to_string(m.id),
            text: m.text,
            tags: m.tags,
            source: m.source,
            created_at: m.created_at,
            updated_at: m.updated_at,
        }
    }
}

/// One ranked search hit: a record in presentation form and its
/// fixed-point cosine score.
#[derive(Debug, Clone, PartialEq)]
pub struct SearchResult {
    pub memory: MemoryResponse,
    pub score: i64,
}

/// Request to create a single memory.
#[derive(Debug, Clone, PartialEq)]
pub struct CreateMemoryRequest {
    pub text: String,
    pub tags: Vec<String>,
    pub source: Option<String>,
}

/// Request to create several memories in one call.
#[derive(Debug, Clone, PartialEq)]
pub struct BulkCreateRequest {
    pub memories: Vec<CreateMemoryRequest>,
}

/// Search parameters: the query text and an optional result cap.
#[derive(Debug, Clone, PartialEq)]
pub struct SearchQuery {
    pub q: String,
    pub limit: Option<usize>,
}

/// Listing parameters: 1-indexed page, page size, and optional facet
/// filters.
#[derive(Debug, Clone, PartialEq)]
pub struct ListQuery {
    pub page: Option<usize>,
    pub per_page: Option<usize>,
    pub tag: Option<String>,
    pub source: Option<String>,
}

/// One tag together with the number of records carrying it.
#[derive(Debug, Clone, PartialEq)]
pub struct TagCount {
    pub tag: String,
    pub count: usize,
}

/// One source label together with the number of records carrying it.
#[derive(Debug, Clone, PartialEq)]
pub struct SourceCount {
    pub source: String,
    pub count: usize,
}

/// Store-wide statistics.
#[derive(Debug, Clone, PartialEq)]
pub struct StatsResponse {
    pub total_memories: usize,
    pub tags: Vec<TagCount>,
    pub sources: Vec<SourceCount>,
}

/// A synthesized profile and the number of texts it rests on.
#[derive(Debug, Clone, PartialEq)]
pub struct ProfileResponse {
    pub profile: String,
    pub memory_count: usize,
}

/// Outcome tally of a bulk create: per-item failures never abort the batch.
#[derive(Debug, Clone, PartialEq)]
pub struct BulkResponse {
    pub created: usize,
    pub failed: usize,
    pub errors: Vec<String>,
}

/// Body of an embedding call to the inference service.
#[derive(Debug, Clone, PartialEq)]
pub struct OllamaEmbedRequest {
    pub model: String,
    pub input: String,
}

/// Reply of an embedding call, already quantized to fixed point.
#[derive(Debug, Clone, PartialEq)]
pub struct OllamaEmbedResponse {
    pub embeddings: Vec<Vec<i32>>,
}

/// Body of a generation call to the inference service; the engine never
/// streams.
#[derive(Debug, Clone, PartialEq)]
pub struct OllamaGenerateRequest {
    pub model: String,
    pub prompt: String,
    pub stream: bool,
}

/// Reply of a generation call.
#[derive(Debug, Clone, PartialEq)]
pub struct OllamaGenerateResponse {
    pub response: String,
}

/// Failures the engine can surface. Validation failures are raised before
/// any I/O; upstream failures carry what the inference service reported;
/// store failures are kept for backends that can refuse writes. A missing
/// record on delete is a normal outcome, not an error.
#[derive(Debug, Clone, PartialEq)]
pub enum EngineError {
    ValidationError(String),
    UpstreamUnavailable(String),
    UpstreamError { status: u16, body: String },
    UpstreamProtocolError(String),
    PersistenceError(String),
    IntegrityError(String),
    NotFound,
}

/// Generic envelope for API replies.
#[derive(Debug, Clone, PartialEq)]
pub struct ApiResponse<T> {
    pub ok: bool,
    pub data: Option<T>,
    pub error: Option<String>,
}

impl<T> ApiResponse<T> {
    /// Wraps a successful payload.
    pub fn success(data: T) -> (r: ApiResponse<T>)
        ensures
            r.ok == true,
            r.data == Option::Some(data),
            r.error == Option::<String>::None,
    {
        ApiResponse { ok: true, data: Option::Some(data), error: Option::None }
    }

    /// Wraps an error message.
    pub fn error(msg: String) -> (r: ApiResponse<T>)
        ensures
            r.ok == false,
            r.data == Option::<T>::None,
            r.error == Option::Some(msg),
    {
        ApiResponse { ok: false, data: Option::None, error: Option::Some(msg) }
    }
}

} // verus!
