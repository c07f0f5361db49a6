use memorai::config::{api_url, search_url, Config};
use memorai::engine::{
    build_stats, bulk_new, bulk_note_created, bulk_note_embed_failure, bulk_note_empty_text,
    bulk_note_store_failure, clamp_limit, is_valid_text, page_params, search_memories,
};
use memorai::models::{
    ApiResponse, BulkCreateRequest, CreateMemoryRequest, EngineError, ListQuery, MemoryResponse,
    OllamaEmbedResponse, SearchQuery, TagCount,
};
use memorai::ollama::{classify_status, first_embedding, generate_request, EmbeddingClient};
use memorai::store::MemoryStore;
use memorai::textfmt::u64_to_string;

fn default_config() -> Config {
    Config::resolve(None, None, None, None, None, None)
}

#[test]
fn limits_are_clamped() {
    assert_eq!(clamp_limit(None), 5);
    assert_eq!(clamp_limit(Some(7)), 7);
    assert_eq!(clamp_limit(Some(50)), 50);
    assert_eq!(clamp_limit(Some(99)), 50);
}

#[test]
fn page_params_have_defaults_and_ceiling() {
    let defaults = ListQuery { page: None, per_page: None, tag: None, source: None };
    assert_eq!(page_params(defaults.page, defaults.per_page), (1, 20));
    assert_eq!(page_params(Some(3), Some(40)), (3, 40));
    assert_eq!(page_params(Some(2), Some(1000)), (2, 100));
    let q = SearchQuery { q: "anything".to_string(), limit: Some(80) };
    assert_eq!(clamp_limit(q.limit), 50);
}

#[test]
fn whitespace_only_text_is_rejected() {
    assert!(!is_valid_text(""));
    assert!(!is_valid_text("   \t\n"));
    assert!(is_valid_text("hello"));
    assert!(is_valid_text("  padded  "));
}

#[test]
fn status_classification_matches_http_success_range() {
    assert!(classify_status(200, String::new()).is_ok());
    assert!(classify_status(299, String::new()).is_ok());
    let err = classify_status(404, "missing".to_string()).unwrap_err();
    assert_eq!(err.message(), "inference request failed (404): missing");
    assert!(classify_status(500, String::new()).is_err());
}

#[test]
fn first_embedding_takes_the_first_vector() {
    let resp = OllamaEmbedResponse { embeddings: vec![vec![1, 2, 3], vec![9, 9]] };
    assert_eq!(first_embedding(resp).unwrap(), vec![1, 2, 3]);
}

#[test]
fn empty_embedding_reply_is_a_protocol_error() {
    let resp = OllamaEmbedResponse { embeddings: Vec::new() };
    let err = first_embedding(resp).unwrap_err();
    assert_eq!(err.message(), "malformed inference response: no embedding returned");
}

#[test]
fn oversized_embedding_is_a_protocol_error() {
    let resp = OllamaEmbedResponse { embeddings: vec![vec![0; 40000]] };
    let err = first_embedding(resp).unwrap_err();
    assert_eq!(
        err.message(),
        "malformed inference response: embedding dimension out of range"
    );
    let resp = OllamaEmbedResponse { embeddings: vec![vec![1, 20_000_000, 2]] };
    let err = first_embedding(resp).unwrap_err();
    assert_eq!(
        err.message(),
        "malformed inference response: embedding coordinate out of range"
    );
}

#[test]
fn embedding_client_builds_requests() {
    let config = default_config();
    let client = EmbeddingClient::new(&config);
    assert_eq!(client.embed_url(), "http://localhost:11434/api/embed");
    let req = client.embed_request("remember me");
    assert_eq!(req.model, "mxbai-embed-large");
    assert_eq!(req.input, "remember me");
}

#[test]
fn generation_requests_never_stream() {
    let config = default_config();
    let req = generate_request(&config, "tell me".to_string());
    assert_eq!(req.model, "qwen2.5:14b");
    assert_eq!(req.prompt, "tell me");
    assert!(!req.stream);
}

#[test]
fn config_defaults_follow_documentation() {
    let c = default_config();
    assert_eq!(c.port, 8484);
    assert_eq!(c.ollama_url, "http://localhost:11434");
    assert_eq!(c.data_dir, "/tmp/.memorai/data");
    let custom = Config::resolve(
        Some(9000),
        Some("http://box:1".to_string()),
        None,
        None,
        None,
        Some("/home/u".to_string()),
    );
    assert_eq!(custom.port, 9000);
    assert_eq!(custom.ollama_url, "http://box:1");
    assert_eq!(custom.data_dir, "/home/u/.memorai/data");
}

#[test]
fn api_url_renders_the_port() {
    let c = default_config();
    assert_eq!(api_url(&c), "http://localhost:8484");
    let other = Config::resolve(Some(80), None, None, None, None, None);
    assert_eq!(api_url(&other), "http://localhost:80");
}

#[test]
fn search_url_percent_encodes_the_query() {
    let c = default_config();
    assert_eq!(
        search_url(&c, "a b&c", 5),
        "http://localhost:8484/v1/search?q=a%20b%26c&limit=5"
    );
}

#[test]
fn decimal_rendering_is_exact() {
    assert_eq!(u64_to_string(0), "0");
    assert_eq!(u64_to_string(8484), "8484");
    assert_eq!(u64_to_string(18446744073709551615), "18446744073709551615");
}

#[test]
fn memory_response_renders_id_in_decimal() {
    let mut store = MemoryStore::new();
    let m = store.create_memory_at("text".to_string(), Vec::new(), None, vec![1], 5);
    let resp = MemoryResponse::from_memory(m);
    assert_eq!(resp.id, "1");
    assert_eq!(resp.text, "text");
}

#[test]
fn api_response_wrappers() {
    let ok: ApiResponse<u32> = ApiResponse::success(7);
    assert!(ok.ok);
    assert_eq!(ok.data, Some(7));
    assert_eq!(ok.error, None);
    let bad: ApiResponse<u32> = ApiResponse::error("boom".to_string());
    assert!(!bad.ok);
    assert_eq!(bad.data, None);
    assert_eq!(bad.error.as_deref(), Some("boom"));
}

#[test]
fn error_messages_name_each_failure() {
    assert_eq!(EngineError::NotFound.message(), "not found");
    assert_eq!(
        EngineError::ValidationError("Text cannot be empty".to_string()).message(),
        "Text cannot be empty"
    );
    assert_eq!(
        EngineError::UpstreamUnavailable("connection refused".to_string()).message(),
        "failed to reach the inference service: connection refused"
    );
    assert_eq!(
        EngineError::PersistenceError("disk full".to_string()).message(),
        "storage failure: disk full"
    );
    assert_eq!(
        EngineError::IntegrityError("empty result".to_string()).message(),
        "no record returned after creation: empty result"
    );
}

#[test]
fn search_memories_ranks_the_store() {
    let mut store = MemoryStore::new();
    store.create_memory_at("east".to_string(), Vec::new(), None, vec![5, 0], 1);
    store.create_memory_at("match".to_string(), Vec::new(), None, vec![3, 4], 2);
    store.create_memory_at("north".to_string(), Vec::new(), None, vec![0, 7], 3);
    let out = search_memories(&store, &vec![3, 4], None);
    assert_eq!(out.len(), 3);
    assert_eq!(out[0].memory.text, "match");
    assert_eq!(out[0].score, 1_000_000);
    let capped = search_memories(&store, &vec![3, 4], Some(1));
    assert_eq!(capped.len(), 1);
}

#[test]
fn stats_combine_count_and_facets() {
    let mut store = MemoryStore::new();
    store.create_memory_at(
        "a".to_string(),
        vec!["t1".to_string(), "t2".to_string()],
        Some("src".to_string()),
        vec![1],
        1,
    );
    store.create_memory_at("b".to_string(), vec!["t1".to_string()], None, vec![1], 2);
    let stats = build_stats(&store);
    assert_eq!(stats.total_memories, 2);
    assert_eq!(stats.tags[0], TagCount { tag: "t1".to_string(), count: 2 });
    assert_eq!(stats.tags[1].tag, "t2");
    assert_eq!(stats.sources.len(), 1);
    assert_eq!(stats.sources[0].source, "src");
    assert_eq!(stats.sources[0].count, 1);
}

#[test]
fn bulk_create_isolates_failures() {
    // Three items, the second with empty text: it is rejected before any
    // embedding work, the others are embedded and stored.
    let request = BulkCreateRequest {
        memories: vec![
            CreateMemoryRequest { text: "hello".to_string(), tags: Vec::new(), source: None },
            CreateMemoryRequest { text: "   ".to_string(), tags: Vec::new(), source: None },
            CreateMemoryRequest { text: "world".to_string(), tags: Vec::new(), source: None },
        ],
    };
    let mut store = MemoryStore::new();
    let mut tally = bulk_new();
    for (i, item) in request.memories.into_iter().enumerate() {
        if !is_valid_text(&item.text) {
            bulk_note_empty_text(&mut tally, i);
            continue;
        }
        let embedding = vec![item.text.len() as i32, 1];
        store.create_memory_at(item.text, item.tags, item.source, embedding, i as i64);
        bulk_note_created(&mut tally);
    }
    assert_eq!(tally.created, 2);
    assert_eq!(tally.failed, 1);
    assert_eq!(tally.errors, vec!["Item 1: empty text".to_string()]);
    let texts: Vec<String> = store.get_all_memories().into_iter().map(|m| m.text).collect();
    assert_eq!(texts, vec!["hello".to_string(), "world".to_string()]);
}

#[test]
fn bulk_store_failure_is_recorded() {
    let mut tally = bulk_new();
    let refusal = EngineError::PersistenceError("identifier space exhausted".to_string());
    bulk_note_store_failure(&mut tally, 4, &refusal.message());
    assert_eq!(tally.failed, 1);
    assert_eq!(
        tally.errors,
        vec!["Item 4: storage failure: identifier space exhausted".to_string()]
    );
}

#[test]
fn bulk_embed_failure_is_recorded() {
    let mut tally = bulk_new();
    let upstream = EngineError::UpstreamUnavailable("connection refused".to_string());
    bulk_note_embed_failure(&mut tally, 2, &upstream.message());
    assert_eq!(tally.created, 0);
    assert_eq!(tally.failed, 1);
    assert_eq!(
        tally.errors,
        vec![
            "Item 2: embedding failed: failed to reach the inference service: connection refused"
                .to_string()
        ]
    );
}
