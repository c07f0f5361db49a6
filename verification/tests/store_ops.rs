use memorai::store::MemoryStore;

fn seeded_store(n: u64) -> MemoryStore {
    let mut store = MemoryStore::new();
    for k in 1..=n {
        store.create_memory_at(
            format!("m{}", k),
            Vec::new(),
            None,
            vec![k as i32, 1],
            k as i64,
        );
    }
    store
}

#[test]
fn create_assigns_ids_and_equal_timestamps() {
    let mut store = MemoryStore::new();
    let a = store.create_memory_at("one".to_string(), vec!["t".to_string()], None, vec![1], 10);
    let b = store.create_memory_at("two".to_string(), Vec::new(), Some("s".to_string()), vec![2], 11);
    assert_eq!(a.id, 1);
    assert_eq!(b.id, 2);
    assert_eq!(a.created_at, a.updated_at);
    assert_eq!(a.text, "one");
    assert_eq!(b.source.as_deref(), Some("s"));
    assert_eq!(store.count_memories(), 2);
}

#[test]
fn create_with_clock_stamps_equal_timestamps() {
    let mut store = MemoryStore::new();
    let m = store.create_memory("now".to_string(), Vec::new(), None, vec![3]);
    assert_eq!(m.created_at, m.updated_at);
    assert_eq!(store.count_memories(), 1);
}

#[test]
fn pagination_returns_second_page_newest_first() {
    let store = seeded_store(25);
    let page = store.get_memories_paginated(2, 10, None, None);
    assert_eq!(page.len(), 10);
    // Records 11 through 20 by creation time descending: m15 down to m6.
    let texts: Vec<&str> = page.iter().map(|m| m.text.as_str()).collect();
    assert_eq!(
        texts,
        vec!["m15", "m14", "m13", "m12", "m11", "m10", "m9", "m8", "m7", "m6"]
    );
}

#[test]
fn pagination_beyond_data_is_empty() {
    let store = seeded_store(5);
    assert_eq!(store.get_memories_paginated(3, 10, None, None).len(), 0);
    assert_eq!(store.get_memories_paginated(usize::MAX, usize::MAX, None, None).len(), 0);
}

#[test]
fn pagination_page_zero_reads_like_page_one() {
    let store = seeded_store(3);
    let a = store.get_memories_paginated(0, 2, None, None);
    let b = store.get_memories_paginated(1, 2, None, None);
    assert_eq!(a, b);
    assert_eq!(a[0].text, "m3");
}

#[test]
fn pagination_filters_are_conjunctive() {
    let mut store = MemoryStore::new();
    store.create_memory_at("a".to_string(), vec!["x".to_string()], Some("s1".to_string()), vec![1], 1);
    store.create_memory_at("b".to_string(), vec!["x".to_string()], Some("s2".to_string()), vec![1], 2);
    store.create_memory_at("c".to_string(), vec!["y".to_string()], Some("s1".to_string()), vec![1], 3);
    store.create_memory_at("d".to_string(), Vec::new(), None, vec![1], 4);
    let tag = "x".to_string();
    let source = "s1".to_string();
    let both = store.get_memories_paginated(1, 10, Some(&tag), Some(&source));
    assert_eq!(both.len(), 1);
    assert_eq!(both[0].text, "a");
    let tag_only = store.get_memories_paginated(1, 10, Some(&tag), None);
    let texts: Vec<&str> = tag_only.iter().map(|m| m.text.as_str()).collect();
    assert_eq!(texts, vec!["b", "a"]);
    let source_only = store.get_memories_paginated(1, 10, None, Some(&source));
    let texts: Vec<&str> = source_only.iter().map(|m| m.text.as_str()).collect();
    assert_eq!(texts, vec!["c", "a"]);
}

#[test]
fn pagination_keeps_storage_order_among_equal_timestamps() {
    let mut store = MemoryStore::new();
    store.create_memory_at("first".to_string(), Vec::new(), None, vec![1], 7);
    store.create_memory_at("second".to_string(), Vec::new(), None, vec![1], 7);
    store.create_memory_at("newer".to_string(), Vec::new(), None, vec![1], 9);
    let page = store.get_memories_paginated(1, 10, None, None);
    let texts: Vec<&str> = page.iter().map(|m| m.text.as_str()).collect();
    assert_eq!(texts, vec!["newer", "first", "second"]);
}

#[test]
fn pagination_with_zero_page_size_is_empty() {
    let store = seeded_store(4);
    assert_eq!(store.get_memories_paginated(1, 0, None, None).len(), 0);
}

#[test]
fn delete_returns_record_once_then_not_found() {
    let mut store = MemoryStore::new();
    let kept = store.create_memory_at("keep".to_string(), Vec::new(), None, vec![1], 1);
    let gone = store.create_memory_at("gone".to_string(), Vec::new(), None, vec![2], 2);
    let first = store.delete_memory(gone.id);
    assert_eq!(first.as_ref().map(|m| m.text.as_str()), Some("gone"));
    let second = store.delete_memory(gone.id);
    assert!(second.is_none());
    assert!(store.delete_memory(999).is_none());
    assert_eq!(store.count_memories(), 1);
    assert_eq!(store.get_all_memories()[0].text, "keep");
    let _ = kept;
}

#[test]
fn deleted_ids_are_never_reused() {
    let mut store = MemoryStore::new();
    let a = store.create_memory_at("a".to_string(), Vec::new(), None, vec![1], 1);
    store.delete_memory(a.id);
    let b = store.create_memory_at("b".to_string(), Vec::new(), None, vec![1], 2);
    assert!(b.id > a.id);
}

#[test]
fn all_texts_newest_first_capped_at_one_hundred() {
    let store = seeded_store(105);
    let texts = store.get_all_texts();
    assert_eq!(texts.len(), 100);
    assert_eq!(texts[0], "m105");
    assert_eq!(texts[99], "m6");
    let small = seeded_store(3).get_all_texts();
    assert_eq!(small, vec!["m3".to_string(), "m2".to_string(), "m1".to_string()]);
}

#[test]
fn tag_counts_count_each_record_once_per_tag() {
    let mut store = MemoryStore::new();
    store.create_memory_at(
        "one".to_string(),
        vec!["a".to_string(), "b".to_string()],
        None,
        vec![1],
        1,
    );
    store.create_memory_at("two".to_string(), vec!["a".to_string()], None, vec![1], 2);
    store.create_memory_at(
        "three".to_string(),
        vec!["b".to_string(), "b".to_string()],
        None,
        vec![1],
        3,
    );
    let counts = store.get_tag_counts();
    assert_eq!(
        counts,
        vec![("a".to_string(), 2), ("b".to_string(), 2)]
    );
}

#[test]
fn source_counts_skip_absent_sources() {
    let mut store = MemoryStore::new();
    store.create_memory_at("1".to_string(), Vec::new(), Some("x".to_string()), vec![1], 1);
    store.create_memory_at("2".to_string(), Vec::new(), None, vec![1], 2);
    store.create_memory_at("3".to_string(), Vec::new(), Some("y".to_string()), vec![1], 3);
    store.create_memory_at("4".to_string(), Vec::new(), Some("x".to_string()), vec![1], 4);
    let counts = store.get_source_counts();
    assert_eq!(
        counts,
        vec![("x".to_string(), 2), ("y".to_string(), 1)]
    );
}

#[test]
fn counts_sorted_descending() {
    let mut store = MemoryStore::new();
    for k in 0..3u64 {
        store.create_memory_at(format!("r{}", k), vec!["rare".to_string()], None, vec![1], k as i64);
    }
    for k in 3..8u64 {
        store.create_memory_at(
            format!("c{}", k),
            vec!["common".to_string()],
            None,
            vec![1],
            k as i64,
        );
    }
    let counts = store.get_tag_counts();
    assert_eq!(
        counts,
        vec![("common".to_string(), 5), ("rare".to_string(), 3)]
    );
}
