use memorai::embeddings::{cosine_similarity, SCALE};
use memorai::models::Memory;
use memorai::ranking::rank;

fn mem(id: u64, text: &str, embedding: Vec<i32>) -> Memory {
    Memory {
        id,
        text: text.to_string(),
        tags: Vec::new(),
        source: None,
        embedding,
        created_at: id as i64,
        updated_at: id as i64,
    }
}

#[test]
fn cosine_zero_on_mismatched_lengths() {
    assert_eq!(cosine_similarity(&vec![1, 2], &vec![1, 2, 3]), 0);
}

#[test]
fn cosine_zero_on_empty_inputs() {
    assert_eq!(cosine_similarity(&Vec::new(), &Vec::new()), 0);
    assert_eq!(cosine_similarity(&Vec::new(), &vec![1]), 0);
}

#[test]
fn cosine_zero_on_zero_norm() {
    assert_eq!(cosine_similarity(&vec![0, 0], &vec![1, 1]), 0);
    assert_eq!(cosine_similarity(&vec![1, 1], &vec![0, 0]), 0);
}

#[test]
fn cosine_is_symmetric() {
    let a = vec![3, 4, -5];
    let b = vec![1, 2, 7];
    assert_eq!(cosine_similarity(&a, &b), cosine_similarity(&b, &a));
    let c = vec![-2, 9, 11];
    assert_eq!(cosine_similarity(&a, &c), cosine_similarity(&c, &a));
}

#[test]
fn cosine_of_vector_with_itself_is_exactly_one() {
    assert_eq!(cosine_similarity(&vec![3, 4], &vec![3, 4]), SCALE);
    assert_eq!(cosine_similarity(&vec![1, 1], &vec![1, 1]), SCALE);
    assert_eq!(cosine_similarity(&vec![1, 1, 1], &vec![1, 1, 1]), SCALE);
    assert_eq!(cosine_similarity(&vec![1000, 2000], &vec![1000, 2000]), SCALE);
    assert_eq!(cosine_similarity(&vec![-7, 0, 13], &vec![-7, 0, 13]), SCALE);
}

#[test]
fn cosine_never_leaves_the_unit_range() {
    let vectors: Vec<Vec<i32>> = vec![
        vec![1, 1],
        vec![2, 1],
        vec![3, 4],
        vec![-1, 2],
        vec![1, 0],
        vec![0, -1],
        vec![1000000, -999999],
    ];
    for a in &vectors {
        for b in &vectors {
            let s = cosine_similarity(a, b);
            assert!(-SCALE <= s && s <= SCALE);
        }
    }
    // The small-norm pair that a per-norm floor would push above one.
    assert!(cosine_similarity(&vec![3, 4], &vec![1, 1]) <= SCALE);
    assert!(cosine_similarity(&vec![2, 1], &vec![1, 1]) <= SCALE);
}

#[test]
fn cosine_exact_values() {
    // dot = 24, both norms are exactly 5: 24/25 of the scale.
    assert_eq!(cosine_similarity(&vec![3, 4], &vec![4, 3]), 960_000);
    // Opposite vectors score minus one on the scale.
    assert_eq!(cosine_similarity(&vec![1, 0], &vec![-1, 0]), -SCALE);
    // Orthogonal vectors score zero.
    assert_eq!(cosine_similarity(&vec![1, 0], &vec![0, 1]), 0);
}

#[test]
fn rank_puts_identical_embedding_first() {
    let query = vec![3, 4];
    let candidates = vec![
        mem(1, "north", vec![0, 7]),
        mem(2, "exact", vec![3, 4]),
        mem(3, "east", vec![5, 0]),
    ];
    let out = rank(&query, &candidates, 3);
    assert_eq!(out.len(), 3);
    assert_eq!(out[0].memory.text, "exact");
    assert_eq!(out[0].score, SCALE);
    assert!(out[0].score >= out[1].score);
    assert!(out[1].score >= out[2].score);
}

#[test]
fn rank_never_exceeds_k() {
    let query = vec![1, 0];
    let candidates = vec![
        mem(1, "a", vec![1, 0]),
        mem(2, "b", vec![0, 1]),
        mem(3, "c", vec![1, 1]),
    ];
    assert_eq!(rank(&query, &candidates, 2).len(), 2);
    assert_eq!(rank(&query, &candidates, 0).len(), 0);
    // Fewer than k only because fewer candidates exist.
    assert_eq!(rank(&query, &candidates, 10).len(), 3);
    assert_eq!(rank(&query, &Vec::new(), 5).len(), 0);
}

#[test]
fn rank_exact_match_is_never_outranked() {
    // A different-direction small-norm candidate can tie at the unit score,
    // but never exceed it; input order then favors the earlier record.
    let query = vec![3, 4];
    let candidates = vec![mem(1, "exact", vec![3, 4]), mem(2, "diag", vec![1, 1])];
    let out = rank(&query, &candidates, 2);
    assert_eq!(out[0].memory.text, "exact");
    assert_eq!(out[0].score, SCALE);
    assert!(out[1].score <= SCALE);
}

#[test]
fn rank_breaks_ties_by_input_order() {
    let query = vec![3, 4];
    // Proportional embeddings score identically; the earlier record wins.
    let candidates = vec![
        mem(7, "first", vec![6, 8]),
        mem(8, "second", vec![3, 4]),
        mem(9, "far", vec![7, 0]),
    ];
    let out = rank(&query, &candidates, 3);
    assert_eq!(out[0].memory.text, "first");
    assert_eq!(out[1].memory.text, "second");
    assert_eq!(out[0].score, out[1].score);
}
