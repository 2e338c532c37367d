use nexus_core::retrieval::{rank_scores, select_memory, token_overlap, token_overlap_lowered, Overlap};

fn score(o: Overlap) -> f32 {
    if o.query_tokens == 0 || o.doc_tokens == 0 {
        return 0.0;
    }
    let denom = ((o.query_tokens as f32) * (o.doc_tokens as f32)).sqrt().max(1.0);
    o.hits as f32 / denom
}

#[test]
fn overlap_counts_distinct_tokens() {
    let o = token_overlap("机器学习", "机器学习笔记");
    assert_eq!(o, Overlap { hits: 4, query_tokens: 4, doc_tokens: 6 });
    let o = token_overlap("Rust rust RUST verus", "verus proofs in rust");
    assert_eq!(o, Overlap { hits: 2, query_tokens: 2, doc_tokens: 4 });
}

#[test]
fn overlap_lowered_is_case_sensitive() {
    let o = token_overlap_lowered("Rust", "rust");
    assert_eq!(o.hits, 0);
}

#[test]
fn score_stays_in_unit_range() {
    let cases = [("a b c", "a b c"), ("a", "a b c d"), ("x y", "z"), ("", "a"), ("a", "")];
    for (q, d) in cases.iter() {
        let s = score(token_overlap(q, d));
        assert!(s >= 0.0 && s <= 1.0);
    }
    assert_eq!(score(token_overlap("", "abc")), 0.0);
    assert_eq!(score(token_overlap("abc", "...")), 0.0);
    assert!((score(token_overlap("a b c", "a b c")) - 1.0).abs() < 1e-6);
}

#[test]
fn rank_orders_by_key_then_position() {
    let keys = vec![5u64, 9, 9, 1, 7];
    assert_eq!(rank_scores(&keys, 2, Some(2)), vec![1, 2]);
    assert_eq!(rank_scores(&keys, 2, None), vec![1, 2, 4, 0]);
    assert_eq!(rank_scores(&keys, 2, Some(0)), Vec::<usize>::new());
    assert_eq!(select_memory("q", &keys, 2, Some(0)), Vec::<usize>::new());
    assert_eq!(rank_scores(&keys, 10, None), Vec::<usize>::new());
    assert_eq!(rank_scores(&vec![], 0, None), Vec::<usize>::new());
}

#[test]
fn empty_query_selects_nothing() {
    let keys = vec![100u64, 200, 300];
    assert!(select_memory("", &keys, 0, None).is_empty());
    assert!(select_memory("  \r\n ", &keys, 0, Some(5)).is_empty());
    assert_eq!(select_memory("q", &keys, 0, None), vec![2, 1, 0]);
}

#[test]
fn cjk_query_finds_its_note() {
    let o = token_overlap("机器学习", "机器学习笔记");
    let composite = score(o) * 0.7 + 0.9f32 * 0.2 + 1.0 * 0.1;
    assert!(score(o) > 0.0);
    let keys = vec![composite.to_bits() as u64];
    let min_key = 0.12f32.to_bits() as u64;
    assert_eq!(select_memory("机器学习", &keys, min_key, Some(5)), vec![0]);
}
