use hora::index::hnsw_idx::HNSWIndex;
use hora::index::hnsw_params::HNSWParams;
use silos::rules::collection_from_str;
use silos::state::{resolve_parse, Error, Generate, Refactor, State};

const RENAME_RULE: &str = r#"
description "rename function"
mutation {
    expression "(function_declaration name: (identifier) @name) @root"
    substitute {
        literal "func "
        capture "name"
        literal "_renamed() {}"
    }
}
"#;

const BROKEN_RULE: &str = r#"
description "broken expression"
mutation {
    expression "(("
    substitute { literal "x" }
}
"#;

#[test]
fn generate_unknown_language_is_rejected() {
    let g = Generate::new();
    assert!(matches!(g.search("nonexistent-lang", &vec![0]), Err(Error::UnknownLang)));
}

#[test]
fn state_generate_unknown_language_is_rejected() {
    let s = State::new(Generate::new(), Refactor::new());
    assert!(matches!(s.generate("nonexistent-lang", &vec![]), Err(Error::UnknownLang)));
}

#[test]
fn refactor_unknown_language_is_rejected() {
    let r = Refactor::new();
    assert!(matches!(r.prepare("nonexistent-lang", "func foo() {}\n"), Err(Error::UnknownLang)));
}

#[test]
fn refactor_supported_but_unindexed_language_is_rejected() {
    let mut r = Refactor::new();
    let col = collection_from_str(RENAME_RULE).unwrap();
    r.add_collection("go", col);
    assert!(matches!(r.prepare("rs", "fn main() {}\n"), Err(Error::UnknownLang)));
}

#[test]
fn parse_outcome_without_tree_is_snippet_parsing() {
    assert!(matches!(resolve_parse(None), Err(Error::SnippetParsing)));
}

#[test]
fn add_snippet_assigns_sequential_ids_per_language() {
    let mut g = Generate::new();
    assert_eq!(g.add_snippet("go", "a".to_string()), 0);
    assert_eq!(g.add_snippet("go", "b".to_string()), 1);
    assert_eq!(g.add_snippet("rs", "c".to_string()), 0);
    assert_eq!(g.add_snippet("go", "d".to_string()), 2);
}

#[test]
fn generate_search_keeps_id_order_and_drops_out_of_range() {
    let mut g = Generate::new();
    g.add_snippet("go", "a".to_string());
    g.add_snippet("go", "b".to_string());
    g.add_snippet("go", "c".to_string());
    let out = g.search("go", &vec![2, 0, 7, 1]).unwrap();
    assert_eq!(out, vec!["c".to_string(), "a".to_string(), "b".to_string()]);
}

#[test]
fn generate_bounded_by_corpus_size() {
    // A corpus of two entries answers a top_k of three with exactly two
    // results.
    let mut g = Generate::new();
    let id_a = g.add_snippet("go", "body-a".to_string());
    let id_b = g.add_snippet("go", "body-b".to_string());
    let mut index: HNSWIndex<f32, usize> = HNSWIndex::new(2, &HNSWParams::<f32>::default());
    hora::core::ann_index::ANNIndex::add(&mut index, &[1.0, 0.0], id_a).unwrap();
    hora::core::ann_index::ANNIndex::add(&mut index, &[0.0, 1.0], id_b).unwrap();
    hora::core::ann_index::ANNIndex::build(&mut index, hora::core::metrics::Metric::Euclidean).unwrap();
    let ids = hora::core::ann_index::ANNIndex::search(&index, &[1.0, 0.0], 3);
    assert_eq!(ids.len(), 2);
    let out = g.search("go", &ids).unwrap();
    assert_eq!(out.len(), 2);
}

#[test]
fn nearest_neighbor_comes_first() {
    let mut g = Generate::new();
    let id_a = g.add_snippet("go", "body-a".to_string());
    let id_b = g.add_snippet("go", "body-b".to_string());
    let mut index: HNSWIndex<f32, usize> = HNSWIndex::new(2, &HNSWParams::<f32>::default());
    hora::core::ann_index::ANNIndex::add(&mut index, &[1.0, 0.0], id_a).unwrap();
    hora::core::ann_index::ANNIndex::add(&mut index, &[0.0, 1.0], id_b).unwrap();
    hora::core::ann_index::ANNIndex::build(&mut index, hora::core::metrics::Metric::Euclidean).unwrap();
    let ids = hora::core::ann_index::ANNIndex::search(&index, &[0.9, 0.1], 1);
    let out = g.search("go", &ids).unwrap();
    assert_eq!(out, vec!["body-a".to_string()]);
}

#[test]
fn state_generate_maps_ids_to_bodies() {
    let mut g = Generate::new();
    g.add_snippet("go", "a".to_string());
    g.add_snippet("go", "b".to_string());
    let s = State::new(g, Refactor::new());
    let out = s.generate("go", &vec![1, 0]).unwrap();
    assert_eq!(out, vec!["b".to_string(), "a".to_string()]);
}

#[test]
fn refactor_applies_nearest_candidates_in_order() {
    let mut r = Refactor::new();
    let col = collection_from_str(RENAME_RULE).unwrap();
    let id = r.add_collection("go", col);
    assert_eq!(id, 0);
    let prep = r.prepare("go", "func foo() {}\n").unwrap();
    let out = r.search(&prep, &vec![0]);
    assert_eq!(out, vec!["func foo_renamed() {}\n".to_string()]);
}

#[test]
fn failing_candidates_are_dropped_not_fatal() {
    let mut r = Refactor::new();
    let broken = collection_from_str(BROKEN_RULE).unwrap();
    let good = collection_from_str(RENAME_RULE).unwrap();
    r.add_collection("go", broken);
    r.add_collection("go", good);
    let prep = r.prepare("go", "func foo() {}\n").unwrap();
    let out = r.search(&prep, &vec![0, 1]);
    assert_eq!(out, vec!["func foo_renamed() {}\n".to_string()]);
    let none = r.search(&prep, &vec![0]);
    assert!(none.is_empty());
    let out_of_range = r.search(&prep, &vec![9]);
    assert!(out_of_range.is_empty());
}

#[test]
fn state_refactor_round_trip() {
    let mut refactor = Refactor::new();
    let col = collection_from_str(RENAME_RULE).unwrap();
    refactor.add_collection("go", col);
    let s = State::new(Generate::new(), refactor);
    let prep = s.refactor_prepare("go", "func foo() {}\n").unwrap();
    let out = s.refactor(&prep, &vec![0]);
    assert_eq!(out, vec!["func foo_renamed() {}\n".to_string()]);
}
