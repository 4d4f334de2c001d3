use silos::mutation::{apply, query, split_at_indices, ApplyError, Mutation, MutationCollection, Substitute};
use silos::state::{parse_into_tree, Lang};

fn go_source() -> Vec<u8> {
    b"func foo() {}\n".to_vec()
}

fn rename_mutation() -> Mutation {
    Mutation {
        expression: "(function_declaration name: (identifier) @name) @root".to_string(),
        substitute: vec![
            Substitute::Literal("func ".to_string()),
            Substitute::Capture("name".to_string()),
            Substitute::Literal("_renamed() {}".to_string()),
        ],
    }
}

#[test]
fn scenario_rename_function() {
    let src = go_source();
    let parsed = parse_into_tree(&src, Lang::Go).unwrap();
    let collection = MutationCollection {
        description: "rename function".to_string(),
        mutations: vec![rename_mutation()],
    };
    let out = apply(&parsed, &collection).unwrap();
    assert_eq!(out, "func foo_renamed() {}\n");
}

#[test]
fn empty_collection_is_identity() {
    let src = go_source();
    let parsed = parse_into_tree(&src, Lang::Go).unwrap();
    let collection = MutationCollection { description: "noop".to_string(), mutations: vec![] };
    let out = apply(&parsed, &collection).unwrap();
    assert_eq!(out, "func foo() {}\n");
}

#[test]
fn tie_break_later_mutation_wins() {
    let src = go_source();
    let parsed = parse_into_tree(&src, Lang::Go).unwrap();
    let first = Mutation {
        expression: "(function_declaration) @root".to_string(),
        substitute: vec![Substitute::Literal("AAA".to_string())],
    };
    let second = Mutation {
        expression: "(function_declaration) @root".to_string(),
        substitute: vec![Substitute::Literal("BBB".to_string())],
    };
    let collection = MutationCollection {
        description: "tie".to_string(),
        mutations: vec![first, second],
    };
    let out = apply(&parsed, &collection).unwrap();
    assert_eq!(out, "BBB\n");
}

#[test]
fn missing_capture_substitutes_empty_text() {
    let src = go_source();
    let parsed = parse_into_tree(&src, Lang::Go).unwrap();
    let m = Mutation {
        expression: "(function_declaration) @root".to_string(),
        substitute: vec![
            Substitute::Literal("x".to_string()),
            Substitute::Capture("absent".to_string()),
            Substitute::Literal("y".to_string()),
        ],
    };
    let collection = MutationCollection { description: "gap".to_string(), mutations: vec![m] };
    let out = apply(&parsed, &collection).unwrap();
    assert_eq!(out, "xy\n");
}

#[test]
fn unmatched_expression_rewrites_at_origin() {
    // A query that compiles but matches nothing leaves the root span at
    // (0,0), a rule-authoring error: the boundary set is then just {0}, the
    // source is one segment starting at 0, and the rewrite text replaces
    // it. This pins the literal boundary/segment behavior down.
    let src = go_source();
    let parsed = parse_into_tree(&src, Lang::Go).unwrap();
    let m = Mutation {
        expression: "(import_declaration) @root".to_string(),
        substitute: vec![Substitute::Literal("Z".to_string())],
    };
    let collection = MutationCollection { description: "none".to_string(), mutations: vec![m] };
    let out = apply(&parsed, &collection).unwrap();
    assert_eq!(out, "Z");
}

#[test]
fn invalid_expression_is_reported() {
    let src = go_source();
    let parsed = parse_into_tree(&src, Lang::Go).unwrap();
    let m = Mutation {
        expression: "((".to_string(),
        substitute: vec![Substitute::Literal("x".to_string())],
    };
    let collection = MutationCollection { description: "bad".to_string(), mutations: vec![m] };
    assert!(matches!(apply(&parsed, &collection), Err(ApplyError::InvalidExpression)));
    assert!(matches!(query(&parsed, "(("), Err(ApplyError::InvalidExpression)));
}

#[test]
fn invalid_utf8_segment_is_reported() {
    let mut src = go_source();
    src.push(0xff);
    let parsed = parse_into_tree(&src, Lang::Go).unwrap();
    let collection = MutationCollection { description: "utf8".to_string(), mutations: vec![] };
    assert!(matches!(apply(&parsed, &collection), Err(ApplyError::Utf8Error)));
}

#[test]
fn query_cooks_root_span_and_captures() {
    let src = go_source();
    let parsed = parse_into_tree(&src, Lang::Go).unwrap();
    let q = query(&parsed, "(function_declaration name: (identifier) @name) @root").unwrap();
    assert_eq!(q.start, 0);
    assert_eq!(q.end, 13);
    assert_eq!(q.captures.len(), 1);
    assert_eq!(q.captures[0].0, "name");
    assert_eq!(q.captures[0].1, "foo");
}

#[test]
fn query_without_root_capture_spans_origin() {
    let src = go_source();
    let parsed = parse_into_tree(&src, Lang::Go).unwrap();
    let q = query(&parsed, "(function_declaration name: (identifier) @name)").unwrap();
    assert_eq!(q.start, 0);
    assert_eq!(q.end, 0);
    assert_eq!(q.captures.len(), 1);
}

#[test]
fn split_at_indices_partitions_exactly() {
    let c: &[u8] = b"abcdef";
    let idx: &[usize] = &[2, 4];
    let r = split_at_indices(c, idx);
    assert_eq!(r.indices, vec![0, 2, 4]);
    assert_eq!(r.values.len(), 3);
    assert_eq!(r.values[0], b"ab");
    assert_eq!(r.values[1], b"cd");
    assert_eq!(r.values[2], b"ef");
    let total: usize = r.values.iter().map(|v| v.len()).sum();
    assert_eq!(total, c.len());
}

#[test]
fn split_at_indices_boundary_at_ends() {
    let c: &[u8] = b"abc";
    let idx: &[usize] = &[0, 3];
    let r = split_at_indices(c, idx);
    assert_eq!(r.indices, vec![0, 0, 3]);
    assert_eq!(r.values[0], b"");
    assert_eq!(r.values[1], b"abc");
    assert_eq!(r.values[2], b"");
}
