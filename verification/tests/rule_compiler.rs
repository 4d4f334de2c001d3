use silos::mutation::Substitute;
use silos::rules::{collection_from_str, snippet_from_str, RuleError};

const RENAME_RULE: &str = r#"
description "rename function"
mutation {
    expression "(function_declaration name: (identifier) @name) @root"
    substitute {
        literal "func "
        capture "name"
        literal "_renamed() {}"
    }
}
"#;

#[test]
fn compiles_a_rename_rule() {
    let c = collection_from_str(RENAME_RULE).unwrap();
    assert_eq!(c.description, "rename function");
    assert_eq!(c.mutations.len(), 1);
    let m = &c.mutations[0];
    assert_eq!(m.expression, "(function_declaration name: (identifier) @name) @root");
    assert_eq!(m.substitute.len(), 3);
    assert!(matches!(&m.substitute[0], Substitute::Literal(s) if s == "func "));
    assert!(matches!(&m.substitute[1], Substitute::Capture(s) if s == "name"));
    assert!(matches!(&m.substitute[2], Substitute::Literal(s) if s == "_renamed() {}"));
}

#[test]
fn mutation_order_is_preserved() {
    let text = r#"
description "two"
mutation {
    expression "one"
    substitute { literal "1" }
}
mutation {
    expression "two"
    substitute { literal "2" }
}
"#;
    let c = collection_from_str(text).unwrap();
    assert_eq!(c.mutations.len(), 2);
    assert_eq!(c.mutations[0].expression, "one");
    assert_eq!(c.mutations[1].expression, "two");
}

#[test]
fn later_description_wins() {
    let text = "description \"first\"\ndescription \"second\"\n";
    let c = collection_from_str(text).unwrap();
    assert_eq!(c.description, "second");
    assert_eq!(c.mutations.len(), 0);
}

#[test]
fn unknown_top_level_node_is_malformed() {
    let text = "description \"d\"\nnonsense \"x\"\n";
    assert!(matches!(collection_from_str(text), Err(RuleError::MalformedRule)));
}

#[test]
fn missing_description_is_malformed() {
    let text = r#"
mutation {
    expression "e"
    substitute { literal "x" }
}
"#;
    assert!(matches!(collection_from_str(text), Err(RuleError::MalformedRule)));
}

#[test]
fn mutation_without_expression_is_malformed() {
    let text = r#"
description "d"
mutation {
    substitute { literal "x" }
}
"#;
    assert!(matches!(collection_from_str(text), Err(RuleError::MalformedRule)));
}

#[test]
fn mutation_without_substitute_is_malformed() {
    let text = r#"
description "d"
mutation {
    expression "e"
}
"#;
    assert!(matches!(collection_from_str(text), Err(RuleError::MalformedRule)));
}

#[test]
fn bad_substitute_tag_is_malformed() {
    let text = r#"
description "d"
mutation {
    expression "e"
    substitute { bogus "x" }
}
"#;
    assert!(matches!(collection_from_str(text), Err(RuleError::MalformedRule)));
}

#[test]
fn unparseable_text_is_malformed() {
    assert!(matches!(collection_from_str("{{{"), Err(RuleError::MalformedRule)));
}

#[test]
fn description_without_string_argument_is_malformed() {
    assert!(matches!(collection_from_str("description 42\n"), Err(RuleError::MalformedRule)));
    assert!(matches!(collection_from_str("description\n"), Err(RuleError::MalformedRule)));
}

#[test]
fn mutation_without_children_is_malformed() {
    let text = "description \"d\"\nmutation\n";
    assert!(matches!(collection_from_str(text), Err(RuleError::MalformedRule)));
}

#[test]
fn snippet_doc_yields_desc_and_body() {
    let text = "desc \"a http server\"\nbody \"package main\"\n";
    let s = snippet_from_str(text).unwrap();
    assert_eq!(s.0, "a http server");
    assert_eq!(s.1, "package main");
}

#[test]
fn snippet_doc_missing_body_is_skipped() {
    assert!(snippet_from_str("desc \"only\"\n").is_none());
    assert!(snippet_from_str("body \"only\"\n").is_none());
    assert!(snippet_from_str("{{{").is_none());
}
