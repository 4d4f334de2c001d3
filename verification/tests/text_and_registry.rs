use silos::args::Lsp;
use silos::lsp::{string_range_index, Action, ParsedAction, TextRange};
use silos::state::{dump_expression, lang_from_file_extension, lang_from_name, Error, Lang};
use silos::text::{find_sub, str_eq};

#[test]
fn language_tags_resolve_to_registry_entries() {
    assert_eq!(lang_from_name("go").unwrap(), Lang::Go);
    assert_eq!(lang_from_name("c").unwrap(), Lang::C);
    assert_eq!(lang_from_name("h").unwrap(), Lang::C);
    assert_eq!(lang_from_name("cpp").unwrap(), Lang::Cpp);
    assert_eq!(lang_from_name("hpp").unwrap(), Lang::Cpp);
    assert_eq!(lang_from_name("js").unwrap(), Lang::Js);
    assert_eq!(lang_from_name("ts").unwrap(), Lang::Js);
    assert_eq!(lang_from_name("rs").unwrap(), Lang::Rust);
    assert!(matches!(lang_from_name("nonexistent-lang"), Err(Error::UnknownLang)));
    assert!(matches!(lang_from_name(""), Err(Error::UnknownLang)));
}

#[test]
fn extensions_resolve_like_explicit_tags() {
    assert_eq!(lang_from_file_extension("src/main.rs").unwrap(), Lang::Rust);
    assert_eq!(lang_from_file_extension("a/b/c.go").unwrap(), Lang::Go);
    assert_eq!(lang_from_file_extension("header.hpp").unwrap(), Lang::Cpp);
    assert!(matches!(lang_from_file_extension("no_extension"), Err(Error::UnknownLang)));
    assert!(matches!(lang_from_file_extension("dir/.hidden"), Err(Error::UnknownLang)));
    assert!(matches!(lang_from_file_extension("dotted.dir/file"), Err(Error::UnknownLang)));
    assert!(matches!(lang_from_file_extension("picture.png"), Err(Error::UnknownLang)));
}

#[test]
fn dump_expression_renders_the_tree() {
    let sexp = dump_expression(b"func foo() {}\n", Lang::Go).unwrap();
    assert!(sexp.contains("function_declaration"));
    assert!(sexp.starts_with("(source_file"));
}

#[test]
fn every_grammar_parses_its_language() {
    let go = dump_expression(b"func foo() {}\n", Lang::Go).unwrap();
    assert!(go.contains("function_declaration"));
    let c = dump_expression(b"int main() { return 0; }\n", Lang::C).unwrap();
    assert!(c.contains("function_definition"));
    let cpp = dump_expression(b"int main() { return 0; }\n", Lang::Cpp).unwrap();
    assert!(cpp.contains("function_definition"));
    let js = dump_expression(b"function f() {}\n", Lang::Js).unwrap();
    assert!(js.contains("function_declaration"));
    let rust = dump_expression(b"fn main() {}\n", Lang::Rust).unwrap();
    assert!(rust.contains("function_item"));
}

#[test]
fn model_and_revision_resolution() {
    let base = Lsp { gpu: None, model_id: None, revision: None, snippets: "./snippets".to_string() };
    let (m, r) = base.resolve_model_and_revision();
    assert_eq!(m, "sentence-transformers/all-MiniLM-L6-v2");
    assert_eq!(r, "refs/pr/21");

    let explicit = Lsp {
        gpu: None,
        model_id: Some("some/model".to_string()),
        revision: Some("v2".to_string()),
        snippets: "./snippets".to_string(),
    };
    let (m, r) = explicit.resolve_model_and_revision();
    assert_eq!(m, "some/model");
    assert_eq!(r, "v2");

    let model_only = Lsp {
        gpu: None,
        model_id: Some("some/model".to_string()),
        revision: None,
        snippets: "./snippets".to_string(),
    };
    let (m, r) = model_only.resolve_model_and_revision();
    assert_eq!(m, "some/model");
    assert_eq!(r, "main");

    let revision_only = Lsp {
        gpu: None,
        model_id: None,
        revision: Some("branch".to_string()),
        snippets: "./snippets".to_string(),
    };
    let (m, r) = revision_only.resolve_model_and_revision();
    assert_eq!(m, "sentence-transformers/all-MiniLM-L6-v2");
    assert_eq!(r, "branch");
}

#[test]
fn parsed_action_reads_generate_marker() {
    let pa = ParsedAction::new("// generate: a http server\n").unwrap();
    assert!(matches!(pa.action, Action::Generate));
    assert_eq!(pa.description, "a http server");
}

#[test]
fn parsed_action_reads_refactor_marker() {
    let pa = ParsedAction::new("// refactor: extract helper\n").unwrap();
    assert!(matches!(pa.action, Action::Refactor));
    assert_eq!(pa.description, "extract helper");
}

#[test]
fn parsed_action_prefers_generate_over_refactor() {
    let pa = ParsedAction::new("refactor: x generate: y\n").unwrap();
    assert!(matches!(pa.action, Action::Generate));
    assert_eq!(pa.description, "y");
}

#[test]
fn parsed_action_without_marker_is_none() {
    assert!(ParsedAction::new("just a comment\n").is_none());
    assert!(ParsedAction::new("").is_none());
}

#[test]
fn selection_resolves_to_line_and_character() {
    let s = "hello\nworld\n!";
    let r = TextRange { start_line: 1, start_character: 0, end_line: 1, end_character: 5 };
    assert_eq!(string_range_index(s, &r), "world");
    let r = TextRange { start_line: 0, start_character: 2, end_line: 1, end_character: 0 };
    assert_eq!(string_range_index(s, &r), "llo\n");
}

#[test]
fn selection_is_clamped_into_the_text() {
    let s = "ab";
    let r = TextRange { start_line: 0, start_character: 9, end_line: 0, end_character: 1 };
    assert_eq!(string_range_index(s, &r), "");
    let r = TextRange { start_line: 5, start_character: 0, end_line: 9, end_character: 9 };
    assert_eq!(string_range_index(s, &r), "ab");
}

#[test]
fn string_helpers_compare_and_find() {
    assert!(str_eq("go", "go"));
    assert!(!str_eq("go", "rs"));
    assert!(!str_eq("go", "gopher"));
    assert_eq!(find_sub("abcabc", "ca"), Some(2));
    assert_eq!(find_sub("abcabc", "zz"), None);
    assert_eq!(find_sub("abc", ""), Some(0));
}

#[test]
fn error_messages_and_status_codes() {
    assert_eq!(Error::EmbedFailed.message(), "failed to embed prompt");
    assert_eq!(Error::UnknownLang.message(), "snippets were requested for an unknown language");
    assert_eq!(
        Error::SnippetParsing.message(),
        "failed to parse corpus of code to apply mutation on"
    );
    assert_eq!(silos::v1::Error::Busy.status_code(), 504);
    assert_eq!(silos::v1::Error::EmbedFailed.status_code(), 500);
    assert_eq!(silos::v1::Error::UnknownLang.status_code(), 400);
    assert_eq!(silos::v1::Error::Busy.message(), "the server is busy. come back later.");
}
