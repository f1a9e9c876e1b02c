use mcp_rust_analyzer::bytes::{contains, ends_with, starts_with};
use mcp_rust_analyzer::commands::analysis::{AnalysisCommands, SymbolKind};
use mcp_rust_analyzer::commands::completion::CompletionCommands;
use mcp_rust_analyzer::commands::metrics::MetricsCommands;
use mcp_rust_analyzer::commands::refactor::RefactorCommands;
use mcp_rust_analyzer::json::write_json;

#[test]
fn snippet_catalog_is_exact() {
    let c = CompletionCommands;
    assert_eq!(
        c.expand_snippet("match_expr"),
        Some("match ${1:expression} {\n    ${2:pattern} => ${3:value},\n    _ => ${4:default},\n}")
    );
    assert_eq!(
        c.expand_snippet("if_let"),
        Some("if let ${1:Some(value)} = ${2:expression} {\n    ${3:// body}\n}")
    );
    assert_eq!(
        c.expand_snippet("for_loop"),
        Some("for ${1:item} in ${2:iterator} {\n    ${3:// body}\n}")
    );
    assert_eq!(
        c.expand_snippet("impl_trait"),
        Some("impl ${1:Trait} for ${2:Type} {\n    ${3:// implementation}\n}")
    );
    assert_eq!(
        c.expand_snippet("test_fn"),
        Some("#[test]\nfn ${1:test_name}() {\n    ${2:// test body}\n}")
    );
    assert_eq!(c.expand_snippet("unknown_snippet"), None);
}

#[test]
fn symbol_classification_by_name_and_context() {
    let a = AnalysisCommands;
    let none: Vec<Vec<u8>> = Vec::new();
    assert_eq!(a.classify_symbol(b"ParseError", &none), SymbolKind::ErrorType);
    assert_eq!(a.classify_symbol(b"IoException", &none), SymbolKind::ErrorType);
    let ctx = vec![b"pub struct Widget {".to_vec()];
    assert_eq!(a.classify_symbol(b"Widget", &ctx), SymbolKind::Struct);
    let ctx = vec![b"enum Mode {".to_vec()];
    assert_eq!(a.classify_symbol(b"Mode", &ctx), SymbolKind::Enum);
    let ctx = vec![b"pub trait Draw {".to_vec()];
    assert_eq!(a.classify_symbol(b"Draw", &ctx), SymbolKind::Trait);
    assert_eq!(a.classify_symbol(b"Widget", &none), SymbolKind::Type);
    assert_eq!(a.classify_symbol(b"is_empty", &none), SymbolKind::PredicateFunction);
    assert_eq!(a.classify_symbol(b"has_value", &none), SymbolKind::PredicateFunction);
    assert_eq!(a.classify_symbol(b"can_run", &none), SymbolKind::PredicateFunction);
    assert_eq!(a.classify_symbol(b"get_mut", &none), SymbolKind::MutableFunction);
    assert_eq!(a.classify_symbol(b"run", &none), SymbolKind::FunctionOrVariable);
    assert_eq!(a.classify_symbol(b"", &none), SymbolKind::FunctionOrVariable);
}

#[test]
fn symbol_kind_labels() {
    assert_eq!(SymbolKind::ErrorType.label(), "Error Type");
    assert_eq!(SymbolKind::Struct.label(), "Struct");
    assert_eq!(SymbolKind::PredicateFunction.label(), "Predicate Function");
    assert_eq!(SymbolKind::MutableFunction.label(), "Mutable Function/Method");
    assert_eq!(SymbolKind::FunctionOrVariable.label(), "Function/Variable");
}

#[test]
fn byte_searching() {
    assert!(starts_with(b"pub fn main", b"pub fn "));
    assert!(!starts_with(b"fn", b"fn "));
    assert!(ends_with(b"get_mut", b"_mut"));
    assert!(!ends_with(b"mutable", b"_mut"));
    assert!(contains(b"a ParseError here", b"Error"));
    assert!(!contains(b"fine", b"Error"));
    assert!(contains(b"anything", b""));
}

#[test]
fn workspace_manifest_detection() {
    let m = MetricsCommands;
    assert!(m.is_workspace_manifest(b"[workspace]\nmembers = [\"a\"]\n"));
    assert!(!m.is_workspace_manifest(b"[package]\nname = \"a\"\n"));
}

#[test]
fn refactor_code_action_requests() {
    let r = RefactorCommands;
    let extract = r.extract_function_params(b"file:///a.rs", 2, 1, 4, 10);
    let text = String::from_utf8(write_json(&extract)).unwrap();
    assert!(text.contains("\"start\":{\"line\":1,\"character\":0}"));
    assert!(text.contains("\"end\":{\"line\":3,\"character\":9}"));
    assert!(text.ends_with("\"context\":{\"diagnostics\":[],\"only\":[\"refactor.extract\"]}}"));

    let inline = r.inline_params(b"file:///a.rs", 5, 6);
    let text = String::from_utf8(write_json(&inline)).unwrap();
    assert!(text.contains("\"only\":[\"refactor.inline\"]"));

    let organize = r.organize_imports_params(b"file:///a.rs");
    let text = String::from_utf8(write_json(&organize)).unwrap();
    assert!(text.contains("\"start\":{\"line\":0,\"character\":0}"));
    assert!(text.contains("\"only\":[\"source.organizeImports\"]"));
}

#[test]
fn line_metrics_classify_code_comments_and_blanks() {
    let m = MetricsCommands;
    let content = b"// leading comment\n\nfn main() {\n    let x = 1;\n}\n";
    let stats = m.analyze_file_content(content);
    assert_eq!(stats.total_lines, 5);
    assert_eq!(stats.comment_lines, 1);
    assert_eq!(stats.blank_lines, 1);
    assert_eq!(stats.code_lines, 3);
    assert_eq!(stats.functions, 1);
    assert_eq!(stats.structs, 0);
}

#[test]
fn line_metrics_track_block_comments() {
    let m = MetricsCommands;
    let content = b"/* one\nstill comment\nend */\npub struct S {\n}\n/* inline */ not code?\n";
    let stats = m.analyze_file_content(content);
    // the block spans three lines; the `/* inline */` line starts a
    // comment that closes on the same line
    assert_eq!(stats.total_lines, 6);
    assert_eq!(stats.comment_lines, 4);
    assert_eq!(stats.code_lines, 2);
    assert_eq!(stats.structs, 1);
}

#[test]
fn line_metrics_count_declarations() {
    let m = MetricsCommands;
    let content =
        b"pub fn a() {}\nasync fn b() {}\npub async fn c() {}\nstruct D;\nenum E {}\npub trait F {}\nlet x = 0;\n";
    let stats = m.analyze_file_content(content);
    assert_eq!(stats.functions, 3);
    assert_eq!(stats.structs, 1);
    assert_eq!(stats.enums, 1);
    assert_eq!(stats.traits, 1);
    assert_eq!(stats.code_lines, 7);
}

#[test]
fn line_metrics_of_empty_text() {
    let m = MetricsCommands;
    let stats = m.analyze_file_content(b"");
    assert_eq!(stats.total_lines, 0);
    assert_eq!(stats.code_lines, 0);
    assert_eq!(stats.blank_lines, 0);
}

#[test]
fn line_metrics_trim_indented_comments() {
    let m = MetricsCommands;
    let content = b"    // indented comment\n\t/* indented block */\n   \n";
    let stats = m.analyze_file_content(content);
    assert_eq!(stats.comment_lines, 2);
    assert_eq!(stats.blank_lines, 1);
    assert_eq!(stats.code_lines, 0);
}
