use mcp_rust_analyzer::analyzer::{FileId, FileRange, TextRange, TextSize};
use mcp_rust_analyzer::metrics::MetricsAnalyzer;
use mcp_rust_analyzer::refactor::{RefactorEngine, SourceChange};

// Test file for MCP Rust Analyzer tests

pub struct TestStruct {
    pub field: String,
}

impl TestStruct {
    pub fn new(field: String) -> Self {
        Self { field }
    }

    pub fn get_field(&self) -> &str {
        &self.field
    }
}

#[test]
fn test_creation() {
    let test = TestStruct::new("test".to_string());
    assert_eq!(test.get_field(), "test");
}

#[test]
fn metrics_placeholder_reports_zeroes() {
    let m = MetricsAnalyzer::new();
    let metrics = m.analyze_file("src/lib.rs").unwrap();
    assert_eq!(metrics.lines_of_code, 0);
    assert_eq!(metrics.functions, 0);
    let structure = m.analyze_project(".").unwrap();
    assert!(structure.modules.is_empty());
    assert!(structure.dependencies.is_empty());
    assert!(m.find_dead_code(".").unwrap().is_empty());
    assert!(m.suggest_improvements("src/lib.rs").unwrap().is_empty());
}

#[test]
fn refactor_placeholder_changes_nothing() {
    let engine = RefactorEngine::new();
    let file = FileId::from_index(0);
    assert_eq!(engine.prepare_rename(file, 10), Ok(None));
    let change = engine.rename(file, 10, "new_name").unwrap();
    assert!(change.label.is_empty());
    assert!(change.edits.is_empty());
    let range = FileRange {
        file_id: file,
        range: TextRange::new(TextSize::from_offset(0), TextSize::from_offset(4)),
    };
    let change = engine.extract_function(range, "helper").unwrap();
    assert!(change.edits.is_empty());
    assert!(engine.organize_imports(file).unwrap().is_empty());
}

#[test]
fn source_change_default_is_empty() {
    let change = SourceChange::default();
    assert!(change.label.is_empty());
    assert!(change.edits.is_empty());
}
