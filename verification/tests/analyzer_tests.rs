use mcp_rust_analyzer::analyzer::{
    build_error_obj, build_position_params, build_reference_params, build_rename_params, file_uri,
    normalize_hover, resolve_path, transform_completions, translate_position, AnalyzerFacade,
    TextRange, TextSize,
};
use mcp_rust_analyzer::json::{parse_json, write_json, JsonValue};

fn doc(text: &str) -> JsonValue {
    parse_json(&text.as_bytes().to_vec()).expect("test document parses")
}

// Editor (1,1) is protocol (0,0); editor (10,5) is protocol (9,4).
#[test]
fn coordinate_translation() {
    assert_eq!(translate_position(1, 1), (0, 0));
    assert_eq!(translate_position(10, 5), (9, 4));
}

#[test]
fn position_params_exact_shape() {
    let params = build_position_params(b"file:///a.rs", 1, 1);
    assert_eq!(
        write_json(&params),
        b"{\"textDocument\":{\"uri\":\"file:///a.rs\"},\"position\":{\"line\":0,\"character\":0}}"
            .to_vec()
    );
}

#[test]
fn reference_params_include_declarations() {
    let params = build_reference_params(b"file:///a.rs", 10, 5);
    let text = String::from_utf8(write_json(&params)).unwrap();
    assert!(text.contains("\"line\":9"));
    assert!(text.contains("\"character\":4"));
    assert!(text.ends_with("\"context\":{\"includeDeclaration\":true}}"));
}

#[test]
fn rename_params_carry_new_name() {
    let params = build_rename_params(b"file:///a.rs", 2, 3, b"better_name");
    let text = String::from_utf8(write_json(&params)).unwrap();
    assert!(text.ends_with("\"newName\":\"better_name\"}"));
}

#[test]
fn paths_resolve_against_project_root() {
    assert_eq!(resolve_path(b"/proj", b"src/lib.rs"), b"/proj/src/lib.rs".to_vec());
    assert_eq!(resolve_path(b"/proj", b"/abs/file.rs"), b"/abs/file.rs".to_vec());
    assert_eq!(file_uri(b"/proj/src/lib.rs"), b"file:///proj/src/lib.rs".to_vec());
}

// The four hover shapes, one flattened answer.
#[test]
fn hover_plain_string_contents() {
    let r = doc("{\"contents\": \"fn foo()\"}");
    assert_eq!(normalize_hover(&r), Some(b"fn foo()".to_vec()));
}

#[test]
fn hover_markup_object_contents() {
    let r = doc("{\"contents\": {\"value\": \"fn foo()\"}}");
    assert_eq!(normalize_hover(&r), Some(b"fn foo()".to_vec()));
}

#[test]
fn hover_marked_string_array_contents() {
    let r = doc("{\"contents\": [{\"value\": \"fn foo()\"}]}");
    assert_eq!(normalize_hover(&r), Some(b"fn foo()".to_vec()));
}

#[test]
fn hover_empty_object_contents() {
    let r = doc("{\"contents\": {}}");
    assert_eq!(normalize_hover(&r), None);
}

#[test]
fn hover_array_joins_entries_with_blank_line() {
    let r = doc("{\"contents\": [\"fn foo()\", {\"value\": \"a doc line\"}, 7]}");
    assert_eq!(normalize_hover(&r), Some(b"fn foo()\n\na doc line".to_vec()));
}

#[test]
fn hover_without_contents_is_none() {
    assert_eq!(normalize_hover(&doc("{}")), None);
    assert_eq!(normalize_hover(&doc("null")), None);
}

#[test]
fn completions_from_items_field() {
    let r = doc("{\"items\": [{\"label\": \"push\", \"kind\": 2, \"detail\": \"method\"}]}");
    let out = transform_completions(&r);
    assert_eq!(out.len(), 1);
    assert_eq!(
        write_json(&out[0]),
        b"{\"label\":\"push\",\"kind\":2,\"detail\":\"method\",\"documentation\":null}".to_vec()
    );
}

#[test]
fn completions_from_bare_array_keep_optional_texts() {
    let r = doc("[{\"label\": \"x\", \"insertText\": \"x()\", \"sortText\": \"0001\"}]");
    let out = transform_completions(&r);
    assert_eq!(out.len(), 1);
    let expected = "{\"label\":\"x\",\"kind\":1,\"detail\":\"\",\"documentation\":null,\"insertText\":\"x()\",\"sortText\":\"0001\"}";
    assert_eq!(write_json(&out[0]), expected.as_bytes().to_vec());
}

#[test]
fn completions_default_on_missing_fields() {
    let r = doc("{\"items\": [{}]}");
    let out = transform_completions(&r);
    assert_eq!(
        write_json(&out[0]),
        b"{\"label\":\"\",\"kind\":1,\"detail\":\"\",\"documentation\":null}".to_vec()
    );
}

#[test]
fn completions_unusable_response_is_empty() {
    assert!(transform_completions(&doc("{\"items\": 3}")).is_empty());
    assert!(transform_completions(&doc("null")).is_empty());
}

// With the backend toggle off, no connect is attempted and every
// operation takes its empty result.
#[test]
fn disabled_backend_degrades_gracefully() {
    let facade = AnalyzerFacade::new(b"/proj".to_vec(), false);
    assert!(!facade.should_attempt_connect());
    assert_eq!(facade.hover_outcome(None), None);
    assert!(facade.completions_outcome(None).is_empty());
    assert!(facade.locations_outcome(None).is_empty());
}

#[test]
fn enabled_backend_connects_once() {
    let mut facade = AnalyzerFacade::new(b"/proj".to_vec(), true);
    assert!(facade.should_attempt_connect());
    facade.mark_connected();
    assert!(!facade.should_attempt_connect());
    facade.mark_disconnected();
    assert!(facade.should_attempt_connect());
}

#[test]
fn facade_shapes_backend_responses() {
    let facade = AnalyzerFacade::new(b"/proj".to_vec(), true);
    let hover = doc("{\"contents\": \"fn foo()\"}");
    assert_eq!(facade.hover_outcome(Some(&hover)), Some(b"fn foo()".to_vec()));
    let locations = doc("[{\"uri\": \"file:///a.rs\"}]");
    assert_eq!(facade.locations_outcome(Some(&locations)).len(), 1);
    assert!(facade.locations_outcome(Some(&doc("{}"))).is_empty());
}

#[test]
fn text_range_keeps_bounds() {
    let start = TextSize::from_offset(3);
    let end = TextSize::from_offset(9);
    let _range = TextRange::new(start, end);
}

#[test]
fn rename_error_payload_shape() {
    let err = build_error_obj(b"Rename failed: timeout");
    assert_eq!(
        write_json(&err),
        b"{\"error\":\"Rename failed: timeout\"}".to_vec()
    );
}

#[test]
fn facade_resolves_paths_under_its_root() {
    let facade = AnalyzerFacade::new(b"/proj".to_vec(), true);
    assert_eq!(facade.resolve(b"src/main.rs"), b"/proj/src/main.rs".to_vec());
    assert_eq!(facade.resolve(b"/outside.rs"), b"/outside.rs".to_vec());
}
