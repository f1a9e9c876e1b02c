use mcp_rust_analyzer::framing::{decode_frame, DecodeResult};
use mcp_rust_analyzer::json::{parse_json, write_json, JsonValue};
use mcp_rust_analyzer::lsp_client::{
    build_initialize_params, ClientError, ClientState, LspClientConfig, LspClientCore, ReaderStep,
};

fn test_config() -> LspClientConfig {
    LspClientConfig {
        server_path: "rust-analyzer".to_string(),
        server_args: vec![],
        root_path: ".".to_string(),
    }
}

#[test]
fn test_lsp_client_struct_creation() {
    let config = LspClientConfig {
        server_path: "rust-analyzer".to_string(),
        server_args: vec![],
        root_path: ".".to_string(),
    };

    // Just verify we can create the config
    assert_eq!(config.server_path, "rust-analyzer");
}

#[test]
fn client_starts_not_started() {
    let core = LspClientCore::new(test_config());
    assert_eq!(core.current_state(), ClientState::NotStarted);
    assert_eq!(core.next_request_id(), 1);
}

#[test]
fn requests_refused_before_initialize() {
    let mut core = LspClientCore::new(test_config());
    let r = core.prepare_request(b"textDocument/hover", JsonValue::Null);
    assert_eq!(r, Err(ClientError::NotInitialized));
    assert_eq!(core.current_state(), ClientState::NotStarted);
}

#[test]
fn request_bytes_are_one_valid_frame() {
    let mut core = LspClientCore::new(test_config());
    core.mark_started();
    core.mark_initialized();
    let (id, bytes) = core
        .prepare_request(b"textDocument/hover", JsonValue::Null)
        .expect("initialized client accepts requests");
    assert_eq!(id, 1);
    assert_eq!(core.next_request_id(), 2);
    match decode_frame(&bytes) {
        DecodeResult::Frame(body, consumed) => {
            assert_eq!(consumed, bytes.len());
            let msg = parse_json(&body).expect("request body is valid JSON");
            assert_eq!(
                write_json(&msg),
                b"{\"jsonrpc\":\"2.0\",\"id\":1,\"method\":\"textDocument/hover\",\"params\":null}"
                    .to_vec()
            );
        }
        _ => panic!("expected one complete frame"),
    }
}

#[test]
fn request_ids_increase_per_request() {
    let mut core = LspClientCore::new(test_config());
    core.mark_started();
    core.mark_initialized();
    let (id1, _) = core.prepare_request(b"a", JsonValue::Null).unwrap();
    let (id2, _) = core.prepare_request(b"b", JsonValue::Null).unwrap();
    let (id3, _) = core.prepare_request(b"c", JsonValue::Null).unwrap();
    assert_eq!((id1, id2, id3), (1, 2, 3));
}

#[test]
fn notification_bytes_have_no_id() {
    let core = LspClientCore::new(test_config());
    let bytes = core.prepare_notification(b"initialized", JsonValue::Obj(Vec::new()));
    match decode_frame(&bytes) {
        DecodeResult::Frame(body, _) => {
            assert_eq!(
                body,
                b"{\"jsonrpc\":\"2.0\",\"method\":\"initialized\",\"params\":{}}".to_vec()
            );
        }
        _ => panic!("expected one complete frame"),
    }
}

#[test]
fn reader_step_delivers_result_once() {
    let mut core = LspClientCore::new(test_config());
    core.mark_started();
    core.mark_initialized();
    let (id, _) = core.prepare_request(b"m", JsonValue::Null).unwrap();
    let response = parse_json(&format!("{{\"jsonrpc\":\"2.0\",\"id\":{},\"result\":\"ok\"}}", id)
        .into_bytes())
        .unwrap();
    match core.reader_step(&response) {
        ReaderStep::Deliver(rid, is_err, payload) => {
            assert_eq!(rid, id);
            assert!(!is_err);
            assert_eq!(write_json(&payload), b"\"ok\"".to_vec());
        }
        _ => panic!("expected delivery"),
    }
    // the same response again finds no waiter and is dropped silently
    match core.reader_step(&response) {
        ReaderStep::LateResponse(rid) => assert_eq!(rid, id),
        _ => panic!("expected a late response"),
    }
}

#[test]
fn reader_step_delivers_error_payload() {
    let mut core = LspClientCore::new(test_config());
    core.mark_started();
    core.mark_initialized();
    let (id, _) = core.prepare_request(b"m", JsonValue::Null).unwrap();
    let response =
        parse_json(&format!("{{\"id\":{},\"error\":{{\"code\":-32601}}}}", id).into_bytes())
            .unwrap();
    match core.reader_step(&response) {
        ReaderStep::Deliver(rid, is_err, payload) => {
            assert_eq!(rid, id);
            assert!(is_err);
            assert_eq!(write_json(&payload), b"{\"code\":-32601}".to_vec());
        }
        _ => panic!("expected delivery"),
    }
}

#[test]
fn reader_step_ignores_notifications() {
    let mut core = LspClientCore::new(test_config());
    let note = parse_json(&b"{\"method\":\"window/logMessage\",\"params\":{}}".to_vec()).unwrap();
    assert!(matches!(core.reader_step(&note), ReaderStep::NotResponse));
    let no_payload = parse_json(&b"{\"id\":3}".to_vec()).unwrap();
    assert!(matches!(core.reader_step(&no_payload), ReaderStep::NotResponse));
}

// One request timing out does not touch the other: the late response
// for the timed-out request is dropped, the other still delivers.
#[test]
fn timeout_isolation_between_requests() {
    let mut core = LspClientCore::new(test_config());
    core.mark_started();
    core.mark_initialized();
    let (id_a, _) = core.prepare_request(b"a", JsonValue::Null).unwrap();
    let (id_b, _) = core.prepare_request(b"b", JsonValue::Null).unwrap();
    core.on_timeout(id_a);
    let resp_b = parse_json(&format!("{{\"id\":{},\"result\":1}}", id_b).into_bytes()).unwrap();
    match core.reader_step(&resp_b) {
        ReaderStep::Deliver(rid, false, _) => assert_eq!(rid, id_b),
        _ => panic!("request B must still deliver"),
    }
    let resp_a = parse_json(&format!("{{\"id\":{},\"result\":2}}", id_a).into_bytes()).unwrap();
    assert!(matches!(core.reader_step(&resp_a), ReaderStep::LateResponse(_)));
}

// Shutting down twice in a row, or without ever initializing, succeeds
// and leaves the client stopped.
#[test]
fn shutdown_is_idempotent() {
    let mut core = LspClientCore::new(test_config());
    core.mark_started();
    core.mark_initialized();
    let first = core.shutdown();
    assert!(first);
    assert_eq!(core.current_state(), ClientState::Stopped);
    let second = core.shutdown();
    assert!(!second);
    assert_eq!(core.current_state(), ClientState::Stopped);
}

#[test]
fn shutdown_without_initialize_is_a_noop_success() {
    let mut core = LspClientCore::new(test_config());
    let teardown = core.shutdown();
    assert!(!teardown);
    assert_eq!(core.current_state(), ClientState::Stopped);
}

#[test]
fn initialize_failure_stops_the_client() {
    let mut core = LspClientCore::new(test_config());
    core.mark_started();
    assert_eq!(core.current_state(), ClientState::Starting);
    core.mark_initialize_failed();
    assert_eq!(core.current_state(), ClientState::Stopped);
}

#[test]
fn initialize_request_allowed_only_while_starting() {
    let mut core = LspClientCore::new(test_config());
    let refused = core.prepare_initialize_request(JsonValue::Null);
    assert_eq!(refused, Err(ClientError::NotInitialized));
    core.mark_started();
    let (id, bytes) = core
        .prepare_initialize_request(build_initialize_params(42, b"file:///w"))
        .expect("starting client may initialize");
    assert_eq!(id, 1);
    match decode_frame(&bytes) {
        DecodeResult::Frame(body, _) => {
            let text = String::from_utf8(body).unwrap();
            assert!(text.starts_with("{\"jsonrpc\":\"2.0\",\"id\":1,\"method\":\"initialize\""));
            assert!(text.contains("\"processId\":42"));
            assert!(text.contains("\"rootUri\":\"file:///w\""));
        }
        _ => panic!("expected one complete frame"),
    }
}

#[test]
fn initialize_params_exact_shape() {
    let params = build_initialize_params(9, b"file:///proj");
    let mut expected = String::new();
    expected.push_str("{\"processId\":9,");
    expected.push_str("\"clientInfo\":{\"name\":\"mcp-rust-analyzer\",\"version\":\"0.1.0\"},");
    expected.push_str("\"rootUri\":\"file:///proj\",");
    expected.push_str("\"capabilities\":{\"textDocument\":{");
    expected.push_str("\"hover\":{\"contentFormat\":[\"markdown\",\"plaintext\"]},");
    expected.push_str("\"completion\":{\"completionItem\":{\"snippetSupport\":true}},");
    expected.push_str("\"references\":{},");
    expected.push_str("\"rename\":{\"prepareSupport\":true},");
    expected.push_str("\"signatureHelp\":{\"signatureInformation\":{\"documentationFormat\":[\"markdown\",\"plaintext\"]}},");
    expected.push_str("\"implementation\":{},");
    expected.push_str("\"codeAction\":{}}}}");
    assert_eq!(write_json(&params), expected.as_bytes().to_vec());
}
