use mcp_rust_analyzer::framing::{decode_frame, encode_frame, DecodeResult};

#[test]
fn frame_encode_exact_bytes() {
    let body = b"{\"a\":1}".to_vec();
    let frame = encode_frame(&body);
    assert_eq!(frame, b"Content-Length: 7\r\n\r\n{\"a\":1}".to_vec());
}

#[test]
fn frame_round_trip_simple() {
    let body = b"hello world".to_vec();
    let frame = encode_frame(&body);
    match decode_frame(&frame) {
        DecodeResult::Frame(decoded, consumed) => {
            assert_eq!(decoded, body);
            assert_eq!(consumed, frame.len());
        }
        _ => panic!("expected a complete frame"),
    }
}

#[test]
fn frame_round_trip_empty_body() {
    let body = Vec::new();
    let frame = encode_frame(&body);
    assert_eq!(frame, b"Content-Length: 0\r\n\r\n".to_vec());
    match decode_frame(&frame) {
        DecodeResult::Frame(decoded, consumed) => {
            assert_eq!(decoded, body);
            assert_eq!(consumed, frame.len());
        }
        _ => panic!("expected a complete frame"),
    }
}

#[test]
fn frame_needs_more_when_truncated() {
    let body = b"abcdefgh".to_vec();
    let mut frame = encode_frame(&body);
    frame.truncate(frame.len() - 3);
    assert!(matches!(decode_frame(&frame), DecodeResult::NeedMore));
}

#[test]
fn frame_needs_more_without_blank_line() {
    let partial = b"Content-Length: 5\r\n".to_vec();
    assert!(matches!(decode_frame(&partial), DecodeResult::NeedMore));
}

#[test]
fn frame_malformed_without_content_length() {
    let bad = b"Content-Type: text/plain\r\n\r\nabc".to_vec();
    assert!(matches!(decode_frame(&bad), DecodeResult::Malformed));
}

#[test]
fn frame_malformed_on_immediate_blank_line() {
    let bad = b"\r\nrest".to_vec();
    assert!(matches!(decode_frame(&bad), DecodeResult::Malformed));
}

#[test]
fn frame_accepts_extra_headers() {
    let framed = b"Content-Type: application/json\r\nContent-Length: 4\r\n\r\nbody".to_vec();
    match decode_frame(&framed) {
        DecodeResult::Frame(decoded, consumed) => {
            assert_eq!(decoded, b"body".to_vec());
            assert_eq!(consumed, framed.len());
        }
        _ => panic!("expected a complete frame"),
    }
}

// Three messages written back to back never blur: each decode step
// yields exactly one of the sent bodies, in order.
#[test]
fn three_records_stay_apart_on_the_wire() {
    let bodies = vec![
        b"{\"id\":1}".to_vec(),
        b"{\"id\":2,\"method\":\"x\"}".to_vec(),
        b"{\"id\":3}".to_vec(),
    ];
    let mut wire = Vec::new();
    for b in &bodies {
        wire.extend_from_slice(&encode_frame(b));
    }
    let mut rest = wire;
    for expected in &bodies {
        match decode_frame(&rest) {
            DecodeResult::Frame(decoded, consumed) => {
                assert_eq!(&decoded, expected);
                rest = rest.split_off(consumed);
            }
            _ => panic!("expected a complete frame"),
        }
    }
    assert!(rest.is_empty());
}
