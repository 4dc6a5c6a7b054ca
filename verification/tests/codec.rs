//! Wire codec: encoding, parsing, framing, and per-frame error recovery.

use mcp_runtime::decode::{decode_frames, decode_line, decode_response_line, DecodeError};
use mcp_runtime::json::{encode_json, JsonValue};
use mcp_runtime::parse::parse_json;
use mcp_runtime::protocol::{
    encode_message, encode_response, ErrorData, JsonRpcNotification, JsonRpcRequest,
    JsonRpcResponse, SendableMessage,
};

fn obj(fields: Vec<(&[u8], JsonValue)>) -> JsonValue {
    JsonValue::Obj(fields.into_iter().map(|(k, v)| (k.to_vec(), v)).collect())
}

fn s(text: &[u8]) -> JsonValue {
    JsonValue::Str(text.to_vec())
}

#[test]
fn encode_request_exact_bytes() {
    let m = SendableMessage::Request(JsonRpcRequest {
        id: b"1".to_vec(),
        method: b"ping".to_vec(),
        params: obj(vec![]),
    });
    let bytes = encode_message(&m);
    assert_eq!(
        bytes,
        br#"{"jsonrpc":"2.0","id":"1","method":"ping","params":{}}"#.to_vec()
    );
}

#[test]
fn encode_notification_exact_bytes() {
    let m = SendableMessage::Notification(JsonRpcNotification {
        method: b"notify".to_vec(),
        params: JsonValue::Null,
    });
    assert_eq!(
        encode_message(&m),
        br#"{"jsonrpc":"2.0","method":"notify","params":null}"#.to_vec()
    );
}

#[test]
fn round_trip_request() {
    let m = SendableMessage::Request(JsonRpcRequest {
        id: b"42".to_vec(),
        method: b"tools/call".to_vec(),
        params: obj(vec![
            (b"name", s(b"calculator")),
            (
                b"arguments",
                obj(vec![
                    (b"x", JsonValue::Num(b"6".to_vec())),
                    (b"y", JsonValue::Num(b"7".to_vec())),
                    (b"operation", s(b"multiply")),
                ]),
            ),
        ]),
    });
    let mut line = encode_message(&m);
    line.push(b'\n');
    let items = decode_frames(&line);
    assert_eq!(items.len(), 1);
    assert_eq!(items[0], Ok(m));
}

#[test]
fn round_trip_notification() {
    let m = SendableMessage::Notification(JsonRpcNotification {
        method: b"progress".to_vec(),
        params: JsonValue::Arr(vec![
            JsonValue::Bool(true),
            JsonValue::Num(b"-1.5e3".to_vec()),
            s(b"done \"ok\"\n"),
        ]),
    });
    let line = encode_message(&m);
    assert_eq!(decode_line(&line), Ok(m));
}

#[test]
fn numeric_id_is_normalized_to_its_lexeme() {
    let line = br#"{"jsonrpc":"2.0","id":7,"method":"x"}"#.to_vec();
    match decode_line(&line) {
        Ok(SendableMessage::Request(req)) => {
            assert_eq!(req.id, b"7".to_vec());
            assert_eq!(req.method, b"x".to_vec());
            assert_eq!(req.params, JsonValue::Null);
        }
        other => panic!("expected a request, got {:?}", other),
    }
}

#[test]
fn malformed_frames_are_skipped_one_by_one() {
    let mut input = b"not json\n".to_vec();
    input.extend_from_slice(b"{\"jsonrpc\":\"1.0\",\"id\":\"a\",\"method\":\"x\"}\n");
    input.extend_from_slice(b"{\"jsonrpc\":\"2.0\",\"id\":\"b\",\"method\":\"tools/list\"}\n");
    let items = decode_frames(&input);
    assert_eq!(items.len(), 3);
    assert_eq!(items[0], Err(DecodeError::Json));
    assert!(matches!(items[1], Err(DecodeError::InvalidMessage(_))));
    match &items[2] {
        Ok(SendableMessage::Request(req)) => {
            assert_eq!(req.id, b"b".to_vec());
            assert_eq!(req.method, b"tools/list".to_vec());
        }
        other => panic!("expected a request, got {:?}", other),
    }
}

#[test]
fn a_bad_frame_does_not_affect_the_next_frame() {
    let input = b"{\"jsonrpc\":\"2.0\"\n{\"jsonrpc\":\"2.0\",\"method\":\"m\"}\n".to_vec();
    let items = decode_frames(&input);
    assert_eq!(items.len(), 2);
    assert_eq!(items[0], Err(DecodeError::Json));
    assert!(matches!(items[1], Ok(SendableMessage::Notification(_))));
}

#[test]
fn non_object_and_wrong_version_are_invalid_message() {
    assert!(matches!(
        decode_line(&b"[1,2,3]".to_vec()),
        Err(DecodeError::InvalidMessage(_))
    ));
    assert!(matches!(
        decode_line(&b"{\"jsonrpc\":\"1.0\",\"method\":\"x\"}".to_vec()),
        Err(DecodeError::InvalidMessage(_))
    ));
}

#[test]
fn parser_handles_whitespace_escapes_and_lexemes() {
    let v = parse_json(&b" [ 1 , true , null , \"a\\u0041\\n\" ] ".to_vec()).unwrap();
    assert_eq!(
        v,
        JsonValue::Arr(vec![
            JsonValue::Num(b"1".to_vec()),
            JsonValue::Bool(true),
            JsonValue::Null,
            s(b"aA\n"),
        ])
    );
    // a float lexeme is preserved exactly, never converted
    let f = parse_json(&b"1.5e3".to_vec()).unwrap();
    assert_eq!(f, JsonValue::Num(b"1.5e3".to_vec()));
    // leading zeros are not a valid number lexeme
    assert_eq!(parse_json(&b"01".to_vec()), None);
    // raw control bytes are rejected inside strings
    assert_eq!(parse_json(&b"\"a\x01b\"".to_vec()), None);
    // a lone surrogate escape is rejected, a pair is combined
    assert_eq!(parse_json(&b"\"\\ud83d\"".to_vec()), None);
    assert_eq!(
        parse_json(&b"\"\\ud83d\\ude00\"".to_vec()),
        Some(s("\u{1f600}".as_bytes()))
    );
}

#[test]
fn encoder_escapes_string_contents() {
    let v = s(b"a\"b\\c\nd\te\x01");
    assert_eq!(encode_json(&v), b"\"a\\\"b\\\\c\\nd\\te\\u0001\"".to_vec());
}

#[test]
fn response_round_trip_success() {
    let resp = JsonRpcResponse::Success {
        id: b"1".to_vec(),
        result: obj(vec![(b"ok", JsonValue::Bool(true))]),
    };
    let line = encode_response(&resp);
    assert_eq!(
        line,
        br#"{"jsonrpc":"2.0","id":"1","result":{"ok":true}}"#.to_vec()
    );
    assert_eq!(decode_response_line(&line), Ok(resp));
}

#[test]
fn response_round_trip_error_with_negative_code() {
    let resp = JsonRpcResponse::Error {
        id: b"7".to_vec(),
        error: ErrorData {
            code: -32603,
            message: b"Division by zero".to_vec(),
            data: None,
        },
    };
    let line = encode_response(&resp);
    assert_eq!(
        line,
        br#"{"jsonrpc":"2.0","id":"7","error":{"code":-32603,"message":"Division by zero"}}"#
            .to_vec()
    );
    assert_eq!(decode_response_line(&line), Ok(resp));
}

#[test]
fn response_code_bounds() {
    let max = br#"{"jsonrpc":"2.0","id":"1","error":{"code":9223372036854775807,"message":"m"}}"#
        .to_vec();
    match decode_response_line(&max) {
        Ok(JsonRpcResponse::Error { error, .. }) => assert_eq!(error.code, i64::MAX),
        other => panic!("unexpected {:?}", other),
    }
    let min = br#"{"jsonrpc":"2.0","id":"1","error":{"code":-9223372036854775808,"message":"m"}}"#
        .to_vec();
    match decode_response_line(&min) {
        Ok(JsonRpcResponse::Error { error, .. }) => assert_eq!(error.code, i64::MIN),
        other => panic!("unexpected {:?}", other),
    }
    let too_big =
        br#"{"jsonrpc":"2.0","id":"1","error":{"code":9223372036854775808,"message":"m"}}"#
            .to_vec();
    assert_eq!(decode_response_line(&too_big), Err(DecodeError::Json));
}

#[test]
fn response_without_id_or_body_is_rejected() {
    assert_eq!(
        decode_response_line(&br#"{"jsonrpc":"2.0","result":1}"#.to_vec()),
        Err(DecodeError::Json)
    );
    assert_eq!(
        decode_response_line(&br#"{"jsonrpc":"2.0","id":"1"}"#.to_vec()),
        Err(DecodeError::Json)
    );
}

#[test]
fn empty_input_has_no_frames() {
    let items = decode_frames(&Vec::new());
    assert_eq!(items.len(), 0);
}
