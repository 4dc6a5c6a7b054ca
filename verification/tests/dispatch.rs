//! The router: tools/list, tools/call, result coercion, shared state.

use std::sync::Mutex;

use mcp_runtime::context::Inject;
use mcp_runtime::json::JsonValue;
use mcp_runtime::protocol::{
    ErrorData, JsonRpcRequest, JsonRpcResponse, SendableMessage,
};
use mcp_runtime::router::{
    finish_tool_call, MCPServer, MCPServerBuilder, RouteAction, Tool, ToolError,
};
use mcp_runtime::server::{action_for_item, response_for_outcome, ServerAction};

fn obj(fields: Vec<(&[u8], JsonValue)>) -> JsonValue {
    JsonValue::Obj(fields.into_iter().map(|(k, v)| (k.to_vec(), v)).collect())
}

fn s(text: &[u8]) -> JsonValue {
    JsonValue::Str(text.to_vec())
}

fn num(lex: &[u8]) -> JsonValue {
    JsonValue::Num(lex.to_vec())
}

fn calculator_server() -> MCPServer<i64> {
    MCPServerBuilder::new(b"calc".to_vec(), b"a calculator".to_vec())
        .with_tool(Tool {
            name: b"calculator".to_vec(),
            description: b"basic arithmetic".to_vec(),
            input_schema: obj(vec![(b"type", s(b"object"))]),
        })
        .build()
}

/// The calculator tool handler, as a server embedding would supply it.
fn calculator(args: &JsonValue) -> Result<JsonValue, ToolError> {
    let fields = match args {
        JsonValue::Obj(fields) => fields,
        _ => return Err(ToolError::InvalidParameters(b"expected an object".to_vec())),
    };
    let get = |name: &[u8]| {
        fields
            .iter()
            .rev()
            .find(|(k, _)| k.as_slice() == name)
            .map(|(_, v)| v)
    };
    let int_of = |v: Option<&JsonValue>| -> Result<i64, ToolError> {
        match v {
            Some(JsonValue::Num(lex)) => String::from_utf8(lex.clone())
                .ok()
                .and_then(|t| t.parse::<i64>().ok())
                .ok_or_else(|| ToolError::InvalidParameters(b"not an integer".to_vec())),
            _ => Err(ToolError::InvalidParameters(b"missing operand".to_vec())),
        }
    };
    let x = int_of(get(b"x"))?;
    let y = int_of(get(b"y"))?;
    let op = match get(b"operation") {
        Some(JsonValue::Str(op)) => op.clone(),
        _ => return Err(ToolError::InvalidParameters(b"missing operation".to_vec())),
    };
    let r = match op.as_slice() {
        b"add" => x + y,
        b"multiply" => x * y,
        b"divide" => {
            if y == 0 {
                return Err(ToolError::ExecutionError(b"Division by zero".to_vec()));
            }
            x / y
        }
        _ => return Err(ToolError::InvalidParameters(b"unknown operation".to_vec())),
    };
    Ok(JsonValue::Num(r.to_string().into_bytes()))
}

fn call_request(id: &[u8], tool: &[u8], arguments: JsonValue) -> JsonRpcRequest {
    JsonRpcRequest {
        id: id.to_vec(),
        method: b"tools/call".to_vec(),
        params: obj(vec![(b"name", s(tool)), (b"arguments", arguments)]),
    }
}

/// Drive one request through the router the way the loop runner does.
fn dispatch(server: &MCPServer<i64>, req: &JsonRpcRequest) -> JsonRpcResponse {
    match server.route_request(req) {
        RouteAction::Respond(resp) => resp,
        RouteAction::InvokeTool { index, arguments } => {
            assert!(index < server.list_tools().len());
            let outcome = calculator(&arguments);
            finish_tool_call(req.id.clone(), outcome)
        }
    }
}

#[test]
fn tool_call_multiplies() {
    let server = calculator_server();
    let req = call_request(
        b"42",
        b"calculator",
        obj(vec![
            (b"x", num(b"6")),
            (b"y", num(b"7")),
            (b"operation", s(b"multiply")),
        ]),
    );
    let resp = dispatch(&server, &req);
    assert_eq!(
        resp,
        JsonRpcResponse::Success {
            id: b"42".to_vec(),
            result: JsonValue::Arr(vec![obj(vec![
                (b"type", s(b"text")),
                (b"text", s(b"42")),
            ])]),
        }
    );
}

#[test]
fn division_by_zero_is_an_internal_error() {
    let server = calculator_server();
    let req = call_request(
        b"7",
        b"calculator",
        obj(vec![
            (b"x", num(b"1")),
            (b"y", num(b"0")),
            (b"operation", s(b"divide")),
        ]),
    );
    match dispatch(&server, &req) {
        JsonRpcResponse::Error { id, error } => {
            assert_eq!(id, b"7".to_vec());
            assert_eq!(error.code, -32603);
            let text = String::from_utf8(error.message).unwrap();
            assert!(text.contains("Division by zero"));
        }
        other => panic!("expected an error response, got {:?}", other),
    }
}

#[test]
fn tools_list_names_every_tool() {
    let server = calculator_server();
    let req = JsonRpcRequest {
        id: b"1".to_vec(),
        method: b"tools/list".to_vec(),
        params: JsonValue::Null,
    };
    match server.route_request(&req) {
        RouteAction::Respond(JsonRpcResponse::Success { id, result }) => {
            assert_eq!(id, b"1".to_vec());
            assert_eq!(
                result,
                obj(vec![(
                    b"tools",
                    JsonValue::Arr(vec![obj(vec![
                        (b"name", s(b"calculator")),
                        (b"description", s(b"basic arithmetic")),
                        (b"inputSchema", obj(vec![(b"type", s(b"object"))])),
                    ])]),
                )])
            );
        }
        other => panic!("expected a list response, got {:?}", other),
    }
}

#[test]
fn unknown_tool_and_unknown_method_use_method_not_found() {
    let server = calculator_server();
    let req = call_request(b"1", b"missing", JsonValue::Null);
    match server.route_request(&req) {
        RouteAction::Respond(JsonRpcResponse::Error { error, .. }) => {
            assert_eq!(error.code, -32601);
        }
        other => panic!("unexpected {:?}", other),
    }
    let req = JsonRpcRequest {
        id: b"1".to_vec(),
        method: b"resources/list".to_vec(),
        params: JsonValue::Null,
    };
    match server.route_request(&req) {
        RouteAction::Respond(JsonRpcResponse::Error { error, .. }) => {
            assert_eq!(error.code, -32601);
        }
        other => panic!("unexpected {:?}", other),
    }
}

#[test]
fn malformed_call_params_use_invalid_params() {
    let server = calculator_server();
    let req = JsonRpcRequest {
        id: b"1".to_vec(),
        method: b"tools/call".to_vec(),
        params: JsonValue::Null,
    };
    match server.route_request(&req) {
        RouteAction::Respond(JsonRpcResponse::Error { error, .. }) => {
            assert_eq!(error.code, -32602);
        }
        other => panic!("unexpected {:?}", other),
    }
}

#[test]
fn a_tool_added_again_replaces_its_earlier_self() {
    let server: MCPServer<i64> = MCPServerBuilder::new(b"s".to_vec(), b"d".to_vec())
        .with_tool(Tool {
            name: b"t".to_vec(),
            description: b"old".to_vec(),
            input_schema: JsonValue::Null,
        })
        .with_tool(Tool {
            name: b"t".to_vec(),
            description: b"new".to_vec(),
            input_schema: JsonValue::Null,
        })
        .build();
    let tools = server.list_tools();
    assert_eq!(tools.len(), 1);
    assert_eq!(tools[0].description, b"new".to_vec());
}

#[test]
fn result_coercion_covers_every_shape() {
    // null: no content
    assert_eq!(
        finish_tool_call(b"1".to_vec(), Ok(JsonValue::Null)),
        JsonRpcResponse::Success {
            id: b"1".to_vec(),
            result: JsonValue::Arr(vec![]),
        }
    );
    // bool and string become one text entry
    assert_eq!(
        finish_tool_call(b"1".to_vec(), Ok(JsonValue::Bool(true))),
        JsonRpcResponse::Success {
            id: b"1".to_vec(),
            result: JsonValue::Arr(vec![obj(vec![(b"type", s(b"text")), (b"text", s(b"true"))])]),
        }
    );
    assert_eq!(
        finish_tool_call(b"1".to_vec(), Ok(s(b"hello"))),
        JsonRpcResponse::Success {
            id: b"1".to_vec(),
            result: JsonValue::Arr(vec![obj(vec![(b"type", s(b"text")), (b"text", s(b"hello"))])]),
        }
    );
    // an array must already be content entries
    let good = JsonValue::Arr(vec![obj(vec![(b"type", s(b"text")), (b"text", s(b"a"))])]);
    assert!(matches!(
        finish_tool_call(b"1".to_vec(), Ok(good)),
        JsonRpcResponse::Success { .. }
    ));
    let bad = JsonValue::Arr(vec![num(b"1")]);
    match finish_tool_call(b"1".to_vec(), Ok(bad)) {
        JsonRpcResponse::Error { error, .. } => assert_eq!(error.code, -32603),
        other => panic!("unexpected {:?}", other),
    }
    // a bare object never coerces
    match finish_tool_call(b"1".to_vec(), Ok(obj(vec![(b"k", num(b"1"))]))) {
        JsonRpcResponse::Error { error, .. } => assert_eq!(error.code, -32603),
        other => panic!("unexpected {:?}", other),
    }
    // invalid parameters keep their own code
    match finish_tool_call(
        b"1".to_vec(),
        Err(ToolError::InvalidParameters(b"bad".to_vec())),
    ) {
        JsonRpcResponse::Error { error, .. } => assert_eq!(error.code, -32602),
        other => panic!("unexpected {:?}", other),
    }
}

struct Counter {
    value: Mutex<i64>,
}

#[test]
fn injected_state_is_shared_across_calls() {
    let server: MCPServer<Inject<Counter>> = MCPServerBuilder::new(
        b"counter".to_vec(),
        b"a shared counter".to_vec(),
    )
    .with_state(1, Inject::new(Counter { value: Mutex::new(0) }))
    .build();

    // two increments through separate handles, then a read
    for quantity in [3i64, 2] {
        let counter = server.state(1).expect("registered state").duplicate();
        *counter.inner().value.lock().unwrap() += quantity;
    }
    let counter = server.state(1).expect("registered state");
    assert_eq!(*counter.inner().value.lock().unwrap(), 5);
    // an unregistered tag yields nothing rather than a fallback
    assert!(server.state(2).is_none());
}

#[test]
fn loop_actions_for_each_item_kind() {
    let req = JsonRpcRequest {
        id: b"1".to_vec(),
        method: b"m".to_vec(),
        params: JsonValue::Null,
    };
    match action_for_item(Ok(SendableMessage::Request(req))) {
        ServerAction::CallService(r) => assert_eq!(r.id, b"1".to_vec()),
        other => panic!("unexpected {:?}", other),
    }
    let note = SendableMessage::Notification(mcp_runtime::protocol::JsonRpcNotification {
        method: b"m".to_vec(),
        params: JsonValue::Null,
    });
    assert!(matches!(
        action_for_item(Ok(note)),
        ServerAction::Ignore
    ));
    assert!(matches!(
        action_for_item(Err(mcp_runtime::decode::DecodeError::Json)),
        ServerAction::Ignore
    ));
}

#[test]
fn service_failure_becomes_an_internal_error_response() {
    let r = response_for_outcome(b"9".to_vec(), Err(b"handler panicked".to_vec()));
    assert_eq!(
        r,
        Some(JsonRpcResponse::Error {
            id: b"9".to_vec(),
            error: ErrorData {
                code: -32603,
                message: b"handler panicked".to_vec(),
                data: None,
            },
        })
    );
    assert_eq!(response_for_outcome(b"9".to_vec(), Ok(None)), None);
}
