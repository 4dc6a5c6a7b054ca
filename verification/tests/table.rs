//! The pending-request table and the client transport steps: correlation,
//! orphaning, shutdown, and out-of-band failures.

use mcp_runtime::json::JsonValue;
use mcp_runtime::pending::PendingRequests;
use mcp_runtime::protocol::{JsonRpcRequest, JsonRpcResponse, SendableMessage};
use mcp_runtime::transport::{
    finish_send, make_envelope, reader_step, stderr_error, writer_step, Error,
};
use tokio::sync::oneshot::error::TryRecvError;

fn ping(id: &[u8]) -> SendableMessage {
    SendableMessage::Request(JsonRpcRequest {
        id: id.to_vec(),
        method: b"ping".to_vec(),
        params: JsonValue::Obj(Vec::new()),
    })
}

#[test]
fn request_is_answered_with_its_own_response() {
    let mut table = PendingRequests::new();
    let (envelope, rx) = make_envelope(ping(b"1"));
    let mut rx = rx.expect("a request gets a response slot");

    let frame = writer_step(&mut table, envelope);
    assert_eq!(
        frame,
        b"{\"jsonrpc\":\"2.0\",\"id\":\"1\",\"method\":\"ping\",\"params\":{}}\n".to_vec()
    );
    // nothing delivered before the peer answers
    assert!(matches!(rx.try_recv(), Err(TryRecvError::Empty)));

    let line = br#"{"jsonrpc":"2.0","id":"1","result":{"ok":true}}"#.to_vec();
    reader_step(&mut table, &line);
    let got = rx.try_recv().expect("the waiter was completed");
    assert_eq!(
        got,
        Ok(JsonRpcResponse::Success {
            id: b"1".to_vec(),
            result: JsonValue::Obj(vec![(b"ok".to_vec(), JsonValue::Bool(true))]),
        })
    );
}

#[test]
fn notification_gets_no_slot() {
    let m = SendableMessage::Notification(mcp_runtime::protocol::JsonRpcNotification {
        method: b"note".to_vec(),
        params: JsonValue::Null,
    });
    let (envelope, rx) = make_envelope(m);
    assert!(rx.is_none());
    assert!(envelope.response_tx.is_none());
}

#[test]
fn responses_are_correlated_by_id_not_order() {
    let mut table = PendingRequests::new();
    let (e1, rx1) = make_envelope(ping(b"a"));
    let (e2, rx2) = make_envelope(ping(b"b"));
    let mut rx1 = rx1.unwrap();
    let mut rx2 = rx2.unwrap();
    writer_step(&mut table, e1);
    writer_step(&mut table, e2);

    // the peer answers the second request first
    reader_step(&mut table, &br#"{"jsonrpc":"2.0","id":"b","result":2}"#.to_vec());
    assert!(matches!(rx1.try_recv(), Err(TryRecvError::Empty)));
    match rx2.try_recv().unwrap() {
        Ok(JsonRpcResponse::Success { id, result }) => {
            assert_eq!(id, b"b".to_vec());
            assert_eq!(result, JsonValue::Num(b"2".to_vec()));
        }
        other => panic!("unexpected {:?}", other),
    }

    reader_step(&mut table, &br#"{"jsonrpc":"2.0","id":"a","result":1}"#.to_vec());
    match rx1.try_recv().unwrap() {
        Ok(JsonRpcResponse::Success { id, .. }) => assert_eq!(id, b"a".to_vec()),
        other => panic!("unexpected {:?}", other),
    }
}

#[test]
fn reusing_an_id_orphans_the_prior_waiter() {
    let mut table = PendingRequests::new();
    let (e1, rx1) = make_envelope(ping(b"1"));
    let (e2, rx2) = make_envelope(ping(b"1"));
    let mut rx1 = rx1.unwrap();
    let mut rx2 = rx2.unwrap();
    writer_step(&mut table, e1);
    writer_step(&mut table, e2);
    // the first waiter observes closure, never a value
    assert!(matches!(rx1.try_recv(), Err(TryRecvError::Closed)));
    reader_step(&mut table, &br#"{"jsonrpc":"2.0","id":"1","result":null}"#.to_vec());
    assert!(rx2.try_recv().unwrap().is_ok());
}

#[test]
fn malformed_or_unknown_lines_reach_no_waiter() {
    let mut table = PendingRequests::new();
    let (e, rx) = make_envelope(ping(b"1"));
    let mut rx = rx.unwrap();
    writer_step(&mut table, e);
    // not a response at all
    reader_step(&mut table, &b"garbage".to_vec());
    // a response for an id nobody waits on
    reader_step(&mut table, &br#"{"jsonrpc":"2.0","id":"9","result":null}"#.to_vec());
    assert!(matches!(rx.try_recv(), Err(TryRecvError::Empty)));
    // the waiter is still served afterwards
    reader_step(&mut table, &br#"{"jsonrpc":"2.0","id":"1","result":null}"#.to_vec());
    assert!(rx.try_recv().unwrap().is_ok());
}

#[test]
fn clear_closes_every_outstanding_waiter() {
    let mut table = PendingRequests::new();
    let (e1, rx1) = make_envelope(ping(b"1"));
    let (e2, rx2) = make_envelope(ping(b"2"));
    let mut rx1 = rx1.unwrap();
    let mut rx2 = rx2.unwrap();
    writer_step(&mut table, e1);
    writer_step(&mut table, e2);
    table.clear();
    assert!(matches!(rx1.try_recv(), Err(TryRecvError::Closed)));
    assert!(matches!(rx2.try_recv(), Err(TryRecvError::Closed)));
}

#[test]
fn stderr_text_becomes_the_process_failure() {
    assert_eq!(
        stderr_error(&b"boom\n".to_vec()),
        Error::StdioProcessError(b"boom\n".to_vec())
    );
    assert_eq!(
        stderr_error(&Vec::new()),
        Error::StdioProcessError(b"Process ended unexpectedly".to_vec())
    );
}

#[test]
fn a_pending_process_failure_overrides_a_send_outcome() {
    let ok: Result<Option<JsonRpcResponse>, Error> = Ok(None);
    assert_eq!(
        finish_send(ok, Some(Error::StdioProcessError(b"boom".to_vec()))),
        Err(Error::StdioProcessError(b"boom".to_vec()))
    );
    let ok: Result<Option<JsonRpcResponse>, Error> = Ok(None);
    assert_eq!(finish_send(ok, None), Ok(None));
    assert_eq!(
        finish_send(Err(Error::ChannelClosed), None),
        Err(Error::ChannelClosed)
    );
}

#[test]
fn transport_configuration_is_kept() {
    let t = mcp_runtime::transport::StdioTransport::new(
        "server".to_string(),
        vec!["--flag".to_string()],
        std::collections::HashMap::new(),
    );
    assert_eq!(t.command, "server");
    assert_eq!(t.args, vec!["--flag".to_string()]);
    assert!(t.env.is_empty());
}
