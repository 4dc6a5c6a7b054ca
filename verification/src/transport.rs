//! Client-side transport core: the error type, the outbound envelope, and
//! the per-envelope and per-line steps of the writer and reader tasks.
//!
//! The asynchronous plumbing (queues, child process, task scheduling) lives
//! outside the library; the logic of each step is verified here.

use vstd::prelude::*;

use crate::decode::{decode_response_line, spec_decode_response_line};
use crate::pending::PendingRequests;
use crate::protocol::{
    clone_bytes, encode_message, spec_encode_message, spec_response_id, JsonRpcResponse,
    SendableMessage, SpecMessage,
};
use std::collections::HashMap;

verus! {

broadcast use vstd::seq::group_seq_axioms, vstd::std_specs::vec::group_vec_axioms;

// ---------------------------------------------------------------------------
// Transport errors
// ---------------------------------------------------------------------------

/// What can go wrong between a caller and the child process. Messages are
/// carried as UTF-8 bytes.
#[derive(Debug, PartialEq, Eq)]
pub enum Error {
    Io(Vec<u8>),
    NotConnected,
    ChannelClosed,
    Serialization(Vec<u8>),
    UnsupportedMessage,
    StdioProcessError(Vec<u8>),
}

#[verifier::ext_equal]
pub enum SpecTransportError {
    Io(Seq<u8>),
    NotConnected,
    ChannelClosed,
    Serialization(Seq<u8>),
    UnsupportedMessage,
    StdioProcessError(Seq<u8>),
}

impl View for Error {
    type V = SpecTransportError;

    open spec fn view(&self) -> SpecTransportError {
        match self {
            Error::Io(m) => SpecTransportError::Io(m@),
            Error::NotConnected => SpecTransportError::NotConnected,
            Error::ChannelClosed => SpecTransportError::ChannelClosed,
            Error::Serialization(m) => SpecTransportError::Serialization(m@),
            Error::UnsupportedMessage => SpecTransportError::UnsupportedMessage,
            Error::StdioProcessError(m) => SpecTransportError::StdioProcessError(m@),
        }
    }
}

/// What a waiter for a response eventually observes on its slot.
pub type ResponseOutcome = Result<JsonRpcResponse, Error>;

// ---------------------------------------------------------------------------
// One-shot response slots (tokio)
// ---------------------------------------------------------------------------

/// tokio's one-shot sender, carried opaquely.
#[verifier::external_type_specification]
#[verifier::external_body]
#[verifier::reject_recursive_types(T)]
pub struct ExOneshotSender<T>(tokio::sync::oneshot::Sender<T>);

/// tokio's one-shot receiver, carried opaquely.
#[verifier::external_type_specification]
#[verifier::external_body]
#[verifier::reject_recursive_types(T)]
pub struct ExOneshotReceiver<T>(tokio::sync::oneshot::Receiver<T>);

/// The error a one-shot receiver observes when its sender was dropped.
#[verifier::external_type_specification]
#[verifier::external_body]
pub struct ExOneshotRecvError(tokio::sync::oneshot::error::RecvError);

/// The sending half of a response slot.
pub type ResponseSender = tokio::sync::oneshot::Sender<ResponseOutcome>;

/// The receiving half of a response slot.
pub type ResponseReceiver = tokio::sync::oneshot::Receiver<ResponseOutcome>;

/// Relies on tokio::sync::oneshot::channel: returns a connected
/// sender/receiver pair; dropping the sender unsent makes the receiver
/// observe closure.
#[verifier::external_body]
fn oneshot_channel() -> (r: (ResponseSender, ResponseReceiver)) {
    tokio::sync::oneshot::channel()
}

/// Relies on tokio::sync::oneshot::Sender::send: the value reaches the
/// receiver if it still listens, else it is handed back unchanged.
#[verifier::external_body]
pub(crate) fn oneshot_send(tx: ResponseSender, value: ResponseOutcome) -> (r: Result<
    (),
    ResponseOutcome,
>)
    ensures
        r matches Err(v) ==> v == value,
{
    tx.send(value)
}

// ---------------------------------------------------------------------------
// Outbound envelopes
// ---------------------------------------------------------------------------

/// A queued outbound message. The response slot is present exactly when the
/// message is a request.
pub struct TransportMessage {
    pub message: SendableMessage,
    pub response_tx: Option<ResponseSender>,
}

/// Wrap a message for the outbound queue: a request gets a fresh response
/// slot whose receiving half is handed back to the caller; a notification
/// gets none.
pub fn make_envelope(message: SendableMessage) -> (r: (TransportMessage, Option<ResponseReceiver>))
    ensures
        r.0.message == message,
        r.0.response_tx is Some <==> message is Request,
        r.1 is Some <==> message is Request,
{
    match &message {
        SendableMessage::Request(_) => {
            let (tx, rx) = oneshot_channel();
            (TransportMessage { message, response_tx: Some(tx) }, Some(rx))
        },
        SendableMessage::Notification(_) => (
            TransportMessage { message, response_tx: None },
            None,
        ),
    }
}

/// Combine a send's own outcome with the most recent out-of-band process
/// failure: a pending failure overrides the outcome.
pub fn finish_send(outcome: Result<Option<JsonRpcResponse>, Error>, pending_failure: Option<
    Error,
>) -> (r: Result<Option<JsonRpcResponse>, Error>)
    ensures
        match pending_failure {
            Some(e) => r == Err::<Option<JsonRpcResponse>, Error>(e),
            None => r == outcome,
        },
{
    match pending_failure {
        Some(e) => Err(e),
        None => outcome,
    }
}

// ---------------------------------------------------------------------------
// Writer and reader steps
// ---------------------------------------------------------------------------

/// One writer step: register the envelope's response slot under the request
/// id, and produce the frame to write to the child, the encoded message
/// terminated by a line feed.
///
/// The slot is registered before the frame is handed out, so it is in the
/// table before any byte reaches the wire.
pub fn writer_step(pending: &mut PendingRequests, envelope: TransportMessage) -> (out: Vec<u8>)
    requires
        old(pending).wf(),
    ensures
        final(pending).wf(),
        out@ == spec_encode_message(envelope.message@) + seq![0x0au8],
        match (envelope.response_tx, envelope.message) {
            (Some(tx), SendableMessage::Request(req)) => final(pending).as_map() == old(
                pending,
            ).as_map().insert(req.id@, tx),
            _ => final(pending).as_map() == old(pending).as_map(),
        },
{
    let TransportMessage { message, response_tx } = envelope;
    match response_tx {
        Some(tx) => {
            match &message {
                SendableMessage::Request(req) => {
                    pending.insert(clone_bytes(&req.id), tx);
                },
                SendableMessage::Notification(_) => {
                    // a notification carries no id to wait on; the slot is
                    // dropped and its waiter observes closure
                },
            }
        },
        None => {},
    }
    let mut out = encode_message(&message);
    out.push(0x0a);
    proof {
        assert(out@ =~= spec_encode_message(message@) + seq![0x0au8]);
    }
    out
}

/// One reader step: if the line decodes as a response, complete and remove
/// the waiter registered under the response's id; any other line leaves the
/// table unchanged and is skipped.
pub fn reader_step(pending: &mut PendingRequests, line: &Vec<u8>)
    requires
        old(pending).wf(),
    ensures
        final(pending).wf(),
        match spec_decode_response_line(line@) {
            Ok(resp) => final(pending).as_map() == old(pending).as_map().remove(
                spec_response_id(resp),
            ),
            Err(_) => final(pending).as_map() == old(pending).as_map(),
        },
{
    match decode_response_line(line) {
        Ok(resp) => {
            let id = clone_bytes(resp.id());
            pending.respond(&id, Ok(resp));
        },
        Err(_) => {
            // not a response: logged and skipped by the caller, never
            // propagated to any waiter
        },
    }
}

/// The failure reported when the child process ends: its stderr text, or a
/// fixed notice when stderr was empty.
pub fn stderr_error(stderr: &Vec<u8>) -> (r: Error)
    ensures
        r@ == (if stderr@.len() > 0 {
            SpecTransportError::StdioProcessError(stderr@)
        } else {
            SpecTransportError::StdioProcessError(default_exit_notice())
        }),
{
    if stderr.len() > 0 {
        Error::StdioProcessError(clone_bytes(stderr))
    } else {
        Error::StdioProcessError(bytes_default_exit_notice())
    }
}

/// "Process ended unexpectedly"
pub open spec fn default_exit_notice() -> Seq<u8> {
    seq![
        0x50u8, 0x72u8, 0x6fu8, 0x63u8, 0x65u8, 0x73u8, 0x73u8, 0x20u8, 0x65u8, 0x6eu8, 0x64u8,
        0x65u8, 0x64u8, 0x20u8, 0x75u8, 0x6eu8, 0x65u8, 0x78u8, 0x70u8, 0x65u8, 0x63u8, 0x74u8,
        0x65u8, 0x64u8, 0x6cu8, 0x79u8,
    ]
}

fn bytes_default_exit_notice() -> (r: Vec<u8>)
    ensures
        r@ == default_exit_notice(),
{
    let mut v: Vec<u8> = Vec::new();
    v.push(0x50);
    v.push(0x72);
    v.push(0x6f);
    v.push(0x63);
    v.push(0x65);
    v.push(0x73);
    v.push(0x73);
    v.push(0x20);
    v.push(0x65);
    v.push(0x6e);
    v.push(0x64);
    v.push(0x65);
    v.push(0x64);
    v.push(0x20);
    v.push(0x75);
    v.push(0x6e);
    v.push(0x65);
    v.push(0x78);
    v.push(0x70);
    v.push(0x65);
    v.push(0x63);
    v.push(0x74);
    v.push(0x65);
    v.push(0x64);
    v.push(0x6c);
    v.push(0x79);
    proof {
        assert(v@ =~= default_exit_notice());
    }
    v
}

// ---------------------------------------------------------------------------
// Transport configuration
// ---------------------------------------------------------------------------

/// How to spawn the child process that serves the other end of the wire.
pub struct StdioTransport {
    pub command: String,
    pub args: Vec<String>,
    pub env: HashMap<String, String>,
}

impl StdioTransport {
    /// Record the command, arguments and environment for the child process.
    pub fn new(command: String, args: Vec<String>, env: HashMap<String, String>) -> (r:
        StdioTransport)
        ensures
            r.command@ == command@,
            r.args@ == args@,
            r.env == env,
    {
        StdioTransport { command, args, env }
    }
}

} // verus!
