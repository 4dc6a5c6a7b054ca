//! Server request-loop decisions.
//!
//! The loop itself performs reads, service calls and writes; each decision
//! it takes between those suspension points is a verified function here:
//! what to do with a decoded item, what to write back for a service outcome,
//! and how to frame a response.

use vstd::prelude::*;

use crate::decode::{DecodeError, SpecDecodeError};
use crate::protocol::{
    encode_response, spec_encode_response, ErrorData, JsonRpcRequest, JsonRpcResponse,
    SendableMessage, SpecErrorData, SpecMessage, SpecRequest, SpecResponse, INTERNAL_ERROR,
};

verus! {

broadcast use vstd::seq::group_seq_axioms;

/// The request-processing half of a server: a service consumed by the loop
/// runner.
pub struct Server<S> {
    service: S,
}

impl<S> Server<S> {
    pub closed spec fn spec_service(&self) -> S {
        self.service
    }

    /// Wrap a service for the request loop.
    pub fn new(service: S) -> (r: Server<S>)
        ensures
            r.spec_service() == service,
    {
        Server { service }
    }

    /// Hand the service to the loop runner.
    pub fn into_service(self) -> (r: S)
        ensures
            r == self.spec_service(),
    {
        self.service
    }
}

/// What the loop does with one decoded item.
#[derive(Debug)]
pub enum ServerAction {
    /// A request: call the service with it.
    CallService(JsonRpcRequest),
    /// A notification or a decode error: log if need be, write nothing.
    Ignore,
}

pub enum SpecServerAction {
    CallService(SpecRequest),
    Ignore,
}

impl View for ServerAction {
    type V = SpecServerAction;

    open spec fn view(&self) -> SpecServerAction {
        match self {
            ServerAction::CallService(r) => SpecServerAction::CallService(r@),
            ServerAction::Ignore => SpecServerAction::Ignore,
        }
    }
}

pub open spec fn spec_action_for_item(item: Result<SpecMessage, SpecDecodeError>) -> SpecServerAction {
    match item {
        Ok(SpecMessage::Request(r)) => SpecServerAction::CallService(r),
        Ok(SpecMessage::Notification(_)) => SpecServerAction::Ignore,
        Err(_) => SpecServerAction::Ignore,
    }
}

/// Decide what to do with one item of the frame stream: requests reach the
/// service, notifications and decode errors are ignored.
pub fn action_for_item(item: Result<SendableMessage, DecodeError>) -> (r: ServerAction)
    ensures
        r@ == spec_action_for_item(crate::decode::decode_res_view(item)),
{
    match item {
        Ok(SendableMessage::Request(req)) => ServerAction::CallService(req),
        Ok(SendableMessage::Notification(_)) => ServerAction::Ignore,
        Err(_) => ServerAction::Ignore,
    }
}

/// The error response written when the service fails on a request: an
/// internal error carrying the failure text, under the request's id.
pub fn failure_response(id: Vec<u8>, message: Vec<u8>) -> (r: JsonRpcResponse)
    ensures
        r@ == (SpecResponse::Error {
            id: id@,
            error: SpecErrorData { code: INTERNAL_ERROR as int, message: message@, data: None },
        }),
{
    JsonRpcResponse::Error { id, error: ErrorData { code: INTERNAL_ERROR, message, data: None } }
}

/// What the loop writes after the service handled a request: the service's
/// own response if it succeeded (none for notification semantics), else an
/// internal-error response under the request's id.
pub fn response_for_outcome(id: Vec<u8>, outcome: Result<Option<JsonRpcResponse>, Vec<u8>>) -> (r:
    Option<JsonRpcResponse>)
    ensures
        match outcome {
            Ok(resp) => r == resp,
            Err(message) => r matches Some(e) && e@ == (SpecResponse::Error {
                id: id@,
                error: SpecErrorData {
                    code: INTERNAL_ERROR as int,
                    message: message@,
                    data: None,
                },
            }),
        },
{
    match outcome {
        Ok(resp) => resp,
        Err(message) => Some(failure_response(id, message)),
    }
}

/// Frame a response for the wire: its encoding terminated by a line feed.
pub fn frame_response(resp: &JsonRpcResponse) -> (out: Vec<u8>)
    ensures
        out@ == spec_encode_response(resp@) + seq![0x0au8],
{
    let mut out = encode_response(resp);
    out.push(0x0a);
    proof {
        assert(out@ =~= spec_encode_response(resp@) + seq![0x0au8]);
    }
    out
}

} // verus!
