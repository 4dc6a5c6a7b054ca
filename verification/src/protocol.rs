//! JSON-RPC 2.0 wire types and their encodings.
//!
//! Ids and method names are UTF-8 bytes; parameters and results are JSON
//! values. A numeric id on the wire is normalized to its decimal lexeme.

use vstd::prelude::*;

use crate::json::{
    encode_json_into, spec_encode_json, wf_json, JsonValue, SpecJson,
};

verus! {

broadcast use vstd::seq::group_seq_axioms, vstd::std_specs::vec::group_vec_axioms;

// ---------------------------------------------------------------------------
// Field names and fixed strings
// ---------------------------------------------------------------------------

/// "jsonrpc"
pub open spec fn key_jsonrpc() -> Seq<u8> {
    seq![0x6au8, 0x73u8, 0x6fu8, 0x6eu8, 0x72u8, 0x70u8, 0x63u8]
}

/// "2.0"
pub open spec fn val_two_zero() -> Seq<u8> {
    seq![0x32u8, 0x2eu8, 0x30u8]
}

/// "id"
pub open spec fn key_id() -> Seq<u8> {
    seq![0x69u8, 0x64u8]
}

/// "method"
pub open spec fn key_method() -> Seq<u8> {
    seq![0x6du8, 0x65u8, 0x74u8, 0x68u8, 0x6fu8, 0x64u8]
}

/// "params"
pub open spec fn key_params() -> Seq<u8> {
    seq![0x70u8, 0x61u8, 0x72u8, 0x61u8, 0x6du8, 0x73u8]
}

/// "result"
pub open spec fn key_result() -> Seq<u8> {
    seq![0x72u8, 0x65u8, 0x73u8, 0x75u8, 0x6cu8, 0x74u8]
}

/// "error"
pub open spec fn key_error() -> Seq<u8> {
    seq![0x65u8, 0x72u8, 0x72u8, 0x6fu8, 0x72u8]
}

/// "code"
pub open spec fn key_code() -> Seq<u8> {
    seq![0x63u8, 0x6fu8, 0x64u8, 0x65u8]
}

/// "message"
pub open spec fn key_message() -> Seq<u8> {
    seq![0x6du8, 0x65u8, 0x73u8, 0x73u8, 0x61u8, 0x67u8, 0x65u8]
}

/// "data"
pub open spec fn key_data() -> Seq<u8> {
    seq![0x64u8, 0x61u8, 0x74u8, 0x61u8]
}

pub fn bytes_jsonrpc() -> (r: Vec<u8>)
    ensures
        r@ == key_jsonrpc(),
{
    let mut v: Vec<u8> = Vec::new();
    v.push(0x6a);
    v.push(0x73);
    v.push(0x6f);
    v.push(0x6e);
    v.push(0x72);
    v.push(0x70);
    v.push(0x63);
    proof {
        assert(v@ =~= key_jsonrpc());
    }
    v
}

pub fn bytes_two_zero() -> (r: Vec<u8>)
    ensures
        r@ == val_two_zero(),
{
    let mut v: Vec<u8> = Vec::new();
    v.push(0x32);
    v.push(0x2e);
    v.push(0x30);
    proof {
        assert(v@ =~= val_two_zero());
    }
    v
}

pub fn bytes_id() -> (r: Vec<u8>)
    ensures
        r@ == key_id(),
{
    let mut v: Vec<u8> = Vec::new();
    v.push(0x69);
    v.push(0x64);
    proof {
        assert(v@ =~= key_id());
    }
    v
}

pub fn bytes_method() -> (r: Vec<u8>)
    ensures
        r@ == key_method(),
{
    let mut v: Vec<u8> = Vec::new();
    v.push(0x6d);
    v.push(0x65);
    v.push(0x74);
    v.push(0x68);
    v.push(0x6f);
    v.push(0x64);
    proof {
        assert(v@ =~= key_method());
    }
    v
}

pub fn bytes_params() -> (r: Vec<u8>)
    ensures
        r@ == key_params(),
{
    let mut v: Vec<u8> = Vec::new();
    v.push(0x70);
    v.push(0x61);
    v.push(0x72);
    v.push(0x61);
    v.push(0x6d);
    v.push(0x73);
    proof {
        assert(v@ =~= key_params());
    }
    v
}

pub fn bytes_result() -> (r: Vec<u8>)
    ensures
        r@ == key_result(),
{
    let mut v: Vec<u8> = Vec::new();
    v.push(0x72);
    v.push(0x65);
    v.push(0x73);
    v.push(0x75);
    v.push(0x6c);
    v.push(0x74);
    proof {
        assert(v@ =~= key_result());
    }
    v
}

pub fn bytes_error() -> (r: Vec<u8>)
    ensures
        r@ == key_error(),
{
    let mut v: Vec<u8> = Vec::new();
    v.push(0x65);
    v.push(0x72);
    v.push(0x72);
    v.push(0x6f);
    v.push(0x72);
    proof {
        assert(v@ =~= key_error());
    }
    v
}

pub fn bytes_code() -> (r: Vec<u8>)
    ensures
        r@ == key_code(),
{
    let mut v: Vec<u8> = Vec::new();
    v.push(0x63);
    v.push(0x6f);
    v.push(0x64);
    v.push(0x65);
    proof {
        assert(v@ =~= key_code());
    }
    v
}

pub fn bytes_message() -> (r: Vec<u8>)
    ensures
        r@ == key_message(),
{
    let mut v: Vec<u8> = Vec::new();
    v.push(0x6d);
    v.push(0x65);
    v.push(0x73);
    v.push(0x73);
    v.push(0x61);
    v.push(0x67);
    v.push(0x65);
    proof {
        assert(v@ =~= key_message());
    }
    v
}

pub fn bytes_data() -> (r: Vec<u8>)
    ensures
        r@ == key_data(),
{
    let mut v: Vec<u8> = Vec::new();
    v.push(0x64);
    v.push(0x61);
    v.push(0x74);
    v.push(0x61);
    proof {
        assert(v@ =~= key_data());
    }
    v
}

// ---------------------------------------------------------------------------
// Error codes
// ---------------------------------------------------------------------------

pub const INTERNAL_ERROR: i64 = -32603;

pub const INVALID_PARAMS: i64 = -32602;

pub const METHOD_NOT_FOUND: i64 = -32601;

// ---------------------------------------------------------------------------
// Message types
// ---------------------------------------------------------------------------

/// A call that expects a reply, correlated by `id`.
#[derive(Debug, PartialEq, Eq)]
pub struct JsonRpcRequest {
    pub id: Vec<u8>,
    pub method: Vec<u8>,
    pub params: JsonValue,
}

#[verifier::ext_equal]
pub struct SpecRequest {
    pub id: Seq<u8>,
    pub method: Seq<u8>,
    pub params: SpecJson,
}

impl View for JsonRpcRequest {
    type V = SpecRequest;

    open spec fn view(&self) -> SpecRequest {
        SpecRequest { id: self.id@, method: self.method@, params: self.params@ }
    }
}

/// A call that expects no reply.
#[derive(Debug, PartialEq, Eq)]
pub struct JsonRpcNotification {
    pub method: Vec<u8>,
    pub params: JsonValue,
}

#[verifier::ext_equal]
pub struct SpecNotification {
    pub method: Seq<u8>,
    pub params: SpecJson,
}

impl View for JsonRpcNotification {
    type V = SpecNotification;

    open spec fn view(&self) -> SpecNotification {
        SpecNotification { method: self.method@, params: self.params@ }
    }
}

/// What a client may initiate: a request or a notification, never a response.
#[derive(Debug, PartialEq, Eq)]
pub enum SendableMessage {
    Request(JsonRpcRequest),
    Notification(JsonRpcNotification),
}

#[verifier::ext_equal]
pub enum SpecMessage {
    Request(SpecRequest),
    Notification(SpecNotification),
}

impl View for SendableMessage {
    type V = SpecMessage;

    open spec fn view(&self) -> SpecMessage {
        match self {
            SendableMessage::Request(r) => SpecMessage::Request(r@),
            SendableMessage::Notification(n) => SpecMessage::Notification(n@),
        }
    }
}

impl From<JsonRpcRequest> for SendableMessage {
    fn from(request: JsonRpcRequest) -> (r: SendableMessage) {
        SendableMessage::Request(request)
    }
}

impl vstd::std_specs::convert::FromSpecImpl<JsonRpcRequest> for SendableMessage {
    open spec fn obeys_from_spec() -> bool {
        true
    }

    open spec fn from_spec(request: JsonRpcRequest) -> Self {
        SendableMessage::Request(request)
    }
}

impl From<JsonRpcNotification> for SendableMessage {
    fn from(notification: JsonRpcNotification) -> (r: SendableMessage) {
        SendableMessage::Notification(notification)
    }
}

impl vstd::std_specs::convert::FromSpecImpl<JsonRpcNotification> for SendableMessage {
    open spec fn obeys_from_spec() -> bool {
        true
    }

    open spec fn from_spec(notification: JsonRpcNotification) -> Self {
        SendableMessage::Notification(notification)
    }
}

/// The error member of an error response.
#[derive(Debug, PartialEq, Eq)]
pub struct ErrorData {
    pub code: i64,
    pub message: Vec<u8>,
    pub data: Option<JsonValue>,
}

#[verifier::ext_equal]
pub struct SpecErrorData {
    pub code: int,
    pub message: Seq<u8>,
    pub data: Option<SpecJson>,
}

impl View for ErrorData {
    type V = SpecErrorData;

    open spec fn view(&self) -> SpecErrorData {
        SpecErrorData {
            code: self.code as int,
            message: self.message@,
            data: match self.data {
                Some(d) => Some(d@),
                None => None,
            },
        }
    }
}

/// A reply to a request. Its id always equals the id of the request.
#[derive(Debug, PartialEq, Eq)]
pub enum JsonRpcResponse {
    Success { id: Vec<u8>, result: JsonValue },
    Error { id: Vec<u8>, error: ErrorData },
}

#[verifier::ext_equal]
pub enum SpecResponse {
    Success { id: Seq<u8>, result: SpecJson },
    Error { id: Seq<u8>, error: SpecErrorData },
}

impl View for JsonRpcResponse {
    type V = SpecResponse;

    open spec fn view(&self) -> SpecResponse {
        match self {
            JsonRpcResponse::Success { id, result } => SpecResponse::Success {
                id: id@,
                result: result@,
            },
            JsonRpcResponse::Error { id, error } => SpecResponse::Error { id: id@, error: error@ },
        }
    }
}

/// The id a response answers.
pub open spec fn spec_response_id(r: SpecResponse) -> Seq<u8> {
    match r {
        SpecResponse::Success { id, .. } => id,
        SpecResponse::Error { id, .. } => id,
    }
}

impl JsonRpcResponse {
    /// The id this response answers.
    pub fn id(&self) -> (r: &Vec<u8>)
        ensures
            r@ == spec_response_id(self@),
    {
        match self {
            JsonRpcResponse::Success { id, .. } => id,
            JsonRpcResponse::Error { id, .. } => id,
        }
    }
}

// ---------------------------------------------------------------------------
// Well-formedness
// ---------------------------------------------------------------------------

pub open spec fn wf_message(m: SpecMessage) -> bool {
    match m {
        SpecMessage::Request(r) => wf_json(r.params),
        SpecMessage::Notification(n) => wf_json(n.params),
    }
}

pub open spec fn wf_response(r: SpecResponse) -> bool {
    match r {
        SpecResponse::Success { result, .. } => wf_json(result),
        SpecResponse::Error { error, .. } => match error.data {
            Some(d) => wf_json(d),
            None => true,
        },
    }
}

// ---------------------------------------------------------------------------
// Decimal lexemes for integer codes
// ---------------------------------------------------------------------------

pub open spec fn spec_dec_nat(n: nat) -> Seq<u8>
    decreases n,
{
    if n < 10 {
        seq![(0x30 + n) as u8]
    } else {
        spec_dec_nat(n / 10).push((0x30 + n % 10) as u8)
    }
}

/// Decimal lexeme of an integer: an optional minus sign, then digits without
/// a leading zero.
pub open spec fn spec_i64_dec(n: int) -> Seq<u8> {
    if n < 0 {
        seq![0x2du8] + spec_dec_nat((-n) as nat)
    } else {
        spec_dec_nat(n as nat)
    }
}

fn dec_u64(n: u64) -> (r: Vec<u8>)
    ensures
        r@ == spec_dec_nat(n as nat),
    decreases n,
{
    if n < 10 {
        let mut v: Vec<u8> = Vec::new();
        v.push(0x30 + (n as u8));
        proof {
            assert(v@ =~= spec_dec_nat(n as nat));
        }
        v
    } else {
        let mut v = dec_u64(n / 10);
        v.push(0x30 + ((n % 10) as u8));
        v
    }
}

/// Decimal lexeme of a signed 64-bit integer.
pub fn i64_to_dec(n: i64) -> (r: Vec<u8>)
    ensures
        r@ == spec_i64_dec(n as int),
{
    if n >= 0 {
        dec_u64(n as u64)
    } else {
        let mag: u64 = ((-(n + 1)) as u64) + 1;
        proof {
            assert(mag as int == -(n as int));
        }
        let mut v: Vec<u8> = Vec::new();
        v.push(0x2d);
        let d = dec_u64(mag);
        crate::json::append_bytes(&mut v, &d);
        proof {
            assert(v@ =~= spec_i64_dec(n as int));
        }
        v
    }
}

// ---------------------------------------------------------------------------
// JSON form of messages and responses
// ---------------------------------------------------------------------------

pub open spec fn spec_message_json(m: SpecMessage) -> SpecJson {
    match m {
        SpecMessage::Request(r) => SpecJson::Obj(
            seq![
                (key_jsonrpc(), SpecJson::Str(val_two_zero())),
                (key_id(), SpecJson::Str(r.id)),
                (key_method(), SpecJson::Str(r.method)),
                (key_params(), r.params),
            ],
        ),
        SpecMessage::Notification(n) => SpecJson::Obj(
            seq![
                (key_jsonrpc(), SpecJson::Str(val_two_zero())),
                (key_method(), SpecJson::Str(n.method)),
                (key_params(), n.params),
            ],
        ),
    }
}

pub open spec fn spec_error_json(e: SpecErrorData) -> SpecJson {
    SpecJson::Obj(
        seq![(key_code(), SpecJson::Num(spec_i64_dec(e.code))), (key_message(), SpecJson::Str(
            e.message,
        ))] + (match e.data {
            Some(d) => seq![(key_data(), d)],
            None => Seq::empty(),
        }),
    )
}

pub open spec fn spec_response_json(r: SpecResponse) -> SpecJson {
    match r {
        SpecResponse::Success { id, result } => SpecJson::Obj(
            seq![
                (key_jsonrpc(), SpecJson::Str(val_two_zero())),
                (key_id(), SpecJson::Str(id)),
                (key_result(), result),
            ],
        ),
        SpecResponse::Error { id, error } => SpecJson::Obj(
            seq![
                (key_jsonrpc(), SpecJson::Str(val_two_zero())),
                (key_id(), SpecJson::Str(id)),
                (key_error(), spec_error_json(error)),
            ],
        ),
    }
}

/// Wire bytes of a message (one frame, without the line feed).
pub open spec fn spec_encode_message(m: SpecMessage) -> Seq<u8> {
    spec_encode_json(spec_message_json(m))
}

/// Wire bytes of a response (one frame, without the line feed).
pub open spec fn spec_encode_response(r: SpecResponse) -> Seq<u8> {
    spec_encode_json(spec_response_json(r))
}

// ---------------------------------------------------------------------------
// Exec encoding
// ---------------------------------------------------------------------------

/// Copy a byte vector.
pub fn clone_bytes(s: &Vec<u8>) -> (r: Vec<u8>)
    ensures
        r@ == s@,
{
    let n = s.len();
    let r = crate::parse::copy_range(s, 0, n);
    proof {
        assert(s@.subrange(0, n as int) =~= s@);
    }
    r
}

/// Copy a JSON value.
pub fn clone_json(v: &JsonValue) -> (r: JsonValue)
    ensures
        r@ == v@,
    decreases v,
{
    match v {
        JsonValue::Null => JsonValue::Null,
        JsonValue::Bool(b) => JsonValue::Bool(*b),
        JsonValue::Num(s) => JsonValue::Num(clone_bytes(s)),
        JsonValue::Str(s) => JsonValue::Str(clone_bytes(s)),
        JsonValue::Arr(items) => {
            let mut out: Vec<JsonValue> = Vec::new();
            clone_items_into(items, 0, &mut out);
            proof {
                assert(crate::json::view_json_seq(out@) =~= crate::json::view_json_seq(items@));
            }
            JsonValue::Arr(out)
        },
        JsonValue::Obj(fields) => {
            let mut out: Vec<(Vec<u8>, JsonValue)> = Vec::new();
            clone_fields_into(fields, 0, &mut out);
            proof {
                assert(crate::json::view_json_fields(out@) =~= crate::json::view_json_fields(
                    fields@,
                ));
            }
            JsonValue::Obj(out)
        },
    }
}

fn clone_items_into(items: &Vec<JsonValue>, i: usize, out: &mut Vec<JsonValue>)
    requires
        i <= items@.len(),
    ensures
        final(out)@.len() == old(out)@.len() + items@.len() - i,
        forall|t: int| 0 <= t < old(out)@.len() ==> final(out)@[t] == old(out)@[t],
        forall|t: int| i <= t < items@.len() ==> final(out)@[old(out)@.len() + t - i]@
            == items@[t]@,
    decreases items, items@.len() - i + 1int,
{
    if i < items.len() {
        out.push(clone_json(&items[i]));
        clone_items_into(items, i + 1, out);
    }
}

fn clone_fields_into(
    fields: &Vec<(Vec<u8>, JsonValue)>,
    i: usize,
    out: &mut Vec<(Vec<u8>, JsonValue)>,
)
    requires
        i <= fields@.len(),
    ensures
        final(out)@.len() == old(out)@.len() + fields@.len() - i,
        forall|t: int| 0 <= t < old(out)@.len() ==> final(out)@[t] == old(out)@[t],
        forall|t: int| i <= t < fields@.len() ==> final(out)@[old(out)@.len() + t - i].0@
            == fields@[t].0@ && final(out)@[old(out)@.len() + t - i].1@ == fields@[t].1@,
    decreases fields, fields@.len() - i + 1int,
{
    if i < fields.len() {
        let entry = &fields[i];
        out.push((clone_bytes(&entry.0), clone_json(&entry.1)));
        clone_fields_into(fields, i + 1, out);
    }
}

/// The JSON object form of a message.
pub fn message_to_json(m: &SendableMessage) -> (r: JsonValue)
    ensures
        r@ == spec_message_json(m@),
{
    match m {
        SendableMessage::Request(req) => {
            let mut fields: Vec<(Vec<u8>, JsonValue)> = Vec::new();
            fields.push((bytes_jsonrpc(), JsonValue::Str(bytes_two_zero())));
            fields.push((bytes_id(), JsonValue::Str(clone_bytes(&req.id))));
            fields.push((bytes_method(), JsonValue::Str(clone_bytes(&req.method))));
            fields.push((bytes_params(), clone_json(&req.params)));
            let ghost gf = fields@;
            let r = JsonValue::Obj(fields);
            proof {
                assert(crate::json::view_json_fields(gf) =~= spec_message_json(m@)->Obj_0);
                assert(r@ == spec_message_json(m@));
            }
            r
        },
        SendableMessage::Notification(n) => {
            let mut fields: Vec<(Vec<u8>, JsonValue)> = Vec::new();
            fields.push((bytes_jsonrpc(), JsonValue::Str(bytes_two_zero())));
            fields.push((bytes_method(), JsonValue::Str(clone_bytes(&n.method))));
            fields.push((bytes_params(), clone_json(&n.params)));
            let ghost gf = fields@;
            let r = JsonValue::Obj(fields);
            proof {
                assert(crate::json::view_json_fields(gf) =~= spec_message_json(m@)->Obj_0);
                assert(r@ == spec_message_json(m@));
            }
            r
        },
    }
}

/// The JSON object form of a response.
pub fn response_to_json(resp: &JsonRpcResponse) -> (r: JsonValue)
    ensures
        r@ == spec_response_json(resp@),
{
    match resp {
        JsonRpcResponse::Success { id, result } => {
            let mut fields: Vec<(Vec<u8>, JsonValue)> = Vec::new();
            fields.push((bytes_jsonrpc(), JsonValue::Str(bytes_two_zero())));
            fields.push((bytes_id(), JsonValue::Str(clone_bytes(id))));
            fields.push((bytes_result(), clone_json(result)));
            let ghost gf = fields@;
            let r = JsonValue::Obj(fields);
            proof {
                assert(crate::json::view_json_fields(gf) =~= spec_response_json(resp@)->Obj_0);
                assert(r@ == spec_response_json(resp@));
            }
            r
        },
        JsonRpcResponse::Error { id, error } => {
            let mut err_fields: Vec<(Vec<u8>, JsonValue)> = Vec::new();
            err_fields.push((bytes_code(), JsonValue::Num(i64_to_dec(error.code))));
            err_fields.push((bytes_message(), JsonValue::Str(clone_bytes(&error.message))));
            match &error.data {
                Some(d) => {
                    err_fields.push((bytes_data(), clone_json(d)));
                },
                None => {},
            }
            let ghost ge = err_fields@;
            let err_obj = JsonValue::Obj(err_fields);
            proof {
                assert(crate::json::view_json_fields(ge) =~= spec_error_json(error@)->Obj_0);
                assert(err_obj@ == spec_error_json(error@));
            }
            let mut fields: Vec<(Vec<u8>, JsonValue)> = Vec::new();
            fields.push((bytes_jsonrpc(), JsonValue::Str(bytes_two_zero())));
            fields.push((bytes_id(), JsonValue::Str(clone_bytes(id))));
            fields.push((bytes_error(), err_obj));
            let ghost gf = fields@;
            let r = JsonValue::Obj(fields);
            proof {
                assert(crate::json::view_json_fields(gf) =~= spec_response_json(resp@)->Obj_0);
                assert(r@ == spec_response_json(resp@));
            }
            r
        },
    }
}

/// Encode a message as its wire bytes (one frame, without the line feed).
pub fn encode_message(m: &SendableMessage) -> (out: Vec<u8>)
    ensures
        out@ == spec_encode_message(m@),
{
    let v = message_to_json(m);
    let mut out: Vec<u8> = Vec::new();
    encode_json_into(&v, &mut out);
    proof {
        assert(out@ =~= spec_encode_message(m@));
    }
    out
}

/// Encode a response as its wire bytes (one frame, without the line feed).
pub fn encode_response(resp: &JsonRpcResponse) -> (out: Vec<u8>)
    ensures
        out@ == spec_encode_response(resp@),
{
    let v = response_to_json(resp);
    let mut out: Vec<u8> = Vec::new();
    encode_json_into(&v, &mut out);
    proof {
        assert(out@ =~= spec_encode_response(resp@));
    }
    out
}

} // verus!

