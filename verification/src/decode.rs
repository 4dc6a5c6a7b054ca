//! Verified decoding of line-delimited JSON-RPC frames.
//!
//! One frame is one line. A line that is not a JSON object with a
//! `"jsonrpc": "2.0"` member is a decode error; errors name the frame alone,
//! so one bad frame never affects the frames after it.

use vstd::prelude::*;

use crate::json::{is_digit, JsonValue, SpecJson, view_json_fields};
use crate::parse::{copy_range, parse_json, spec_parse_json};
use crate::protocol::{
    clone_bytes, clone_json, key_code, key_data, key_error, key_id, key_jsonrpc, key_message,
    key_method, key_params, key_result, bytes_jsonrpc, bytes_id, bytes_method, bytes_params,
    bytes_result, bytes_error, bytes_code, bytes_message, bytes_data, bytes_two_zero,
    val_two_zero, ErrorData, JsonRpcNotification, JsonRpcRequest, JsonRpcResponse,
    SendableMessage, SpecErrorData, SpecMessage, SpecNotification, SpecRequest, SpecResponse,
};

verus! {

broadcast use vstd::seq::group_seq_axioms, vstd::std_specs::vec::group_vec_axioms;

// ---------------------------------------------------------------------------
// Decode errors
// ---------------------------------------------------------------------------

/// Why one frame failed to decode. `Utf8` and `Io` are produced at the
/// byte-stream edge; the structural decoder itself yields `InvalidMessage`
/// and `Json`.
#[derive(Debug, PartialEq, Eq)]
pub enum DecodeError {
    Utf8,
    InvalidMessage(Vec<u8>),
    Json,
    Io(Vec<u8>),
}

#[verifier::ext_equal]
pub enum SpecDecodeError {
    Utf8,
    InvalidMessage(Seq<u8>),
    Json,
    Io(Seq<u8>),
}

impl View for DecodeError {
    type V = SpecDecodeError;

    open spec fn view(&self) -> SpecDecodeError {
        match self {
            DecodeError::Utf8 => SpecDecodeError::Utf8,
            DecodeError::InvalidMessage(r) => SpecDecodeError::InvalidMessage(r@),
            DecodeError::Json => SpecDecodeError::Json,
            DecodeError::Io(r) => SpecDecodeError::Io(r@),
        }
    }
}

/// "not object"
pub open spec fn reason_not_object() -> Seq<u8> {
    seq![0x6eu8, 0x6fu8, 0x74u8, 0x20u8, 0x6fu8, 0x62u8, 0x6au8, 0x65u8, 0x63u8, 0x74u8]
}

/// "bad version"
pub open spec fn reason_bad_version() -> Seq<u8> {
    seq![0x62u8, 0x61u8, 0x64u8, 0x20u8, 0x76u8, 0x65u8, 0x72u8, 0x73u8, 0x69u8, 0x6fu8, 0x6eu8]
}

fn bytes_reason_not_object() -> (r: Vec<u8>)
    ensures
        r@ == reason_not_object(),
{
    let mut v: Vec<u8> = Vec::new();
    v.push(0x6e);
    v.push(0x6f);
    v.push(0x74);
    v.push(0x20);
    v.push(0x6f);
    v.push(0x62);
    v.push(0x6a);
    v.push(0x65);
    v.push(0x63);
    v.push(0x74);
    proof {
        assert(v@ =~= reason_not_object());
    }
    v
}

fn bytes_reason_bad_version() -> (r: Vec<u8>)
    ensures
        r@ == reason_bad_version(),
{
    let mut v: Vec<u8> = Vec::new();
    v.push(0x62);
    v.push(0x61);
    v.push(0x64);
    v.push(0x20);
    v.push(0x76);
    v.push(0x65);
    v.push(0x72);
    v.push(0x73);
    v.push(0x69);
    v.push(0x6f);
    v.push(0x6e);
    proof {
        assert(v@ =~= reason_bad_version());
    }
    v
}

// ---------------------------------------------------------------------------
// Object member lookup: when a key repeats, the last occurrence wins
// ---------------------------------------------------------------------------

pub open spec fn spec_obj_get(fields: Seq<(Seq<u8>, SpecJson)>, key: Seq<u8>) -> Option<SpecJson>
    decreases fields.len(),
{
    if fields.len() == 0 {
        None
    } else if fields.last().0 == key {
        Some(fields.last().1)
    } else {
        spec_obj_get(fields.drop_last(), key)
    }
}

/// Byte-wise equality of two vectors.
pub fn bytes_eq(a: &Vec<u8>, b: &Vec<u8>) -> (r: bool)
    ensures
        r == (a@ == b@),
{
    if a.len() != b.len() {
        proof {
            assert(a@.len() != b@.len());
        }
        return false;
    }
    let n = a.len();
    let mut i: usize = 0;
    while i < n
        invariant
            i <= n,
            n == a@.len(),
            n == b@.len(),
            forall|t: int| 0 <= t < i as int ==> a@[t] == b@[t],
        decreases n - i,
    {
        if a[i] != b[i] {
            return false;
        }
        i = i + 1;
    }
    proof {
        assert(a@ =~= b@);
    }
    true
}

/// Look a member up by key; the last member with that key wins.
pub fn obj_get<'a>(fields: &'a Vec<(Vec<u8>, JsonValue)>, key: &Vec<u8>) -> (r: Option<
    &'a JsonValue,
>)
    ensures
        match spec_obj_get(view_json_fields(fields@), key@) {
            Some(sv) => r matches Some(x) && x@ == sv,
            None => r is None,
        },
{
    let ghost vf = view_json_fields(fields@);
    let mut j = fields.len();
    proof {
        assert(vf.take(fields@.len() as int) =~= vf);
    }
    while j > 0
        invariant
            j <= fields@.len(),
            vf == view_json_fields(fields@),
            spec_obj_get(vf, key@) == spec_obj_get(vf.take(j as int), key@),
        decreases j,
    {
        j = j - 1;
        let hit = bytes_eq(&fields[j].0, key);
        proof {
            assert(vf.take(j as int + 1).last() == (fields@[j as int].0@, fields@[j as int].1@));
            assert(vf.take(j as int + 1).drop_last() =~= vf.take(j as int));
        }
        if hit {
            return Some(&fields[j].1);
        }
    }
    proof {
        assert(vf.take(0).len() == 0);
    }
    None
}

// ---------------------------------------------------------------------------
// Integer lexemes
// ---------------------------------------------------------------------------

/// Value of a digit string.
pub open spec fn spec_dec_val(ds: Seq<u8>) -> int
    decreases ds.len(),
{
    if ds.len() == 0 {
        0
    } else {
        spec_dec_val(ds.drop_last()) * 10 + (ds.last() - 0x30)
    }
}

pub open spec fn all_digits(ds: Seq<u8>) -> bool {
    forall|k: int| 0 <= k < ds.len() ==> is_digit(#[trigger] ds[k])
}

/// The integer a lexeme denotes, if the lexeme is an optional minus sign
/// followed by one or more digits.
pub open spec fn spec_json_int(s: Seq<u8>) -> Option<int> {
    if s.len() > 0 && s[0] == 0x2d {
        if s.skip(1).len() > 0 && all_digits(s.skip(1)) {
            Some(-spec_dec_val(s.skip(1)))
        } else {
            None
        }
    } else {
        if s.len() > 0 && all_digits(s) {
            Some(spec_dec_val(s))
        } else {
            None
        }
    }
}

proof fn lemma_dec_val_nonneg(ds: Seq<u8>)
    requires
        all_digits(ds),
    ensures
        spec_dec_val(ds) >= 0,
    decreases ds.len(),
{
    if ds.len() > 0 {
        assert(all_digits(ds.drop_last())) by {
            assert(forall|k: int| 0 <= k < ds.len() - 1 ==> ds.drop_last()[k] == #[trigger] ds[k]);
        }
        lemma_dec_val_nonneg(ds.drop_last());
    }
}

/// The value of a digit string bounds the value of each of its prefixes.
proof fn lemma_dec_val_prefix(ds: Seq<u8>, k: int)
    requires
        all_digits(ds),
        0 <= k <= ds.len(),
    ensures
        spec_dec_val(ds.take(k)) <= spec_dec_val(ds),
    decreases ds.len() - k,
{
    if k < ds.len() {
        lemma_dec_val_prefix(ds, k + 1);
        assert(ds.take(k + 1).drop_last() =~= ds.take(k));
        assert(ds.take(k + 1).last() == ds[k]);
        assert(all_digits(ds.take(k))) by {
            assert(forall|t: int| 0 <= t < k ==> ds.take(k)[t] == #[trigger] ds[t]);
        }
        lemma_dec_val_nonneg(ds.take(k));
    } else {
        assert(ds.take(k) =~= ds);
    }
}

/// Parse a signed 64-bit integer from its decimal lexeme.
pub fn parse_i64(lex: &Vec<u8>) -> (r: Option<i64>)
    ensures
        match spec_json_int(lex@) {
            Some(c) => if i64::MIN <= c <= i64::MAX {
                r matches Some(x) && x as int == c
            } else {
                r is None
            },
            None => r is None,
        },
{
    let n = lex.len();
    let neg = n > 0 && lex[0] == 0x2d;
    let start: usize = if neg {
        1
    } else {
        0
    };
    let ghost ds = if neg {
        lex@.skip(1)
    } else {
        lex@
    };
    if start >= n {
        return None;
    }
    let limit: u64 = if neg {
        9223372036854775808
    } else {
        9223372036854775807
    };
    let mut acc: u64 = 0;
    let mut i = start;
    proof {
        assert(ds.take(0) =~= Seq::<u8>::empty());
    }
    while i < n
        invariant
            start <= i <= n,
            n == lex@.len(),
            neg == (lex@.len() > 0 && lex@[0] == 0x2d),
            limit == if neg {
                9223372036854775808u64
            } else {
                9223372036854775807u64
            },
            start == if neg {
                1int
            } else {
                0int
            },
            ds == if neg {
                lex@.skip(1)
            } else {
                lex@
            },
            ds.len() == n - start,
            forall|t: int| 0 <= t < i - start ==> is_digit(#[trigger] ds[t]),
            acc as int == spec_dec_val(ds.take(i - start)),
            acc <= limit,
        decreases n - i,
    {
        let b = lex[i];
        proof {
            assert(ds[i - start] == lex@[i as int]);
        }
        if !(0x30 <= b && b <= 0x39) {
            proof {
                assert(!is_digit(ds[i - start]));
                assert(!all_digits(ds));
            }
            return None;
        }
        let d = (b - 0x30) as u64;
        proof {
            assert(ds.take(i - start + 1).drop_last() =~= ds.take(i - start));
            assert(ds.take(i - start + 1).last() == ds[i - start]);
        }
        if acc > (limit - d) / 10 {
            proof {
                assert(acc as int * 10 + d as int > limit as int) by (nonlinear_arith)
                    requires
                        acc as int > (limit as int - d as int) / 10,
                        0 <= d as int <= 9,
                        d as int <= limit as int,
                        acc >= 0,
                ;
                assert(spec_dec_val(ds.take(i - start + 1)) > limit as int);
                if all_digits(ds) {
                    lemma_dec_val_prefix(ds, i - start + 1);
                }
            }
            return None;
        }
        acc = acc * 10 + d;
        i = i + 1;
    }
    proof {
        assert(ds.take(n - start) =~= ds);
    }
    if neg {
        if acc == 9223372036854775808 {
            Some(i64::MIN)
        } else {
            Some(-(acc as i64))
        }
    } else {
        Some(acc as i64)
    }
}

// ---------------------------------------------------------------------------
// Structural decode of messages
// ---------------------------------------------------------------------------

/// Decode a parsed JSON value as a request or notification. The value must
/// be an object carrying `"jsonrpc": "2.0"` and a string method; a numeric id
/// is normalized to its lexeme.
pub open spec fn spec_message_from_json(v: SpecJson) -> Result<SpecMessage, SpecDecodeError> {
    match v {
        SpecJson::Obj(fields) => {
            if spec_obj_get(fields, key_jsonrpc()) != Some(SpecJson::Str(val_two_zero())) {
                Err(SpecDecodeError::InvalidMessage(reason_bad_version()))
            } else {
                match spec_obj_get(fields, key_method()) {
                    Some(SpecJson::Str(method)) => {
                        let params = match spec_obj_get(fields, key_params()) {
                            Some(p) => p,
                            None => SpecJson::Null,
                        };
                        match spec_obj_get(fields, key_id()) {
                            Some(SpecJson::Str(id)) => Ok(
                                SpecMessage::Request(SpecRequest { id, method, params }),
                            ),
                            Some(SpecJson::Num(lex)) => Ok(
                                SpecMessage::Request(SpecRequest { id: lex, method, params }),
                            ),
                            Some(_) => Err(SpecDecodeError::Json),
                            None => Ok(
                                SpecMessage::Notification(SpecNotification { method, params }),
                            ),
                        }
                    },
                    _ => Err(SpecDecodeError::Json),
                }
            }
        },
        _ => Err(SpecDecodeError::InvalidMessage(reason_not_object())),
    }
}

/// One frame, decoded: parse the line as JSON, then read it as a message.
pub open spec fn spec_decode_line(line: Seq<u8>) -> Result<SpecMessage, SpecDecodeError> {
    match spec_parse_json(line) {
        Some(v) => spec_message_from_json(v),
        None => Err(SpecDecodeError::Json),
    }
}

fn message_from_json(v: &JsonValue) -> (r: Result<SendableMessage, DecodeError>)
    ensures
        match spec_message_from_json(v@) {
            Ok(m) => r matches Ok(x) && x@ == m,
            Err(e) => r matches Err(x) && x@ == e,
        },
{
    let fields = match v {
        JsonValue::Obj(fields) => fields,
        _ => {
            return Err(DecodeError::InvalidMessage(bytes_reason_not_object()));
        },
    };
    let version_ok = match obj_get(fields, &bytes_jsonrpc()) {
        Some(JsonValue::Str(s)) => bytes_eq(s, &bytes_two_zero()),
        _ => false,
    };
    if !version_ok {
        return Err(DecodeError::InvalidMessage(bytes_reason_bad_version()));
    }
    let method = match obj_get(fields, &bytes_method()) {
        Some(JsonValue::Str(m)) => clone_bytes(m),
        _ => {
            return Err(DecodeError::Json);
        },
    };
    let params = match obj_get(fields, &bytes_params()) {
        Some(p) => clone_json(p),
        None => JsonValue::Null,
    };
    match obj_get(fields, &bytes_id()) {
        Some(JsonValue::Str(id)) => Ok(
            SendableMessage::Request(
                JsonRpcRequest { id: clone_bytes(id), method, params },
            ),
        ),
        Some(JsonValue::Num(lex)) => Ok(
            SendableMessage::Request(
                JsonRpcRequest { id: clone_bytes(lex), method, params },
            ),
        ),
        Some(_) => Err(DecodeError::Json),
        None => Ok(SendableMessage::Notification(JsonRpcNotification { method, params })),
    }
}

/// Decode one frame as a request or notification.
pub fn decode_line(line: &Vec<u8>) -> (r: Result<SendableMessage, DecodeError>)
    ensures
        match spec_decode_line(line@) {
            Ok(m) => r matches Ok(x) && x@ == m,
            Err(e) => r matches Err(x) && x@ == e,
        },
{
    match parse_json(line) {
        Some(v) => message_from_json(&v),
        None => Err(DecodeError::Json),
    }
}

// ---------------------------------------------------------------------------
// Structural decode of responses
// ---------------------------------------------------------------------------

/// Decode a parsed JSON value as a response: an object with `"jsonrpc":
/// "2.0"`, an id, and either a `result` member or an `error` object whose
/// `code` is an integer that fits 64 bits and whose `message` is a string.
pub open spec fn spec_response_from_json(v: SpecJson) -> Result<SpecResponse, SpecDecodeError> {
    match v {
        SpecJson::Obj(fields) => {
            if spec_obj_get(fields, key_jsonrpc()) != Some(SpecJson::Str(val_two_zero())) {
                Err(SpecDecodeError::InvalidMessage(reason_bad_version()))
            } else {
                let id_opt = match spec_obj_get(fields, key_id()) {
                    Some(SpecJson::Str(s)) => Some(s),
                    Some(SpecJson::Num(lex)) => Some(lex),
                    _ => None,
                };
                match id_opt {
                    None => Err(SpecDecodeError::Json),
                    Some(id) => match spec_obj_get(fields, key_result()) {
                        Some(res) => Ok(SpecResponse::Success { id, result: res }),
                        None => match spec_obj_get(fields, key_error()) {
                            Some(SpecJson::Obj(ef)) => {
                                let code_opt = match spec_obj_get(ef, key_code()) {
                                    Some(SpecJson::Num(lex)) => spec_json_int(lex),
                                    _ => None,
                                };
                                match code_opt {
                                    Some(code) => if i64::MIN <= code <= i64::MAX {
                                        match spec_obj_get(ef, key_message()) {
                                            Some(SpecJson::Str(message)) => Ok(
                                                SpecResponse::Error {
                                                    id,
                                                    error: SpecErrorData {
                                                        code,
                                                        message,
                                                        data: spec_obj_get(ef, key_data()),
                                                    },
                                                },
                                            ),
                                            _ => Err(SpecDecodeError::Json),
                                        }
                                    } else {
                                        Err(SpecDecodeError::Json)
                                    },
                                    None => Err(SpecDecodeError::Json),
                                }
                            },
                            _ => Err(SpecDecodeError::Json),
                        },
                    },
                }
            }
        },
        _ => Err(SpecDecodeError::InvalidMessage(reason_not_object())),
    }
}

/// One frame, decoded as a response.
pub open spec fn spec_decode_response_line(line: Seq<u8>) -> Result<
    SpecResponse,
    SpecDecodeError,
> {
    match spec_parse_json(line) {
        Some(v) => spec_response_from_json(v),
        None => Err(SpecDecodeError::Json),
    }
}

fn response_from_json(v: &JsonValue) -> (r: Result<JsonRpcResponse, DecodeError>)
    ensures
        match spec_response_from_json(v@) {
            Ok(m) => r matches Ok(x) && x@ == m,
            Err(e) => r matches Err(x) && x@ == e,
        },
{
    let fields = match v {
        JsonValue::Obj(fields) => fields,
        _ => {
            return Err(DecodeError::InvalidMessage(bytes_reason_not_object()));
        },
    };
    let version_ok = match obj_get(fields, &bytes_jsonrpc()) {
        Some(JsonValue::Str(s)) => bytes_eq(s, &bytes_two_zero()),
        _ => false,
    };
    if !version_ok {
        return Err(DecodeError::InvalidMessage(bytes_reason_bad_version()));
    }
    let id = match obj_get(fields, &bytes_id()) {
        Some(JsonValue::Str(s)) => clone_bytes(s),
        Some(JsonValue::Num(lex)) => clone_bytes(lex),
        _ => {
            return Err(DecodeError::Json);
        },
    };
    match obj_get(fields, &bytes_result()) {
        Some(res) => Ok(JsonRpcResponse::Success { id, result: clone_json(res) }),
        None => {
            let ef = match obj_get(fields, &bytes_error()) {
                Some(JsonValue::Obj(ef)) => ef,
                _ => {
                    return Err(DecodeError::Json);
                },
            };
            let code = match obj_get(ef, &bytes_code()) {
                Some(JsonValue::Num(lex)) => match parse_i64(lex) {
                    Some(c) => c,
                    None => {
                        return Err(DecodeError::Json);
                    },
                },
                _ => {
                    return Err(DecodeError::Json);
                },
            };
            let message = match obj_get(ef, &bytes_message()) {
                Some(JsonValue::Str(s)) => clone_bytes(s),
                _ => {
                    return Err(DecodeError::Json);
                },
            };
            let data = match obj_get(ef, &bytes_data()) {
                Some(d) => Some(clone_json(d)),
                None => None,
            };
            Ok(JsonRpcResponse::Error { id, error: ErrorData { code, message, data } })
        },
    }
}

/// Decode one frame as a response.
pub fn decode_response_line(line: &Vec<u8>) -> (r: Result<JsonRpcResponse, DecodeError>)
    ensures
        match spec_decode_response_line(line@) {
            Ok(m) => r matches Ok(x) && x@ == m,
            Err(e) => r matches Err(x) && x@ == e,
        },
{
    match parse_json(line) {
        Some(v) => response_from_json(&v),
        None => Err(DecodeError::Json),
    }
}

} // verus!

verus! {

// ---------------------------------------------------------------------------
// Framing: one item per line-feed-terminated frame
// ---------------------------------------------------------------------------

/// First index at or after `i` holding a line feed, or the end of the input.
pub open spec fn spec_lf_end(s: Seq<u8>, i: int) -> int
    decreases s.len() - i,
{
    if 0 <= i && i < s.len() && s[i] != 0x0a {
        spec_lf_end(s, i + 1)
    } else {
        i
    }
}

/// The frames of a byte stream: the text between line feeds, the terminator
/// consumed but not included; a final unterminated remainder is a frame too.
pub open spec fn spec_lines_from(s: Seq<u8>, i: int) -> Seq<Seq<u8>>
    decreases s.len() - i,
{
    if !(0 <= i && i < s.len()) {
        Seq::empty()
    } else {
        let e = spec_lf_end(s, i);
        if i <= e && e <= s.len() {
            seq![s.subrange(i, e)] + (if e < s.len() {
                spec_lines_from(s, e + 1)
            } else {
                Seq::<Seq<u8>>::empty()
            })
        } else {
            Seq::empty()
        }
    }
}

pub open spec fn spec_split_lines(s: Seq<u8>) -> Seq<Seq<u8>> {
    spec_lines_from(s, 0)
}

/// The spec-level value of one decoded item.
pub open spec fn decode_res_view(r: Result<SendableMessage, DecodeError>) -> Result<
    SpecMessage,
    SpecDecodeError,
> {
    match r {
        Ok(m) => Ok(m@),
        Err(e) => Err(e@),
    }
}

fn scan_lf(s: &Vec<u8>, i: usize) -> (r: usize)
    requires
        i <= s@.len(),
    ensures
        r as int == spec_lf_end(s@, i as int),
        i <= r <= s@.len(),
{
    let mut j = i;
    while j < s.len() && s[j] != 0x0a
        invariant
            i <= j <= s@.len(),
            spec_lf_end(s@, i as int) == spec_lf_end(s@, j as int),
        decreases s@.len() - j,
    {
        j = j + 1;
    }
    j
}

/// Split a byte stream into frames and decode each frame on its own.
///
/// The contract states that a decode error on one frame never affects any
/// other frame: item `t` is exactly the decode of frame `t`, whatever the
/// frames around it held.
pub fn decode_frames(input: &Vec<u8>) -> (r: Vec<Result<SendableMessage, DecodeError>>)
    ensures
        r@.len() == spec_split_lines(input@).len(),
        forall|t: int| 0 <= t < r@.len() ==> decode_res_view(#[trigger] r@[t]) == spec_decode_line(
            spec_split_lines(input@)[t],
        ),
{
    let ghost lines = spec_split_lines(input@);
    let mut out: Vec<Result<SendableMessage, DecodeError>> = Vec::new();
    let mut pos: usize = 0;
    while pos < input.len()
        invariant
            pos <= input@.len(),
            lines == spec_split_lines(input@),
            out@.len() + spec_lines_from(input@, pos as int).len() == lines.len(),
            forall|t: int| 0 <= t < out@.len() ==> decode_res_view(#[trigger] out@[t])
                == spec_decode_line(lines[t]),
            forall|u: int| 0 <= u < spec_lines_from(input@, pos as int).len() ==> lines[out@.len()
                + u] == #[trigger] spec_lines_from(input@, pos as int)[u],
        decreases input@.len() - pos,
    {
        let e = scan_lf(input, pos);
        let line = copy_range(input, pos, e);
        let item = decode_line(&line);
        let ghost rest = spec_lines_from(input@, pos as int);
        proof {
            assert(rest[0] == input@.subrange(pos as int, e as int));
            assert(rest == seq![input@.subrange(pos as int, e as int)] + (if (e as int)
                < input@.len() {
                spec_lines_from(input@, e as int + 1)
            } else {
                Seq::<Seq<u8>>::empty()
            }));
        }
        out.push(item);
        if e < input.len() {
            pos = e + 1;
        } else {
            pos = e;
        }
        proof {
            let rest2 = spec_lines_from(input@, pos as int);
            assert(rest.len() == 1 + rest2.len());
            assert(forall|u: int| 0 <= u < rest2.len() ==> rest[u + 1] == #[trigger] rest2[u]);
        }
    }
    proof {
        assert(spec_lines_from(input@, pos as int).len() == 0);
    }
    out
}

} // verus!
