//! JSON document model and a verified compact encoder.
//!
//! Values carry their text as UTF-8 bytes. A number is kept as its decimal
//! lexeme, so no floating point arithmetic is ever performed; an object is a
//! sequence of key/value pairs in wire order.

use vstd::prelude::*;

verus! {

broadcast use vstd::seq::group_seq_axioms, vstd::std_specs::vec::group_vec_axioms;

/// Mathematical model of a JSON value.
#[verifier::ext_equal]
pub enum SpecJson {
    Null,
    Bool(bool),
    Num(Seq<u8>),
    Str(Seq<u8>),
    Arr(Seq<SpecJson>),
    Obj(Seq<(Seq<u8>, SpecJson)>),
}

/// A JSON value as held at run time. `Num` stores the decimal lexeme of the
/// number; `Str` stores the decoded (unescaped) contents.
#[derive(Debug, PartialEq, Eq)]
pub enum JsonValue {
    Null,
    Bool(bool),
    Num(Vec<u8>),
    Str(Vec<u8>),
    Arr(Vec<JsonValue>),
    Obj(Vec<(Vec<u8>, JsonValue)>),
}

pub open spec fn view_json_seq(items: Seq<JsonValue>) -> Seq<SpecJson>
    decreases items,
{
    Seq::new(
        items.len(),
        |i: int|
            if 0 <= i && i < items.len() {
                items[i]@
            } else {
                SpecJson::Null
            },
    )
}

pub open spec fn view_json_fields(fields: Seq<(Vec<u8>, JsonValue)>) -> Seq<(Seq<u8>, SpecJson)>
    decreases fields,
{
    Seq::new(
        fields.len(),
        |i: int|
            if 0 <= i && i < fields.len() {
                (fields[i].0@, fields[i].1@)
            } else {
                (Seq::empty(), SpecJson::Null)
            },
    )
}

impl View for JsonValue {
    type V = SpecJson;

    open spec fn view(&self) -> SpecJson
        decreases self,
    {
        match self {
            JsonValue::Null => SpecJson::Null,
            JsonValue::Bool(b) => SpecJson::Bool(*b),
            JsonValue::Num(s) => SpecJson::Num(s@),
            JsonValue::Str(s) => SpecJson::Str(s@),
            JsonValue::Arr(items) => SpecJson::Arr(view_json_seq(items@)),
            JsonValue::Obj(fields) => SpecJson::Obj(view_json_fields(fields@)),
        }
    }
}

// ---------------------------------------------------------------------------
// Byte classes
// ---------------------------------------------------------------------------

pub open spec fn is_ws(b: u8) -> bool {
    b == 0x20 || b == 0x09 || b == 0x0a || b == 0x0d
}

pub open spec fn is_digit(b: u8) -> bool {
    0x30 <= b && b <= 0x39
}

/// Bytes that may occur in a number lexeme.
pub open spec fn is_num_byte(b: u8) -> bool {
    is_digit(b) || b == 0x2d || b == 0x2b || b == 0x2e || b == 0x65 || b == 0x45
}

/// End of the run of digits starting at `i`.
pub open spec fn spec_digits_end(s: Seq<u8>, i: int) -> int
    decreases s.len() - i,
{
    if 0 <= i && i < s.len() && is_digit(s[i]) {
        spec_digits_end(s, i + 1)
    } else {
        i
    }
}

/// Whether `s` is a valid JSON number lexeme:
/// `-? (0 | [1-9][0-9]*) (. [0-9]+)? ([eE] [+-]? [0-9]+)?`.
pub open spec fn spec_valid_number(s: Seq<u8>) -> bool {
    let n = s.len() as int;
    let i0: int = if n > 0 && s[0] == 0x2d {
        1
    } else {
        0
    };
    if i0 >= n || !is_digit(s[i0]) {
        false
    } else {
        let i1: int = if s[i0] == 0x30 {
            i0 + 1
        } else {
            spec_digits_end(s, i0)
        };
        let i2: int = if i1 < n && s[i1] == 0x2e {
            let d = spec_digits_end(s, i1 + 1);
            if d > i1 + 1 {
                d
            } else {
                -1
            }
        } else {
            i1
        };
        if i2 < 0 {
            false
        } else {
            let i3: int = if i2 < n && (s[i2] == 0x65 || s[i2] == 0x45) {
                let j: int = if i2 + 1 < n && (s[i2 + 1] == 0x2b || s[i2 + 1] == 0x2d) {
                    i2 + 2
                } else {
                    i2 + 1
                };
                let d = spec_digits_end(s, j);
                if j < n && d > j {
                    d
                } else {
                    -1
                }
            } else {
                i2
            };
            i3 == n
        }
    }
}

// ---------------------------------------------------------------------------
// Well-formedness: the values our encoder accepts
// ---------------------------------------------------------------------------

/// A value is well formed when every number lexeme in it is a valid JSON
/// number. String contents and object keys may hold arbitrary bytes: the
/// encoder escapes them.
pub open spec fn wf_json(j: SpecJson) -> bool
    decreases j,
{
    match j {
        SpecJson::Null => true,
        SpecJson::Bool(_) => true,
        SpecJson::Num(s) => spec_valid_number(s),
        SpecJson::Str(_) => true,
        SpecJson::Arr(items) => forall|i: int| 0 <= i < items.len() ==> wf_json(#[trigger] items[i]),
        SpecJson::Obj(fields) => forall|i: int|
            0 <= i < fields.len() ==> wf_json(#[trigger] fields[i].1),
    }
}

// ---------------------------------------------------------------------------
// Encoding (spec)
// ---------------------------------------------------------------------------

pub open spec fn spec_hex_digit(n: u8) -> u8 {
    if n < 10 {
        (0x30 + n) as u8
    } else {
        (0x61 + (n - 10)) as u8
    }
}

/// Escape one byte of string content.
pub open spec fn spec_escape_byte(b: u8) -> Seq<u8> {
    if b == 0x22 {
        seq![0x5cu8, 0x22u8]
    } else if b == 0x5c {
        seq![0x5cu8, 0x5cu8]
    } else if b == 0x0a {
        seq![0x5cu8, 0x6eu8]
    } else if b == 0x0d {
        seq![0x5cu8, 0x72u8]
    } else if b == 0x09 {
        seq![0x5cu8, 0x74u8]
    } else if b < 0x20 {
        seq![0x5cu8, 0x75u8, 0x30u8, 0x30u8, spec_hex_digit(b / 16), spec_hex_digit(b % 16)]
    } else {
        seq![b]
    }
}

pub open spec fn spec_escape(s: Seq<u8>) -> Seq<u8>
    decreases s.len(),
{
    if s.len() == 0 {
        Seq::empty()
    } else {
        spec_escape_byte(s[0]) + spec_escape(s.skip(1))
    }
}

/// Compact encoding of a JSON value: no inter-token whitespace, strings
/// escaped, numbers written as their lexeme.
pub open spec fn spec_encode_json(j: SpecJson) -> Seq<u8>
    decreases j, 1int,
{
    match j {
        SpecJson::Null => seq![0x6eu8, 0x75u8, 0x6cu8, 0x6cu8],
        SpecJson::Bool(b) => if b {
            seq![0x74u8, 0x72u8, 0x75u8, 0x65u8]
        } else {
            seq![0x66u8, 0x61u8, 0x6cu8, 0x73u8, 0x65u8]
        },
        SpecJson::Num(s) => s,
        SpecJson::Str(s) => seq![0x22u8] + spec_escape(s) + seq![0x22u8],
        SpecJson::Arr(items) => seq![0x5bu8] + spec_encode_items(items, 0) + seq![0x5du8],
        SpecJson::Obj(fields) => seq![0x7bu8] + spec_encode_fields(fields, 0) + seq![0x7du8],
    }
}

pub open spec fn spec_encode_items(items: Seq<SpecJson>, i: int) -> Seq<u8>
    decreases items, items.len() - i + 1int,
{
    if i < 0 || i >= items.len() {
        Seq::empty()
    } else {
        spec_encode_json(items[i]) + (if i + 1 < items.len() {
            seq![0x2cu8]
        } else {
            Seq::<u8>::empty()
        }) + spec_encode_items(items, i + 1)
    }
}

pub open spec fn spec_encode_fields(fields: Seq<(Seq<u8>, SpecJson)>, i: int) -> Seq<u8>
    decreases fields, fields.len() - i + 1int,
{
    if i < 0 || i >= fields.len() {
        Seq::empty()
    } else {
        seq![0x22u8] + spec_escape(fields[i].0) + seq![0x22u8, 0x3au8] + spec_encode_json(
            fields[i].1,
        ) + (if i + 1 < fields.len() {
            seq![0x2cu8]
        } else {
            Seq::<u8>::empty()
        }) + spec_encode_fields(fields, i + 1)
    }
}

// ---------------------------------------------------------------------------
// Encoding (exec)
// ---------------------------------------------------------------------------

fn hex_digit(n: u8) -> (r: u8)
    requires
        n < 16,
    ensures
        r == spec_hex_digit(n),
{
    if n < 10 {
        0x30 + n
    } else {
        0x61 + (n - 10)
    }
}

/// Append the escaped form of one byte of string content.
fn escape_byte_into(b: u8, out: &mut Vec<u8>)
    ensures
        final(out)@ == old(out)@ + spec_escape_byte(b),
{
    if b == 0x22 {
        out.push(0x5c);
        out.push(0x22);
    } else if b == 0x5c {
        out.push(0x5c);
        out.push(0x5c);
    } else if b == 0x0a {
        out.push(0x5c);
        out.push(0x6e);
    } else if b == 0x0d {
        out.push(0x5c);
        out.push(0x72);
    } else if b == 0x09 {
        out.push(0x5c);
        out.push(0x74);
    } else if b < 0x20 {
        out.push(0x5c);
        out.push(0x75);
        out.push(0x30);
        out.push(0x30);
        out.push(hex_digit(b / 16));
        out.push(hex_digit(b % 16));
    } else {
        out.push(b);
    }
    assert(final(out)@ =~= old(out)@ + spec_escape_byte(b));
}

/// Append the escaped form of a whole string content.
fn escape_into(s: &Vec<u8>, out: &mut Vec<u8>)
    ensures
        final(out)@ == old(out)@ + spec_escape(s@),
{
    let n = s.len();
    let mut k: usize = 0;
    while k < n
        invariant
            n == s@.len(),
            k <= n,
            out@ == old(out)@ + spec_escape(s@.take(k as int)),
        decreases n - k,
    {
        let ghost pre = out@;
        escape_byte_into(s[k], out);
        proof {
            lemma_escape_snoc(s@, k as int);
            assert(out@ =~= old(out)@ + spec_escape(s@.take(k as int + 1)));
        }
        k = k + 1;
    }
    proof {
        assert(s@.take(n as int) =~= s@);
    }
}

/// `spec_escape` distributes over appending one byte at the end.
proof fn lemma_escape_snoc(s: Seq<u8>, k: int)
    requires
        0 <= k < s.len(),
    ensures
        spec_escape(s.take(k + 1)) == spec_escape(s.take(k)) + spec_escape_byte(s[k]),
    decreases k,
{
    let a = s.take(k + 1);
    if k == 0 {
        assert(a.skip(1) =~= Seq::<u8>::empty());
        assert(spec_escape(s.take(0)) =~= Seq::<u8>::empty());
        assert(spec_escape(a) =~= spec_escape_byte(s[0]));
    } else {
        let b = s.take(k);
        assert(a.len() > 0 && b.len() > 0);
        assert(a[0] == s[0] && b[0] == s[0]);
        assert(a.skip(1) =~= s.skip(1).take(k));
        assert(b.skip(1) =~= s.skip(1).take(k - 1));
        assert(s.skip(1)[k - 1] == s[k]);
        lemma_escape_snoc(s.skip(1), k - 1);
        assert(spec_escape(a) == spec_escape_byte(a[0]) + spec_escape(a.skip(1)));
        assert(spec_escape(a) =~= spec_escape(b) + spec_escape_byte(s[k]));
    }
}

/// Append the compact encoding of `v`.
pub fn encode_json_into(v: &JsonValue, out: &mut Vec<u8>)
    ensures
        final(out)@ == old(out)@ + spec_encode_json(v@),
    decreases v,
{
    match v {
        JsonValue::Null => {
            out.push(0x6e);
            out.push(0x75);
            out.push(0x6c);
            out.push(0x6c);
            assert(final(out)@ =~= old(out)@ + spec_encode_json(v@));
        },
        JsonValue::Bool(b) => {
            if *b {
                out.push(0x74);
                out.push(0x72);
                out.push(0x75);
                out.push(0x65);
            } else {
                out.push(0x66);
                out.push(0x61);
                out.push(0x6c);
                out.push(0x73);
                out.push(0x65);
            }
            assert(final(out)@ =~= old(out)@ + spec_encode_json(v@));
        },
        JsonValue::Num(s) => {
            append_bytes(out, s);
        },
        JsonValue::Str(s) => {
            out.push(0x22);
            escape_into(s, out);
            out.push(0x22);
            assert(final(out)@ =~= old(out)@ + spec_encode_json(v@));
        },
        JsonValue::Arr(items) => {
            out.push(0x5b);
            encode_items_into(items, 0, out);
            out.push(0x5d);
            assert(final(out)@ =~= old(out)@ + spec_encode_json(v@));
        },
        JsonValue::Obj(fields) => {
            out.push(0x7b);
            encode_fields_into(fields, 0, out);
            out.push(0x7d);
            assert(final(out)@ =~= old(out)@ + spec_encode_json(v@));
        },
    }
}

fn encode_items_into(items: &Vec<JsonValue>, i: usize, out: &mut Vec<u8>)
    ensures
        final(out)@ == old(out)@ + spec_encode_items(view_json_seq(items@), i as int),
    decreases items, items@.len() - i + 1int,
{
    if i < items.len() {
        encode_json_into(&items[i], out);
        if i + 1 < items.len() {
            out.push(0x2c);
        }
        encode_items_into(items, i + 1, out);
        assert(final(out)@ =~= old(out)@ + spec_encode_items(view_json_seq(items@), i as int));
    } else {
        assert(final(out)@ =~= old(out)@ + spec_encode_items(view_json_seq(items@), i as int));
    }
}

fn encode_fields_into(fields: &Vec<(Vec<u8>, JsonValue)>, i: usize, out: &mut Vec<u8>)
    ensures
        final(out)@ == old(out)@ + spec_encode_fields(view_json_fields(fields@), i as int),
    decreases fields, fields@.len() - i + 1int,
{
    if i < fields.len() {
        out.push(0x22);
        let entry = &fields[i];
        escape_into(&entry.0, out);
        out.push(0x22);
        out.push(0x3a);
        encode_json_into(&entry.1, out);
        if i + 1 < fields.len() {
            out.push(0x2c);
        }
        encode_fields_into(fields, i + 1, out);
        assert(final(out)@ =~= old(out)@ + spec_encode_fields(view_json_fields(fields@), i as int));
    } else {
        assert(final(out)@ =~= old(out)@ + spec_encode_fields(view_json_fields(fields@), i as int));
    }
}

/// Append all bytes of `s` to `out`.
pub fn append_bytes(out: &mut Vec<u8>, s: &Vec<u8>)
    ensures
        final(out)@ == old(out)@ + s@,
{
    let n = s.len();
    let mut k: usize = 0;
    while k < n
        invariant
            n == s@.len(),
            k <= n,
            out@ == old(out)@ + s@.take(k as int),
        decreases n - k,
    {
        out.push(s[k]);
        proof {
            assert(out@ =~= old(out)@ + s@.take(k as int + 1));
        }
        k = k + 1;
    }
    proof {
        assert(s@.take(n as int) =~= s@);
    }
}

/// Encode a JSON value to its compact wire bytes.
pub fn encode_json(v: &JsonValue) -> (out: Vec<u8>)
    ensures
        out@ == spec_encode_json(v@),
{
    let mut out: Vec<u8> = Vec::new();
    encode_json_into(v, &mut out);
    proof {
        assert(out@ =~= spec_encode_json(v@));
    }
    out
}

} // verus!
