//! Round-trip guarantee of the codec: parsing the encoding of a well-formed
//! value yields that value back, exactly.

use vstd::prelude::*;

use crate::json::{
    is_digit, is_num_byte, is_ws, spec_valid_number, spec_digits_end, spec_encode_json,
    spec_encode_items, spec_encode_fields, spec_escape, spec_escape_byte, spec_hex_digit, wf_json,
    SpecJson,
};
use crate::parse::{
    spec_skip_ws, spec_hex_val, spec_hex4, spec_utf8_bytes, spec_parse_str_rest, spec_num_end,
    spec_parse_value, spec_parse_arr_body, spec_parse_arr_more, spec_parse_member,
    spec_parse_obj_body, spec_parse_obj_more, spec_parse_json,
};
use crate::protocol::{
    key_id, key_jsonrpc, key_method, key_params, spec_encode_message, spec_message_json,
    val_two_zero, wf_message, SpecMessage, SpecNotification, SpecRequest,
};
use crate::decode::{
    spec_decode_line, spec_lf_end, spec_lines_from, spec_message_from_json, spec_obj_get,
    spec_split_lines, SpecDecodeError,
};

verus! {

broadcast use vstd::seq::group_seq_axioms;

// ---------------------------------------------------------------------------
// Number lexemes
// ---------------------------------------------------------------------------

proof fn lemma_digits_end_props(s: Seq<u8>, i: int)
    requires
        0 <= i <= s.len(),
    ensures
        i <= spec_digits_end(s, i) <= s.len(),
        forall|k: int| i <= k < spec_digits_end(s, i) ==> is_digit(s[k]),
        spec_digits_end(s, i) < s.len() ==> !is_digit(s[spec_digits_end(s, i)]),
    decreases s.len() - i,
{
    if i < s.len() && is_digit(s[i]) {
        lemma_digits_end_props(s, i + 1);
    }
}

/// Every byte of a valid number lexeme is a number byte, and the first one
/// is a minus sign or a digit.
proof fn lemma_valid_number_bytes(s: Seq<u8>)
    requires
        spec_valid_number(s),
    ensures
        s.len() > 0,
        s[0] == 0x2d || is_digit(s[0]),
        forall|k: int| 0 <= k < s.len() ==> is_num_byte(#[trigger] s[k]),
{
    let n = s.len() as int;
    let i0: int = if n > 0 && s[0] == 0x2d {
        1
    } else {
        0
    };
    assert(is_digit(s[i0]));
    let i1: int = if s[i0] == 0x30 {
        i0 + 1
    } else {
        spec_digits_end(s, i0)
    };
    lemma_digits_end_props(s, i0);
    assert(i0 < i1 <= n);
    assert(forall|k: int| i0 <= k < i1 ==> is_digit(#[trigger] s[k]));
    let i2: int = if i1 < n && s[i1] == 0x2e {
        let d = spec_digits_end(s, i1 + 1);
        if d > i1 + 1 {
            d
        } else {
            -1
        }
    } else {
        i1
    };
    assert(i2 >= 0);
    if i1 < n && s[i1] == 0x2e {
        lemma_digits_end_props(s, i1 + 1);
        assert(forall|k: int| i1 + 1 <= k < i2 ==> is_digit(#[trigger] s[k]));
    }
    assert(i1 <= i2 <= n);
    let i3: int = if i2 < n && (s[i2] == 0x65 || s[i2] == 0x45) {
        let j: int = if i2 + 1 < n && (s[i2 + 1] == 0x2b || s[i2 + 1] == 0x2d) {
            i2 + 2
        } else {
            i2 + 1
        };
        let d = spec_digits_end(s, j);
        if j < n && d > j {
            d
        } else {
            -1
        }
    } else {
        i2
    };
    assert(i3 == n);
    if i2 < n && (s[i2] == 0x65 || s[i2] == 0x45) {
        let j: int = if i2 + 1 < n && (s[i2 + 1] == 0x2b || s[i2 + 1] == 0x2d) {
            i2 + 2
        } else {
            i2 + 1
        };
        lemma_digits_end_props(s, j);
        assert(forall|k: int| j <= k < n ==> is_digit(#[trigger] s[k]));
        assert(forall|k: int| 0 <= k < s.len() ==> is_num_byte(#[trigger] s[k])) by {
            assert forall|k: int| 0 <= k < s.len() implies is_num_byte(#[trigger] s[k]) by {
                if k < i0 {
                } else if k < i1 {
                } else if k < i2 {
                } else if k < j {
                } else {
                }
            }
        }
    } else {
        assert(i2 == n);
        assert forall|k: int| 0 <= k < s.len() implies is_num_byte(#[trigger] s[k]) by {
            if k < i0 {
            } else if k < i1 {
            } else {
            }
        }
    }
}

/// Maximal munch over a run of number bytes ends exactly at the boundary.
proof fn lemma_num_end_exact(s: Seq<u8>, i: int, m: int)
    requires
        0 <= i <= m <= s.len(),
        forall|k: int| i <= k < m ==> is_num_byte(#[trigger] s[k]),
        m == s.len() || !is_num_byte(s[m]),
    ensures
        spec_num_end(s, i) == m,
    decreases m - i,
{
    if i < m {
        lemma_num_end_exact(s, i + 1, m);
    }
}

/// Skipping whitespace at a non-whitespace byte stays put.
proof fn lemma_skip_ws_at(s: Seq<u8>, i: int)
    requires
        !(0 <= i && i < s.len()) || !is_ws(s[i]),
    ensures
        spec_skip_ws(s, i) == i,
{
}

// ---------------------------------------------------------------------------
// Strings
// ---------------------------------------------------------------------------

proof fn lemma_hex_digit_val(n: u8)
    requires
        n < 16,
    ensures
        spec_hex_val(spec_hex_digit(n)) == Some(n as u32),
{
}

/// Transfer one byte through a subrange equation.
proof fn lemma_at(s: Seq<u8>, i: int, t: Seq<u8>, k: int)
    requires
        0 <= k < t.len(),
        0 <= i,
        i + t.len() <= s.len(),
        s.subrange(i, i + t.len()) == t,
    ensures
        s[i + k] == t[k],
{
    assert(s.subrange(i, i + t.len())[k] == s[i + k]);
}

/// Parsing the escaped form of `c`, followed by a closing quote, yields `c`.
proof fn lemma_parse_escaped(c: Seq<u8>, s: Seq<u8>, i: int)
    requires
        0 <= i,
        i + spec_escape(c).len() + 1 <= s.len(),
        s.subrange(i, i + spec_escape(c).len()) == spec_escape(c),
        s[i + spec_escape(c).len()] == 0x22,
    ensures
        spec_parse_str_rest(s, i) == Some::<(Seq<u8>, int)>((c, i + spec_escape(c).len() + 1)),
    decreases c.len(),
{
    let esc = spec_escape(c);
    if c.len() == 0 {
        assert(esc =~= Seq::<u8>::empty());
        assert(s[i] == 0x22);
    } else {
        let b = c[0];
        let rest = c.skip(1);
        let eb = spec_escape_byte(b);
        let erest = spec_escape(rest);
        assert(esc == eb + erest);
        assert forall|k: int| 0 <= k < eb.len() implies s[i + k] == #[trigger] eb[k] by {
            assert(esc[k] == eb[k]);
            lemma_at(s, i, esc, k);
        }
        let next = i + eb.len();
        assert(s.subrange(next, next + erest.len()) =~= erest) by {
            assert forall|k: int| 0 <= k < erest.len() implies s.subrange(
                next,
                next + erest.len(),
            )[k] == #[trigger] erest[k] by {
                assert(esc[eb.len() + k] == erest[k]);
                lemma_at(s, i, esc, eb.len() + k);
            }
        }
        assert(s[next + erest.len()] == 0x22);
        lemma_parse_escaped(rest, s, next);
        assert(seq![b] + rest =~= c);
        if b == 0x22 || b == 0x5c {
            assert(s[i + 0] == eb[0] && s[i + 1] == eb[1]);
            assert(s[i] == 0x5c && s[i + 1] == b);
        } else if b == 0x0a {
            assert(s[i + 0] == eb[0] && s[i + 1] == eb[1]);
            assert(s[i] == 0x5c && s[i + 1] == 0x6e);
        } else if b == 0x0d {
            assert(s[i + 0] == eb[0] && s[i + 1] == eb[1]);
            assert(s[i] == 0x5c && s[i + 1] == 0x72);
        } else if b == 0x09 {
            assert(s[i + 0] == eb[0] && s[i + 1] == eb[1]);
            assert(s[i] == 0x5c && s[i + 1] == 0x74);
        } else if b < 0x20 {
            assert(s[i + 0] == eb[0] && s[i + 1] == eb[1] && s[i + 2] == eb[2] && s[i + 3] == eb[3]
                && s[i + 4] == eb[4] && s[i + 5] == eb[5]);
            assert(s[i] == 0x5c && s[i + 1] == 0x75 && s[i + 2] == 0x30 && s[i + 3] == 0x30);
            assert(s[i + 4] == spec_hex_digit(b / 16) && s[i + 5] == spec_hex_digit(b % 16));
            lemma_hex_digit_val(b / 16);
            lemma_hex_digit_val(b % 16);
            let cp = spec_hex4(s, i + 2);
            assert((b / 16) as u32 * 0x10 + (b % 16) as u32 == b as u32) by {
                assert(b == 16 * (b / 16) + b % 16) by (nonlinear_arith);
            }
            assert(cp == Some::<u32>(b as u32));
            assert(spec_utf8_bytes(b as u32) =~= seq![b]);
        } else {
            assert(s[i + 0] == eb[0]);
            assert(s[i] == b);
            assert(b != 0x22 && b != 0x5c && !(b < 0x20));
        }
    }
}

// ---------------------------------------------------------------------------
// Values
// ---------------------------------------------------------------------------

/// Transfer a slice through a subrange equation.
proof fn lemma_sub_at(s: Seq<u8>, i: int, t: Seq<u8>, a: int, b: int)
    requires
        0 <= a <= b <= t.len(),
        0 <= i,
        i + t.len() <= s.len(),
        s.subrange(i, i + t.len()) == t,
    ensures
        s.subrange(i + a, i + b) == t.subrange(a, b),
{
    assert(s.subrange(i + a, i + b) =~= t.subrange(a, b)) by {
        assert forall|k: int| 0 <= k < b - a implies s.subrange(i + a, i + b)[k] == t.subrange(
            a,
            b,
        )[k] by {
            lemma_at(s, i, t, a + k);
        }
    }
}

/// The encoding of a well-formed value is nonempty and starts with a byte
/// that is neither whitespace nor a closing delimiter nor a separator.
proof fn lemma_encode_first(v: SpecJson)
    requires
        wf_json(v),
    ensures
        spec_encode_json(v).len() > 0,
        !is_ws(spec_encode_json(v)[0]),
        spec_encode_json(v)[0] != 0x5d,
        spec_encode_json(v)[0] != 0x7d,
        spec_encode_json(v)[0] != 0x2c,
        spec_encode_json(v)[0] != 0x3a,
{
    match v {
        SpecJson::Num(s) => {
            lemma_valid_number_bytes(s);
        },
        _ => {},
    }
}

/// The wire text that follows the `k`-th element of an array (the element
/// separator if one is due, the remaining elements, the closing bracket).
pub open spec fn arr_tail(items: Seq<SpecJson>, k: int) -> Seq<u8> {
    (if k < items.len() {
        seq![0x2cu8] + spec_encode_items(items, k)
    } else {
        Seq::<u8>::empty()
    }) + seq![0x5du8]
}

/// The wire text of one `"key":value` member.
pub open spec fn member_enc(key: Seq<u8>, v: SpecJson) -> Seq<u8> {
    seq![0x22u8] + spec_escape(key) + seq![0x22u8, 0x3au8] + spec_encode_json(v)
}

/// The wire text that follows the `k`-th member of an object.
pub open spec fn obj_tail(fields: Seq<(Seq<u8>, SpecJson)>, k: int) -> Seq<u8> {
    (if k < fields.len() {
        seq![0x2cu8] + spec_encode_fields(fields, k)
    } else {
        Seq::<u8>::empty()
    }) + seq![0x7du8]
}

/// Parsing the encoding of a well-formed value embedded in a larger text
/// consumes exactly that encoding and yields the value.
pub proof fn lemma_parse_encoded_value(v: SpecJson, s: Seq<u8>, i: int)
    requires
        wf_json(v),
        0 <= i,
        i + spec_encode_json(v).len() <= s.len(),
        s.subrange(i, i + spec_encode_json(v).len()) == spec_encode_json(v),
        v is Num ==> (i + spec_encode_json(v).len() == s.len() || !is_num_byte(
            s[i + spec_encode_json(v).len()],
        )),
    ensures
        spec_parse_value(s, i) == Some::<(SpecJson, int)>((v, i + spec_encode_json(v).len())),
    decreases v, 1int,
{
    let enc = spec_encode_json(v);
    match v {
        SpecJson::Null => {
            lemma_at(s, i, enc, 0);
            lemma_at(s, i, enc, 1);
            lemma_at(s, i, enc, 2);
            lemma_at(s, i, enc, 3);
        },
        SpecJson::Bool(b) => {
            lemma_at(s, i, enc, 0);
            lemma_at(s, i, enc, 1);
            lemma_at(s, i, enc, 2);
            lemma_at(s, i, enc, 3);
            if !b {
                lemma_at(s, i, enc, 4);
            }
        },
        SpecJson::Num(lex) => {
            lemma_valid_number_bytes(lex);
            lemma_at(s, i, enc, 0);
            assert forall|k: int| i <= k < i + lex.len() implies is_num_byte(#[trigger] s[k]) by {
                lemma_at(s, i, enc, k - i);
            }
            lemma_num_end_exact(s, i, i + lex.len());
            assert(s.subrange(i, i + lex.len()) == lex);
        },
        SpecJson::Str(c) => {
            let esc = spec_escape(c);
            lemma_at(s, i, enc, 0);
            assert(s[i] == 0x22);
            lemma_sub_at(s, i, enc, 1, 1 + esc.len() as int);
            assert(enc.subrange(1, 1 + esc.len() as int) =~= esc);
            lemma_at(s, i, enc, 1 + esc.len() as int);
            assert(enc[1 + esc.len() as int] == 0x22);
            lemma_parse_escaped(c, s, i + 1);
        },
        SpecJson::Arr(items) => {
            lemma_parse_encoded_arr(items, s, i);
        },
        SpecJson::Obj(fields) => {
            lemma_parse_encoded_obj(fields, s, i);
        },
    }
}

/// The array case of `lemma_parse_encoded_value`.
#[verifier::rlimit(100)]
#[verifier::spinoff_prover]
proof fn lemma_parse_encoded_arr(items: Seq<SpecJson>, s: Seq<u8>, i: int)
    requires
        wf_json(SpecJson::Arr(items)),
        0 <= i,
        i + spec_encode_json(SpecJson::Arr(items)).len() <= s.len(),
        s.subrange(i, i + spec_encode_json(SpecJson::Arr(items)).len()) == spec_encode_json(
            SpecJson::Arr(items),
        ),
    ensures
        spec_parse_value(s, i) == Some::<(SpecJson, int)>(
            (SpecJson::Arr(items), i + spec_encode_json(SpecJson::Arr(items)).len()),
        ),
    decreases items, items.len() + 1int,
{
    let enc = spec_encode_json(SpecJson::Arr(items));
    lemma_at(s, i, enc, 0);
    assert(s[i] == 0x5b);
    let body = spec_encode_items(items, 0);
    if items.len() == 0 {
        assert(body =~= Seq::<u8>::empty());
        lemma_at(s, i, enc, 1);
        assert(s[i + 1] == 0x5d);
        lemma_skip_ws_at(s, i + 1);
        assert(items =~= Seq::<SpecJson>::empty());
    } else {
        let e0 = spec_encode_json(items[0]);
        let tail1 = arr_tail(items, 1);
        assert(wf_json(items[0]));
        lemma_encode_first(items[0]);
        // layout: enc == [0x5b] + e0 + tail1
        assert(body == e0 + (if 1 < items.len() {
            seq![0x2cu8]
        } else {
            Seq::<u8>::empty()
        }) + spec_encode_items(items, 1));
        assert(enc =~= seq![0x5bu8] + e0 + tail1);
        lemma_sub_at(s, i, enc, 1, 1 + e0.len() as int);
        assert(enc.subrange(1, 1 + e0.len() as int) =~= e0);
        lemma_at(s, i, enc, 1);
        assert(s[i + 1] == e0[0]);
        lemma_skip_ws_at(s, i + 1);
        // the byte after e0 is ',' or ']'
        lemma_at(s, i, enc, 1 + e0.len() as int);
        assert(enc[1 + e0.len() as int] == tail1[0]);
        assert(tail1[0] == 0x2c || tail1[0] == 0x5d);
        lemma_parse_encoded_value(items[0], s, i + 1);
        let e = i + 1 + e0.len();
        lemma_sub_at(s, i, enc, 1 + e0.len() as int, enc.len() as int);
        assert(enc.subrange(1 + e0.len() as int, enc.len() as int) =~= tail1);
        assert(seq![items[0]] =~= items.take(1));
        lemma_parse_arr_more_encoded(items, 1, s, e);
        assert(spec_parse_arr_body(s, i + 1) == Some::<(SpecJson, int)>(
            (SpecJson::Arr(items), i + enc.len()),
        ));
    }
}

/// The object case of `lemma_parse_encoded_value`.
#[verifier::rlimit(100)]
#[verifier::spinoff_prover]
proof fn lemma_parse_encoded_obj(fields: Seq<(Seq<u8>, SpecJson)>, s: Seq<u8>, i: int)
    requires
        wf_json(SpecJson::Obj(fields)),
        0 <= i,
        i + spec_encode_json(SpecJson::Obj(fields)).len() <= s.len(),
        s.subrange(i, i + spec_encode_json(SpecJson::Obj(fields)).len()) == spec_encode_json(
            SpecJson::Obj(fields),
        ),
    ensures
        spec_parse_value(s, i) == Some::<(SpecJson, int)>(
            (SpecJson::Obj(fields), i + spec_encode_json(SpecJson::Obj(fields)).len()),
        ),
    decreases fields, fields.len() + 1int,
{
    let enc = spec_encode_json(SpecJson::Obj(fields));
    lemma_at(s, i, enc, 0);
    assert(s[i] == 0x7b);
    let body = spec_encode_fields(fields, 0);
    if fields.len() == 0 {
        assert(body =~= Seq::<u8>::empty());
        lemma_at(s, i, enc, 1);
        assert(s[i + 1] == 0x7d);
        lemma_skip_ws_at(s, i + 1);
        assert(fields =~= Seq::<(Seq<u8>, SpecJson)>::empty());
    } else {
        let m0 = member_enc(fields[0].0, fields[0].1);
        let tail1 = obj_tail(fields, 1);
        assert(wf_json(fields[0].1));
        // layout: enc == [0x7b] + m0 + tail1
        assert(body == seq![0x22u8] + spec_escape(fields[0].0) + seq![0x22u8, 0x3au8]
            + spec_encode_json(fields[0].1) + (if 1 < fields.len() {
            seq![0x2cu8]
        } else {
            Seq::<u8>::empty()
        }) + spec_encode_fields(fields, 1));
        assert(enc =~= seq![0x7bu8] + m0 + tail1);
        lemma_sub_at(s, i, enc, 1, 1 + m0.len() as int);
        assert(enc.subrange(1, 1 + m0.len() as int) =~= m0);
        lemma_at(s, i, enc, 1);
        assert(s[i + 1] == m0[0]);
        assert(m0[0] == 0x22);
        lemma_skip_ws_at(s, i + 1);
        lemma_at(s, i, enc, 1 + m0.len() as int);
        assert(enc[1 + m0.len() as int] == tail1[0]);
        assert(tail1[0] == 0x2c || tail1[0] == 0x7d);
        lemma_parse_member_encoded(fields[0].0, fields[0].1, s, i + 1);
        let e = i + 1 + m0.len();
        lemma_sub_at(s, i, enc, 1 + m0.len() as int, enc.len() as int);
        assert(enc.subrange(1 + m0.len() as int, enc.len() as int) =~= tail1);
        assert(seq![fields[0]] =~= fields.take(1));
        assert(seq![(fields[0].0, fields[0].1)] =~= fields.take(1));
        lemma_parse_obj_more_encoded(fields, 1, s, e);
        assert(spec_parse_obj_body(s, i + 1) == Some::<(SpecJson, int)>(
            (SpecJson::Obj(fields), i + enc.len()),
        ));
    }
}

/// Parsing an array continuation over the encoded remaining elements yields
/// the whole array.
proof fn lemma_parse_arr_more_encoded(items: Seq<SpecJson>, k: int, s: Seq<u8>, p: int)
    requires
        forall|t: int| 0 <= t < items.len() ==> wf_json(#[trigger] items[t]),
        1 <= k <= items.len(),
        0 <= p,
        p + arr_tail(items, k).len() <= s.len(),
        s.subrange(p, p + arr_tail(items, k).len()) == arr_tail(items, k),
    ensures
        spec_parse_arr_more(s, p, items.take(k)) == Some::<(SpecJson, int)>(
            (SpecJson::Arr(items), p + arr_tail(items, k).len()),
        ),
    decreases items, items.len() - k,
{
    let tail = arr_tail(items, k);
    lemma_at(s, p, tail, 0);
    if k == items.len() {
        assert(tail =~= seq![0x5du8]);
        assert(s[p] == 0x5d);
        lemma_skip_ws_at(s, p);
        assert(items.take(k) =~= items);
    } else {
        let ek = spec_encode_json(items[k]);
        let tail_next = arr_tail(items, k + 1);
        assert(wf_json(items[k]));
        lemma_encode_first(items[k]);
        assert(spec_encode_items(items, k) == ek + (if k + 1 < items.len() {
            seq![0x2cu8]
        } else {
            Seq::<u8>::empty()
        }) + spec_encode_items(items, k + 1));
        assert(tail =~= seq![0x2cu8] + ek + tail_next);
        assert(tail[0] == 0x2c);
        assert(s[p] == 0x2c);
        lemma_skip_ws_at(s, p);
        lemma_at(s, p, tail, 1);
        assert(tail[1] == ek[0]);
        lemma_skip_ws_at(s, p + 1);
        lemma_sub_at(s, p, tail, 1, 1 + ek.len() as int);
        assert(tail.subrange(1, 1 + ek.len() as int) =~= ek);
        lemma_at(s, p, tail, 1 + ek.len() as int);
        assert(tail[1 + ek.len() as int] == tail_next[0]);
        assert(tail_next[0] == 0x2c || tail_next[0] == 0x5d);
        lemma_parse_encoded_value(items[k], s, p + 1);
        let e = p + 1 + ek.len();
        lemma_sub_at(s, p, tail, 1 + ek.len() as int, tail.len() as int);
        assert(tail.subrange(1 + ek.len() as int, tail.len() as int) =~= tail_next);
        assert(items.take(k).push(items[k]) =~= items.take(k + 1));
        lemma_parse_arr_more_encoded(items, k + 1, s, e);
    }
}

/// Parsing one encoded member yields that member.
proof fn lemma_parse_member_encoded(key: Seq<u8>, v: SpecJson, s: Seq<u8>, j: int)
    requires
        wf_json(v),
        0 <= j,
        j + member_enc(key, v).len() <= s.len(),
        s.subrange(j, j + member_enc(key, v).len()) == member_enc(key, v),
        j + member_enc(key, v).len() == s.len() || !is_num_byte(s[j + member_enc(key, v).len()]),
    ensures
        spec_parse_member(s, j) == Some::<((Seq<u8>, SpecJson), int)>(
            ((key, v), j + member_enc(key, v).len()),
        ),
    decreases v, 2int,
{
    let mem = member_enc(key, v);
    let esc = spec_escape(key);
    let ev = spec_encode_json(v);
    lemma_at(s, j, mem, 0);
    assert(mem[0] == 0x22);
    assert(s[j] == 0x22);
    lemma_sub_at(s, j, mem, 1, 1 + esc.len() as int);
    assert(mem.subrange(1, 1 + esc.len() as int) =~= esc);
    lemma_at(s, j, mem, 1 + esc.len() as int);
    assert(mem[1 + esc.len() as int] == 0x22);
    lemma_parse_escaped(key, s, j + 1);
    let k = j + 2 + esc.len();
    lemma_at(s, j, mem, 2 + esc.len() as int);
    assert(mem[2 + esc.len() as int] == 0x3a);
    assert(s[k] == 0x3a);
    lemma_skip_ws_at(s, k);
    lemma_encode_first(v);
    lemma_at(s, j, mem, 3 + esc.len() as int);
    assert(mem[3 + esc.len() as int] == ev[0]);
    lemma_skip_ws_at(s, k + 1);
    lemma_sub_at(s, j, mem, 3 + esc.len() as int, mem.len() as int);
    assert(mem.subrange(3 + esc.len() as int, mem.len() as int) =~= ev);
    lemma_parse_encoded_value(v, s, k + 1);
}

/// Parsing an object continuation over the encoded remaining members yields
/// the whole object.
proof fn lemma_parse_obj_more_encoded(fields: Seq<(Seq<u8>, SpecJson)>, k: int, s: Seq<u8>, p: int)
    requires
        forall|t: int| 0 <= t < fields.len() ==> wf_json(#[trigger] fields[t].1),
        1 <= k <= fields.len(),
        0 <= p,
        p + obj_tail(fields, k).len() <= s.len(),
        s.subrange(p, p + obj_tail(fields, k).len()) == obj_tail(fields, k),
    ensures
        spec_parse_obj_more(s, p, fields.take(k)) == Some::<(SpecJson, int)>(
            (SpecJson::Obj(fields), p + obj_tail(fields, k).len()),
        ),
    decreases fields, fields.len() - k,
{
    let tail = obj_tail(fields, k);
    lemma_at(s, p, tail, 0);
    if k == fields.len() {
        assert(tail =~= seq![0x7du8]);
        assert(s[p] == 0x7d);
        lemma_skip_ws_at(s, p);
        assert(fields.take(k) =~= fields);
    } else {
        let mk = member_enc(fields[k].0, fields[k].1);
        let tail_next = obj_tail(fields, k + 1);
        assert(wf_json(fields[k].1));
        assert(spec_encode_fields(fields, k) == seq![0x22u8] + spec_escape(fields[k].0) + seq![
            0x22u8,
            0x3au8,
        ] + spec_encode_json(fields[k].1) + (if k + 1 < fields.len() {
            seq![0x2cu8]
        } else {
            Seq::<u8>::empty()
        }) + spec_encode_fields(fields, k + 1));
        assert(tail =~= seq![0x2cu8] + mk + tail_next);
        assert(tail[0] == 0x2c);
        assert(s[p] == 0x2c);
        lemma_skip_ws_at(s, p);
        lemma_at(s, p, tail, 1);
        assert(tail[1] == mk[0]);
        assert(mk[0] == 0x22);
        lemma_skip_ws_at(s, p + 1);
        lemma_sub_at(s, p, tail, 1, 1 + mk.len() as int);
        assert(tail.subrange(1, 1 + mk.len() as int) =~= mk);
        lemma_at(s, p, tail, 1 + mk.len() as int);
        assert(tail[1 + mk.len() as int] == tail_next[0]);
        assert(tail_next[0] == 0x2c || tail_next[0] == 0x7d);
        lemma_parse_member_encoded(fields[k].0, fields[k].1, s, p + 1);
        let e = p + 1 + mk.len();
        lemma_sub_at(s, p, tail, 1 + mk.len() as int, tail.len() as int);
        assert(tail.subrange(1 + mk.len() as int, tail.len() as int) =~= tail_next);
        assert(fields.take(k).push((fields[k].0, fields[k].1)) =~= fields.take(k + 1));
        lemma_parse_obj_more_encoded(fields, k + 1, s, e);
    }
}

// ---------------------------------------------------------------------------
// The encoding never contains a raw line feed
// ---------------------------------------------------------------------------

/// No byte of `s` is a line feed.
pub open spec fn no_lf(s: Seq<u8>) -> bool {
    forall|k: int| 0 <= k < s.len() ==> #[trigger] s[k] != 0x0a
}

proof fn lemma_no_lf_concat(a: Seq<u8>, b: Seq<u8>)
    requires
        no_lf(a),
        no_lf(b),
    ensures
        no_lf(a + b),
{
    assert forall|k: int| 0 <= k < (a + b).len() implies #[trigger] (a + b)[k] != 0x0a by {
        if k < a.len() {
            assert((a + b)[k] == a[k]);
        } else {
            assert((a + b)[k] == b[k - a.len()]);
        }
    }
}

proof fn lemma_escape_no_lf(c: Seq<u8>)
    ensures
        no_lf(spec_escape(c)),
    decreases c.len(),
{
    if c.len() != 0 {
        lemma_escape_no_lf(c.skip(1));
        lemma_no_lf_concat(spec_escape_byte(c[0]), spec_escape(c.skip(1)));
    }
}

/// The compact encoding of a well-formed value holds no raw line feed, so it
/// always fits in one line-delimited frame.
pub proof fn lemma_encode_no_lf(v: SpecJson)
    requires
        wf_json(v),
    ensures
        no_lf(spec_encode_json(v)),
    decreases v, 1int,
{
    match v {
        SpecJson::Null => {},
        SpecJson::Bool(_) => {},
        SpecJson::Num(lex) => {
            lemma_valid_number_bytes(lex);
        },
        SpecJson::Str(c) => {
            lemma_escape_no_lf(c);
            lemma_no_lf_concat(seq![0x22u8], spec_escape(c));
            lemma_no_lf_concat(seq![0x22u8] + spec_escape(c), seq![0x22u8]);
        },
        SpecJson::Arr(items) => {
            lemma_encode_items_no_lf(items, 0);
            lemma_no_lf_concat(seq![0x5bu8], spec_encode_items(items, 0));
            lemma_no_lf_concat(seq![0x5bu8] + spec_encode_items(items, 0), seq![0x5du8]);
        },
        SpecJson::Obj(fields) => {
            lemma_encode_fields_no_lf(fields, 0);
            lemma_no_lf_concat(seq![0x7bu8], spec_encode_fields(fields, 0));
            lemma_no_lf_concat(seq![0x7bu8] + spec_encode_fields(fields, 0), seq![0x7du8]);
        },
    }
}

proof fn lemma_encode_items_no_lf(items: Seq<SpecJson>, i: int)
    requires
        forall|t: int| 0 <= t < items.len() ==> wf_json(#[trigger] items[t]),
    ensures
        no_lf(spec_encode_items(items, i)),
    decreases items, items.len() - i + 1int,
{
    if 0 <= i && i < items.len() {
        lemma_encode_no_lf(items[i]);
        lemma_encode_items_no_lf(items, i + 1);
        let sep: Seq<u8> = if i + 1 < items.len() {
            seq![0x2cu8]
        } else {
            Seq::<u8>::empty()
        };
        lemma_no_lf_concat(spec_encode_json(items[i]), sep);
        lemma_no_lf_concat(spec_encode_json(items[i]) + sep, spec_encode_items(items, i + 1));
    }
}

proof fn lemma_encode_fields_no_lf(fields: Seq<(Seq<u8>, SpecJson)>, i: int)
    requires
        forall|t: int| 0 <= t < fields.len() ==> wf_json(#[trigger] fields[t].1),
    ensures
        no_lf(spec_encode_fields(fields, i)),
    decreases fields, fields.len() - i + 1int,
{
    if 0 <= i && i < fields.len() {
        lemma_encode_no_lf(fields[i].1);
        lemma_encode_fields_no_lf(fields, i + 1);
        lemma_escape_no_lf(fields[i].0);
        let sep: Seq<u8> = if i + 1 < fields.len() {
            seq![0x2cu8]
        } else {
            Seq::<u8>::empty()
        };
        lemma_no_lf_concat(seq![0x22u8], spec_escape(fields[i].0));
        lemma_no_lf_concat(seq![0x22u8] + spec_escape(fields[i].0), seq![0x22u8, 0x3au8]);
        lemma_no_lf_concat(
            seq![0x22u8] + spec_escape(fields[i].0) + seq![0x22u8, 0x3au8],
            spec_encode_json(fields[i].1),
        );
        lemma_no_lf_concat(
            seq![0x22u8] + spec_escape(fields[i].0) + seq![0x22u8, 0x3au8] + spec_encode_json(
                fields[i].1,
            ),
            sep,
        );
        lemma_no_lf_concat(
            seq![0x22u8] + spec_escape(fields[i].0) + seq![0x22u8, 0x3au8] + spec_encode_json(
                fields[i].1,
            ) + sep,
            spec_encode_fields(fields, i + 1),
        );
    }
}

/// Round trip: parsing the encoding of a well-formed value yields the value.
pub proof fn lemma_parse_spec_encode(v: SpecJson)
    requires
        wf_json(v),
    ensures
        spec_parse_json(spec_encode_json(v)) == Some(v),
{
    let s = spec_encode_json(v);
    lemma_encode_first(v);
    lemma_skip_ws_at(s, 0);
    assert(s.subrange(0, s.len() as int) =~= s);
    lemma_parse_encoded_value(v, s, 0);
    lemma_skip_ws_at(s, s.len() as int);
}

} // verus!

verus! {

// ---------------------------------------------------------------------------
// Round trip of whole messages, framing included
// ---------------------------------------------------------------------------

/// The JSON object form of a well-formed message is itself well formed.
proof fn lemma_message_json_wf(m: SpecMessage)
    requires
        wf_message(m),
    ensures
        wf_json(spec_message_json(m)),
{
    match m {
        SpecMessage::Request(r) => {
            let fields = spec_message_json(m)->Obj_0;
            assert forall|i: int| 0 <= i < fields.len() implies wf_json(#[trigger] fields[i].1) by {
                if i == 0 {
                } else if i == 1 {
                } else if i == 2 {
                } else {
                    assert(fields[i].1 == r.params);
                }
            }
        },
        SpecMessage::Notification(n) => {
            let fields = spec_message_json(m)->Obj_0;
            assert forall|i: int| 0 <= i < fields.len() implies wf_json(#[trigger] fields[i].1) by {
                if i == 0 {
                } else if i == 1 {
                } else {
                    assert(fields[i].1 == n.params);
                }
            }
        },
    }
}

/// Scanning for a line feed over bytes that hold none ends exactly at the
/// boundary.
proof fn lemma_lf_end_exact(s: Seq<u8>, i: int, m: int)
    requires
        0 <= i <= m <= s.len(),
        forall|k: int| i <= k < m ==> #[trigger] s[k] != 0x0a,
        m == s.len() || s[m] == 0x0a,
    ensures
        spec_lf_end(s, i) == m,
    decreases m - i,
{
    if i < m {
        lemma_lf_end_exact(s, i + 1, m);
    }
}

/// Reading the literal object form of a message back yields the message.
proof fn lemma_message_from_own_json(m: SpecMessage)
    ensures
        spec_message_from_json(spec_message_json(m)) == Ok::<SpecMessage, SpecDecodeError>(m),
{
    let fields = spec_message_json(m)->Obj_0;
    match m {
        SpecMessage::Request(r) => {
            let f0 = (key_jsonrpc(), SpecJson::Str(val_two_zero()));
            let f1 = (key_id(), SpecJson::Str(r.id));
            let f2 = (key_method(), SpecJson::Str(r.method));
            let f3 = (key_params(), r.params);
            assert(fields == seq![f0, f1, f2, f3]);
            reveal_with_fuel(spec_obj_get, 6);
            assert(fields.drop_last() =~= seq![f0, f1, f2]);
            assert(seq![f0, f1, f2].drop_last() =~= seq![f0, f1]);
            assert(seq![f0, f1].drop_last() =~= seq![f0]);
            assert(seq![f0].drop_last() =~= Seq::<(Seq<u8>, SpecJson)>::empty());
            assert(key_params() != key_jsonrpc() && key_method() != key_jsonrpc() && key_id()
                != key_jsonrpc());
            assert(key_params()[0] != key_method()[0]);
            assert(key_params() != key_method());
            assert(key_params() != key_id() && key_method() != key_id());
            assert(spec_obj_get(fields, key_jsonrpc()) == Some(SpecJson::Str(val_two_zero())));
            assert(spec_obj_get(fields, key_method()) == Some(SpecJson::Str(r.method)));
            assert(spec_obj_get(fields, key_params()) == Some(r.params));
            assert(spec_obj_get(fields, key_id()) == Some(SpecJson::Str(r.id)));
            assert(spec_message_from_json(spec_message_json(m)) == Ok::<
                SpecMessage,
                SpecDecodeError,
            >(SpecMessage::Request(SpecRequest { id: r.id, method: r.method, params: r.params })));
            assert(SpecRequest { id: r.id, method: r.method, params: r.params } =~= r);
        },
        SpecMessage::Notification(n) => {
            let f0 = (key_jsonrpc(), SpecJson::Str(val_two_zero()));
            let f1 = (key_method(), SpecJson::Str(n.method));
            let f2 = (key_params(), n.params);
            assert(fields == seq![f0, f1, f2]);
            reveal_with_fuel(spec_obj_get, 6);
            assert(fields.drop_last() =~= seq![f0, f1]);
            assert(seq![f0, f1].drop_last() =~= seq![f0]);
            assert(seq![f0].drop_last() =~= Seq::<(Seq<u8>, SpecJson)>::empty());
            assert(key_params() != key_jsonrpc() && key_method() != key_jsonrpc());
            assert(key_params()[0] != key_method()[0]);
            assert(key_params() != key_method());
            assert(key_params() != key_id() && key_method() != key_id() && key_jsonrpc()
                != key_id());
            assert(spec_obj_get(fields, key_jsonrpc()) == Some(SpecJson::Str(val_two_zero())));
            assert(spec_obj_get(fields, key_method()) == Some(SpecJson::Str(n.method)));
            assert(spec_obj_get(fields, key_params()) == Some(n.params));
            assert(spec_obj_get(fields, key_id()) is None);
            assert(spec_message_from_json(spec_message_json(m)) == Ok::<
                SpecMessage,
                SpecDecodeError,
            >(SpecMessage::Notification(SpecNotification { method: n.method, params: n.params })));
            assert(SpecNotification { method: n.method, params: n.params } =~= n);
        },
    }
}

/// Round trip of a framed message: encoding a well-formed message and
/// terminating it with a line feed yields a stream of exactly one frame,
/// and that frame decodes back to the message itself.
pub proof fn lemma_message_round_trip(m: SpecMessage)
    requires
        wf_message(m),
    ensures
        spec_split_lines(spec_encode_message(m) + seq![0x0au8]).len() == 1,
        spec_decode_line(spec_split_lines(spec_encode_message(m) + seq![0x0au8])[0]) == Ok::<
            SpecMessage,
            SpecDecodeError,
        >(m),
{
    let enc = spec_encode_message(m);
    let s = enc + seq![0x0au8];
    lemma_message_json_wf(m);
    lemma_encode_no_lf(spec_message_json(m));
    assert(forall|k: int| 0 <= k < enc.len() ==> #[trigger] s[k] != 0x0a);
    assert(s[enc.len() as int] == 0x0a);
    lemma_lf_end_exact(s, 0, enc.len() as int);
    assert(s.subrange(0, enc.len() as int) =~= enc);
    let lines = spec_split_lines(s);
    assert(spec_lines_from(s, enc.len() as int + 1) =~= Seq::<Seq<u8>>::empty());
    assert(lines =~= seq![enc]);
    lemma_parse_spec_encode(spec_message_json(m));
    assert(spec_parse_json(enc) == Some(spec_message_json(m)));
    lemma_message_from_own_json(m);
}

} // verus!

