//! Verified JSON parser.
//!
//! The grammar is defined by the `spec_parse_*` functions; the executable
//! parser is proved to return exactly what they describe. Positions are byte
//! indices into the input; every parse result carries the index just past the
//! consumed text.

use vstd::prelude::*;

use crate::json::{
    is_digit, is_num_byte, is_ws, spec_valid_number, spec_digits_end, JsonValue, SpecJson,
    view_json_seq, view_json_fields,
};

verus! {

broadcast use vstd::seq::group_seq_axioms, vstd::std_specs::vec::group_vec_axioms;

// ---------------------------------------------------------------------------
// Spec-level grammar
// ---------------------------------------------------------------------------

/// First index at or after `i` holding a non-whitespace byte.
pub open spec fn spec_skip_ws(s: Seq<u8>, i: int) -> int
    decreases s.len() - i,
{
    if 0 <= i && i < s.len() && is_ws(s[i]) {
        spec_skip_ws(s, i + 1)
    } else {
        i
    }
}

/// Value of one hex digit byte.
pub open spec fn spec_hex_val(b: u8) -> Option<u32> {
    if 0x30 <= b && b <= 0x39 {
        Some((b - 0x30) as u32)
    } else if 0x61 <= b && b <= 0x66 {
        Some((b - 0x61 + 10) as u32)
    } else if 0x41 <= b && b <= 0x46 {
        Some((b - 0x41 + 10) as u32)
    } else {
        None
    }
}

/// Value of the four hex digits at `i..i+4`; `i+4 <= s.len()` must hold.
pub open spec fn spec_hex4(s: Seq<u8>, i: int) -> Option<u32> {
    match (spec_hex_val(s[i]), spec_hex_val(s[i + 1]), spec_hex_val(s[i + 2]), spec_hex_val(
        s[i + 3],
    )) {
        (Some(a), Some(b), Some(c), Some(d)) => Some(
            (a * 0x1000 + b * 0x100 + c * 0x10 + d) as u32,
        ),
        _ => None,
    }
}

/// UTF-8 encoding of a scalar value below 0x110000.
pub open spec fn spec_utf8_bytes(cp: u32) -> Seq<u8> {
    if cp < 0x80 {
        seq![cp as u8]
    } else if cp < 0x800 {
        seq![(0xc0 + cp / 0x40) as u8, (0x80 + cp % 0x40) as u8]
    } else if cp < 0x10000 {
        seq![
            (0xe0 + cp / 0x1000) as u8,
            (0x80 + (cp / 0x40) % 0x40) as u8,
            (0x80 + cp % 0x40) as u8,
        ]
    } else {
        seq![
            (0xf0 + cp / 0x40000) as u8,
            (0x80 + (cp / 0x1000) % 0x40) as u8,
            (0x80 + (cp / 0x40) % 0x40) as u8,
            (0x80 + cp % 0x40) as u8,
        ]
    }
}

/// Parse string contents starting just after the opening quote; yields the
/// decoded bytes and the index just past the closing quote.
pub open spec fn spec_parse_str_rest(s: Seq<u8>, i: int) -> Option<(Seq<u8>, int)>
    decreases s.len() - i,
{
    if !(0 <= i && i < s.len()) {
        None
    } else if s[i] == 0x22 {
        Some((Seq::empty(), i + 1))
    } else if s[i] == 0x5c {
        if i + 2 <= s.len() {
            let e = s[i + 1];
            if e == 0x22 || e == 0x5c || e == 0x2f {
                match spec_parse_str_rest(s, i + 2) {
                    Some((c, j)) => Some((seq![e] + c, j)),
                    None => None,
                }
            } else if e == 0x62 || e == 0x66 || e == 0x6e || e == 0x72 || e == 0x74 {
                let d: u8 = if e == 0x62 {
                    0x08
                } else if e == 0x66 {
                    0x0c
                } else if e == 0x6e {
                    0x0a
                } else if e == 0x72 {
                    0x0d
                } else {
                    0x09
                };
                match spec_parse_str_rest(s, i + 2) {
                    Some((c, j)) => Some((seq![d] + c, j)),
                    None => None,
                }
            } else if e == 0x75 {
                if i + 6 <= s.len() {
                    match spec_hex4(s, i + 2) {
                        Some(cp) => if cp < 0xd800 || cp > 0xdfff {
                            match spec_parse_str_rest(s, i + 6) {
                                Some((c, j)) => Some((spec_utf8_bytes(cp) + c, j)),
                                None => None,
                            }
                        } else if cp < 0xdc00 {
                            // high surrogate: a low surrogate escape must follow
                            if i + 12 <= s.len() && s[i + 6] == 0x5c && s[i + 7] == 0x75 {
                                match spec_hex4(s, i + 8) {
                                    Some(lo) => if 0xdc00 <= lo && lo <= 0xdfff {
                                        let cp2 = (0x10000 + (cp - 0xd800) * 0x400 + (lo
                                            - 0xdc00)) as u32;
                                        match spec_parse_str_rest(s, i + 12) {
                                            Some((c, j)) => Some((spec_utf8_bytes(cp2) + c, j)),
                                            None => None,
                                        }
                                    } else {
                                        None
                                    },
                                    None => None,
                                }
                            } else {
                                None
                            }
                        } else {
                            None
                        },
                        None => None,
                    }
                } else {
                    None
                }
            } else {
                None
            }
        } else {
            None
        }
    } else if s[i] < 0x20 {
        None
    } else {
        match spec_parse_str_rest(s, i + 1) {
            Some((c, j)) => Some((seq![s[i]] + c, j)),
            None => None,
        }
    }
}

/// End of the run of number-lexeme bytes starting at `i`.
pub open spec fn spec_num_end(s: Seq<u8>, i: int) -> int
    decreases s.len() - i,
{
    if 0 <= i && i < s.len() && is_num_byte(s[i]) {
        spec_num_end(s, i + 1)
    } else {
        i
    }
}

/// Parse one JSON value starting exactly at `i` (no leading whitespace).
pub open spec fn spec_parse_value(s: Seq<u8>, i: int) -> Option<(SpecJson, int)>
    decreases s.len() - i, 0int,
{
    if !(0 <= i && i < s.len()) {
        None
    } else if s[i] == 0x7b {
        spec_parse_obj_body(s, i + 1)
    } else if s[i] == 0x5b {
        spec_parse_arr_body(s, i + 1)
    } else if s[i] == 0x22 {
        match spec_parse_str_rest(s, i + 1) {
            Some((c, j)) => Some((SpecJson::Str(c), j)),
            None => None,
        }
    } else if s[i] == 0x6e {
        if i + 4 <= s.len() && s[i + 1] == 0x75 && s[i + 2] == 0x6c && s[i + 3] == 0x6c {
            Some((SpecJson::Null, i + 4))
        } else {
            None
        }
    } else if s[i] == 0x74 {
        if i + 4 <= s.len() && s[i + 1] == 0x72 && s[i + 2] == 0x75 && s[i + 3] == 0x65 {
            Some((SpecJson::Bool(true), i + 4))
        } else {
            None
        }
    } else if s[i] == 0x66 {
        if i + 5 <= s.len() && s[i + 1] == 0x61 && s[i + 2] == 0x6c && s[i + 3] == 0x73 && s[i + 4]
            == 0x65 {
            Some((SpecJson::Bool(false), i + 5))
        } else {
            None
        }
    } else if s[i] == 0x2d || is_digit(s[i]) {
        let j = spec_num_end(s, i);
        if spec_valid_number(s.subrange(i, j)) {
            Some((SpecJson::Num(s.subrange(i, j)), j))
        } else {
            None
        }
    } else {
        None
    }
}

/// Parse an array body starting just after `[`.
pub open spec fn spec_parse_arr_body(s: Seq<u8>, i: int) -> Option<(SpecJson, int)>
    decreases s.len() - i, 1int,
{
    let j = spec_skip_ws(s, i);
    if !(i <= j && j < s.len()) {
        None
    } else if s[j] == 0x5d {
        Some((SpecJson::Arr(Seq::empty()), j + 1))
    } else {
        match spec_parse_value(s, j) {
            Some((v, e)) => if j < e && e <= s.len() {
                spec_parse_arr_more(s, e, seq![v])
            } else {
                None
            },
            None => None,
        }
    }
}

/// Parse the continuation of an array, starting just after a parsed element.
pub open spec fn spec_parse_arr_more(s: Seq<u8>, i: int, acc: Seq<SpecJson>) -> Option<
    (SpecJson, int),
>
    decreases s.len() - i, 2int,
{
    let j = spec_skip_ws(s, i);
    if !(i <= j && j < s.len()) {
        None
    } else if s[j] == 0x5d {
        Some((SpecJson::Arr(acc), j + 1))
    } else if s[j] == 0x2c {
        let k = spec_skip_ws(s, j + 1);
        if j + 1 <= k && k < s.len() {
            match spec_parse_value(s, k) {
                Some((v, e)) => if k < e && e <= s.len() {
                    spec_parse_arr_more(s, e, acc.push(v))
                } else {
                    None
                },
                None => None,
            }
        } else {
            None
        }
    } else {
        None
    }
}

/// Parse one `"key" : value` member starting at the opening quote index `j`.
/// Yields the key, the value and the index just past the value.
pub open spec fn spec_parse_member(s: Seq<u8>, j: int) -> Option<((Seq<u8>, SpecJson), int)>
    decreases s.len() - j, 0int,
{
    if !(0 <= j && j < s.len() && s[j] == 0x22) {
        None
    } else {
        match spec_parse_str_rest(s, j + 1) {
            Some((key, k)) => if j + 1 < k {
                let c = spec_skip_ws(s, k);
                if k <= c && c < s.len() && s[c] == 0x3a {
                    let m = spec_skip_ws(s, c + 1);
                    if c + 1 <= m && m < s.len() {
                        match spec_parse_value(s, m) {
                            Some((v, e)) => Some(((key, v), e)),
                            None => None,
                        }
                    } else {
                        None
                    }
                } else {
                    None
                }
            } else {
                None
            },
            None => None,
        }
    }
}

/// Parse an object body starting just after `{`.
pub open spec fn spec_parse_obj_body(s: Seq<u8>, i: int) -> Option<(SpecJson, int)>
    decreases s.len() - i, 1int,
{
    let j = spec_skip_ws(s, i);
    if !(i <= j && j < s.len()) {
        None
    } else if s[j] == 0x7d {
        Some((SpecJson::Obj(Seq::empty()), j + 1))
    } else {
        match spec_parse_member(s, j) {
            Some((kv, e)) => if j < e && e <= s.len() {
                spec_parse_obj_more(s, e, seq![kv])
            } else {
                None
            },
            None => None,
        }
    }
}

/// Parse the continuation of an object, starting just after a parsed member.
pub open spec fn spec_parse_obj_more(s: Seq<u8>, i: int, acc: Seq<(Seq<u8>, SpecJson)>) -> Option<
    (SpecJson, int),
>
    decreases s.len() - i, 2int,
{
    let j = spec_skip_ws(s, i);
    if !(i <= j && j < s.len()) {
        None
    } else if s[j] == 0x7d {
        Some((SpecJson::Obj(acc), j + 1))
    } else if s[j] == 0x2c {
        let k = spec_skip_ws(s, j + 1);
        if j + 1 <= k && k < s.len() {
            match spec_parse_member(s, k) {
                Some((kv, e)) => if k < e && e <= s.len() {
                    spec_parse_obj_more(s, e, acc.push(kv))
                } else {
                    None
                },
                None => None,
            }
        } else {
            None
        }
    } else {
        None
    }
}

/// Parse a whole text: one value, with whitespace allowed on both sides.
pub open spec fn spec_parse_json(s: Seq<u8>) -> Option<SpecJson> {
    let i = spec_skip_ws(s, 0);
    match spec_parse_value(s, i) {
        Some((v, e)) => if spec_skip_ws(s, e) == s.len() {
            Some(v)
        } else {
            None
        },
        None => None,
    }
}

// ---------------------------------------------------------------------------
// View helpers
// ---------------------------------------------------------------------------

pub proof fn lemma_view_seq_push(items: Seq<JsonValue>, v: JsonValue)
    ensures
        view_json_seq(items.push(v)) == view_json_seq(items).push(v@),
{
    assert(view_json_seq(items.push(v)) =~= view_json_seq(items).push(v@));
}

pub proof fn lemma_view_fields_push(fields: Seq<(Vec<u8>, JsonValue)>, kv: (Vec<u8>, JsonValue))
    ensures
        view_json_fields(fields.push(kv)) == view_json_fields(fields).push((kv.0@, kv.1@)),
{
    assert(view_json_fields(fields.push(kv)) =~= view_json_fields(fields).push((kv.0@, kv.1@)));
}

// ---------------------------------------------------------------------------
// Exec scanning helpers
// ---------------------------------------------------------------------------

/// Skip whitespace from `i`.
pub fn skip_ws(s: &Vec<u8>, i: usize) -> (r: usize)
    requires
        i <= s@.len(),
    ensures
        r as int == spec_skip_ws(s@, i as int),
        i <= r <= s@.len(),
{
    let mut j = i;
    while j < s.len() && (s[j] == 0x20 || s[j] == 0x09 || s[j] == 0x0a || s[j] == 0x0d)
        invariant
            i <= j <= s@.len(),
            spec_skip_ws(s@, i as int) == spec_skip_ws(s@, j as int),
        decreases s@.len() - j,
    {
        j = j + 1;
    }
    j
}

/// End of the run of number-lexeme bytes starting at `i`.
fn num_end(s: &Vec<u8>, i: usize) -> (r: usize)
    requires
        i <= s@.len(),
    ensures
        r as int == spec_num_end(s@, i as int),
        i <= r <= s@.len(),
{
    let mut j = i;
    while j < s.len() && (
        (0x30 <= s[j] && s[j] <= 0x39)
        || s[j] == 0x2d || s[j] == 0x2b || s[j] == 0x2e || s[j] == 0x65 || s[j] == 0x45
    )
        invariant
            i <= j <= s@.len(),
            spec_num_end(s@, i as int) == spec_num_end(s@, j as int),
        decreases s@.len() - j,
    {
        j = j + 1;
    }
    j
}

/// End of the run of digits starting at `i`.
fn digits_end(s: &Vec<u8>, i: usize) -> (r: usize)
    requires
        i <= s@.len(),
    ensures
        r as int == spec_digits_end(s@, i as int),
        i <= r <= s@.len(),
{
    let mut j = i;
    while j < s.len() && 0x30 <= s[j] && s[j] <= 0x39
        invariant
            i <= j <= s@.len(),
            spec_digits_end(s@, i as int) == spec_digits_end(s@, j as int),
        decreases s@.len() - j,
    {
        j = j + 1;
    }
    j
}

/// Copy `s[from..to]` out.
pub fn copy_range(s: &Vec<u8>, from: usize, to: usize) -> (r: Vec<u8>)
    requires
        from <= to <= s@.len(),
    ensures
        r@ == s@.subrange(from as int, to as int),
{
    let mut out: Vec<u8> = Vec::new();
    let mut k = from;
    while k < to
        invariant
            from <= k <= to <= s@.len(),
            out@ == s@.subrange(from as int, k as int),
        decreases to - k,
    {
        out.push(s[k]);
        proof {
            assert(out@ =~= s@.subrange(from as int, k as int + 1));
        }
        k = k + 1;
    }
    out
}

/// Check that `lex` is a valid JSON number lexeme.
pub fn valid_number(lex: &Vec<u8>) -> (r: bool)
    ensures
        r == spec_valid_number(lex@),
{
    let n = lex.len();
    let i0: usize = if n > 0 && lex[0] == 0x2d {
        1
    } else {
        0
    };
    if i0 >= n {
        return false;
    }
    if !(0x30 <= lex[i0] && lex[i0] <= 0x39) {
        return false;
    }
    let i1: usize = if lex[i0] == 0x30 {
        i0 + 1
    } else {
        digits_end(lex, i0)
    };
    let i2: usize = if i1 < n && lex[i1] == 0x2e {
        let d = digits_end(lex, i1 + 1);
        if d > i1 + 1 {
            d
        } else {
            return false;
        }
    } else {
        i1
    };
    if i2 < n && (lex[i2] == 0x65 || lex[i2] == 0x45) {
        let j: usize = if i2 + 1 < n && (lex[i2 + 1] == 0x2b || lex[i2 + 1] == 0x2d) {
            i2 + 2
        } else {
            i2 + 1
        };
        if j >= n {
            return false;
        }
        let d = digits_end(lex, j);
        d > j && d == n
    } else {
        i2 == n
    }
}

/// Value of one hex digit byte.
fn hex_val(b: u8) -> (r: Option<u32>)
    ensures
        r == spec_hex_val(b),
{
    if 0x30 <= b && b <= 0x39 {
        Some((b - 0x30) as u32)
    } else if 0x61 <= b && b <= 0x66 {
        Some((b - 0x61 + 10) as u32)
    } else if 0x41 <= b && b <= 0x46 {
        Some((b - 0x41 + 10) as u32)
    } else {
        None
    }
}

/// Value of the four hex digits at `i..i+4`.
fn hex4(s: &Vec<u8>, i: usize) -> (r: Option<u32>)
    requires
        i + 4 <= s@.len(),
    ensures
        r == spec_hex4(s@, i as int),
{
    let n = s.len();
    proof {
        assert(i + 4 <= n);
    }
    let a = hex_val(s[i]);
    let b = hex_val(s[i + 1]);
    let c = hex_val(s[i + 2]);
    let d = hex_val(s[i + 3]);
    match (a, b, c, d) {
        (Some(a), Some(b), Some(c), Some(d)) => Some(a * 0x1000 + b * 0x100 + c * 0x10 + d),
        _ => None,
    }
}

/// Append the UTF-8 encoding of a scalar value.
fn utf8_push(cp: u32, out: &mut Vec<u8>)
    ensures
        final(out)@ == old(out)@ + spec_utf8_bytes(cp),
{
    if cp < 0x80 {
        out.push(cp as u8);
    } else if cp < 0x800 {
        out.push((0xc0 + cp / 0x40) as u8);
        out.push((0x80 + cp % 0x40) as u8);
    } else if cp < 0x10000 {
        out.push((0xe0 + cp / 0x1000) as u8);
        out.push((0x80 + (cp / 0x40) % 0x40) as u8);
        out.push((0x80 + cp % 0x40) as u8);
    } else {
        out.push((0xf0 + cp / 0x40000) as u8);
        out.push((0x80 + (cp / 0x1000) % 0x40) as u8);
        out.push((0x80 + (cp / 0x40) % 0x40) as u8);
        out.push((0x80 + cp % 0x40) as u8);
    }
    assert(final(out)@ =~= old(out)@ + spec_utf8_bytes(cp));
}

// ---------------------------------------------------------------------------
// Exec string contents
// ---------------------------------------------------------------------------

/// The parse from `i` continues the parse from `i0` with `acc` already read.
pub open spec fn str_continues(s: Seq<u8>, i0: int, i: int, acc: Seq<u8>) -> bool {
    match spec_parse_str_rest(s, i) {
        Some((c, j)) => spec_parse_str_rest(s, i0) == Some::<(Seq<u8>, int)>((acc + c, j)),
        None => spec_parse_str_rest(s, i0) is None,
    }
}

/// Parse string contents starting just after the opening quote.
fn parse_str_rest(s: &Vec<u8>, start: usize) -> (r: Option<(Vec<u8>, usize)>)
    requires
        start <= s@.len(),
    ensures
        match spec_parse_str_rest(s@, start as int) {
            Some(p) => r matches Some(q) && q.0@ == p.0 && q.1 as int == p.1 && start < q.1
                <= s@.len(),
            None => r is None,
        },
{
    let mut acc: Vec<u8> = Vec::new();
    let mut i: usize = start;
    loop
        invariant
            start <= i <= s@.len(),
            str_continues(s@, start as int, i as int, acc@),
        decreases s@.len() - i,
    {
        if i >= s.len() {
            return None;
        }
        let b = s[i];
        if b == 0x22 {
            proof {
                assert(acc@ + Seq::<u8>::empty() =~= acc@);
            }
            return Some((acc, i + 1));
        } else if b == 0x5c {
            if s.len() - i < 2 {
                return None;
            }
            let e = s[i + 1];
            if e == 0x22 || e == 0x5c || e == 0x2f {
                let ghost pre = acc@;
                acc.push(e);
                proof {
                    lemma_continue_step(s@, start as int, i as int, i + 2, pre, seq![e]);
                    assert(pre + seq![e] =~= acc@);
                }
                i = i + 2;
            } else if e == 0x62 || e == 0x66 || e == 0x6e || e == 0x72 || e == 0x74 {
                let d: u8 = if e == 0x62 {
                    0x08
                } else if e == 0x66 {
                    0x0c
                } else if e == 0x6e {
                    0x0a
                } else if e == 0x72 {
                    0x0d
                } else {
                    0x09
                };
                let ghost pre = acc@;
                acc.push(d);
                proof {
                    lemma_continue_step(s@, start as int, i as int, i + 2, pre, seq![d]);
                    assert(pre + seq![d] =~= acc@);
                }
                i = i + 2;
            } else if e == 0x75 {
                if s.len() - i < 6 {
                    return None;
                }
                let cp = match hex4(s, i + 2) {
                    Some(cp) => cp,
                    None => {
                        return None;
                    },
                };
                if cp < 0xd800 || cp > 0xdfff {
                    let ghost pre = acc@;
                    utf8_push(cp, &mut acc);
                    proof {
                        lemma_continue_step(
                            s@,
                            start as int,
                            i as int,
                            i + 6,
                            pre,
                            spec_utf8_bytes(cp),
                        );
                    }
                    i = i + 6;
                } else if cp < 0xdc00 {
                    if s.len() - i < 12 || s[i + 6] != 0x5c || s[i + 7] != 0x75 {
                        return None;
                    }
                    let lo = match hex4(s, i + 8) {
                        Some(lo) => lo,
                        None => {
                            return None;
                        },
                    };
                    if !(0xdc00 <= lo && lo <= 0xdfff) {
                        return None;
                    }
                    let cp2 = 0x10000 + (cp - 0xd800) * 0x400 + (lo - 0xdc00);
                    let ghost pre = acc@;
                    utf8_push(cp2, &mut acc);
                    proof {
                        lemma_continue_step(
                            s@,
                            start as int,
                            i as int,
                            i + 12,
                            pre,
                            spec_utf8_bytes(cp2),
                        );
                    }
                    i = i + 12;
                } else {
                    return None;
                }
            } else {
                return None;
            }
        } else if b < 0x20 {
            return None;
        } else {
            let ghost pre = acc@;
            acc.push(b);
            proof {
                lemma_continue_step(s@, start as int, i as int, i + 1, pre, seq![b]);
                assert(pre + seq![b] =~= acc@);
            }
            i = i + 1;
        }
    }
}

/// One unfolding step of the string grammar keeps the continuation relation.
proof fn lemma_continue_step(s: Seq<u8>, i0: int, i: int, next: int, acc: Seq<u8>, piece: Seq<u8>)
    requires
        str_continues(s, i0, i, acc),
        spec_parse_str_rest(s, i) == match spec_parse_str_rest(s, next) {
            Some((c, j)) => Some::<(Seq<u8>, int)>((piece + c, j)),
            None => None::<(Seq<u8>, int)>,
        },
    ensures
        str_continues(s, i0, next, acc + piece),
{
    match spec_parse_str_rest(s, next) {
        Some((c, j)) => {
            assert(acc + (piece + c) =~= (acc + piece) + c);
        },
        None => {},
    }
}

// ---------------------------------------------------------------------------
// Exec values
// ---------------------------------------------------------------------------

/// Parse one JSON value starting exactly at `i`.
pub fn parse_value(s: &Vec<u8>, i: usize) -> (r: Option<(JsonValue, usize)>)
    requires
        i <= s@.len(),
    ensures
        match spec_parse_value(s@, i as int) {
            Some(p) => r matches Some(q) && q.0@ == p.0 && q.1 as int == p.1 && i < q.1
                <= s@.len(),
            None => r is None,
        },
    decreases s@.len() - i, 0int,
{
    if i >= s.len() {
        return None;
    }
    let b = s[i];
    if b == 0x7b {
        parse_obj_body(s, i + 1)
    } else if b == 0x5b {
        parse_arr_body(s, i + 1)
    } else if b == 0x22 {
        match parse_str_rest(s, i + 1) {
            Some((c, j)) => Some((JsonValue::Str(c), j)),
            None => None,
        }
    } else if b == 0x6e {
        if s.len() - i >= 4 && s[i + 1] == 0x75 && s[i + 2] == 0x6c && s[i + 3] == 0x6c {
            Some((JsonValue::Null, i + 4))
        } else {
            None
        }
    } else if b == 0x74 {
        if s.len() - i >= 4 && s[i + 1] == 0x72 && s[i + 2] == 0x75 && s[i + 3] == 0x65 {
            Some((JsonValue::Bool(true), i + 4))
        } else {
            None
        }
    } else if b == 0x66 {
        if s.len() - i >= 5 && s[i + 1] == 0x61 && s[i + 2] == 0x6c && s[i + 3] == 0x73 && s[i + 4]
            == 0x65 {
            Some((JsonValue::Bool(false), i + 5))
        } else {
            None
        }
    } else if b == 0x2d || (0x30 <= b && b <= 0x39) {
        let j = num_end(s, i);
        let lex = copy_range(s, i, j);
        if valid_number(&lex) {
            Some((JsonValue::Num(lex), j))
        } else {
            None
        }
    } else {
        None
    }
}

/// Parse an array body starting just after `[`.
fn parse_arr_body(s: &Vec<u8>, i: usize) -> (r: Option<(JsonValue, usize)>)
    requires
        i <= s@.len(),
    ensures
        match spec_parse_arr_body(s@, i as int) {
            Some(p) => r matches Some(q) && q.0@ == p.0 && q.1 as int == p.1 && i < q.1
                <= s@.len(),
            None => r is None,
        },
    decreases s@.len() - i, 1int,
{
    let j = skip_ws(s, i);
    if j >= s.len() {
        return None;
    }
    if s[j] == 0x5d {
        let items: Vec<JsonValue> = Vec::new();
        proof {
            assert(view_json_seq(items@) =~= Seq::<SpecJson>::empty());
        }
        return Some((JsonValue::Arr(items), j + 1));
    }
    match parse_value(s, j) {
        Some((v, e)) => {
            let mut items: Vec<JsonValue> = Vec::new();
            let ghost sv = v@;
            items.push(v);
            proof {
                assert(view_json_seq(items@) =~= seq![sv]);
            }
            parse_arr_more(s, e, items)
        },
        None => None,
    }
}

/// Parse the continuation of an array, starting just after a parsed element.
fn parse_arr_more(s: &Vec<u8>, i: usize, acc: Vec<JsonValue>) -> (r: Option<(JsonValue, usize)>)
    requires
        i <= s@.len(),
    ensures
        match spec_parse_arr_more(s@, i as int, view_json_seq(acc@)) {
            Some(p) => r matches Some(q) && q.0@ == p.0 && q.1 as int == p.1 && i < q.1
                <= s@.len(),
            None => r is None,
        },
    decreases s@.len() - i, 2int,
{
    let j = skip_ws(s, i);
    if j >= s.len() {
        return None;
    }
    if s[j] == 0x5d {
        return Some((JsonValue::Arr(acc), j + 1));
    }
    if s[j] == 0x2c {
        let k = skip_ws(s, j + 1);
        if k >= s.len() {
            return None;
        }
        match parse_value(s, k) {
            Some((v, e)) => {
                let mut acc2 = acc;
                let ghost pre = acc2@;
                let ghost sv = v@;
                acc2.push(v);
                proof {
                    lemma_view_seq_push(pre, acc2@[pre.len() as int]);
                    assert(view_json_seq(acc2@) == view_json_seq(pre).push(sv));
                }
                parse_arr_more(s, e, acc2)
            },
            None => None,
        }
    } else {
        None
    }
}

/// Parse one `"key" : value` member starting at the opening quote index `j`.
fn parse_member(s: &Vec<u8>, j: usize) -> (r: Option<((Vec<u8>, JsonValue), usize)>)
    requires
        j <= s@.len(),
    ensures
        match spec_parse_member(s@, j as int) {
            Some(p) => r matches Some(q) && q.0.0@ == p.0.0 && q.0.1@ == p.0.1 && q.1 as int
                == p.1 && j < q.1 <= s@.len(),
            None => r is None,
        },
    decreases s@.len() - j, 0int,
{
    if j >= s.len() || s[j] != 0x22 {
        return None;
    }
    match parse_str_rest(s, j + 1) {
        Some((key, k)) => {
            let c = skip_ws(s, k);
            if c >= s.len() {
                return None;
            }
            if s[c] != 0x3a {
                return None;
            }
            let m = skip_ws(s, c + 1);
            if m >= s.len() {
                return None;
            }
            match parse_value(s, m) {
                Some((v, e)) => Some(((key, v), e)),
                None => None,
            }
        },
        None => None,
    }
}

/// Parse an object body starting just after `{`.
fn parse_obj_body(s: &Vec<u8>, i: usize) -> (r: Option<(JsonValue, usize)>)
    requires
        i <= s@.len(),
    ensures
        match spec_parse_obj_body(s@, i as int) {
            Some(p) => r matches Some(q) && q.0@ == p.0 && q.1 as int == p.1 && i < q.1
                <= s@.len(),
            None => r is None,
        },
    decreases s@.len() - i, 1int,
{
    let j = skip_ws(s, i);
    if j >= s.len() {
        return None;
    }
    if s[j] == 0x7d {
        let fields: Vec<(Vec<u8>, JsonValue)> = Vec::new();
        proof {
            assert(view_json_fields(fields@) =~= Seq::<(Seq<u8>, SpecJson)>::empty());
        }
        return Some((JsonValue::Obj(fields), j + 1));
    }
    match parse_member(s, j) {
        Some((kv, e)) => {
            let mut fields: Vec<(Vec<u8>, JsonValue)> = Vec::new();
            let ghost sk = kv.0@;
            let ghost sv = kv.1@;
            fields.push(kv);
            proof {
                assert(view_json_fields(fields@) =~= seq![(sk, sv)]);
            }
            parse_obj_more(s, e, fields)
        },
        None => None,
    }
}

/// Parse the continuation of an object, starting just after a parsed member.
fn parse_obj_more(s: &Vec<u8>, i: usize, acc: Vec<(Vec<u8>, JsonValue)>) -> (r: Option<
    (JsonValue, usize),
>)
    requires
        i <= s@.len(),
    ensures
        match spec_parse_obj_more(s@, i as int, view_json_fields(acc@)) {
            Some(p) => r matches Some(q) && q.0@ == p.0 && q.1 as int == p.1 && i < q.1
                <= s@.len(),
            None => r is None,
        },
    decreases s@.len() - i, 2int,
{
    let j = skip_ws(s, i);
    if j >= s.len() {
        return None;
    }
    if s[j] == 0x7d {
        return Some((JsonValue::Obj(acc), j + 1));
    }
    if s[j] == 0x2c {
        let k = skip_ws(s, j + 1);
        if k >= s.len() {
            return None;
        }
        match parse_member(s, k) {
            Some((kv, e)) => {
                let mut acc2 = acc;
                let ghost pre = acc2@;
                let ghost sk = kv.0@;
                let ghost sv = kv.1@;
                acc2.push(kv);
                proof {
                    lemma_view_fields_push(pre, acc2@[pre.len() as int]);
                    assert(view_json_fields(acc2@) == view_json_fields(pre).push((sk, sv)));
                }
                parse_obj_more(s, e, acc2)
            },
            None => None,
        }
    } else {
        None
    }
}

/// Parse a whole text: one value, with whitespace allowed on both sides.
pub fn parse_json(s: &Vec<u8>) -> (r: Option<JsonValue>)
    ensures
        match spec_parse_json(s@) {
            Some(sv) => r matches Some(v) && v@ == sv,
            None => r is None,
        },
{
    let i = skip_ws(s, 0);
    match parse_value(s, i) {
        Some((v, e)) => {
            let t = skip_ws(s, e);
            if t == s.len() {
                Some(v)
            } else {
                None
            }
        },
        None => None,
    }
}

} // verus!
