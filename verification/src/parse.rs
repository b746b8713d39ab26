//! The executable deserializer. Each function mirrors one spec function of
//! `decode` and is proved to return exactly its value.

use vstd::prelude::*;
use crate::chars::{is_ws, is_digit, is_hex, hex_val, digit_val, char_from_u32, chars_to_string, eq_chars_str, lemma_char_of_code};
use crate::numbers::{parse_digits, parse_int};
use crate::decode::{
    skip_ws, parse_string_body, parse_scalar, parse_headers_items, parse_headers_obj,
    parse_data_items, parse_data_obj, parse_top_items, parse_doc, upsert, data_update,
    empty_doc, is_text_key, set_text_key, is_data_key, lit_null, lit_true, lit_false,
    parse_u_escape, digits_end, skip_frac, skip_exp, skip_number, skip_value, skip_obj_tail, skip_members, skip_arr_tail,
    skip_arr_items, ScalarVal, PartialDoc,
};
use crate::descriptor::{
    BodyPayload, RequestDescriptor, RelayError, headers_view, opt_str_view,
};

verus! {

fn is_ws_exec(c: char) -> (r: bool)
    ensures
        r == is_ws(c),
{
    c == ' ' || c == '\t' || c == '\n' || c == '\r'
}

fn is_digit_exec(c: char) -> (r: bool)
    ensures
        r == is_digit(c),
{
    '0' <= c && c <= '9'
}

fn is_hex_exec(c: char) -> (r: bool)
    ensures
        r == is_hex(c),
{
    ('0' <= c && c <= '9') || ('a' <= c && c <= 'f') || ('A' <= c && c <= 'F')
}

fn digit_val_exec(c: char) -> (r: u64)
    requires
        is_digit(c),
    ensures
        r as nat == digit_val(c),
        r <= 9,
{
    (c as u32 - '0' as u32) as u64
}

fn hex_val_exec(c: char) -> (r: u32)
    requires
        is_hex(c),
    ensures
        r as nat == hex_val(c),
        r <= 15,
{
    if '0' <= c && c <= '9' {
        c as u32 - '0' as u32
    } else if 'a' <= c && c <= 'f' {
        c as u32 - 'a' as u32 + 10
    } else {
        c as u32 - 'A' as u32 + 10
    }
}

/// First non-whitespace position at or after `i`.
fn ws_end(s: &Vec<char>, i: usize) -> (r: usize)
    requires
        i <= s@.len(),
    ensures
        r as int == skip_ws(s@, i as int),
        i <= r <= s@.len(),
{
    let mut j = i;
    while j < s.len() && is_ws_exec(s[j])
        invariant
            i <= j <= s@.len(),
            skip_ws(s@, i as int) == skip_ws(s@, j as int),
        decreases s@.len() - j,
    {
        j = j + 1;
    }
    j
}

/// The four hex digits of a `\uXXXX` escape, read just after the `\u`.
fn p_u_escape(s: &Vec<char>, i: usize) -> (r: Option<(char, usize)>)
    requires
        i <= s@.len(),
    ensures
        ({
            let sp = parse_u_escape(s@, i as int);
            &&& (r matches Some(p) ==> sp == Some((p.0, p.1 as int)) && i + 2 <= p.1 <= s@.len())
            &&& (r is None ==> sp is None)
        }),
{
    if !(s.len() - i > 3 && is_hex_exec(s[i]) && is_hex_exec(s[i + 1]) && is_hex_exec(s[i + 2])
        && is_hex_exec(s[i + 3])) {
        return None;
    }
    let v = hex_val_exec(s[i]) * 4096 + hex_val_exec(s[i + 1]) * 256 + hex_val_exec(s[i + 2]) * 16
        + hex_val_exec(s[i + 3]);
    if 0xD800 <= v && v < 0xDC00 {
        if s.len() - i > 9 && s[i + 4] == '\\' && s[i + 5] == 'u' && is_hex_exec(s[i + 6])
            && is_hex_exec(s[i + 7]) && is_hex_exec(s[i + 8]) && is_hex_exec(s[i + 9]) {
            let w = hex_val_exec(s[i + 6]) * 4096 + hex_val_exec(s[i + 7]) * 256 + hex_val_exec(
                s[i + 8],
            ) * 16 + hex_val_exec(s[i + 9]);
            if 0xDC00 <= w && w < 0xE000 {
                let cp = 0x10000 + (v - 0xD800) * 0x400 + (w - 0xDC00);
                match char_from_u32(cp) {
                    Some(c) => {
                        proof {
                            lemma_char_of_code(c);
                        }
                        Some((c, i + 10))
                    },
                    None => None,
                }
            } else {
                None
            }
        } else {
            None
        }
    } else if 0xDC00 <= v && v < 0xE000 {
        None
    } else {
        match char_from_u32(v) {
            Some(c) => {
                proof {
                    lemma_char_of_code(c);
                }
                Some((c, i + 4))
            },
            None => None,
        }
    }
}

fn p_string_body(s: &Vec<char>, i: usize, acc: Vec<char>) -> (r: Option<(Vec<char>, usize)>)
    requires
        i <= s@.len(),
    ensures
        ({
            let sp = parse_string_body(s@, i as int, acc@);
            &&& (r is Some ==> sp == Some((r->Some_0.0@, r->Some_0.1 as int)) && i < r->Some_0.1
                <= s@.len())
            &&& (r is None ==> sp is None)
        }),
    decreases s@.len() - i,
{
    if !(i < s.len()) {
        return None;
    }
    let c = s[i];
    if c == '"' {
        Some((acc, i + 1))
    } else if c == '\\' {
        if i + 1 < s.len() {
            let e = s[i + 1];
            if e == '"' {
                let mut a = acc;
                a.push('"');
                p_string_body(s, i + 2, a)
            } else if e == '\\' {
                let mut a = acc;
                a.push('\\');
                p_string_body(s, i + 2, a)
            } else if e == '/' {
                let mut a = acc;
                a.push('/');
                p_string_body(s, i + 2, a)
            } else if e == 'b' {
                let mut a = acc;
                a.push('\u{8}');
                p_string_body(s, i + 2, a)
            } else if e == 'f' {
                let mut a = acc;
                a.push('\u{c}');
                p_string_body(s, i + 2, a)
            } else if e == 'n' {
                let mut a = acc;
                a.push('\n');
                p_string_body(s, i + 2, a)
            } else if e == 'r' {
                let mut a = acc;
                a.push('\r');
                p_string_body(s, i + 2, a)
            } else if e == 't' {
                let mut a = acc;
                a.push('\t');
                p_string_body(s, i + 2, a)
            } else if e == 'u' {
                match p_u_escape(s, i + 2) {
                    Some((c2, n)) => {
                        let mut a = acc;
                        a.push(c2);
                        p_string_body(s, n, a)
                    },
                    None => None,
                }
            } else {
                None
            }
        } else {
            None
        }
    } else if (c as u32) < 0x20 {
        None
    } else {
        let mut a = acc;
        a.push(c);
        p_string_body(s, i + 1, a)
    }
}

fn p_digits(s: &Vec<char>, i: usize, bound: u64) -> (r: Option<(u64, usize)>)
    requires
        i <= s@.len(),
    ensures
        ({
            let sp = parse_digits(s@, i as int, 0, bound as nat);
            &&& (r is Some ==> sp == Some((r->Some_0.0 as nat, r->Some_0.1 as int))
                && r->Some_0.0 <= bound && i <= r->Some_0.1 <= s@.len())
            &&& (r is Some && i < s@.len() && is_digit(s@[i as int]) ==> i < r->Some_0.1)
            &&& (r is None ==> sp is None)
        }),
{
    let mut j = i;
    let mut acc: u64 = 0;
    while j < s.len() && is_digit_exec(s[j])
        invariant
            i <= j <= s@.len(),
            acc <= bound,
            parse_digits(s@, i as int, 0, bound as nat) == parse_digits(
                s@,
                j as int,
                acc as nat,
                bound as nat,
            ),
        decreases s@.len() - j,
    {
        let d = digit_val_exec(s[j]);
        let a2: u128 = acc as u128 * 10 + d as u128;
        if a2 > bound as u128 {
            return None;
        }
        acc = a2 as u64;
        j = j + 1;
    }
    Some((acc, j))
}

fn p_int(s: &Vec<char>, i: usize) -> (r: Option<(i64, usize)>)
    requires
        i <= s@.len(),
    ensures
        ({
            let sp = parse_int(s@, i as int);
            &&& (r is Some ==> sp == Some((r->Some_0.0 as int, r->Some_0.1 as int)) && i
                < r->Some_0.1 <= s@.len())
            &&& (r is None ==> sp is None)
        }),
{
    if !(i < s.len()) {
        return None;
    }
    let neg = s[i] == '-';
    let start = if neg { i + 1 } else { i };
    if !(start < s.len() && is_digit_exec(s[start])) {
        return None;
    }
    if s[start] == '0' && start + 1 < s.len() && is_digit_exec(s[start + 1]) {
        return None;
    }
    let bound: u64 = if neg { 0x8000_0000_0000_0000 } else { 0x7fff_ffff_ffff_ffff };
    match p_digits(s, start, bound) {
        Some((m, j)) => {
            let v: i64 = if neg {
                if m == 0x8000_0000_0000_0000u64 {
                    i64::MIN
                } else {
                    -(m as i64)
                }
            } else {
                m as i64
            };
            Some((v, j))
        },
        None => None,
    }
}

/// An owned scalar value, the executable shape of `ScalarVal`.
pub enum ScalarOwn {
    SvNull,
    SvBool(bool),
    SvInt(i64),
    SvStr(Vec<char>),
}

pub open spec fn scalar_view(v: ScalarOwn) -> ScalarVal {
    match v {
        ScalarOwn::SvNull => ScalarVal::VNull,
        ScalarOwn::SvBool(b) => ScalarVal::VBool(b),
        ScalarOwn::SvInt(n) => ScalarVal::VInt(n as int),
        ScalarOwn::SvStr(t) => ScalarVal::VStr(t@),
    }
}

fn p_scalar(s: &Vec<char>, i: usize) -> (r: Option<(ScalarOwn, usize)>)
    requires
        i <= s@.len(),
    ensures
        ({
            let sp = parse_scalar(s@, i as int);
            &&& (r is Some ==> sp == Some((scalar_view(r->Some_0.0), r->Some_0.1 as int)) && i
                < r->Some_0.1 <= s@.len())
            &&& (r is None ==> sp is None)
        }),
{
    if !(i < s.len()) {
        return None;
    }
    let c = s[i];
    if c == '"' {
        match p_string_body(s, i + 1, Vec::new()) {
            Some((t, j)) => Some((ScalarOwn::SvStr(t), j)),
            None => None,
        }
    } else if c == 'n' {
        if s.len() - i > 3 && s[i + 1] == 'u' && s[i + 2] == 'l' && s[i + 3] == 'l' {
            assert(lit_null(s@, i as int));
            Some((ScalarOwn::SvNull, i + 4))
        } else {
            assert(!lit_null(s@, i as int));
            None
        }
    } else if c == 't' {
        if s.len() - i > 3 && s[i + 1] == 'r' && s[i + 2] == 'u' && s[i + 3] == 'e' {
            assert(lit_true(s@, i as int));
            Some((ScalarOwn::SvBool(true), i + 4))
        } else {
            assert(!lit_true(s@, i as int));
            None
        }
    } else if c == 'f' {
        if s.len() - i > 4 && s[i + 1] == 'a' && s[i + 2] == 'l' && s[i + 3] == 's' && s[i + 4]
            == 'e' {
            assert(lit_false(s@, i as int));
            Some((ScalarOwn::SvBool(false), i + 5))
        } else {
            assert(!lit_false(s@, i as int));
            None
        }
    } else if c == '-' || is_digit_exec(c) {
        match p_int(s, i) {
            Some((v, j)) => Some((ScalarOwn::SvInt(v), j)),
            None => None,
        }
    } else {
        None
    }
}

/// End of a run of decimal digits.
fn de_end(s: &Vec<char>, i: usize) -> (r: usize)
    requires
        i <= s@.len(),
    ensures
        r as int == digits_end(s@, i as int),
        i <= r <= s@.len(),
        i < s@.len() && is_digit(s@[i as int]) ==> i < r,
{
    let mut j = i;
    while j < s.len() && is_digit_exec(s[j])
        invariant
            i <= j <= s@.len(),
            digits_end(s@, i as int) == digits_end(s@, j as int),
        decreases s@.len() - j,
    {
        j = j + 1;
    }
    j
}

fn sk_number(s: &Vec<char>, i: usize) -> (r: Option<usize>)
    requires
        i <= s@.len(),
    ensures
        ({
            let sp = skip_number(s@, i as int);
            &&& (r matches Some(j) ==> sp == Some(j as int) && i < j <= s@.len())
            &&& (r is None ==> sp is None)
        }),
{
    if !(i < s.len()) {
        return None;
    }
    let i0 = if s[i] == '-' { i + 1 } else { i };
    if !(i0 < s.len() && is_digit_exec(s[i0])) {
        return None;
    }
    if s[i0] == '0' && i0 + 1 < s.len() && is_digit_exec(s[i0 + 1]) {
        return None;
    }
    let i1 = de_end(s, i0);
    let i2: usize;
    if i1 < s.len() && s[i1] == '.' {
        if i1 + 1 < s.len() && is_digit_exec(s[i1 + 1]) {
            i2 = de_end(s, i1 + 1);
            assert(skip_frac(s@, i1 as int) == Some(i2 as int));
        } else {
            assert(skip_frac(s@, i1 as int) is None);
            return None;
        }
    } else {
        i2 = i1;
        assert(skip_frac(s@, i1 as int) == Some(i2 as int));
    }
    if i2 < s.len() && (s[i2] == 'e' || s[i2] == 'E') {
        let i3 = if i2 + 1 < s.len() && (s[i2 + 1] == '+' || s[i2 + 1] == '-') {
            i2 + 2
        } else {
            i2 + 1
        };
        if i3 < s.len() && is_digit_exec(s[i3]) {
            let j = de_end(s, i3);
            assert(skip_exp(s@, i2 as int) == Some(j as int));
            Some(j)
        } else {
            assert(skip_exp(s@, i2 as int) is None);
            None
        }
    } else {
        assert(skip_exp(s@, i2 as int) == Some(i2 as int));
        Some(i2)
    }
}

fn sk_value(s: &Vec<char>, i: usize) -> (r: Option<usize>)
    requires
        i <= s@.len(),
    ensures
        ({
            let sp = skip_value(s@, i as int);
            &&& (r matches Some(j) ==> sp == Some(j as int) && i < j <= s@.len())
            &&& (r is None ==> sp is None)
        }),
    decreases s@.len() - i, 2int,
{
    if !(i < s.len()) {
        return None;
    }
    let c = s[i];
    if c == '"' {
        match p_string_body(s, i + 1, Vec::new()) {
            Some((_, j)) => Some(j),
            None => None,
        }
    } else if c == '{' {
        sk_obj_tail(s, i + 1)
    } else if c == '[' {
        sk_arr_tail(s, i + 1)
    } else if c == 'n' {
        if s.len() - i > 3 && s[i + 1] == 'u' && s[i + 2] == 'l' && s[i + 3] == 'l' {
            assert(lit_null(s@, i as int));
            Some(i + 4)
        } else {
            assert(!lit_null(s@, i as int));
            None
        }
    } else if c == 't' {
        if s.len() - i > 3 && s[i + 1] == 'r' && s[i + 2] == 'u' && s[i + 3] == 'e' {
            assert(lit_true(s@, i as int));
            Some(i + 4)
        } else {
            assert(!lit_true(s@, i as int));
            None
        }
    } else if c == 'f' {
        if s.len() - i > 4 && s[i + 1] == 'a' && s[i + 2] == 'l' && s[i + 3] == 's' && s[i + 4]
            == 'e' {
            assert(lit_false(s@, i as int));
            Some(i + 5)
        } else {
            assert(!lit_false(s@, i as int));
            None
        }
    } else if c == '-' || is_digit_exec(c) {
        sk_number(s, i)
    } else {
        None
    }
}

fn sk_obj_tail(s: &Vec<char>, i: usize) -> (r: Option<usize>)
    requires
        i <= s@.len(),
    ensures
        ({
            let sp = skip_obj_tail(s@, i as int);
            &&& (r matches Some(j) ==> sp == Some(j as int) && i < j <= s@.len())
            &&& (r is None ==> sp is None)
        }),
    decreases s@.len() - i, 1int,
{
    let i1 = ws_end(s, i);
    if i1 < s.len() && s[i1] == '}' {
        Some(i1 + 1)
    } else {
        sk_members(s, i1)
    }
}

fn sk_members(s: &Vec<char>, i: usize) -> (r: Option<usize>)
    requires
        i <= s@.len(),
    ensures
        ({
            let sp = skip_members(s@, i as int);
            &&& (r matches Some(j) ==> sp == Some(j as int) && i < j <= s@.len())
            &&& (r is None ==> sp is None)
        }),
    decreases s@.len() - i, 0int,
{
    if !(i < s.len() && s[i] == '"') {
        return None;
    }
    match p_string_body(s, i + 1, Vec::new()) {
        Some((_, j)) => {
            let j1 = ws_end(s, j);
            if !(j1 < s.len() && s[j1] == ':') {
                return None;
            }
            let j2 = ws_end(s, j1 + 1);
            if !(i < j2) {
                return None;
            }
            match sk_value(s, j2) {
                Some(j3) => {
                    let j4 = ws_end(s, j3);
                    if j4 < s.len() && s[j4] == '}' {
                        Some(j4 + 1)
                    } else if j4 < s.len() && s[j4] == ',' {
                        let j5 = ws_end(s, j4 + 1);
                        if i < j5 {
                            sk_members(s, j5)
                        } else {
                            None
                        }
                    } else {
                        None
                    }
                },
                None => None,
            }
        },
        None => None,
    }
}

fn sk_arr_tail(s: &Vec<char>, i: usize) -> (r: Option<usize>)
    requires
        i <= s@.len(),
    ensures
        ({
            let sp = skip_arr_tail(s@, i as int);
            &&& (r matches Some(j) ==> sp == Some(j as int) && i < j <= s@.len())
            &&& (r is None ==> sp is None)
        }),
    decreases s@.len() - i, 4int,
{
    let i1 = ws_end(s, i);
    if i1 < s.len() && s[i1] == ']' {
        Some(i1 + 1)
    } else {
        sk_arr_items(s, i1)
    }
}

fn sk_arr_items(s: &Vec<char>, i: usize) -> (r: Option<usize>)
    requires
        i <= s@.len(),
    ensures
        ({
            let sp = skip_arr_items(s@, i as int);
            &&& (r matches Some(j) ==> sp == Some(j as int) && i < j <= s@.len())
            &&& (r is None ==> sp is None)
        }),
    decreases s@.len() - i, 3int,
{
    match sk_value(s, i) {
        Some(j3) => {
            let j4 = ws_end(s, j3);
            if j4 < s.len() && s[j4] == ']' {
                Some(j4 + 1)
            } else if j4 < s.len() && s[j4] == ',' {
                let j5 = ws_end(s, j4 + 1);
                if i < j5 {
                    sk_arr_items(s, j5)
                } else {
                    None
                }
            } else {
                None
            }
        },
        None => None,
    }
}

/// Store a header pair, a later write to the same name replacing the
/// earlier entry in place.
fn upsert_exec(hs: Vec<(String, String)>, k: &Vec<char>, v: &Vec<char>) -> (r: Vec<(String, String)>)
    ensures
        headers_view(r@) == upsert(headers_view(hs@), k@, v@),
{
    let ghost hv = headers_view(hs@);
    let mut out: Vec<(String, String)> = Vec::new();
    let mut idx: usize = 0;
    let mut replaced = false;
    proof {
        assert(hv.skip(0) =~= hv);
        assert(headers_view(out@) =~= Seq::<(Seq<char>, Seq<char>)>::empty());
        assert(upsert(hv, k@, v@) =~= headers_view(out@) + upsert(hv.skip(0), k@, v@));
    }
    while idx < hs.len()
        invariant
            idx <= hs@.len(),
            hv == headers_view(hs@),
            replaced ==> upsert(hv, k@, v@) == headers_view(out@) + hv.skip(idx as int),
            !replaced ==> upsert(hv, k@, v@) == headers_view(out@) + upsert(
                hv.skip(idx as int),
                k@,
                v@,
            ),
        decreases hs@.len() - idx,
    {
        proof {
            assert(hv.skip(idx as int)[0] == hv[idx as int]);
            assert(hv[idx as int] == (hs@[idx as int].0@, hs@[idx as int].1@));
            assert(hv.skip(idx as int).skip(1) =~= hv.skip(idx as int + 1));
        }
        if !replaced && eq_chars_str(k, hs[idx].0.as_str()) {
            out.push((chars_to_string(k), chars_to_string(v)));
            replaced = true;
            proof {
                assert(upsert(hv.skip(idx as int), k@, v@) =~= seq![(k@, v@)] + hv.skip(
                    idx as int + 1,
                ));
                assert(headers_view(out@) =~= headers_view(out@.drop_last()) + seq![(k@, v@)]);
                assert(upsert(hv, k@, v@) =~= headers_view(out@) + hv.skip(idx as int + 1));
            }
        } else {
            let pair = (hs[idx].0.clone(), hs[idx].1.clone());
            out.push(pair);
            proof {
                assert(headers_view(out@) =~= headers_view(out@.drop_last()) + seq![
                    hv[idx as int],
                ]);
                if replaced {
                    assert(hv.skip(idx as int) =~= seq![hv[idx as int]] + hv.skip(idx as int + 1));
                    assert(upsert(hv, k@, v@) =~= headers_view(out@) + hv.skip(idx as int + 1));
                } else {
                    assert(hv[idx as int].0 != k@);
                    assert(upsert(hv.skip(idx as int), k@, v@) == seq![hv[idx as int]] + upsert(
                        hv.skip(idx as int + 1),
                        k@,
                        v@,
                    ));
                    assert(upsert(hv, k@, v@) =~= headers_view(out@) + upsert(
                        hv.skip(idx as int + 1),
                        k@,
                        v@,
                    ));
                }
            }
        }
        idx = idx + 1;
    }
    proof {
        assert(hv.skip(hs@.len() as int) =~= Seq::empty());
        if replaced {
            assert(upsert(hv, k@, v@) =~= headers_view(out@));
        }
    }
    if !replaced {
        out.push((chars_to_string(k), chars_to_string(v)));
        proof {
            assert(upsert(Seq::empty(), k@, v@) =~= seq![(k@, v@)]);
            assert(headers_view(out@) =~= headers_view(out@.drop_last()) + seq![(k@, v@)]);
            assert(headers_view(out@) =~= upsert(hv, k@, v@));
        }
    }
    out
}

fn p_headers_items(s: &Vec<char>, i: usize, acc: Vec<(String, String)>) -> (r: Option<
    (Vec<(String, String)>, usize),
>)
    requires
        i <= s@.len(),
    ensures
        ({
            let sp = parse_headers_items(s@, i as int, headers_view(acc@));
            &&& (r is Some ==> sp == Some((headers_view(r->Some_0.0@), r->Some_0.1 as int)) && i
                < r->Some_0.1 <= s@.len())
            &&& (r is None ==> sp is None)
        }),
    decreases s@.len() - i,
{
    if !(i < s.len() && s[i] == '"') {
        return None;
    }
    match p_string_body(s, i + 1, Vec::new()) {
        Some((k, j)) => {
            let j1 = ws_end(s, j);
            if !(j1 < s.len() && s[j1] == ':') {
                return None;
            }
            let j2 = ws_end(s, j1 + 1);
            if !(j2 < s.len() && s[j2] == '"') {
                return None;
            }
            match p_string_body(s, j2 + 1, Vec::new()) {
                Some((v, j3)) => {
                    let j4 = ws_end(s, j3);
                    let acc2 = upsert_exec(acc, &k, &v);
                    if j4 < s.len() && s[j4] == '}' {
                        Some((acc2, j4 + 1))
                    } else if j4 < s.len() && s[j4] == ',' {
                        let j5 = ws_end(s, j4 + 1);
                        if i < j5 {
                            p_headers_items(s, j5, acc2)
                        } else {
                            None
                        }
                    } else {
                        None
                    }
                },
                None => None,
            }
        },
        None => None,
    }
}

fn p_headers_obj(s: &Vec<char>, i: usize) -> (r: Option<(Vec<(String, String)>, usize)>)
    requires
        i <= s@.len(),
    ensures
        ({
            let sp = parse_headers_obj(s@, i as int);
            &&& (r is Some ==> sp == Some((headers_view(r->Some_0.0@), r->Some_0.1 as int)) && i
                < r->Some_0.1 <= s@.len())
            &&& (r is None ==> sp is None)
        }),
{
    let i1 = ws_end(s, i);
    if i1 < s.len() && s[i1] == '}' {
        assert(headers_view(Seq::<(String, String)>::empty()) =~= Seq::<(Seq<char>, Seq<
            char,
        >)>::empty());
        Some((Vec::new(), i1 + 1))
    } else {
        let r = p_headers_items(s, i1, Vec::new());
        proof {
            assert(headers_view(Seq::<(String, String)>::empty()) =~= Seq::<(Seq<char>, Seq<
                char,
            >)>::empty());
        }
        r
    }
}

fn data_update_exec(b: BodyPayload, k: &Vec<char>, v: ScalarOwn) -> (r: Option<BodyPayload>)
    ensures
        ({
            let sp = data_update(b@, k@, scalar_view(v));
            &&& (r is Some ==> sp == Some(r->Some_0@))
            &&& (r is None ==> sp is None)
        }),
{
    if eq_chars_str(k, "utf8") {
        match v {
            ScalarOwn::SvStr(t) => Some(BodyPayload { utf8: Some(chars_to_string(&t)), ..b }),
            ScalarOwn::SvNull => Some(BodyPayload { utf8: None, ..b }),
            _ => None,
        }
    } else if eq_chars_str(k, "hex") {
        match v {
            ScalarOwn::SvStr(t) => Some(BodyPayload { hex: Some(chars_to_string(&t)), ..b }),
            ScalarOwn::SvNull => Some(BodyPayload { hex: None, ..b }),
            _ => None,
        }
    } else if eq_chars_str(k, "file") {
        match v {
            ScalarOwn::SvStr(t) => Some(BodyPayload { file: Some(chars_to_string(&t)), ..b }),
            ScalarOwn::SvNull => Some(BodyPayload { file: None, ..b }),
            _ => None,
        }
    } else {
        Some(b)
    }
}

fn p_data_items(s: &Vec<char>, i: usize, acc: BodyPayload) -> (r: Option<(BodyPayload, usize)>)
    requires
        i <= s@.len(),
    ensures
        ({
            let sp = parse_data_items(s@, i as int, acc@);
            &&& (r is Some ==> sp == Some((r->Some_0.0@, r->Some_0.1 as int)) && i < r->Some_0.1
                <= s@.len())
            &&& (r is None ==> sp is None)
        }),
    decreases s@.len() - i,
{
    if !(i < s.len() && s[i] == '"') {
        return None;
    }
    match p_string_body(s, i + 1, Vec::new()) {
        Some((k, j)) => {
            let j1 = ws_end(s, j);
            if !(j1 < s.len() && s[j1] == ':') {
                return None;
            }
            let j2 = ws_end(s, j1 + 1);
            let stepped: Option<(BodyPayload, usize)> = if eq_chars_str(&k, "utf8")
                || eq_chars_str(&k, "hex") || eq_chars_str(&k, "file") {
                assert(is_data_key(k@));
                match p_scalar(s, j2) {
                    Some((v, j3)) => {
                        match data_update_exec(acc, &k, v) {
                            Some(acc2) => Some((acc2, j3)),
                            None => None,
                        }
                    },
                    None => None,
                }
            } else {
                assert(!is_data_key(k@));
                match sk_value(s, j2) {
                    Some(j3) => Some((acc, j3)),
                    None => None,
                }
            };
            match stepped {
                Some((acc2, j3)) => {
                    let j4 = ws_end(s, j3);
                    if j4 < s.len() && s[j4] == '}' {
                        Some((acc2, j4 + 1))
                    } else if j4 < s.len() && s[j4] == ',' {
                        let j5 = ws_end(s, j4 + 1);
                        if i < j5 {
                            p_data_items(s, j5, acc2)
                        } else {
                            None
                        }
                    } else {
                        None
                    }
                },
                None => None,
            }
        },
        None => None,
    }
}

fn p_data_obj(s: &Vec<char>, i: usize) -> (r: Option<(BodyPayload, usize)>)
    requires
        i <= s@.len(),
    ensures
        ({
            let sp = parse_data_obj(s@, i as int);
            &&& (r is Some ==> sp == Some((r->Some_0.0@, r->Some_0.1 as int)) && i < r->Some_0.1
                <= s@.len())
            &&& (r is None ==> sp is None)
        }),
{
    let empty = BodyPayload { utf8: None, hex: None, file: None };
    let i1 = ws_end(s, i);
    if i1 < s.len() && s[i1] == '}' {
        Some((empty, i1 + 1))
    } else {
        p_data_items(s, i1, empty)
    }
}

/// The document's fields as collected so far.
struct PartialOwn {
    handle: Option<i64>,
    uri: Option<String>,
    args: Option<String>,
    unparsed_uri: Option<String>,
    method: Option<String>,
    protocol: Option<String>,
    headers: Option<Vec<(String, String)>>,
    data: Option<BodyPayload>,
}

spec fn partial_view(p: PartialOwn) -> PartialDoc {
    PartialDoc {
        handle: match p.handle {
            Some(v) => Some(v as int),
            None => None,
        },
        uri: opt_str_view(p.uri),
        args: opt_str_view(p.args),
        unparsed_uri: opt_str_view(p.unparsed_uri),
        method: opt_str_view(p.method),
        protocol: opt_str_view(p.protocol),
        headers: match p.headers {
            Some(hs) => Some(headers_view(hs@)),
            None => None,
        },
        data: match p.data {
            Some(b) => Some(b@),
            None => None,
        },
    }
}

fn p_top_items(s: &Vec<char>, i: usize, acc: PartialOwn) -> (r: Option<(PartialOwn, usize)>)
    requires
        i <= s@.len(),
    ensures
        ({
            let sp = parse_top_items(s@, i as int, partial_view(acc));
            &&& (r is Some ==> sp == Some((partial_view(r->Some_0.0), r->Some_0.1 as int)) && i
                < r->Some_0.1 <= s@.len())
            &&& (r is None ==> sp is None)
        }),
    decreases s@.len() - i,
{
    if !(i < s.len() && s[i] == '"') {
        return None;
    }
    match p_string_body(s, i + 1, Vec::new()) {
        Some((k, j)) => {
            let j1 = ws_end(s, j);
            if !(j1 < s.len() && s[j1] == ':') {
                return None;
            }
            let j2 = ws_end(s, j1 + 1);
            let stepped: Option<(PartialOwn, usize)> = if eq_chars_str(&k, "requestHandle") {
                match p_int(s, j2) {
                    Some((v, j3)) => Some((PartialOwn { handle: Some(v), ..acc }, j3)),
                    None => None,
                }
            } else if eq_chars_str(&k, "uri") || eq_chars_str(&k, "args") || eq_chars_str(
                &k,
                "unparsedUri",
            ) || eq_chars_str(&k, "method") || eq_chars_str(&k, "protocol") {
                assert(is_text_key(k@));
                if j2 < s.len() && s[j2] == '"' {
                    match p_string_body(s, j2 + 1, Vec::new()) {
                        Some((t, j3)) => {
                            let ts = chars_to_string(&t);
                            let upd = if eq_chars_str(&k, "uri") {
                                PartialOwn { uri: Some(ts), ..acc }
                            } else if eq_chars_str(&k, "args") {
                                PartialOwn { args: Some(ts), ..acc }
                            } else if eq_chars_str(&k, "unparsedUri") {
                                PartialOwn { unparsed_uri: Some(ts), ..acc }
                            } else if eq_chars_str(&k, "method") {
                                PartialOwn { method: Some(ts), ..acc }
                            } else {
                                PartialOwn { protocol: Some(ts), ..acc }
                            };
                            assert(partial_view(upd) == set_text_key(partial_view(acc), k@, t@));
                            Some((upd, j3))
                        },
                        None => None,
                    }
                } else {
                    None
                }
            } else if eq_chars_str(&k, "headers") {
                if j2 < s.len() && s[j2] == '{' {
                    match p_headers_obj(s, j2 + 1) {
                        Some((hs, j3)) => Some((PartialOwn { headers: Some(hs), ..acc }, j3)),
                        None => None,
                    }
                } else {
                    None
                }
            } else if eq_chars_str(&k, "data") {
                if j2 < s.len() && s[j2] == '{' {
                    match p_data_obj(s, j2 + 1) {
                        Some((b, j3)) => Some((PartialOwn { data: Some(b), ..acc }, j3)),
                        None => None,
                    }
                } else {
                    None
                }
            } else {
                assert(!(k@ == "requestHandle"@ || is_text_key(k@) || k@ == "headers"@ || k@
                    == "data"@));
                match sk_value(s, j2) {
                    Some(j3) => Some((acc, j3)),
                    None => None,
                }
            };
            match stepped {
                Some((acc2, j3)) => {
                    let j4 = ws_end(s, j3);
                    if j4 < s.len() && s[j4] == '}' {
                        Some((acc2, j4 + 1))
                    } else if j4 < s.len() && s[j4] == ',' {
                        let j5 = ws_end(s, j4 + 1);
                        if i < j5 {
                            p_top_items(s, j5, acc2)
                        } else {
                            None
                        }
                    } else {
                        None
                    }
                },
                None => None,
            }
        },
        None => None,
    }
}

/// Deserialize a whole document from its text. Succeeds exactly when
/// `parse_doc` accepts the text; a rejected text reports `MalformedInput`.
pub fn parse_descriptor(input: &str) -> (r: Result<RequestDescriptor, RelayError>)
    ensures
        ({
            let sp = parse_doc(input@);
            &&& (r is Ok ==> sp == Some(r->Ok_0@) && crate::descriptor::wf_desc(r->Ok_0@))
            &&& (r is Err ==> sp is None && r->Err_0 == RelayError::MalformedInput)
        }),
{
    proof {
        crate::wellformed::lemma_parse_doc_wf(input@);
    }
    let s = crate::chars::str_to_chars(input);
    let empty_acc = PartialOwn {
        handle: None,
        uri: None,
        args: None,
        unparsed_uri: None,
        method: None,
        protocol: None,
        headers: None,
        data: None,
    };
    assert(partial_view(empty_acc) == empty_doc());
    let i0 = ws_end(&s, 0);
    if !(i0 < s.len() && s[i0] == '{') {
        return Err(RelayError::MalformedInput);
    }
    let i1 = ws_end(&s, i0 + 1);
    let parsed: Option<(PartialOwn, usize)> = if i1 < s.len() && s[i1] == '}' {
        Some((empty_acc, i1 + 1))
    } else {
        p_top_items(&s, i1, empty_acc)
    };
    match parsed {
        Some((p, j)) => {
            let j1 = ws_end(&s, j);
            if j1 != s.len() {
                return Err(RelayError::MalformedInput);
            }
            match (p.handle, p.uri, p.args, p.unparsed_uri, p.method, p.protocol, p.headers,
                p.data) {
                (
                    Some(handle),
                    Some(uri),
                    Some(args),
                    Some(unparsed_uri),
                    Some(method),
                    Some(protocol),
                    Some(headers),
                    Some(data),
                ) => {
                    let d = RequestDescriptor {
                        correlation_handle: handle,
                        target_uri: uri,
                        raw_args: args,
                        unparsed_uri,
                        http_method: method,
                        protocol_version: protocol,
                        headers,
                        body: data,
                    };
                    Ok(d)
                },
                _ => Err(RelayError::MalformedInput),
            }
        },
        None => Err(RelayError::MalformedInput),
    }
}

} // verus!
