//! The mathematical definition of deserialization: a recursive-descent
//! parser over a sequence of characters, for the descriptor's wire schema.
//! The executable parser in `parse` is proved to return exactly what these
//! functions say.

use vstd::prelude::*;
use crate::chars::{is_ws, is_digit, is_hex, hex_val, char_of};
use crate::numbers::parse_int;
use crate::descriptor::{BodyView, DescView};

verus! {

/// Index of the first non-whitespace character at or after `i`.
pub open spec fn skip_ws(s: Seq<char>, i: int) -> int
    decreases s.len() - i,
{
    if 0 <= i < s.len() && is_ws(s[i]) { skip_ws(s, i + 1) } else { i }
}

/// The four hex digits of a `\uXXXX` escape, read at `i` (just after the
/// `\u`); a basic-plane character stands alone, one past it as a high and a
/// low surrogate in sequence; a lone surrogate is refused.
pub open spec fn parse_u_escape(s: Seq<char>, i: int) -> Option<(char, int)> {
    if 0 <= i && i + 3 < s.len() && is_hex(s[i]) && is_hex(s[i + 1]) && is_hex(s[i + 2]) && is_hex(
        s[i + 3],
    ) {
        let v = hex_val(s[i]) * 4096 + hex_val(s[i + 1]) * 256 + hex_val(s[i + 2]) * 16 + hex_val(
            s[i + 3],
        );
        if 0xD800 <= v && v < 0xDC00 {
            if i + 9 < s.len() && s[i + 4] == '\\' && s[i + 5] == 'u' && is_hex(s[i + 6])
                && is_hex(s[i + 7]) && is_hex(s[i + 8]) && is_hex(s[i + 9]) {
                let w = hex_val(s[i + 6]) * 4096 + hex_val(s[i + 7]) * 256 + hex_val(s[i + 8]) * 16
                    + hex_val(s[i + 9]);
                if 0xDC00 <= w && w < 0xE000 {
                    Some((char_of((0x10000 + (v - 0xD800) * 0x400 + (w - 0xDC00)) as nat), i + 10))
                } else {
                    None
                }
            } else {
                None
            }
        } else if 0xDC00 <= v && v < 0xE000 {
            None
        } else {
            Some((char_of(v), i + 4))
        }
    } else {
        None
    }
}

/// Body of a JSON string literal, read from just after the opening quote;
/// yields the decoded text and the index after the closing quote. The named
/// escapes and every `\uXXXX` form are accepted, a character past the basic
/// plane as a surrogate pair; a lone surrogate is refused.
pub open spec fn parse_string_body(s: Seq<char>, i: int, acc: Seq<char>) -> Option<(Seq<char>, int)>
    decreases s.len() - i,
{
    if !(0 <= i < s.len()) {
        None
    } else {
        let c = s[i];
        if c == '"' {
            Some((acc, i + 1))
        } else if c == '\\' {
            if i + 1 < s.len() {
                let e = s[i + 1];
                if e == '"' { parse_string_body(s, i + 2, acc.push('"')) }
                else if e == '\\' { parse_string_body(s, i + 2, acc.push('\\')) }
                else if e == '/' { parse_string_body(s, i + 2, acc.push('/')) }
                else if e == 'b' { parse_string_body(s, i + 2, acc.push('\u{8}')) }
                else if e == 'f' { parse_string_body(s, i + 2, acc.push('\u{c}')) }
                else if e == 'n' { parse_string_body(s, i + 2, acc.push('\n')) }
                else if e == 'r' { parse_string_body(s, i + 2, acc.push('\r')) }
                else if e == 't' { parse_string_body(s, i + 2, acc.push('\t')) }
                else if e == 'u' {
                    match parse_u_escape(s, i + 2) {
                        Some((c2, n)) => {
                            if i + 2 <= n <= s.len() {
                                parse_string_body(s, n, acc.push(c2))
                            } else {
                                None
                            }
                        },
                        None => None,
                    }
                } else {
                    None
                }
            } else {
                None
            }
        } else if (c as u32) < 0x20 {
            None
        } else {
            parse_string_body(s, i + 1, acc.push(c))
        }
    }
}

/// A scalar JSON value, as far as the schema needs one.
pub ghost enum ScalarVal {
    VNull,
    VBool(bool),
    VInt(int),
    VStr(Seq<char>),
}

pub open spec fn lit_null(s: Seq<char>, i: int) -> bool {
    0 <= i && i + 3 < s.len() && s[i] == 'n' && s[i + 1] == 'u' && s[i + 2] == 'l' && s[i + 3] == 'l'
}

pub open spec fn lit_true(s: Seq<char>, i: int) -> bool {
    0 <= i && i + 3 < s.len() && s[i] == 't' && s[i + 1] == 'r' && s[i + 2] == 'u' && s[i + 3] == 'e'
}

pub open spec fn lit_false(s: Seq<char>, i: int) -> bool {
    0 <= i && i + 4 < s.len() && s[i] == 'f' && s[i + 1] == 'a' && s[i + 2] == 'l' && s[i + 3] == 's'
        && s[i + 4] == 'e'
}

/// Parse of a scalar value: a string, an integer, `null`, `true` or `false`.
pub open spec fn parse_scalar(s: Seq<char>, i: int) -> Option<(ScalarVal, int)> {
    if !(0 <= i < s.len()) {
        None
    } else if s[i] == '"' {
        match parse_string_body(s, i + 1, Seq::empty()) {
            Some((t, j)) => Some((ScalarVal::VStr(t), j)),
            None => None,
        }
    } else if s[i] == 'n' {
        if lit_null(s, i) { Some((ScalarVal::VNull, i + 4)) } else { None }
    } else if s[i] == 't' {
        if lit_true(s, i) { Some((ScalarVal::VBool(true), i + 4)) } else { None }
    } else if s[i] == 'f' {
        if lit_false(s, i) { Some((ScalarVal::VBool(false), i + 5)) } else { None }
    } else if s[i] == '-' || is_digit(s[i]) {
        match parse_int(s, i) {
            Some((v, j)) => Some((ScalarVal::VInt(v), j)),
            None => None,
        }
    } else {
        None
    }
}

/// Store a header, a later write to the same name replacing the earlier one.
pub open spec fn upsert(
    hs: Seq<(Seq<char>, Seq<char>)>,
    k: Seq<char>,
    v: Seq<char>,
) -> Seq<(Seq<char>, Seq<char>)>
    decreases hs.len(),
{
    if hs.len() == 0 {
        seq![(k, v)]
    } else if hs[0].0 == k {
        seq![(k, v)] + hs.skip(1)
    } else {
        seq![hs[0]] + upsert(hs.skip(1), k, v)
    }
}

pub open spec fn has_key(hs: Seq<(Seq<char>, Seq<char>)>, k: Seq<char>) -> bool {
    exists|idx: int| 0 <= idx < hs.len() && (#[trigger] hs[idx]).0 == k
}

/// Members of the `headers` object, read at the position of a key, the
/// surrounding whitespace already skipped.
pub open spec fn parse_headers_items(
    s: Seq<char>,
    i: int,
    acc: Seq<(Seq<char>, Seq<char>)>,
) -> Option<(Seq<(Seq<char>, Seq<char>)>, int)>
    decreases s.len() - i,
{
    if !(0 <= i < s.len() && s[i] == '"') {
        None
    } else {
        match parse_string_body(s, i + 1, Seq::empty()) {
            Some((k, j)) => {
                let j1 = skip_ws(s, j);
                if 0 <= j1 < s.len() && s[j1] == ':' {
                    let j2 = skip_ws(s, j1 + 1);
                    if 0 <= j2 < s.len() && s[j2] == '"' {
                        match parse_string_body(s, j2 + 1, Seq::empty()) {
                            Some((v, j3)) => {
                                let j4 = skip_ws(s, j3);
                                let acc2 = upsert(acc, k, v);
                                if 0 <= j4 < s.len() && s[j4] == '}' {
                                    Some((acc2, j4 + 1))
                                } else if 0 <= j4 < s.len() && s[j4] == ',' {
                                    let j5 = skip_ws(s, j4 + 1);
                                    if i < j5 <= s.len() {
                                        parse_headers_items(s, j5, acc2)
                                    } else {
                                        None
                                    }
                                } else {
                                    None
                                }
                            },
                            None => None,
                        }
                    } else {
                        None
                    }
                } else {
                    None
                }
            },
            None => None,
        }
    }
}

/// The `headers` object, read from just after its opening brace.
pub open spec fn parse_headers_obj(s: Seq<char>, i: int) -> Option<(Seq<(Seq<char>, Seq<char>)>, int)> {
    let i1 = skip_ws(s, i);
    if 0 <= i1 < s.len() && s[i1] == '}' {
        Some((Seq::empty(), i1 + 1))
    } else {
        parse_headers_items(s, i1, Seq::empty())
    }
}

/// End of a run of decimal digits starting at `i`.
pub open spec fn digits_end(s: Seq<char>, i: int) -> int
    decreases s.len() - i,
{
    if 0 <= i < s.len() && is_digit(s[i]) { digits_end(s, i + 1) } else { i }
}

/// Skip a JSON number's fraction part, if one stands at `i`.
pub open spec fn skip_frac(s: Seq<char>, i: int) -> Option<int> {
    if 0 <= i < s.len() && s[i] == '.' {
        if i + 1 < s.len() && is_digit(s[i + 1]) { Some(digits_end(s, i + 1)) } else { None }
    } else {
        Some(i)
    }
}

/// Skip a JSON number's exponent part, if one stands at `i`.
pub open spec fn skip_exp(s: Seq<char>, i: int) -> Option<int> {
    if 0 <= i < s.len() && (s[i] == 'e' || s[i] == 'E') {
        let i1 = if i + 1 < s.len() && (s[i + 1] == '+' || s[i + 1] == '-') { i + 2 } else { i + 1 };
        if i1 < s.len() && is_digit(s[i1]) { Some(digits_end(s, i1)) } else { None }
    } else {
        Some(i)
    }
}

/// Skip a whole JSON number, fraction and exponent included, of any size.
pub open spec fn skip_number(s: Seq<char>, i: int) -> Option<int> {
    if !(0 <= i < s.len()) {
        None
    } else {
        let i0 = if s[i] == '-' { i + 1 } else { i };
        if i0 < s.len() && is_digit(s[i0]) {
            if s[i0] == '0' && i0 + 1 < s.len() && is_digit(s[i0 + 1]) {
                None
            } else {
                match skip_frac(s, digits_end(s, i0)) {
                    Some(i2) => skip_exp(s, i2),
                    None => None,
                }
            }
        } else {
            None
        }
    }
}

/// Skip any JSON value standing at `i` — the shape a member under an unknown
/// name may take, which the schema ignores without reading.
pub open spec fn skip_value(s: Seq<char>, i: int) -> Option<int>
    decreases s.len() - i, 2int,
{
    if !(0 <= i < s.len()) {
        None
    } else if s[i] == '"' {
        match parse_string_body(s, i + 1, Seq::empty()) {
            Some((t, j)) => Some(j),
            None => None,
        }
    } else if s[i] == '{' {
        skip_obj_tail(s, i + 1)
    } else if s[i] == '[' {
        skip_arr_tail(s, i + 1)
    } else if s[i] == 'n' {
        if lit_null(s, i) { Some(i + 4) } else { None }
    } else if s[i] == 't' {
        if lit_true(s, i) { Some(i + 4) } else { None }
    } else if s[i] == 'f' {
        if lit_false(s, i) { Some(i + 5) } else { None }
    } else if s[i] == '-' || is_digit(s[i]) {
        skip_number(s, i)
    } else {
        None
    }
}

/// Skip an object's members, read from just after its opening brace.
pub open spec fn skip_obj_tail(s: Seq<char>, i: int) -> Option<int>
    decreases s.len() - i, 1int,
{
    if !(0 <= i <= s.len()) {
        None
    } else {
        let i1 = skip_ws(s, i);
        if 0 <= i1 < s.len() && s[i1] == '}' {
            Some(i1 + 1)
        } else if i <= i1 <= s.len() {
            skip_members(s, i1)
        } else {
            None
        }
    }
}

/// Skip object members, read at the position of a key.
pub open spec fn skip_members(s: Seq<char>, i: int) -> Option<int>
    decreases s.len() - i, 0int,
{
    if !(0 <= i < s.len() && s[i] == '"') {
        None
    } else {
        match parse_string_body(s, i + 1, Seq::empty()) {
            Some((k, j)) => {
                let j1 = skip_ws(s, j);
                if 0 <= j1 < s.len() && s[j1] == ':' {
                    let j2 = skip_ws(s, j1 + 1);
                    if i < j2 <= s.len() {
                        match skip_value(s, j2) {
                            Some(j3) => {
                                let j4 = skip_ws(s, j3);
                                if 0 <= j4 < s.len() && s[j4] == '}' {
                                    Some(j4 + 1)
                                } else if 0 <= j4 < s.len() && s[j4] == ',' {
                                    let j5 = skip_ws(s, j4 + 1);
                                    if i < j5 <= s.len() { skip_members(s, j5) } else { None }
                                } else {
                                    None
                                }
                            },
                            None => None,
                        }
                    } else {
                        None
                    }
                } else {
                    None
                }
            },
            None => None,
        }
    }
}

/// Skip an array's elements, read from just after its opening bracket.
pub open spec fn skip_arr_tail(s: Seq<char>, i: int) -> Option<int>
    decreases s.len() - i, 4int,
{
    if !(0 <= i <= s.len()) {
        None
    } else {
        let i1 = skip_ws(s, i);
        if 0 <= i1 < s.len() && s[i1] == ']' {
            Some(i1 + 1)
        } else if i <= i1 <= s.len() {
            skip_arr_items(s, i1)
        } else {
            None
        }
    }
}

/// Skip array elements, read at the position of a value.
pub open spec fn skip_arr_items(s: Seq<char>, i: int) -> Option<int>
    decreases s.len() - i, 3int,
{
    if !(0 <= i <= s.len()) {
        None
    } else {
        match skip_value(s, i) {
            Some(j3) => {
                let j4 = skip_ws(s, j3);
                if 0 <= j4 < s.len() && s[j4] == ']' {
                    Some(j4 + 1)
                } else if 0 <= j4 < s.len() && s[j4] == ',' {
                    let j5 = skip_ws(s, j4 + 1);
                    if i < j5 <= s.len() { skip_arr_items(s, j5) } else { None }
                } else {
                    None
                }
            },
            None => None,
        }
    }
}

/// The three member names the `data` object reads.
pub open spec fn is_data_key(k: Seq<char>) -> bool {
    k == "utf8"@ || k == "hex"@ || k == "file"@
}

/// Update of the payload record by one member of the `data` object. A member
/// named `utf8`, `hex` or `file` must carry a string or `null`; a member
/// under any other name is ignored.
pub open spec fn data_update(b: BodyView, k: Seq<char>, v: ScalarVal) -> Option<BodyView> {
    if k == "utf8"@ {
        match v {
            ScalarVal::VStr(t) => Some(BodyView { utf8: Some(t), ..b }),
            ScalarVal::VNull => Some(BodyView { utf8: None, ..b }),
            _ => None,
        }
    } else if k == "hex"@ {
        match v {
            ScalarVal::VStr(t) => Some(BodyView { hex: Some(t), ..b }),
            ScalarVal::VNull => Some(BodyView { hex: None, ..b }),
            _ => None,
        }
    } else if k == "file"@ {
        match v {
            ScalarVal::VStr(t) => Some(BodyView { file: Some(t), ..b }),
            ScalarVal::VNull => Some(BodyView { file: None, ..b }),
            _ => None,
        }
    } else {
        Some(b)
    }
}

/// Members of the `data` object, read at the position of a key.
pub open spec fn parse_data_items(s: Seq<char>, i: int, acc: BodyView) -> Option<(BodyView, int)>
    decreases s.len() - i,
{
    if !(0 <= i < s.len() && s[i] == '"') {
        None
    } else {
        match parse_string_body(s, i + 1, Seq::empty()) {
            Some((k, j)) => {
                let j1 = skip_ws(s, j);
                if 0 <= j1 < s.len() && s[j1] == ':' {
                    let j2 = skip_ws(s, j1 + 1);
                    let stepped: Option<(BodyView, int)> = if is_data_key(k) {
                        match parse_scalar(s, j2) {
                            Some((v, j3)) => {
                                match data_update(acc, k, v) {
                                    Some(acc2) => Some((acc2, j3)),
                                    None => None,
                                }
                            },
                            None => None,
                        }
                    } else {
                        match skip_value(s, j2) {
                            Some(j3) => Some((acc, j3)),
                            None => None,
                        }
                    };
                    match stepped {
                        Some((acc2, j3)) => {
                            let j4 = skip_ws(s, j3);
                            if 0 <= j4 < s.len() && s[j4] == '}' {
                                Some((acc2, j4 + 1))
                            } else if 0 <= j4 < s.len() && s[j4] == ',' {
                                let j5 = skip_ws(s, j4 + 1);
                                if i < j5 <= s.len() {
                                    parse_data_items(s, j5, acc2)
                                } else {
                                    None
                                }
                            } else {
                                None
                            }
                        },
                        None => None,
                    }
                } else {
                    None
                }
            },
            None => None,
        }
    }
}

/// The `data` object, read from just after its opening brace; absent members
/// are as good as explicit `null`s.
pub open spec fn parse_data_obj(s: Seq<char>, i: int) -> Option<(BodyView, int)> {
    let i1 = skip_ws(s, i);
    if 0 <= i1 < s.len() && s[i1] == '}' {
        Some((BodyView { utf8: None, hex: None, file: None }, i1 + 1))
    } else {
        parse_data_items(s, i1, BodyView { utf8: None, hex: None, file: None })
    }
}

/// The document's fields as they are collected; every field of the schema is
/// required, so each starts out missing.
pub ghost struct PartialDoc {
    pub handle: Option<int>,
    pub uri: Option<Seq<char>>,
    pub args: Option<Seq<char>>,
    pub unparsed_uri: Option<Seq<char>>,
    pub method: Option<Seq<char>>,
    pub protocol: Option<Seq<char>>,
    pub headers: Option<Seq<(Seq<char>, Seq<char>)>>,
    pub data: Option<BodyView>,
}

pub open spec fn empty_doc() -> PartialDoc {
    PartialDoc {
        handle: None,
        uri: None,
        args: None,
        unparsed_uri: None,
        method: None,
        protocol: None,
        headers: None,
        data: None,
    }
}

pub open spec fn is_text_key(k: Seq<char>) -> bool {
    k == "uri"@ || k == "args"@ || k == "unparsedUri"@ || k == "method"@ || k == "protocol"@
}

pub open spec fn set_text_key(p: PartialDoc, k: Seq<char>, t: Seq<char>) -> PartialDoc {
    if k == "uri"@ { PartialDoc { uri: Some(t), ..p } }
    else if k == "args"@ { PartialDoc { args: Some(t), ..p } }
    else if k == "unparsedUri"@ { PartialDoc { unparsed_uri: Some(t), ..p } }
    else if k == "method"@ { PartialDoc { method: Some(t), ..p } }
    else { PartialDoc { protocol: Some(t), ..p } }
}

/// One top-level member's value, read at `j2` under the key `k`: each known
/// key requires the schema's type; a member under an unknown name is
/// ignored if its value is scalar.
pub open spec fn top_member_value(s: Seq<char>, j2: int, k: Seq<char>, acc: PartialDoc) -> Option<
    (PartialDoc, int),
> {
    if k == "requestHandle"@ {
        match parse_int(s, j2) {
            Some((v, j3)) => Some((PartialDoc { handle: Some(v), ..acc }, j3)),
            None => None,
        }
    } else if is_text_key(k) {
        if 0 <= j2 < s.len() && s[j2] == '"' {
            match parse_string_body(s, j2 + 1, Seq::empty()) {
                Some((t, j3)) => Some((set_text_key(acc, k, t), j3)),
                None => None,
            }
        } else {
            None
        }
    } else if k == "headers"@ {
        if 0 <= j2 < s.len() && s[j2] == '{' {
            match parse_headers_obj(s, j2 + 1) {
                Some((hs, j3)) => Some((PartialDoc { headers: Some(hs), ..acc }, j3)),
                None => None,
            }
        } else {
            None
        }
    } else if k == "data"@ {
        if 0 <= j2 < s.len() && s[j2] == '{' {
            match parse_data_obj(s, j2 + 1) {
                Some((b, j3)) => Some((PartialDoc { data: Some(b), ..acc }, j3)),
                None => None,
            }
        } else {
            None
        }
    } else {
        match skip_value(s, j2) {
            Some(j3) => Some((acc, j3)),
            None => None,
        }
    }
}

/// Members of the top-level object, read at the position of a key.
pub open spec fn parse_top_items(s: Seq<char>, i: int, acc: PartialDoc) -> Option<(PartialDoc, int)>
    decreases s.len() - i,
{
    if !(0 <= i < s.len() && s[i] == '"') {
        None
    } else {
        match parse_string_body(s, i + 1, Seq::empty()) {
            Some((k, j)) => {
                let j1 = skip_ws(s, j);
                if 0 <= j1 < s.len() && s[j1] == ':' {
                    let j2 = skip_ws(s, j1 + 1);
                    match top_member_value(s, j2, k, acc) {
                        Some((acc2, j3)) => {
                            let j4 = skip_ws(s, j3);
                            if 0 <= j4 < s.len() && s[j4] == '}' {
                                Some((acc2, j4 + 1))
                            } else if 0 <= j4 < s.len() && s[j4] == ',' {
                                let j5 = skip_ws(s, j4 + 1);
                                if i < j5 <= s.len() {
                                    parse_top_items(s, j5, acc2)
                                } else {
                                    None
                                }
                            } else {
                                None
                            }
                        },
                        None => None,
                    }
                } else {
                    None
                }
            },
            None => None,
        }
    }
}

/// A collected document is complete when every required field arrived.
pub open spec fn complete_doc(p: PartialDoc) -> Option<DescView> {
    if p.handle is Some && p.uri is Some && p.args is Some && p.unparsed_uri is Some
        && p.method is Some && p.protocol is Some && p.headers is Some && p.data is Some {
        Some(DescView {
            correlation_handle: p.handle->Some_0,
            target_uri: p.uri->Some_0,
            raw_args: p.args->Some_0,
            unparsed_uri: p.unparsed_uri->Some_0,
            http_method: p.method->Some_0,
            protocol_version: p.protocol->Some_0,
            headers: p.headers->Some_0,
            body: p.data->Some_0,
        })
    } else {
        None
    }
}

/// Deserialization of a whole document: one top-level object and nothing but
/// whitespace around it.
pub open spec fn parse_doc(s: Seq<char>) -> Option<DescView> {
    let i0 = skip_ws(s, 0);
    if 0 <= i0 < s.len() && s[i0] == '{' {
        let i1 = skip_ws(s, i0 + 1);
        let parsed: Option<(PartialDoc, int)> = if 0 <= i1 < s.len() && s[i1] == '}' {
            Some((empty_doc(), i1 + 1))
        } else {
            parse_top_items(s, i1, empty_doc())
        };
        match parsed {
            Some((p, j)) => {
                if skip_ws(s, j) == s.len() { complete_doc(p) } else { None }
            },
            None => None,
        }
    } else {
        None
    }
}

} // verus!
