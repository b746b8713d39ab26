//! Round-trip fidelity: deserializing the relay's own re-encoding of a
//! well-formed descriptor gives back exactly that descriptor.

use vstd::prelude::*;
use crate::chars::{
    is_ws, is_digit, is_plain, esc_char, esc_seq, quoted, hex_val, char_of, hex_char,
    lemma_char_of_code, lemma_hex_round, lemma_plain_esc_id,
};
use crate::numbers::{dec_int, dec_digits, parse_int, lemma_parse_int_render, lemma_dec_digits_all_digits, lemma_dec_digits_len};
use crate::decode::{
    skip_ws, parse_string_body, parse_scalar, parse_headers_items, parse_headers_obj,
    parse_data_items, parse_data_obj, parse_top_items, parse_doc, upsert, has_key, data_update,
    lit_null, complete_doc, empty_doc, is_text_key, set_text_key, is_data_key, top_member_value,
    PartialDoc, ScalarVal,
};
use crate::descriptor::{wf_headers, wf_desc, BodyView, DescView};
use crate::encode::{ser_header_items, ser_headers, ser_opt, ser_data, ser_doc};
use vstd::arithmetic::div_mod::lemma_fundamental_div_mod;

verus! {

/// The text `t` stands in `s` at position `i`.
pub open spec fn text_at(s: Seq<char>, i: int, t: Seq<char>) -> bool {
    &&& 0 <= i
    &&& i + t.len() <= s.len()
    &&& s.subrange(i, i + t.len() as int) == t
}

pub proof fn lemma_text_index(s: Seq<char>, i: int, t: Seq<char>, k: int)
    requires
        text_at(s, i, t),
        0 <= k < t.len(),
    ensures
        s[i + k] == t[k],
{
    assert(s.subrange(i, i + t.len() as int)[k] == s[i + k]);
}

pub proof fn lemma_text_concat(s: Seq<char>, i: int, a: Seq<char>, b: Seq<char>)
    requires
        text_at(s, i, a + b),
    ensures
        text_at(s, i, a),
        text_at(s, i + a.len(), b),
{
    assert forall|k: int| 0 <= k < a.len() implies s.subrange(i, i + a.len() as int)[k] == a[k] by {
        lemma_text_index(s, i, a + b, k);
        assert((a + b)[k] == a[k]);
    }
    assert(s.subrange(i, i + a.len() as int) =~= a);
    assert forall|k: int| 0 <= k < b.len() implies s.subrange(
        i + a.len(),
        i + a.len() + b.len() as int,
    )[k] == b[k] by {
        lemma_text_index(s, i, a + b, a.len() + k);
        assert((a + b)[a.len() + k] == b[k]);
    }
    assert(s.subrange(i + a.len(), i + a.len() + b.len() as int) =~= b);
}

pub proof fn lemma_text_within(s: Seq<char>, i: int, t: Seq<char>, a: int, b: int)
    requires
        text_at(s, i, t),
        0 <= a <= b <= t.len(),
    ensures
        text_at(s, i + a, t.subrange(a, b)),
{
    assert forall|k: int| 0 <= k < b - a implies s.subrange(i + a, i + b)[k] == t.subrange(a, b)[k]
        by {
        lemma_text_index(s, i, t, a + k);
    }
    assert(s.subrange(i + a, i + b) =~= t.subrange(a, b));
}

/// `skip_ws` runs over a whitespace stretch and stops at the first character
/// that is not whitespace (or at the end of the text).
pub proof fn lemma_skip_ws_run(s: Seq<char>, i: int, j: int)
    requires
        0 <= i <= j <= s.len(),
        forall|k: int| i <= k < j ==> is_ws(#[trigger] s[k]),
        j == s.len() || !is_ws(s[j]),
    ensures
        skip_ws(s, i) == j,
    decreases j - i,
{
    if i < j {
        lemma_skip_ws_run(s, i + 1, j);
    }
}

/// Reading a string body from the encoder's escape of `t` (followed by the
/// closing quote) decodes exactly `t`.
pub proof fn lemma_parse_body(s: Seq<char>, i: int, t: Seq<char>, acc: Seq<char>)
    requires
        text_at(s, i, esc_seq(t) + seq!['"']),
    ensures
        parse_string_body(s, i, acc) == Some((acc + t, i + esc_seq(t).len() + 1)),
    decreases t.len(),
{
    if t.len() == 0 {
        assert(esc_seq(t) + seq!['"'] =~= seq!['"']);
        lemma_text_index(s, i, seq!['"'], 0);
        assert(s[i] == '"');
        assert(acc + t =~= acc);
    } else {
        let c = t[0];
        let e = esc_char(c);
        let t2 = t.skip(1);
        assert(esc_seq(t) == e + esc_seq(t2));
        assert(esc_seq(t) + seq!['"'] =~= e + (esc_seq(t2) + seq!['"']));
        lemma_text_concat(s, i, e, esc_seq(t2) + seq!['"']);
        let i2 = i + e.len();
        assert(acc.push(c) + t2 =~= acc + t);
        if c == '"' {
            lemma_text_index(s, i, e, 0);
            lemma_text_index(s, i, e, 1);
            assert(s[i] == '\\' && s[i + 1] == '"');
            lemma_parse_body(s, i + 2, t2, acc.push(c));
        } else if c == '\\' {
            lemma_text_index(s, i, e, 0);
            lemma_text_index(s, i, e, 1);
            assert(s[i] == '\\' && s[i + 1] == '\\');
            lemma_parse_body(s, i + 2, t2, acc.push(c));
        } else if (c as u32) < 0x20 {
            let hi = ((c as u32) / 16) as nat;
            let lo = ((c as u32) % 16) as nat;
            assert(e.len() == 6);
            lemma_text_index(s, i, e, 0);
            lemma_text_index(s, i, e, 1);
            lemma_text_index(s, i, e, 2);
            lemma_text_index(s, i, e, 3);
            lemma_text_index(s, i, e, 4);
            lemma_text_index(s, i, e, 5);
            assert(s[i] == '\\' && s[i + 1] == 'u' && s[i + 2] == '0' && s[i + 3] == '0');
            assert(s[i + 4] == hex_char(hi) && s[i + 5] == hex_char(lo));
            lemma_hex_round(hi);
            lemma_hex_round(lo);
            assert(hex_val('0') == 0);
            let v = hex_val(s[i + 2]) * 4096 + hex_val(s[i + 3]) * 256 + hex_val(s[i + 4]) * 16
                + hex_val(s[i + 5]);
            assert(v == hi * 16 + lo);
            assert(hi * 16 + lo == c as u32) by {
                lemma_fundamental_div_mod(c as u32 as int, 16);
            }
            assert(v < 0x20);
            lemma_char_of_code(c);
            assert(char_of(v) == c);
            assert(i + 5 < s.len());
            lemma_parse_body(s, i + 6, t2, acc.push(c));
        } else {
            assert(e =~= seq![c]);
            lemma_text_index(s, i, e, 0);
            assert(s[i] == c);
            lemma_parse_body(s, i + 1, t2, acc.push(c));
        }
    }
}

/// Reading a string body from the encoder's quoted literal for `t`.
pub proof fn lemma_parse_quoted(s: Seq<char>, i: int, t: Seq<char>)
    requires
        text_at(s, i, quoted(t)),
    ensures
        s[i] == '"',
        parse_string_body(s, i + 1, Seq::empty()) == Some((t, i + quoted(t).len())),
{
    assert(quoted(t) =~= seq!['"'] + (esc_seq(t) + seq!['"']));
    lemma_text_concat(s, i, seq!['"'], esc_seq(t) + seq!['"']);
    lemma_text_index(s, i, seq!['"'], 0);
    lemma_parse_body(s, i + 1, t, Seq::empty());
    assert(Seq::<char>::empty() + t =~= t);
}

proof fn lemma_has_key_extend(hs: Seq<(Seq<char>, Seq<char>)>, k0: Seq<char>, v0: Seq<char>, k: Seq<char>)
    ensures
        has_key(hs.push((k0, v0)), k) <==> (has_key(hs, k) || k == k0),
{
    let hs2 = hs.push((k0, v0));
    if has_key(hs, k) {
        let idx = choose|idx: int| 0 <= idx < hs.len() && (#[trigger] hs[idx]).0 == k;
        assert(hs2[idx].0 == k);
    }
    if k == k0 {
        assert(hs2[hs.len() as int].0 == k);
    }
    if has_key(hs2, k) {
        let idx = choose|idx: int| 0 <= idx < hs2.len() && (#[trigger] hs2[idx]).0 == k;
        if idx < hs.len() {
            assert(hs[idx].0 == k);
        }
    }
}

/// Storing a name not yet present appends the pair.
proof fn lemma_upsert_fresh(hs: Seq<(Seq<char>, Seq<char>)>, k: Seq<char>, v: Seq<char>)
    requires
        !has_key(hs, k),
    ensures
        upsert(hs, k, v) == hs.push((k, v)),
    decreases hs.len(),
{
    if hs.len() == 0 {
        assert(upsert(hs, k, v) =~= hs.push((k, v)));
    } else {
        assert(hs[0].0 != k) by {
            if hs[0].0 == k {
                assert(has_key(hs, k));
            }
        }
        assert(!has_key(hs.skip(1), k)) by {
            if has_key(hs.skip(1), k) {
                let idx = choose|idx: int| 0 <= idx < hs.skip(1).len() && (#[trigger] hs.skip(
                    1,
                )[idx]).0 == k;
                assert(hs[idx + 1].0 == k);
            }
        }
        lemma_upsert_fresh(hs.skip(1), k, v);
        assert(upsert(hs, k, v) =~= hs.push((k, v)));
    }
}

/// The text of a headers object from its first key through its closing
/// brace — the stretch the member parser walks.
pub open spec fn headers_tail_text(hs: Seq<(Seq<char>, Seq<char>)>) -> Seq<char>
    decreases hs.len(),
{
    if hs.len() == 0 {
        Seq::empty()
    } else {
        quoted(hs[0].0) + ": "@ + quoted(hs[0].1) + (if hs.len() > 1 {
            seq![','] + "\n    "@ + headers_tail_text(hs.skip(1))
        } else {
            "\n  }"@
        })
    }
}

proof fn lemma_headers_text_bridge(hs: Seq<(Seq<char>, Seq<char>)>)
    requires
        hs.len() >= 1,
    ensures
        ser_header_items(hs) + "\n  }"@ == "\n    "@ + headers_tail_text(hs),
    decreases hs.len(),
{
    if hs.len() == 1 {
        assert(ser_header_items(hs) + "\n  }"@ =~= "\n    "@ + headers_tail_text(hs));
    } else {
        lemma_headers_text_bridge(hs.skip(1));
        assert(ser_header_items(hs) + "\n  }"@ =~= "\n    "@ + quoted(hs[0].0) + ": "@ + quoted(
            hs[0].1,
        ) + seq![','] + (ser_header_items(hs.skip(1)) + "\n  }"@));
        assert("\n    "@ + quoted(hs[0].0) + ": "@ + quoted(hs[0].1) + seq![','] + ("\n    "@
            + headers_tail_text(hs.skip(1))) =~= "\n    "@ + headers_tail_text(hs));
    }
}

proof fn lemma_parse_headers_run(
    s: Seq<char>,
    i: int,
    acc: Seq<(Seq<char>, Seq<char>)>,
    hs: Seq<(Seq<char>, Seq<char>)>,
)
    requires
        hs.len() >= 1,
        text_at(s, i, headers_tail_text(hs)),
        wf_headers(hs),
        forall|m: int| 0 <= m < hs.len() ==> !has_key(acc, (#[trigger] hs[m]).0),
    ensures
        parse_headers_items(s, i, acc) == Some((acc + hs, i + headers_tail_text(hs).len())),
    decreases hs.len(),
{
    let k0 = hs[0].0;
    let v0 = hs[0].1;
    let tail = headers_tail_text(hs);
    let qk = quoted(k0);
    let qv = quoted(v0);
    let lk = qk.len() as int;
    let lv = qv.len() as int;
    reveal_strlit(": ");
    reveal_strlit("\n  }");
    reveal_strlit("\n    ");
    let acc2 = upsert(acc, k0, v0);
    assert(!has_key(acc, k0));
    lemma_upsert_fresh(acc, k0, v0);
    assert(acc2 =~= acc + seq![(k0, v0)]);
    if hs.len() == 1 {
        assert(tail =~= qk + (": "@ + (qv + "\n  }"@)));
        lemma_text_concat(s, i, qk, ": "@ + (qv + "\n  }"@));
        lemma_text_concat(s, i + lk, ": "@, qv + "\n  }"@);
        let pv = i + lk + 2;
        lemma_text_concat(s, pv, qv, "\n  }"@);
        lemma_parse_quoted(s, i, k0);
        let j = i + lk;
        lemma_text_index(s, j, ": "@, 0);
        lemma_text_index(s, j, ": "@, 1);
        assert(s[j] == ':' && s[j + 1] == ' ');
        assert(skip_ws(s, j) == j);
        lemma_parse_quoted(s, pv, v0);
        assert(s[pv] == '"');
        lemma_skip_ws_run(s, j + 1, pv);
        let j3 = pv + lv;
        lemma_text_index(s, j3, "\n  }"@, 0);
        lemma_text_index(s, j3, "\n  }"@, 1);
        lemma_text_index(s, j3, "\n  }"@, 2);
        lemma_text_index(s, j3, "\n  }"@, 3);
        assert(s[j3 + 3] == '}');
        lemma_skip_ws_run(s, j3, j3 + 3);
        assert(acc + seq![(k0, v0)] =~= acc + hs);
        assert(parse_headers_items(s, i, acc) == Some((acc2, j3 + 4)));
        assert(j3 + 4 == i + tail.len());
    } else {
        let rest = headers_tail_text(hs.skip(1));
        assert(tail =~= qk + (": "@ + (qv + (seq![','] + ("\n    "@ + rest)))));
        lemma_text_concat(s, i, qk, ": "@ + (qv + (seq![','] + ("\n    "@ + rest))));
        lemma_text_concat(s, i + lk, ": "@, qv + (seq![','] + ("\n    "@ + rest)));
        let pv = i + lk + 2;
        lemma_text_concat(s, pv, qv, seq![','] + ("\n    "@ + rest));
        let j3 = pv + lv;
        lemma_text_concat(s, j3, seq![','], "\n    "@ + rest);
        lemma_text_concat(s, j3 + 1, "\n    "@, rest);
        lemma_parse_quoted(s, i, k0);
        let j = i + lk;
        lemma_text_index(s, j, ": "@, 0);
        lemma_text_index(s, j, ": "@, 1);
        assert(s[j] == ':' && s[j + 1] == ' ');
        assert(skip_ws(s, j) == j);
        lemma_parse_quoted(s, pv, v0);
        assert(s[pv] == '"');
        lemma_skip_ws_run(s, j + 1, pv);
        lemma_text_index(s, j3, seq![','], 0);
        assert(s[j3] == ',');
        assert(skip_ws(s, j3) == j3);
        let j5 = j3 + 6;
        lemma_text_index(s, j3 + 1, "\n    "@, 0);
        lemma_text_index(s, j3 + 1, "\n    "@, 1);
        lemma_text_index(s, j3 + 1, "\n    "@, 2);
        lemma_text_index(s, j3 + 1, "\n    "@, 3);
        lemma_text_index(s, j3 + 1, "\n    "@, 4);
        assert(rest.len() >= 1) by {
            assert(hs.skip(1).len() >= 1);
        }
        lemma_text_index(s, j5, rest, 0);
        assert(rest[0] == quoted(hs.skip(1)[0].0)[0]);
        assert(quoted(hs.skip(1)[0].0)[0] == '"');
        assert(s[j5] == '"');
        lemma_skip_ws_run(s, j3 + 1, j5);
        assert(wf_headers(hs.skip(1))) by {
            assert forall|a: int, b: int| 0 <= a < b < hs.skip(1).len() implies (#[trigger] hs.skip(
                1,
            )[a]).0 != (#[trigger] hs.skip(1)[b]).0 by {
                assert(hs.skip(1)[a] == hs[a + 1]);
                assert(hs.skip(1)[b] == hs[b + 1]);
            }
        }
        assert(forall|m: int| 0 <= m < hs.skip(1).len() ==> !has_key(acc2, (#[trigger] hs.skip(
            1,
        )[m]).0)) by {
            assert forall|m: int| 0 <= m < hs.skip(1).len() implies !has_key(acc2, (#[trigger] hs.skip(
                1,
            )[m]).0) by {
                assert(hs.skip(1)[m] == hs[m + 1]);
                assert(hs[m + 1].0 != k0);
                assert(acc2 == acc.push((k0, v0)));
                lemma_has_key_extend(acc, k0, v0, hs[m + 1].0);
            }
        }
        lemma_parse_headers_run(s, j5, acc2, hs.skip(1));
        assert(acc2 + hs.skip(1) =~= acc + hs);
        assert(parse_headers_items(s, i, acc) == Some((acc + hs, j5 + rest.len())));
        assert(j5 + rest.len() == i + tail.len());
    }
}

/// Reading the headers object of the encoder's rendering restores exactly
/// the stored pairs, provided their names were distinct.
proof fn lemma_parse_headers_render(s: Seq<char>, i: int, hs: Seq<(Seq<char>, Seq<char>)>)
    requires
        text_at(s, i, ser_headers(hs)),
        wf_headers(hs),
    ensures
        s[i] == '{',
        parse_headers_obj(s, i + 1) == Some((hs, i + ser_headers(hs).len())),
{
    if hs.len() == 0 {
        reveal_strlit("{}");
        lemma_text_index(s, i, "{}"@, 0);
        lemma_text_index(s, i, "{}"@, 1);
        assert(s[i] == '{' && s[i + 1] == '}');
        assert(skip_ws(s, i + 1) == i + 1);
        assert(Seq::<(Seq<char>, Seq<char>)>::empty() =~= hs);
    } else {
        reveal_strlit("\n    ");
        lemma_headers_text_bridge(hs);
        let tail = headers_tail_text(hs);
        assert(ser_headers(hs) =~= seq!['{'] + ("\n    "@ + tail));
        lemma_text_concat(s, i, seq!['{'], "\n    "@ + tail);
        lemma_text_concat(s, i + 1, "\n    "@, tail);
        lemma_text_index(s, i, seq!['{'], 0);
        assert(s[i] == '{');
        lemma_text_index(s, i + 1, "\n    "@, 0);
        lemma_text_index(s, i + 1, "\n    "@, 1);
        lemma_text_index(s, i + 1, "\n    "@, 2);
        lemma_text_index(s, i + 1, "\n    "@, 3);
        lemma_text_index(s, i + 1, "\n    "@, 4);
        assert(tail.len() >= 1);
        lemma_text_index(s, i + 6, tail, 0);
        assert(tail[0] == quoted(hs[0].0)[0]);
        assert(quoted(hs[0].0)[0] == '"');
        assert(s[i + 6] == '"');
        lemma_skip_ws_run(s, i + 1, i + 6);
        assert(forall|m: int| 0 <= m < hs.len() ==> !has_key(
            Seq::<(Seq<char>, Seq<char>)>::empty(),
            (#[trigger] hs[m]).0,
        ));
        lemma_parse_headers_run(s, i + 6, Seq::empty(), hs);
        assert(Seq::<(Seq<char>, Seq<char>)>::empty() + hs =~= hs);
        assert(i + 6 + tail.len() == i + ser_headers(hs).len());
    }
}

/// The shape of one member's opening: some indentation, the quoted plain
/// key, a colon and a space; the value follows at `p + lit.len()`.
proof fn lemma_member_prefix(s: Seq<char>, p: int, lit: Seq<char>, ind: int, key: Seq<char>)
    requires
        text_at(s, p, lit),
        0 <= ind,
        lit.len() == ind + key.len() + 4,
        forall|k: int| 0 <= k < ind ==> is_ws(#[trigger] lit[k]),
        lit[ind] == '"',
        lit.subrange(ind + 1, ind + 2 + key.len() as int) == key + seq!['"'],
        lit[lit.len() - 2] == ':',
        lit[lit.len() - 1] == ' ',
        forall|k: int| 0 <= k < key.len() ==> is_plain(#[trigger] key[k]),
        p + lit.len() < s.len(),
        !is_ws(s[p + lit.len()]),
    ensures
        skip_ws(s, p) == p + ind,
        s[p + ind] == '"',
        parse_string_body(s, p + ind + 1, Seq::empty()) == Some((key, p + ind + key.len() + 2)),
        skip_ws(s, p + ind + key.len() + 2) == p + ind + key.len() + 2,
        s[p + ind + key.len() + 2] == ':',
        skip_ws(s, p + ind + key.len() + 3) == p + lit.len(),
{
    let lk = key.len() as int;
    assert forall|k: int| p <= k < p + ind implies is_ws(#[trigger] s[k]) by {
        lemma_text_index(s, p, lit, k - p);
    }
    lemma_text_index(s, p, lit, ind);
    assert(s[p + ind] == '"');
    lemma_skip_ws_run(s, p, p + ind);
    lemma_text_within(s, p, lit, ind + 1, ind + 2 + lk);
    lemma_plain_esc_id(key);
    assert(key + seq!['"'] =~= esc_seq(key) + seq!['"']);
    lemma_parse_body(s, p + ind + 1, key, Seq::empty());
    assert(Seq::<char>::empty() + key =~= key);
    lemma_text_index(s, p, lit, ind + lk + 2);
    assert(s[p + ind + lk + 2] == ':');
    lemma_text_index(s, p, lit, ind + lk + 3);
    assert(s[p + ind + lk + 3] == ' ');
    lemma_skip_ws_run(s, p + ind + lk + 3, p + lit.len());
}

/// A scalar at the start of an optional-text rendering parses back to the
/// optional text.
proof fn lemma_parse_opt(s: Seq<char>, i: int, o: Option<Seq<char>>)
    requires
        text_at(s, i, ser_opt(o)),
        i + ser_opt(o).len() < s.len(),
    ensures
        !is_ws(s[i]),
        parse_scalar(s, i) == Some(
            (
                match o {
                    Some(t) => ScalarVal::VStr(t),
                    None => ScalarVal::VNull,
                },
                i + ser_opt(o).len(),
            ),
        ),
{
    match o {
        Some(t) => {
            lemma_parse_quoted(s, i, t);
        },
        None => {
            reveal_strlit("null");
            lemma_text_index(s, i, "null"@, 0);
            lemma_text_index(s, i, "null"@, 1);
            lemma_text_index(s, i, "null"@, 2);
            lemma_text_index(s, i, "null"@, 3);
            assert(s[i] == 'n' && s[i + 1] == 'u' && s[i + 2] == 'l' && s[i + 3] == 'l');
            assert(lit_null(s, i));
        },
    }
}

/// One inner member of the data object, followed by a comma: the member
/// parser steps to the next key with the payload updated.
proof fn lemma_data_step(
    s: Seq<char>,
    k: int,
    key: Seq<char>,
    sv: ScalarVal,
    jk: int,
    pv: int,
    j3: int,
    bin: BodyView,
    bout: BodyView,
    knext: int,
)
    requires
        0 <= k < s.len(),
        s[k] == '"',
        parse_string_body(s, k + 1, Seq::empty()) == Some((key, jk)),
        skip_ws(s, jk) == jk,
        0 <= jk < s.len(),
        s[jk] == ':',
        skip_ws(s, jk + 1) == pv,
        is_data_key(key),
        parse_scalar(s, pv) == Some((sv, j3)),
        data_update(bin, key, sv) == Some(bout),
        skip_ws(s, j3) == j3,
        0 <= j3 < s.len(),
        s[j3] == ',',
        skip_ws(s, j3 + 1) == knext,
        k < knext <= s.len(),
    ensures
        parse_data_items(s, k, bin) == parse_data_items(s, knext, bout),
{
}

/// The last member of the data object, followed by the closing brace.
proof fn lemma_data_last(
    s: Seq<char>,
    k: int,
    key: Seq<char>,
    sv: ScalarVal,
    jk: int,
    pv: int,
    j3: int,
    bin: BodyView,
    bout: BodyView,
    jend: int,
)
    requires
        0 <= k < s.len(),
        s[k] == '"',
        parse_string_body(s, k + 1, Seq::empty()) == Some((key, jk)),
        skip_ws(s, jk) == jk,
        0 <= jk < s.len(),
        s[jk] == ':',
        skip_ws(s, jk + 1) == pv,
        is_data_key(key),
        parse_scalar(s, pv) == Some((sv, j3)),
        data_update(bin, key, sv) == Some(bout),
        skip_ws(s, j3) == jend,
        0 <= jend < s.len(),
        s[jend] == '}',
    ensures
        parse_data_items(s, k, bin) == Some((bout, jend + 1)),
{
}

pub open spec fn scalar_of_opt(o: Option<Seq<char>>) -> ScalarVal {
    match o {
        Some(t) => ScalarVal::VStr(t),
        None => ScalarVal::VNull,
    }
}

/// Where every token of the rendered data object stands, and what the
/// token-level parsers give on each.
#[verifier::rlimit(100)]
#[verifier::spinoff_prover]
proof fn lemma_data_texts(s: Seq<char>, i: int, b: BodyView, pv1: int, pc1: int, pv2: int, pc2: int, pv3: int, pe: int)
    requires
        text_at(s, i, ser_data(b)),
        i + ser_data(b).len() < s.len(),
        pv1 == i + 14,
        pc1 == pv1 + ser_opt(b.utf8).len(),
        pv2 == pc1 + 13,
        pc2 == pv2 + ser_opt(b.hex).len(),
        pv3 == pc2 + 14,
        pe == pv3 + ser_opt(b.file).len(),
    ensures
        s[i] == '{',
        skip_ws(s, i + 1) == i + 6,
        s[i + 6] == '"',
        parse_string_body(s, i + 7, Seq::empty()) == Some(("utf8"@, i + 12)),
        skip_ws(s, i + 12) == i + 12,
        s[i + 12] == ':',
        skip_ws(s, i + 13) == pv1,
        parse_scalar(s, pv1) == Some((scalar_of_opt(b.utf8), pc1)),
        s[pc1] == ',',
        skip_ws(s, pc1 + 1) == pc1 + 6,
        s[pc1 + 6] == '"',
        parse_string_body(s, pc1 + 7, Seq::empty()) == Some(("hex"@, pc1 + 11)),
        skip_ws(s, pc1 + 11) == pc1 + 11,
        s[pc1 + 11] == ':',
        skip_ws(s, pc1 + 12) == pv2,
        parse_scalar(s, pv2) == Some((scalar_of_opt(b.hex), pc2)),
        s[pc2] == ',',
        skip_ws(s, pc2 + 1) == pc2 + 6,
        s[pc2 + 6] == '"',
        parse_string_body(s, pc2 + 7, Seq::empty()) == Some(("file"@, pc2 + 12)),
        skip_ws(s, pc2 + 12) == pc2 + 12,
        s[pc2 + 12] == ':',
        skip_ws(s, pc2 + 13) == pv3,
        parse_scalar(s, pv3) == Some((scalar_of_opt(b.file), pe)),
        skip_ws(s, pe) == pe + 3,
        s[pe + 3] == '}',
        pe + 3 < s.len(),
        pe + 4 == i + ser_data(b).len(),
{
    let u_lit = "\n    \"utf8\": "@;
    let h_lit = "\n    \"hex\": "@;
    let f_lit = "\n    \"file\": "@;
    reveal_strlit("\n    \"utf8\": ");
    reveal_strlit("\n    \"hex\": ");
    reveal_strlit("\n    \"file\": ");
    reveal_strlit("\n  }");
    reveal_strlit("utf8");
    reveal_strlit("hex");
    reveal_strlit("file");
    let o1 = ser_opt(b.utf8);
    let o2 = ser_opt(b.hex);
    let o3 = ser_opt(b.file);
    let x1 = seq!['{'];
    let x2 = x1 + u_lit;
    let x3 = x2 + o1;
    let x4 = x3 + seq![','];
    let x5 = x4 + h_lit;
    let x6 = x5 + o2;
    let x7 = x6 + seq![','];
    let x8 = x7 + f_lit;
    let x9 = x8 + o3;
    let x10 = x9 + "\n  }"@;
    assert(ser_data(b) == x10);
    assert(text_at(s, i, x10)) by {
        lemma_text_within(s, i, ser_data(b), 0, ser_data(b).len() as int);
        assert(ser_data(b).subrange(0, ser_data(b).len() as int) =~= ser_data(b));
    }
    lemma_text_concat(s, i, x9, "\n  }"@);
    lemma_text_concat(s, i, x8, o3);
    lemma_text_concat(s, i, x7, f_lit);
    lemma_text_concat(s, i, x6, seq![',']);
    lemma_text_concat(s, i, x5, o2);
    lemma_text_concat(s, i, x4, h_lit);
    lemma_text_concat(s, i, x3, seq![',']);
    lemma_text_concat(s, i, x2, o1);
    lemma_text_concat(s, i, x1, u_lit);
    lemma_text_index(s, i, x1, 0);
    let p1 = i + 1;
    let p2 = pc1 + 1;
    let p3 = pc2 + 1;
    assert(i + x2.len() == pv1);
    assert(i + x4.len() == p2);
    assert(i + x5.len() == pv2);
    assert(i + x7.len() == p3);
    assert(i + x8.len() == pv3);
    assert(i + x9.len() == pe);
    // member "utf8"
    assert(u_lit.subrange(6, 11) =~= "utf8"@ + seq!['"']);
    lemma_parse_opt(s, pv1, b.utf8);
    lemma_member_prefix(s, p1, u_lit, 5, "utf8"@);
    lemma_text_index(s, pc1, seq![','], 0);
    // member "hex"
    assert(h_lit.subrange(6, 10) =~= "hex"@ + seq!['"']);
    lemma_parse_opt(s, pv2, b.hex);
    lemma_member_prefix(s, p2, h_lit, 5, "hex"@);
    lemma_text_index(s, pc2, seq![','], 0);
    // member "file"
    assert(f_lit.subrange(6, 11) =~= "file"@ + seq!['"']);
    lemma_parse_opt(s, pv3, b.file);
    lemma_member_prefix(s, p3, f_lit, 5, "file"@);
    lemma_text_index(s, pe, "\n  }"@, 0);
    lemma_text_index(s, pe, "\n  }"@, 1);
    lemma_text_index(s, pe, "\n  }"@, 2);
    lemma_text_index(s, pe, "\n  }"@, 3);
    lemma_skip_ws_run(s, pe, pe + 3);
    assert(skip_ws(s, pc1 + 1) == pc1 + 6) by {
        assert(skip_ws(s, p2) == p2 + 5);
    }
    assert(skip_ws(s, pc2 + 1) == pc2 + 6) by {
        assert(skip_ws(s, p3) == p3 + 5);
    }
}

/// Reading the data object of the encoder's rendering restores the payload.
proof fn lemma_parse_data_render(s: Seq<char>, i: int, b: BodyView)
    requires
        text_at(s, i, ser_data(b)),
        i + ser_data(b).len() < s.len(),
    ensures
        s[i] == '{',
        parse_data_obj(s, i + 1) == Some((b, i + ser_data(b).len())),
{
    let pv1 = i + 14;
    let pc1 = pv1 + ser_opt(b.utf8).len();
    let pv2 = pc1 + 13;
    let pc2 = pv2 + ser_opt(b.hex).len();
    let pv3 = pc2 + 14;
    let pe = pv3 + ser_opt(b.file).len();
    lemma_data_texts(s, i, b, pv1, pc1, pv2, pc2, pv3, pe);
    let k1 = i + 6;
    let k2 = pc1 + 6;
    let k3 = pc2 + 6;
    let b0 = BodyView { utf8: None, hex: None, file: None };
    let b1 = BodyView { utf8: b.utf8, hex: None, file: None };
    let b2 = BodyView { utf8: b.utf8, hex: b.hex, file: None };
    reveal_strlit("utf8");
    reveal_strlit("hex");
    reveal_strlit("file");
    assert("hex"@ != "utf8"@) by {
        assert("hex"@.len() == 3 && "utf8"@.len() == 4);
    }
    assert("file"@ != "utf8"@) by {
        if "file"@ == "utf8"@ {
            assert("file"@[0] == "utf8"@[0]);
        }
    }
    assert("file"@ != "hex"@) by {
        assert("hex"@.len() == 3 && "file"@.len() == 4);
    }
    assert(data_update(b0, "utf8"@, scalar_of_opt(b.utf8)) == Some(b1));
    assert(data_update(b1, "hex"@, scalar_of_opt(b.hex)) == Some(b2));
    assert(data_update(b2, "file"@, scalar_of_opt(b.file)) == Some(b)) by {
        assert(b == BodyView { utf8: b.utf8, hex: b.hex, file: b.file });
    }
    assert(skip_ws(s, pc1) == pc1);
    assert(skip_ws(s, pc2) == pc2);
    lemma_data_step(s, k1, "utf8"@, scalar_of_opt(b.utf8), i + 12, pv1, pc1, b0, b1, k2);
    lemma_data_step(s, k2, "hex"@, scalar_of_opt(b.hex), pc1 + 11, pv2, pc2, b1, b2, k3);
    lemma_data_last(s, k3, "file"@, scalar_of_opt(b.file), pc2 + 12, pv3, pe, b2, b, pe + 3);
    assert(s[k1] != '}');
    assert(parse_data_obj(s, i + 1) == parse_data_items(s, k1, b0));
    assert(parse_data_items(s, k1, b0) == Some((b, pe + 4)));
}

/// One top-level member followed by a comma: the member parser steps to the
/// next key with the document updated.
proof fn lemma_top_step(
    s: Seq<char>,
    kpos: int,
    key: Seq<char>,
    jk: int,
    j2: int,
    acc: PartialDoc,
    acc2: PartialDoc,
    j3: int,
    knext: int,
)
    requires
        0 <= kpos < s.len(),
        s[kpos] == '"',
        parse_string_body(s, kpos + 1, Seq::empty()) == Some((key, jk)),
        skip_ws(s, jk) == jk,
        0 <= jk < s.len(),
        s[jk] == ':',
        skip_ws(s, jk + 1) == j2,
        top_member_value(s, j2, key, acc) == Some((acc2, j3)),
        skip_ws(s, j3) == j3,
        0 <= j3 < s.len(),
        s[j3] == ',',
        skip_ws(s, j3 + 1) == knext,
        kpos < knext <= s.len(),
    ensures
        parse_top_items(s, kpos, acc) == parse_top_items(s, knext, acc2),
{
}

/// The last top-level member, followed by the closing brace.
proof fn lemma_top_last(
    s: Seq<char>,
    kpos: int,
    key: Seq<char>,
    jk: int,
    j2: int,
    acc: PartialDoc,
    acc2: PartialDoc,
    j3: int,
    jend: int,
)
    requires
        0 <= kpos < s.len(),
        s[kpos] == '"',
        parse_string_body(s, kpos + 1, Seq::empty()) == Some((key, jk)),
        skip_ws(s, jk) == jk,
        0 <= jk < s.len(),
        s[jk] == ':',
        skip_ws(s, jk + 1) == j2,
        top_member_value(s, j2, key, acc) == Some((acc2, j3)),
        skip_ws(s, j3) == jend,
        0 <= jend < s.len(),
        s[jend] == '}',
    ensures
        parse_top_items(s, kpos, acc) == Some((acc2, jend + 1)),
{
}

/// Where every piece of the rendered document stands.
#[verifier::rlimit(100)]
#[verifier::spinoff_prover]
proof fn lemma_top_split(
    d: DescView,
    s: Seq<char>,
    c1: int,
    c2: int,
    c3: int,
    c4: int,
    c5: int,
    c6: int,
    c7: int,
    e8: int,
)
    requires
        s == ser_doc(d),
        c1 == 21 + dec_int(d.correlation_handle).len(),
        c2 == c1 + 11 + quoted(d.target_uri).len(),
        c3 == c2 + 12 + quoted(d.raw_args).len(),
        c4 == c3 + 19 + quoted(d.unparsed_uri).len(),
        c5 == c4 + 14 + quoted(d.http_method).len(),
        c6 == c5 + 16 + quoted(d.protocol_version).len(),
        c7 == c6 + 15 + ser_headers(d.headers).len(),
        e8 == c7 + 12 + ser_data(d.body).len(),
    ensures
        s.len() == e8 + 2,
        s[0] == '{',
        text_at(s, 1, "\n  \"requestHandle\": "@),
        text_at(s, 21, dec_int(d.correlation_handle)),
        text_at(s, c1, seq![',']),
        text_at(s, c1 + 1, "\n  \"uri\": "@),
        text_at(s, c1 + 11, quoted(d.target_uri)),
        text_at(s, c2, seq![',']),
        text_at(s, c2 + 1, "\n  \"args\": "@),
        text_at(s, c2 + 12, quoted(d.raw_args)),
        text_at(s, c3, seq![',']),
        text_at(s, c3 + 1, "\n  \"unparsedUri\": "@),
        text_at(s, c3 + 19, quoted(d.unparsed_uri)),
        text_at(s, c4, seq![',']),
        text_at(s, c4 + 1, "\n  \"method\": "@),
        text_at(s, c4 + 14, quoted(d.http_method)),
        text_at(s, c5, seq![',']),
        text_at(s, c5 + 1, "\n  \"protocol\": "@),
        text_at(s, c5 + 16, quoted(d.protocol_version)),
        text_at(s, c6, seq![',']),
        text_at(s, c6 + 1, "\n  \"headers\": "@),
        text_at(s, c6 + 15, ser_headers(d.headers)),
        text_at(s, c7, seq![',']),
        text_at(s, c7 + 1, "\n  \"data\": "@),
        text_at(s, c7 + 12, ser_data(d.body)),
        text_at(s, e8, "\n}"@),
{
    reveal_strlit("\n  \"requestHandle\": ");
    reveal_strlit("\n  \"uri\": ");
    reveal_strlit("\n  \"args\": ");
    reveal_strlit("\n  \"unparsedUri\": ");
    reveal_strlit("\n  \"method\": ");
    reveal_strlit("\n  \"protocol\": ");
    reveal_strlit("\n  \"headers\": ");
    reveal_strlit("\n  \"data\": ");
    reveal_strlit("\n}");
    let x1 = seq!['{'];
    let x2 = x1 + "\n  \"requestHandle\": "@;
    let x3 = x2 + dec_int(d.correlation_handle);
    let x4 = x3 + seq![','];
    let x5 = x4 + "\n  \"uri\": "@;
    let x6 = x5 + quoted(d.target_uri);
    let x7 = x6 + seq![','];
    let x8 = x7 + "\n  \"args\": "@;
    let x9 = x8 + quoted(d.raw_args);
    let x10 = x9 + seq![','];
    let x11 = x10 + "\n  \"unparsedUri\": "@;
    let x12 = x11 + quoted(d.unparsed_uri);
    let x13 = x12 + seq![','];
    let x14 = x13 + "\n  \"method\": "@;
    let x15 = x14 + quoted(d.http_method);
    let x16 = x15 + seq![','];
    let x17 = x16 + "\n  \"protocol\": "@;
    let x18 = x17 + quoted(d.protocol_version);
    let x19 = x18 + seq![','];
    let x20 = x19 + "\n  \"headers\": "@;
    let x21 = x20 + ser_headers(d.headers);
    let x22 = x21 + seq![','];
    let x23 = x22 + "\n  \"data\": "@;
    let x24 = x23 + ser_data(d.body);
    let x25 = x24 + "\n}"@;
    assert(ser_doc(d) == x25);
    assert(text_at(s, 0, x25)) by {
        assert(s.subrange(0, s.len() as int) =~= s);
    }
    lemma_text_concat(s, 0, x24, "\n}"@);
    lemma_text_concat(s, 0, x23, ser_data(d.body));
    lemma_text_concat(s, 0, x22, "\n  \"data\": "@);
    lemma_text_concat(s, 0, x21, seq![',']);
    lemma_text_concat(s, 0, x20, ser_headers(d.headers));
    lemma_text_concat(s, 0, x19, "\n  \"headers\": "@);
    lemma_text_concat(s, 0, x18, seq![',']);
    lemma_text_concat(s, 0, x17, quoted(d.protocol_version));
    lemma_text_concat(s, 0, x16, "\n  \"protocol\": "@);
    lemma_text_concat(s, 0, x15, seq![',']);
    lemma_text_concat(s, 0, x14, quoted(d.http_method));
    lemma_text_concat(s, 0, x13, "\n  \"method\": "@);
    lemma_text_concat(s, 0, x12, seq![',']);
    lemma_text_concat(s, 0, x11, quoted(d.unparsed_uri));
    lemma_text_concat(s, 0, x10, "\n  \"unparsedUri\": "@);
    lemma_text_concat(s, 0, x9, seq![',']);
    lemma_text_concat(s, 0, x8, quoted(d.raw_args));
    lemma_text_concat(s, 0, x7, "\n  \"args\": "@);
    lemma_text_concat(s, 0, x6, seq![',']);
    lemma_text_concat(s, 0, x5, quoted(d.target_uri));
    lemma_text_concat(s, 0, x4, "\n  \"uri\": "@);
    lemma_text_concat(s, 0, x3, seq![',']);
    lemma_text_concat(s, 0, x2, dec_int(d.correlation_handle));
    lemma_text_concat(s, 0, x1, "\n  \"requestHandle\": "@);
    lemma_text_index(s, 0, x1, 0);
    assert(x2.len() == 21);
    assert(x5.len() == c1 + 11);
    assert(x8.len() == c2 + 12);
    assert(x11.len() == c3 + 19);
    assert(x14.len() == c4 + 14);
    assert(x17.len() == c5 + 16);
    assert(x20.len() == c6 + 15);
    assert(x23.len() == c7 + 12);
    assert(x24.len() == e8);
}

/// Tokens of the document's first four members.
#[verifier::rlimit(100)]
#[verifier::spinoff_prover]
proof fn lemma_top_texts_a(d: DescView, s: Seq<char>, c1: int, c2: int, c3: int, c4: int)
    requires
        -0x8000_0000_0000_0000 <= d.correlation_handle <= 0x7fff_ffff_ffff_ffff,
        c1 == 21 + dec_int(d.correlation_handle).len(),
        c2 == c1 + 11 + quoted(d.target_uri).len(),
        c3 == c2 + 12 + quoted(d.raw_args).len(),
        c4 == c3 + 19 + quoted(d.unparsed_uri).len(),
        c4 + 4 <= s.len(),
        text_at(s, 1, "\n  \"requestHandle\": "@),
        text_at(s, 21, dec_int(d.correlation_handle)),
        text_at(s, c1, seq![',']),
        text_at(s, c1 + 1, "\n  \"uri\": "@),
        text_at(s, c1 + 11, quoted(d.target_uri)),
        text_at(s, c2, seq![',']),
        text_at(s, c2 + 1, "\n  \"args\": "@),
        text_at(s, c2 + 12, quoted(d.raw_args)),
        text_at(s, c3, seq![',']),
        text_at(s, c3 + 1, "\n  \"unparsedUri\": "@),
        text_at(s, c3 + 19, quoted(d.unparsed_uri)),
        text_at(s, c4, seq![',']),
    ensures
        skip_ws(s, 1) == 4,
        s[4] == '"',
        parse_string_body(s, 5, Seq::empty()) == Some(("requestHandle"@, 19int)),
        skip_ws(s, 19) == 19,
        s[19] == ':',
        skip_ws(s, 20) == 21,
        parse_int(s, 21) == Some((d.correlation_handle, c1)),
        s[c1] == ',',
        skip_ws(s, c1) == c1,
        skip_ws(s, c1 + 1) == c1 + 4,
        s[c1 + 4] == '"',
        parse_string_body(s, c1 + 5, Seq::empty()) == Some(("uri"@, c1 + 9int)),
        skip_ws(s, c1 + 9) == c1 + 9,
        s[c1 + 9] == ':',
        skip_ws(s, c1 + 10) == c1 + 11,
        s[c1 + 11] == '"',
        parse_string_body(s, c1 + 12, Seq::empty()) == Some((d.target_uri, c2)),
        s[c2] == ',',
        skip_ws(s, c2) == c2,
        skip_ws(s, c2 + 1) == c2 + 4,
        s[c2 + 4] == '"',
        parse_string_body(s, c2 + 5, Seq::empty()) == Some(("args"@, c2 + 10int)),
        skip_ws(s, c2 + 10) == c2 + 10,
        s[c2 + 10] == ':',
        skip_ws(s, c2 + 11) == c2 + 12,
        s[c2 + 12] == '"',
        parse_string_body(s, c2 + 13, Seq::empty()) == Some((d.raw_args, c3)),
        s[c3] == ',',
        skip_ws(s, c3) == c3,
        skip_ws(s, c3 + 1) == c3 + 4,
        s[c3 + 4] == '"',
        parse_string_body(s, c3 + 5, Seq::empty()) == Some(("unparsedUri"@, c3 + 17int)),
        skip_ws(s, c3 + 17) == c3 + 17,
        s[c3 + 17] == ':',
        skip_ws(s, c3 + 18) == c3 + 19,
        s[c3 + 19] == '"',
        parse_string_body(s, c3 + 20, Seq::empty()) == Some((d.unparsed_uri, c4)),
        s[c4] == ',',
        skip_ws(s, c4) == c4,
{
    let rh_lit = "\n  \"requestHandle\": "@;
    let uri_lit = "\n  \"uri\": "@;
    let args_lit = "\n  \"args\": "@;
    let unp_lit = "\n  \"unparsedUri\": "@;
    reveal_strlit("\n  \"requestHandle\": ");
    reveal_strlit("\n  \"uri\": ");
    reveal_strlit("\n  \"args\": ");
    reveal_strlit("\n  \"unparsedUri\": ");
    reveal_strlit("requestHandle");
    reveal_strlit("uri");
    reveal_strlit("args");
    reveal_strlit("unparsedUri");
    let n = (if d.correlation_handle < 0 {
        -d.correlation_handle
    } else {
        d.correlation_handle
    }) as nat;
    // member "requestHandle"
    assert(rh_lit.subrange(4, 18) =~= "requestHandle"@ + seq!['"']);
    lemma_dec_digits_len(n);
    lemma_dec_digits_all_digits(n);
    lemma_text_index(s, 21, dec_int(d.correlation_handle), 0);
    assert(!is_ws(s[21])) by {
        if d.correlation_handle < 0 {
            assert(dec_int(d.correlation_handle)[0] == '-');
        } else {
            assert(dec_int(d.correlation_handle)[0] == dec_digits(n)[0]);
            assert(is_digit(dec_digits(n)[0]));
        }
    }
    lemma_member_prefix(s, 1, rh_lit, 3, "requestHandle"@);
    lemma_text_index(s, c1, seq![','], 0);
    lemma_parse_int_render(s, 21, d.correlation_handle);
    // member "uri"
    assert(uri_lit.subrange(4, 8) =~= "uri"@ + seq!['"']);
    lemma_parse_quoted(s, c1 + 11, d.target_uri);
    lemma_member_prefix(s, c1 + 1, uri_lit, 3, "uri"@);
    lemma_text_index(s, c2, seq![','], 0);
    // member "args"
    assert(args_lit.subrange(4, 9) =~= "args"@ + seq!['"']);
    lemma_parse_quoted(s, c2 + 12, d.raw_args);
    lemma_member_prefix(s, c2 + 1, args_lit, 3, "args"@);
    lemma_text_index(s, c3, seq![','], 0);
    // member "unparsedUri"
    assert(unp_lit.subrange(4, 16) =~= "unparsedUri"@ + seq!['"']);
    lemma_parse_quoted(s, c3 + 19, d.unparsed_uri);
    lemma_member_prefix(s, c3 + 1, unp_lit, 3, "unparsedUri"@);
    lemma_text_index(s, c4, seq![','], 0);
    assert(skip_ws(s, c1 + 1) == c1 + 4);
    assert(skip_ws(s, c2 + 1) == c2 + 4);
    assert(skip_ws(s, c3 + 1) == c3 + 4);
}

/// Steps of the member parser.
#[verifier::rlimit(100)]
#[verifier::spinoff_prover]
proof fn lemma_top_steps_a1(d: DescView, s: Seq<char>, c1: int, c2: int, c3: int, c4: int)
    requires
        -0x8000_0000_0000_0000 <= d.correlation_handle <= 0x7fff_ffff_ffff_ffff,
        c1 == 21 + dec_int(d.correlation_handle).len(),
        c2 == c1 + 11 + quoted(d.target_uri).len(),
        c3 == c2 + 12 + quoted(d.raw_args).len(),
        c4 == c3 + 19 + quoted(d.unparsed_uri).len(),
        c4 + 4 <= s.len(),
        text_at(s, 1, "\n  \"requestHandle\": "@),
        text_at(s, 21, dec_int(d.correlation_handle)),
        text_at(s, c1, seq![',']),
        text_at(s, c1 + 1, "\n  \"uri\": "@),
        text_at(s, c1 + 11, quoted(d.target_uri)),
        text_at(s, c2, seq![',']),
        text_at(s, c2 + 1, "\n  \"args\": "@),
        text_at(s, c2 + 12, quoted(d.raw_args)),
        text_at(s, c3, seq![',']),
        text_at(s, c3 + 1, "\n  \"unparsedUri\": "@),
        text_at(s, c3 + 19, quoted(d.unparsed_uri)),
        text_at(s, c4, seq![',']),
        skip_ws(s, 1) == 4,
        s[4] == '"',
        parse_string_body(s, 5, Seq::empty()) == Some(("requestHandle"@, 19int)),
        skip_ws(s, 19) == 19,
        s[19] == ':',
        skip_ws(s, 20) == 21,
        parse_int(s, 21) == Some((d.correlation_handle, c1)),
        s[c1] == ',',
        skip_ws(s, c1) == c1,
        skip_ws(s, c1 + 1) == c1 + 4,
        s[c1 + 4] == '"',
        parse_string_body(s, c1 + 5, Seq::empty()) == Some(("uri"@, c1 + 9int)),
        skip_ws(s, c1 + 9) == c1 + 9,
        s[c1 + 9] == ':',
        skip_ws(s, c1 + 10) == c1 + 11,
        s[c1 + 11] == '"',
        parse_string_body(s, c1 + 12, Seq::empty()) == Some((d.target_uri, c2)),
        s[c2] == ',',
        skip_ws(s, c2) == c2,
        skip_ws(s, c2 + 1) == c2 + 4,
        s[c2 + 4] == '"',
        parse_string_body(s, c2 + 5, Seq::empty()) == Some(("args"@, c2 + 10int)),
        skip_ws(s, c2 + 10) == c2 + 10,
        s[c2 + 10] == ':',
        skip_ws(s, c2 + 11) == c2 + 12,
        s[c2 + 12] == '"',
        parse_string_body(s, c2 + 13, Seq::empty()) == Some((d.raw_args, c3)),
        s[c3] == ',',
        skip_ws(s, c3) == c3,
        skip_ws(s, c3 + 1) == c3 + 4,
        s[c3 + 4] == '"',
        parse_string_body(s, c3 + 5, Seq::empty()) == Some(("unparsedUri"@, c3 + 17int)),
        skip_ws(s, c3 + 17) == c3 + 17,
        s[c3 + 17] == ':',
        skip_ws(s, c3 + 18) == c3 + 19,
        s[c3 + 19] == '"',
        parse_string_body(s, c3 + 20, Seq::empty()) == Some((d.unparsed_uri, c4)),
        s[c4] == ',',
        skip_ws(s, c4) == c4,
    ensures
        forall|acc: PartialDoc| #[trigger] parse_top_items(s, 4, acc) == parse_top_items(
            s,
            c1 + 4,
            PartialDoc { handle: Some(d.correlation_handle), ..acc },
        ),
        forall|acc: PartialDoc| #[trigger] parse_top_items(s, c1 + 4, acc) == parse_top_items(
            s,
            c2 + 4,
            PartialDoc { uri: Some(d.target_uri), ..acc },
        ),
{
    assert forall|acc: PartialDoc| #[trigger] parse_top_items(s, 4, acc) == parse_top_items(
        s,
        c1 + 4,
        PartialDoc { handle: Some(d.correlation_handle), ..acc },
    ) by {
        lemma_value_handle(s, 21, acc, d.correlation_handle, c1);
        lemma_top_step(
            s,
            4,
            "requestHandle"@,
            19,
            21,
            acc,
            PartialDoc { handle: Some(d.correlation_handle), ..acc },
            c1,
            c1 + 4,
        );
    }
    assert forall|acc: PartialDoc| #[trigger] parse_top_items(s, c1 + 4, acc) == parse_top_items(
        s,
        c2 + 4,
        PartialDoc { uri: Some(d.target_uri), ..acc },
    ) by {
        lemma_value_uri(s, c1 + 11, acc, d.target_uri, c2);
        lemma_top_step(
            s,
            c1 + 4,
            "uri"@,
            c1 + 9,
            c1 + 11,
            acc,
            PartialDoc { uri: Some(d.target_uri), ..acc },
            c2,
            c2 + 4,
        );
    }
}

/// Steps of the member parser.
#[verifier::rlimit(100)]
#[verifier::spinoff_prover]
proof fn lemma_top_steps_a2(d: DescView, s: Seq<char>, c1: int, c2: int, c3: int, c4: int)
    requires
        -0x8000_0000_0000_0000 <= d.correlation_handle <= 0x7fff_ffff_ffff_ffff,
        c1 == 21 + dec_int(d.correlation_handle).len(),
        c2 == c1 + 11 + quoted(d.target_uri).len(),
        c3 == c2 + 12 + quoted(d.raw_args).len(),
        c4 == c3 + 19 + quoted(d.unparsed_uri).len(),
        c4 + 4 <= s.len(),
        text_at(s, 1, "\n  \"requestHandle\": "@),
        text_at(s, 21, dec_int(d.correlation_handle)),
        text_at(s, c1, seq![',']),
        text_at(s, c1 + 1, "\n  \"uri\": "@),
        text_at(s, c1 + 11, quoted(d.target_uri)),
        text_at(s, c2, seq![',']),
        text_at(s, c2 + 1, "\n  \"args\": "@),
        text_at(s, c2 + 12, quoted(d.raw_args)),
        text_at(s, c3, seq![',']),
        text_at(s, c3 + 1, "\n  \"unparsedUri\": "@),
        text_at(s, c3 + 19, quoted(d.unparsed_uri)),
        text_at(s, c4, seq![',']),
        skip_ws(s, 1) == 4,
        s[4] == '"',
        parse_string_body(s, 5, Seq::empty()) == Some(("requestHandle"@, 19int)),
        skip_ws(s, 19) == 19,
        s[19] == ':',
        skip_ws(s, 20) == 21,
        parse_int(s, 21) == Some((d.correlation_handle, c1)),
        s[c1] == ',',
        skip_ws(s, c1) == c1,
        skip_ws(s, c1 + 1) == c1 + 4,
        s[c1 + 4] == '"',
        parse_string_body(s, c1 + 5, Seq::empty()) == Some(("uri"@, c1 + 9int)),
        skip_ws(s, c1 + 9) == c1 + 9,
        s[c1 + 9] == ':',
        skip_ws(s, c1 + 10) == c1 + 11,
        s[c1 + 11] == '"',
        parse_string_body(s, c1 + 12, Seq::empty()) == Some((d.target_uri, c2)),
        s[c2] == ',',
        skip_ws(s, c2) == c2,
        skip_ws(s, c2 + 1) == c2 + 4,
        s[c2 + 4] == '"',
        parse_string_body(s, c2 + 5, Seq::empty()) == Some(("args"@, c2 + 10int)),
        skip_ws(s, c2 + 10) == c2 + 10,
        s[c2 + 10] == ':',
        skip_ws(s, c2 + 11) == c2 + 12,
        s[c2 + 12] == '"',
        parse_string_body(s, c2 + 13, Seq::empty()) == Some((d.raw_args, c3)),
        s[c3] == ',',
        skip_ws(s, c3) == c3,
        skip_ws(s, c3 + 1) == c3 + 4,
        s[c3 + 4] == '"',
        parse_string_body(s, c3 + 5, Seq::empty()) == Some(("unparsedUri"@, c3 + 17int)),
        skip_ws(s, c3 + 17) == c3 + 17,
        s[c3 + 17] == ':',
        skip_ws(s, c3 + 18) == c3 + 19,
        s[c3 + 19] == '"',
        parse_string_body(s, c3 + 20, Seq::empty()) == Some((d.unparsed_uri, c4)),
        s[c4] == ',',
        skip_ws(s, c4) == c4,
        skip_ws(s, c4 + 1) == c4 + 4,
    ensures
        forall|acc: PartialDoc| #[trigger] parse_top_items(s, c2 + 4, acc) == parse_top_items(
            s,
            c3 + 4,
            PartialDoc { args: Some(d.raw_args), ..acc },
        ),
        forall|acc: PartialDoc| #[trigger] parse_top_items(s, c3 + 4, acc) == parse_top_items(
            s,
            c4 + 4,
            PartialDoc { unparsed_uri: Some(d.unparsed_uri), ..acc },
        ),
{
    assert forall|acc: PartialDoc| #[trigger] parse_top_items(s, c2 + 4, acc) == parse_top_items(
        s,
        c3 + 4,
        PartialDoc { args: Some(d.raw_args), ..acc },
    ) by {
        lemma_value_args(s, c2 + 12, acc, d.raw_args, c3);
        lemma_top_step(
            s,
            c2 + 4,
            "args"@,
            c2 + 10,
            c2 + 12,
            acc,
            PartialDoc { args: Some(d.raw_args), ..acc },
            c3,
            c3 + 4,
        );
    }
    assert forall|acc: PartialDoc| #[trigger] parse_top_items(s, c3 + 4, acc) == parse_top_items(
        s,
        c4 + 4,
        PartialDoc { unparsed_uri: Some(d.unparsed_uri), ..acc },
    ) by {
        lemma_value_unparsed(s, c3 + 19, acc, d.unparsed_uri, c4);
        lemma_top_step(
            s,
            c3 + 4,
            "unparsedUri"@,
            c3 + 17,
            c3 + 19,
            acc,
            PartialDoc { unparsed_uri: Some(d.unparsed_uri), ..acc },
            c4,
            c4 + 4,
        );
    }
}

/// Tokens of the document's fifth and sixth members.
#[verifier::rlimit(100)]
#[verifier::spinoff_prover]
proof fn lemma_top_texts_b1(
    d: DescView,
    s: Seq<char>,
    c4: int,
    c5: int,
    c6: int,
    c7: int,
    e8: int,
)
    requires
        wf_headers(d.headers),
        c5 == c4 + 14 + quoted(d.http_method).len(),
        c6 == c5 + 16 + quoted(d.protocol_version).len(),
        c7 == c6 + 15 + ser_headers(d.headers).len(),
        e8 == c7 + 12 + ser_data(d.body).len(),
        0 <= c4,
        s.len() == e8 + 2,
        text_at(s, c4 + 1, "\n  \"method\": "@),
        text_at(s, c4 + 14, quoted(d.http_method)),
        text_at(s, c5, seq![',']),
        text_at(s, c5 + 1, "\n  \"protocol\": "@),
        text_at(s, c5 + 16, quoted(d.protocol_version)),
        text_at(s, c6, seq![',']),
        text_at(s, c6 + 1, "\n  \"headers\": "@),
        text_at(s, c6 + 15, ser_headers(d.headers)),
        text_at(s, c7, seq![',']),
        text_at(s, c7 + 1, "\n  \"data\": "@),
        text_at(s, c7 + 12, ser_data(d.body)),
        text_at(s, e8, "\n}"@),
    ensures
        skip_ws(s, c4 + 1) == c4 + 4,
        s[c4 + 4] == '"',
        parse_string_body(s, c4 + 5, Seq::empty()) == Some(("method"@, c4 + 12int)),
        skip_ws(s, c4 + 12) == c4 + 12,
        s[c4 + 12] == ':',
        skip_ws(s, c4 + 13) == c4 + 14,
        s[c4 + 14] == '"',
        parse_string_body(s, c4 + 15, Seq::empty()) == Some((d.http_method, c5)),
        s[c5] == ',',
        skip_ws(s, c5) == c5,
        skip_ws(s, c5 + 1) == c5 + 4,
        s[c5 + 4] == '"',
        parse_string_body(s, c5 + 5, Seq::empty()) == Some(("protocol"@, c5 + 14int)),
        skip_ws(s, c5 + 14) == c5 + 14,
        s[c5 + 14] == ':',
        skip_ws(s, c5 + 15) == c5 + 16,
        s[c5 + 16] == '"',
        parse_string_body(s, c5 + 17, Seq::empty()) == Some((d.protocol_version, c6)),
        s[c6] == ',',
        skip_ws(s, c6) == c6,
{
    let m_lit = "\n  \"method\": "@;
    let p_lit = "\n  \"protocol\": "@;
    let h_lit = "\n  \"headers\": "@;
    let d_lit = "\n  \"data\": "@;
    reveal_strlit("\n  \"method\": ");
    reveal_strlit("\n  \"protocol\": ");
    reveal_strlit("\n  \"headers\": ");
    reveal_strlit("\n  \"data\": ");
    reveal_strlit("\n}");
    reveal_strlit("method");
    reveal_strlit("protocol");
    reveal_strlit("headers");
    reveal_strlit("data");
    // member "method"
    assert(m_lit.subrange(4, 11) =~= "method"@ + seq!['"']);
    lemma_parse_quoted(s, c4 + 14, d.http_method);
    lemma_member_prefix(s, c4 + 1, m_lit, 3, "method"@);
    lemma_text_index(s, c5, seq![','], 0);
    // member "protocol"
    assert(p_lit.subrange(4, 13) =~= "protocol"@ + seq!['"']);
    lemma_parse_quoted(s, c5 + 16, d.protocol_version);
    lemma_member_prefix(s, c5 + 1, p_lit, 3, "protocol"@);
    lemma_text_index(s, c6, seq![','], 0);
    assert(skip_ws(s, c5 + 1) == c5 + 4);
}

/// Tokens of the document's last two members and its closing brace.
#[verifier::rlimit(100)]
#[verifier::spinoff_prover]
proof fn lemma_top_texts_b2(
    d: DescView,
    s: Seq<char>,
    c4: int,
    c5: int,
    c6: int,
    c7: int,
    e8: int,
)
    requires
        wf_headers(d.headers),
        c5 == c4 + 14 + quoted(d.http_method).len(),
        c6 == c5 + 16 + quoted(d.protocol_version).len(),
        c7 == c6 + 15 + ser_headers(d.headers).len(),
        e8 == c7 + 12 + ser_data(d.body).len(),
        0 <= c4,
        s.len() == e8 + 2,
        text_at(s, c4 + 1, "\n  \"method\": "@),
        text_at(s, c4 + 14, quoted(d.http_method)),
        text_at(s, c5, seq![',']),
        text_at(s, c5 + 1, "\n  \"protocol\": "@),
        text_at(s, c5 + 16, quoted(d.protocol_version)),
        text_at(s, c6, seq![',']),
        text_at(s, c6 + 1, "\n  \"headers\": "@),
        text_at(s, c6 + 15, ser_headers(d.headers)),
        text_at(s, c7, seq![',']),
        text_at(s, c7 + 1, "\n  \"data\": "@),
        text_at(s, c7 + 12, ser_data(d.body)),
        text_at(s, e8, "\n}"@),
    ensures
        skip_ws(s, c6 + 1) == c6 + 4,
        s[c6 + 4] == '"',
        parse_string_body(s, c6 + 5, Seq::empty()) == Some(("headers"@, c6 + 13int)),
        skip_ws(s, c6 + 13) == c6 + 13,
        s[c6 + 13] == ':',
        skip_ws(s, c6 + 14) == c6 + 15,
        s[c6 + 15] == '{',
        parse_headers_obj(s, c6 + 16) == Some((d.headers, c7)),
        s[c7] == ',',
        skip_ws(s, c7) == c7,
        skip_ws(s, c7 + 1) == c7 + 4,
        s[c7 + 4] == '"',
        parse_string_body(s, c7 + 5, Seq::empty()) == Some(("data"@, c7 + 10int)),
        skip_ws(s, c7 + 10) == c7 + 10,
        s[c7 + 10] == ':',
        skip_ws(s, c7 + 11) == c7 + 12,
        s[c7 + 12] == '{',
        parse_data_obj(s, c7 + 13) == Some((d.body, e8)),
        skip_ws(s, e8) == e8 + 1,
        s[e8 + 1] == '}',
{
    reveal_strlit("\n  \"method\": ");
    reveal_strlit("\n  \"protocol\": ");
    reveal_strlit("\n  \"headers\": ");
    reveal_strlit("\n  \"data\": ");
    reveal_strlit("\n}");
    reveal_strlit("method");
    reveal_strlit("protocol");
    reveal_strlit("headers");
    reveal_strlit("data");
    let h_lit = "\n  \"headers\": "@;
    let d_lit = "\n  \"data\": "@;
    // member "headers"
    assert(h_lit.subrange(4, 12) =~= "headers"@ + seq!['"']);
    lemma_parse_headers_render(s, c6 + 15, d.headers);
    lemma_member_prefix(s, c6 + 1, h_lit, 3, "headers"@);
    lemma_text_index(s, c7, seq![','], 0);
    // member "data"
    assert(d_lit.subrange(4, 9) =~= "data"@ + seq!['"']);
    lemma_parse_data_render(s, c7 + 12, d.body);
    lemma_member_prefix(s, c7 + 1, d_lit, 3, "data"@);
    // the closing brace
    lemma_text_index(s, e8, "\n}"@, 0);
    lemma_text_index(s, e8, "\n}"@, 1);
    lemma_skip_ws_run(s, e8, e8 + 1);
}

/// The last four members, as steps of the member parser.
#[verifier::rlimit(100)]
#[verifier::spinoff_prover]
proof fn lemma_top_steps_b(
    d: DescView,
    s: Seq<char>,
    c4: int,
    c5: int,
    c6: int,
    c7: int,
    e8: int,
)
    requires
        wf_headers(d.headers),
        c5 == c4 + 14 + quoted(d.http_method).len(),
        c6 == c5 + 16 + quoted(d.protocol_version).len(),
        c7 == c6 + 15 + ser_headers(d.headers).len(),
        e8 == c7 + 12 + ser_data(d.body).len(),
        0 <= c4,
        s.len() == e8 + 2,
        text_at(s, c4 + 1, "\n  \"method\": "@),
        text_at(s, c4 + 14, quoted(d.http_method)),
        text_at(s, c5, seq![',']),
        text_at(s, c5 + 1, "\n  \"protocol\": "@),
        text_at(s, c5 + 16, quoted(d.protocol_version)),
        text_at(s, c6, seq![',']),
        text_at(s, c6 + 1, "\n  \"headers\": "@),
        text_at(s, c6 + 15, ser_headers(d.headers)),
        text_at(s, c7, seq![',']),
        text_at(s, c7 + 1, "\n  \"data\": "@),
        text_at(s, c7 + 12, ser_data(d.body)),
        text_at(s, e8, "\n}"@),
        skip_ws(s, c4 + 1) == c4 + 4,
        s[c4 + 4] == '"',
        parse_string_body(s, c4 + 5, Seq::empty()) == Some(("method"@, c4 + 12int)),
        skip_ws(s, c4 + 12) == c4 + 12,
        s[c4 + 12] == ':',
        skip_ws(s, c4 + 13) == c4 + 14,
        s[c4 + 14] == '"',
        parse_string_body(s, c4 + 15, Seq::empty()) == Some((d.http_method, c5)),
        s[c5] == ',',
        skip_ws(s, c5) == c5,
        skip_ws(s, c5 + 1) == c5 + 4,
        s[c5 + 4] == '"',
        parse_string_body(s, c5 + 5, Seq::empty()) == Some(("protocol"@, c5 + 14int)),
        skip_ws(s, c5 + 14) == c5 + 14,
        s[c5 + 14] == ':',
        skip_ws(s, c5 + 15) == c5 + 16,
        s[c5 + 16] == '"',
        parse_string_body(s, c5 + 17, Seq::empty()) == Some((d.protocol_version, c6)),
        s[c6] == ',',
        skip_ws(s, c6) == c6,
        skip_ws(s, c6 + 1) == c6 + 4,
        s[c6 + 4] == '"',
        parse_string_body(s, c6 + 5, Seq::empty()) == Some(("headers"@, c6 + 13int)),
        skip_ws(s, c6 + 13) == c6 + 13,
        s[c6 + 13] == ':',
        skip_ws(s, c6 + 14) == c6 + 15,
        s[c6 + 15] == '{',
        parse_headers_obj(s, c6 + 16) == Some((d.headers, c7)),
        s[c7] == ',',
        skip_ws(s, c7) == c7,
        skip_ws(s, c7 + 1) == c7 + 4,
        s[c7 + 4] == '"',
        parse_string_body(s, c7 + 5, Seq::empty()) == Some(("data"@, c7 + 10int)),
        skip_ws(s, c7 + 10) == c7 + 10,
        s[c7 + 10] == ':',
        skip_ws(s, c7 + 11) == c7 + 12,
        s[c7 + 12] == '{',
        parse_data_obj(s, c7 + 13) == Some((d.body, e8)),
        skip_ws(s, e8) == e8 + 1,
        s[e8 + 1] == '}',
    ensures
        forall|acc: PartialDoc| #[trigger] parse_top_items(s, c4 + 4, acc) == parse_top_items(
            s,
            c5 + 4,
            PartialDoc { method: Some(d.http_method), ..acc },
        ),
        forall|acc: PartialDoc| #[trigger] parse_top_items(s, c5 + 4, acc) == parse_top_items(
            s,
            c6 + 4,
            PartialDoc { protocol: Some(d.protocol_version), ..acc },
        ),
        forall|acc: PartialDoc| #[trigger] parse_top_items(s, c6 + 4, acc) == parse_top_items(
            s,
            c7 + 4,
            PartialDoc { headers: Some(d.headers), ..acc },
        ),
        forall|acc: PartialDoc| #[trigger] parse_top_items(s, c7 + 4, acc) == Some(
            (PartialDoc { data: Some(d.body), ..acc }, e8 + 2),
        ),
{
    assert forall|acc: PartialDoc| #[trigger] parse_top_items(s, c4 + 4, acc) == parse_top_items(
        s,
        c5 + 4,
        PartialDoc { method: Some(d.http_method), ..acc },
    ) by {
        lemma_value_method(s, c4 + 14, acc, d.http_method, c5);
        lemma_top_step(
            s,
            c4 + 4,
            "method"@,
            c4 + 12,
            c4 + 14,
            acc,
            PartialDoc { method: Some(d.http_method), ..acc },
            c5,
            c5 + 4,
        );
    }
    assert forall|acc: PartialDoc| #[trigger] parse_top_items(s, c5 + 4, acc) == parse_top_items(
        s,
        c6 + 4,
        PartialDoc { protocol: Some(d.protocol_version), ..acc },
    ) by {
        lemma_value_protocol(s, c5 + 16, acc, d.protocol_version, c6);
        lemma_top_step(
            s,
            c5 + 4,
            "protocol"@,
            c5 + 14,
            c5 + 16,
            acc,
            PartialDoc { protocol: Some(d.protocol_version), ..acc },
            c6,
            c6 + 4,
        );
    }
    assert forall|acc: PartialDoc| #[trigger] parse_top_items(s, c6 + 4, acc) == parse_top_items(
        s,
        c7 + 4,
        PartialDoc { headers: Some(d.headers), ..acc },
    ) by {
        lemma_value_headers(s, c6 + 15, acc, d.headers, c7);
        lemma_top_step(
            s,
            c6 + 4,
            "headers"@,
            c6 + 13,
            c6 + 15,
            acc,
            PartialDoc { headers: Some(d.headers), ..acc },
            c7,
            c7 + 4,
        );
    }
    assert forall|acc: PartialDoc| #[trigger] parse_top_items(s, c7 + 4, acc) == Some(
        (PartialDoc { data: Some(d.body), ..acc }, e8 + 2),
    ) by {
        lemma_value_data(s, c7 + 12, acc, d.body, e8);
        lemma_top_last(
            s,
            c7 + 4,
            "data"@,
            c7 + 10,
            c7 + 12,
            acc,
            PartialDoc { data: Some(d.body), ..acc },
            e8,
            e8 + 1,
        );
    }
    assert(skip_ws(s, c6 + 1) == c6 + 4);
    assert(skip_ws(s, c7 + 1) == c7 + 4);
}

/// The value step of each schema member, one lemma per key.
proof fn lemma_value_handle(s: Seq<char>, j2: int, acc: PartialDoc, v: int, j3: int)
    requires
        parse_int(s, j2) == Some((v, j3)),
    ensures
        top_member_value(s, j2, "requestHandle"@, acc) == Some(
            (PartialDoc { handle: Some(v), ..acc }, j3),
        ),
{
}

proof fn lemma_value_uri(s: Seq<char>, j2: int, acc: PartialDoc, t: Seq<char>, j3: int)
    requires
        0 <= j2 < s.len(),
        s[j2] == '"',
        parse_string_body(s, j2 + 1, Seq::empty()) == Some((t, j3)),
    ensures
        top_member_value(s, j2, "uri"@, acc) == Some((PartialDoc { uri: Some(t), ..acc }, j3)),
{
    reveal_strlit("requestHandle");
    reveal_strlit("uri");
    assert("uri"@ != "requestHandle"@) by {
        assert("uri"@.len() == 3 && "requestHandle"@.len() == 13);
    }
    assert(is_text_key("uri"@));
    assert(set_text_key(acc, "uri"@, t) == PartialDoc { uri: Some(t), ..acc });
}

proof fn lemma_value_args(s: Seq<char>, j2: int, acc: PartialDoc, t: Seq<char>, j3: int)
    requires
        0 <= j2 < s.len(),
        s[j2] == '"',
        parse_string_body(s, j2 + 1, Seq::empty()) == Some((t, j3)),
    ensures
        top_member_value(s, j2, "args"@, acc) == Some((PartialDoc { args: Some(t), ..acc }, j3)),
{
    reveal_strlit("requestHandle");
    reveal_strlit("uri");
    reveal_strlit("args");
    assert("args"@ != "requestHandle"@ && "args"@ != "uri"@) by {
        assert("args"@.len() == 4 && "requestHandle"@.len() == 13 && "uri"@.len() == 3);
    }
    assert(is_text_key("args"@));
    assert(set_text_key(acc, "args"@, t) == PartialDoc { args: Some(t), ..acc });
}

proof fn lemma_value_unparsed(s: Seq<char>, j2: int, acc: PartialDoc, t: Seq<char>, j3: int)
    requires
        0 <= j2 < s.len(),
        s[j2] == '"',
        parse_string_body(s, j2 + 1, Seq::empty()) == Some((t, j3)),
    ensures
        top_member_value(s, j2, "unparsedUri"@, acc) == Some(
            (PartialDoc { unparsed_uri: Some(t), ..acc }, j3),
        ),
{
    reveal_strlit("requestHandle");
    reveal_strlit("uri");
    reveal_strlit("args");
    reveal_strlit("unparsedUri");
    assert("unparsedUri"@ != "requestHandle"@ && "unparsedUri"@ != "uri"@ && "unparsedUri"@
        != "args"@) by {
        assert("unparsedUri"@.len() == 11 && "requestHandle"@.len() == 13 && "uri"@.len() == 3
            && "args"@.len() == 4);
    }
    assert(is_text_key("unparsedUri"@));
    assert(set_text_key(acc, "unparsedUri"@, t) == PartialDoc { unparsed_uri: Some(t), ..acc });
}

proof fn lemma_value_method(s: Seq<char>, j2: int, acc: PartialDoc, t: Seq<char>, j3: int)
    requires
        0 <= j2 < s.len(),
        s[j2] == '"',
        parse_string_body(s, j2 + 1, Seq::empty()) == Some((t, j3)),
    ensures
        top_member_value(s, j2, "method"@, acc) == Some(
            (PartialDoc { method: Some(t), ..acc }, j3),
        ),
{
    reveal_strlit("requestHandle");
    reveal_strlit("uri");
    reveal_strlit("args");
    reveal_strlit("unparsedUri");
    reveal_strlit("method");
    assert("method"@ != "requestHandle"@ && "method"@ != "uri"@ && "method"@ != "args"@
        && "method"@ != "unparsedUri"@) by {
        assert("method"@.len() == 6 && "requestHandle"@.len() == 13 && "uri"@.len() == 3
            && "args"@.len() == 4 && "unparsedUri"@.len() == 11);
    }
    assert(is_text_key("method"@));
    assert(set_text_key(acc, "method"@, t) == PartialDoc { method: Some(t), ..acc });
}

proof fn lemma_value_protocol(s: Seq<char>, j2: int, acc: PartialDoc, t: Seq<char>, j3: int)
    requires
        0 <= j2 < s.len(),
        s[j2] == '"',
        parse_string_body(s, j2 + 1, Seq::empty()) == Some((t, j3)),
    ensures
        top_member_value(s, j2, "protocol"@, acc) == Some(
            (PartialDoc { protocol: Some(t), ..acc }, j3),
        ),
{
    reveal_strlit("requestHandle");
    reveal_strlit("uri");
    reveal_strlit("args");
    reveal_strlit("unparsedUri");
    reveal_strlit("method");
    reveal_strlit("protocol");
    assert("protocol"@ != "requestHandle"@ && "protocol"@ != "uri"@ && "protocol"@ != "args"@
        && "protocol"@ != "unparsedUri"@ && "protocol"@ != "method"@) by {
        assert("protocol"@.len() == 8 && "requestHandle"@.len() == 13 && "uri"@.len() == 3
            && "args"@.len() == 4 && "unparsedUri"@.len() == 11 && "method"@.len() == 6);
    }
    assert(is_text_key("protocol"@));
    assert(set_text_key(acc, "protocol"@, t) == PartialDoc { protocol: Some(t), ..acc });
}

proof fn lemma_value_headers(
    s: Seq<char>,
    j2: int,
    acc: PartialDoc,
    hs: Seq<(Seq<char>, Seq<char>)>,
    j3: int,
)
    requires
        0 <= j2 < s.len(),
        s[j2] == '{',
        parse_headers_obj(s, j2 + 1) == Some((hs, j3)),
    ensures
        top_member_value(s, j2, "headers"@, acc) == Some(
            (PartialDoc { headers: Some(hs), ..acc }, j3),
        ),
{
    reveal_strlit("requestHandle");
    reveal_strlit("uri");
    reveal_strlit("args");
    reveal_strlit("unparsedUri");
    reveal_strlit("method");
    reveal_strlit("protocol");
    reveal_strlit("headers");
    assert("headers"@ != "requestHandle"@ && !is_text_key("headers"@)) by {
        assert("headers"@.len() == 7 && "requestHandle"@.len() == 13 && "uri"@.len() == 3
            && "args"@.len() == 4 && "unparsedUri"@.len() == 11 && "method"@.len() == 6
            && "protocol"@.len() == 8);
    }
}

proof fn lemma_value_data(s: Seq<char>, j2: int, acc: PartialDoc, b: BodyView, j3: int)
    requires
        0 <= j2 < s.len(),
        s[j2] == '{',
        parse_data_obj(s, j2 + 1) == Some((b, j3)),
    ensures
        top_member_value(s, j2, "data"@, acc) == Some((PartialDoc { data: Some(b), ..acc }, j3)),
{
    reveal_strlit("requestHandle");
    reveal_strlit("uri");
    reveal_strlit("args");
    reveal_strlit("unparsedUri");
    reveal_strlit("method");
    reveal_strlit("protocol");
    reveal_strlit("headers");
    reveal_strlit("data");
    assert("data"@ != "args"@) by {
        if "data"@ == "args"@ {
            assert("data"@[0] == "args"@[0]);
        }
    }
    assert("data"@ != "requestHandle"@ && !is_text_key("data"@) && "data"@ != "headers"@) by {
        assert("data"@.len() == 4 && "requestHandle"@.len() == 13 && "uri"@.len() == 3
            && "unparsedUri"@.len() == 11 && "method"@.len() == 6 && "protocol"@.len() == 8
            && "headers"@.len() == 7);
    }
}

/// Round-trip fidelity: the relay's re-encoding of any well-formed
/// descriptor deserializes back to exactly that descriptor — every field,
/// the header pairs in order, and each payload representation, populated or
/// not.
#[verifier::rlimit(100)]
#[verifier::spinoff_prover]
pub proof fn lemma_round_trip(d: DescView)
    requires
        wf_desc(d),
    ensures
        parse_doc(ser_doc(d)) == Some(d),
{
    let s = ser_doc(d);
    let c1 = 21 + dec_int(d.correlation_handle).len() as int;
    let c2 = c1 + 11 + quoted(d.target_uri).len() as int;
    let c3 = c2 + 12 + quoted(d.raw_args).len() as int;
    let c4 = c3 + 19 + quoted(d.unparsed_uri).len() as int;
    let c5 = c4 + 14 + quoted(d.http_method).len() as int;
    let c6 = c5 + 16 + quoted(d.protocol_version).len() as int;
    let c7 = c6 + 15 + ser_headers(d.headers).len() as int;
    let e8 = c7 + 12 + ser_data(d.body).len() as int;
    lemma_top_split(d, s, c1, c2, c3, c4, c5, c6, c7, e8);
    lemma_top_texts_a(d, s, c1, c2, c3, c4);
    lemma_top_texts_b1(d, s, c4, c5, c6, c7, e8);
    lemma_top_texts_b2(d, s, c4, c5, c6, c7, e8);
    lemma_top_steps_a1(d, s, c1, c2, c3, c4);
    lemma_top_steps_a2(d, s, c1, c2, c3, c4);
    lemma_top_steps_b(d, s, c4, c5, c6, c7, e8);
    let acc0 = empty_doc();
    let acc1 = PartialDoc { handle: Some(d.correlation_handle), ..acc0 };
    let acc2 = PartialDoc { uri: Some(d.target_uri), ..acc1 };
    let acc3 = PartialDoc { args: Some(d.raw_args), ..acc2 };
    let acc4 = PartialDoc { unparsed_uri: Some(d.unparsed_uri), ..acc3 };
    let acc5 = PartialDoc { method: Some(d.http_method), ..acc4 };
    let acc6 = PartialDoc { protocol: Some(d.protocol_version), ..acc5 };
    let acc7 = PartialDoc { headers: Some(d.headers), ..acc6 };
    let acc8 = PartialDoc { data: Some(d.body), ..acc7 };
    assert(parse_top_items(s, 4, acc0) == parse_top_items(s, c1 + 4, acc1));
    assert(parse_top_items(s, c1 + 4, acc1) == parse_top_items(s, c2 + 4, acc2));
    assert(parse_top_items(s, c2 + 4, acc2) == parse_top_items(s, c3 + 4, acc3));
    assert(parse_top_items(s, c3 + 4, acc3) == parse_top_items(s, c4 + 4, acc4));
    assert(parse_top_items(s, c4 + 4, acc4) == parse_top_items(s, c5 + 4, acc5));
    assert(parse_top_items(s, c5 + 4, acc5) == parse_top_items(s, c6 + 4, acc6));
    assert(parse_top_items(s, c6 + 4, acc6) == parse_top_items(s, c7 + 4, acc7));
    assert(parse_top_items(s, c7 + 4, acc7) == Some((acc8, e8 + 2)));
    assert(skip_ws(s, 0) == 0);
    assert(skip_ws(s, 1) == 4);
    assert(s[4] != '}');
    assert(skip_ws(s, e8 + 2) == s.len());
    assert(complete_doc(acc8) == Some(d)) by {
        assert(d == DescView {
            correlation_handle: d.correlation_handle,
            target_uri: d.target_uri,
            raw_args: d.raw_args,
            unparsed_uri: d.unparsed_uri,
            http_method: d.http_method,
            protocol_version: d.protocol_version,
            headers: d.headers,
            body: d.body,
        });
    }
}

/// Two well-formed descriptors with the same re-encoding are the same
/// descriptor: an outbound body identifies exactly one submission, so no
/// dispatch can carry another call's content.
pub proof fn lemma_ser_doc_injective(a: DescView, b: DescView)
    requires
        wf_desc(a),
        wf_desc(b),
        ser_doc(a) == ser_doc(b),
    ensures
        a == b,
{
    lemma_round_trip(a);
    lemma_round_trip(b);
}

} // verus!
