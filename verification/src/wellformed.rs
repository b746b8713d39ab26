//! Deserialization only ever builds well-formed descriptors: header names
//! come out pairwise distinct (a duplicate overwrites its earlier entry) and
//! the correlation handle fits 64 signed bits.

use vstd::prelude::*;
use crate::decode::{
    parse_string_body, parse_headers_items, parse_headers_obj, parse_top_items, parse_doc,
    top_member_value, upsert, has_key, skip_ws, empty_doc, PartialDoc,
};
use crate::descriptor::{wf_headers, wf_desc};
use crate::numbers::{parse_digits, parse_int, neg_bound, pos_bound};

verus! {

proof fn lemma_parse_digits_bound(s: Seq<char>, i: int, acc: nat, bound: nat)
    requires
        acc <= bound,
    ensures
        parse_digits(s, i, acc, bound) matches Some(r) ==> r.0 <= bound,
    decreases s.len() - i,
{
    if 0 <= i < s.len() && crate::chars::is_digit(s[i]) {
        if acc * 10 + crate::chars::digit_val(s[i]) <= bound {
            lemma_parse_digits_bound(s, i + 1, acc * 10 + crate::chars::digit_val(s[i]), bound);
        }
    }
}

proof fn lemma_parse_int_bounds(s: Seq<char>, i: int)
    ensures
        parse_int(s, i) matches Some(r) ==> -(neg_bound() as int) <= r.0 <= pos_bound() as int,
{
    if 0 <= i < s.len() {
        let neg = s[i] == '-';
        let start = if neg { i + 1 } else { i };
        lemma_parse_digits_bound(s, start, 0, if neg { neg_bound() } else { pos_bound() });
    }
}

/// Storing a header keeps the names pairwise distinct.
proof fn lemma_upsert_wf(hs: Seq<(Seq<char>, Seq<char>)>, k: Seq<char>, v: Seq<char>)
    requires
        wf_headers(hs),
    ensures
        wf_headers(upsert(hs, k, v)),
        forall|k2: Seq<char>| has_key(upsert(hs, k, v), k2) <==> (has_key(hs, k2) || k2 == k),
    decreases hs.len(),
{
    let out = upsert(hs, k, v);
    if hs.len() == 0 {
        assert forall|k2: Seq<char>| has_key(out, k2) implies (has_key(hs, k2) || k2 == k) by {
            let idx = choose|idx: int| 0 <= idx < out.len() && (#[trigger] out[idx]).0 == k2;
            assert(out[0] == (k, v));
        }
        assert forall|k2: Seq<char>| (has_key(hs, k2) || k2 == k) implies has_key(out, k2) by {
            assert(out[0].0 == k);
        }
    } else if hs[0].0 == k {
        assert(out =~= seq![(k, v)] + hs.skip(1));
        assert forall|a: int, b: int| 0 <= a < b < out.len() implies (#[trigger] out[a]).0 != (
        #[trigger] out[b]).0 by {
            if a == 0 {
                assert(out[b] == hs[b]);
                assert(hs[0].0 != hs[b].0);
            } else {
                assert(out[a] == hs[a] && out[b] == hs[b]);
            }
        }
        assert forall|k2: Seq<char>| has_key(out, k2) implies (has_key(hs, k2) || k2 == k) by {
            let idx = choose|idx: int| 0 <= idx < out.len() && (#[trigger] out[idx]).0 == k2;
            if idx > 0 {
                assert(hs[idx].0 == k2);
            }
        }
        assert forall|k2: Seq<char>| (has_key(hs, k2) || k2 == k) implies has_key(out, k2) by {
            if k2 == k {
                assert(out[0].0 == k);
            } else {
                let idx = choose|idx: int| 0 <= idx < hs.len() && (#[trigger] hs[idx]).0 == k2;
                assert(idx != 0);
                assert(out[idx].0 == k2);
            }
        }
    } else {
        assert(wf_headers(hs.skip(1))) by {
            assert forall|a: int, b: int| 0 <= a < b < hs.skip(1).len() implies (#[trigger] hs.skip(
                1,
            )[a]).0 != (#[trigger] hs.skip(1)[b]).0 by {
                assert(hs.skip(1)[a] == hs[a + 1] && hs.skip(1)[b] == hs[b + 1]);
            }
        }
        lemma_upsert_wf(hs.skip(1), k, v);
        let rec = upsert(hs.skip(1), k, v);
        assert(out =~= seq![hs[0]] + rec);
        assert(!has_key(hs.skip(1), hs[0].0)) by {
            if has_key(hs.skip(1), hs[0].0) {
                let idx = choose|idx: int| 0 <= idx < hs.skip(1).len() && (#[trigger] hs.skip(
                    1,
                )[idx]).0 == hs[0].0;
                assert(hs[idx + 1].0 == hs[0].0);
            }
        }
        assert(!has_key(rec, hs[0].0));
        assert forall|a: int, b: int| 0 <= a < b < out.len() implies (#[trigger] out[a]).0 != (
        #[trigger] out[b]).0 by {
            if a == 0 {
                assert(out[b] == rec[b - 1]);
                if out[a].0 == out[b].0 {
                    assert(has_key(rec, hs[0].0));
                }
            } else {
                assert(out[a] == rec[a - 1] && out[b] == rec[b - 1]);
            }
        }
        assert forall|k2: Seq<char>| has_key(out, k2) implies (has_key(hs, k2) || k2 == k) by {
            let idx = choose|idx: int| 0 <= idx < out.len() && (#[trigger] out[idx]).0 == k2;
            if idx == 0 {
                assert(hs[0].0 == k2);
            } else {
                assert(rec[idx - 1].0 == k2);
                assert(has_key(rec, k2));
                if has_key(hs.skip(1), k2) {
                    let j = choose|j: int| 0 <= j < hs.skip(1).len() && (#[trigger] hs.skip(
                        1,
                    )[j]).0 == k2;
                    assert(hs[j + 1].0 == k2);
                }
            }
        }
        assert forall|k2: Seq<char>| (has_key(hs, k2) || k2 == k) implies has_key(out, k2) by {
            assert(has_key(upsert(hs.skip(1), k, v), k2) <==> (has_key(hs.skip(1), k2) || k2
                == k));
            if k2 == k {
                assert(has_key(rec, k2));
                let j = choose|j: int| 0 <= j < rec.len() && (#[trigger] rec[j]).0 == k2;
                assert(out[j + 1].0 == k2);
            } else {
                let idx = choose|idx: int| 0 <= idx < hs.len() && (#[trigger] hs[idx]).0 == k2;
                if idx == 0 {
                    assert(out[0].0 == k2);
                } else {
                    assert(hs.skip(1)[idx - 1].0 == k2);
                    assert(has_key(rec, k2));
                    let j = choose|j: int| 0 <= j < rec.len() && (#[trigger] rec[j]).0 == k2;
                    assert(out[j + 1].0 == k2);
                }
            }
        }
    }
}

proof fn lemma_headers_items_wf(s: Seq<char>, i: int, acc: Seq<(Seq<char>, Seq<char>)>)
    requires
        wf_headers(acc),
    ensures
        parse_headers_items(s, i, acc) matches Some(r) ==> wf_headers(r.0),
    decreases s.len() - i,
{
    if 0 <= i < s.len() && s[i] == '"' {
        match parse_string_body(s, i + 1, Seq::empty()) {
            Some((k, j)) => {
                let j1 = skip_ws(s, j);
                if 0 <= j1 < s.len() && s[j1] == ':' {
                    let j2 = skip_ws(s, j1 + 1);
                    if 0 <= j2 < s.len() && s[j2] == '"' {
                        match parse_string_body(s, j2 + 1, Seq::empty()) {
                            Some((v, j3)) => {
                                let j4 = skip_ws(s, j3);
                                lemma_upsert_wf(acc, k, v);
                                let acc2 = upsert(acc, k, v);
                                if 0 <= j4 < s.len() && s[j4] == ',' {
                                    let j5 = skip_ws(s, j4 + 1);
                                    if i < j5 <= s.len() {
                                        lemma_headers_items_wf(s, j5, acc2);
                                    }
                                }
                            },
                            None => {},
                        }
                    }
                }
            },
            None => {},
        }
    }
}

proof fn lemma_headers_obj_wf(s: Seq<char>, i: int)
    ensures
        parse_headers_obj(s, i) matches Some(r) ==> wf_headers(r.0),
{
    let i1 = skip_ws(s, i);
    if !(0 <= i1 < s.len() && s[i1] == '}') {
        lemma_headers_items_wf(s, i1, Seq::empty());
    }
}

/// The invariant the member parser keeps while fields are collected.
pub open spec fn wf_partial(p: PartialDoc) -> bool {
    &&& (p.handle matches Some(v) ==> -(neg_bound() as int) <= v <= pos_bound() as int)
    &&& (p.headers matches Some(hs) ==> wf_headers(hs))
}

proof fn lemma_top_items_wf(s: Seq<char>, i: int, acc: PartialDoc)
    requires
        wf_partial(acc),
    ensures
        parse_top_items(s, i, acc) matches Some(r) ==> wf_partial(r.0),
    decreases s.len() - i,
{
    if 0 <= i < s.len() && s[i] == '"' {
        match parse_string_body(s, i + 1, Seq::empty()) {
            Some((k, j)) => {
                let j1 = skip_ws(s, j);
                if 0 <= j1 < s.len() && s[j1] == ':' {
                    let j2 = skip_ws(s, j1 + 1);
                    assert(top_member_value(s, j2, k, acc) matches Some(st) ==> wf_partial(st.0))
                        by {
                        lemma_parse_int_bounds(s, j2);
                        lemma_headers_obj_wf(s, j2 + 1);
                    }
                    match top_member_value(s, j2, k, acc) {
                        Some((acc2, j3)) => {
                            let j4 = skip_ws(s, j3);
                            if 0 <= j4 < s.len() && s[j4] == ',' {
                                let j5 = skip_ws(s, j4 + 1);
                                if i < j5 <= s.len() {
                                    lemma_top_items_wf(s, j5, acc2);
                                }
                            }
                        },
                        None => {},
                    }
                }
            },
            None => {},
        }
    }
}

/// Whatever text deserializes at all deserializes to a well-formed
/// descriptor.
pub proof fn lemma_parse_doc_wf(s: Seq<char>)
    ensures
        parse_doc(s) matches Some(d) ==> wf_desc(d),
{
    let i0 = skip_ws(s, 0);
    if 0 <= i0 < s.len() && s[i0] == '{' {
        let i1 = skip_ws(s, i0 + 1);
        if !(0 <= i1 < s.len() && s[i1] == '}') {
            lemma_top_items_wf(s, i1, empty_doc());
        }
    }
}

} // verus!
