//! Serialization of a descriptor to pretty-printed JSON text. The spec
//! functions define the exact document, character for character; the
//! executable printer is proved to emit it.

use vstd::prelude::*;
use crate::chars::{quoted, esc_seq, hex_char, digit_char, chars_to_string, lemma_esc_seq_snoc};
use crate::numbers::{dec_digits, dec_int};
use crate::descriptor::{BodyView, DescView, RequestDescriptor, BodyPayload, opt_str_view, headers_view};

verus! {

/// An optional text serializes as a string literal or as `null`.
pub open spec fn ser_opt(o: Option<Seq<char>>) -> Seq<char> {
    match o {
        Option::Some(t) => quoted(t),
        Option::None => "null"@,
    }
}

/// The members of a non-empty `headers` object, each on its own line,
/// separated by commas, in stored order.
pub open spec fn ser_header_items(hs: Seq<(Seq<char>, Seq<char>)>) -> Seq<char>
    decreases hs.len(),
{
    if hs.len() == 0 {
        Seq::empty()
    } else {
        "\n    "@ + quoted(hs[0].0) + ": "@ + quoted(hs[0].1)
            + (if hs.len() > 1 { seq![','] + ser_header_items(hs.skip(1)) } else { Seq::empty() })
    }
}

pub open spec fn ser_headers(hs: Seq<(Seq<char>, Seq<char>)>) -> Seq<char> {
    if hs.len() == 0 { "{}"@ } else { seq!['{'] + ser_header_items(hs) + "\n  }"@ }
}

pub open spec fn ser_data(b: BodyView) -> Seq<char> {
    seq!['{'] + "\n    \"utf8\": "@ + ser_opt(b.utf8) + seq![',']
        + "\n    \"hex\": "@ + ser_opt(b.hex) + seq![',']
        + "\n    \"file\": "@ + ser_opt(b.file) + "\n  }"@
}

/// The whole outbound document: a normalized, pretty-printed re-encoding of
/// the descriptor, two spaces of indent per level, fields in schema order.
pub open spec fn ser_doc(d: DescView) -> Seq<char> {
    seq!['{'] + "\n  \"requestHandle\": "@ + dec_int(d.correlation_handle) + seq![',']
        + "\n  \"uri\": "@ + quoted(d.target_uri) + seq![',']
        + "\n  \"args\": "@ + quoted(d.raw_args) + seq![',']
        + "\n  \"unparsedUri\": "@ + quoted(d.unparsed_uri) + seq![',']
        + "\n  \"method\": "@ + quoted(d.http_method) + seq![',']
        + "\n  \"protocol\": "@ + quoted(d.protocol_version) + seq![',']
        + "\n  \"headers\": "@ + ser_headers(d.headers) + seq![',']
        + "\n  \"data\": "@ + ser_data(d.body) + "\n}"@
}

fn push_str_chars(out: &mut Vec<char>, s: &str)
    ensures
        final(out)@ == old(out)@ + s@,
{
    let n = s.unicode_len();
    let mut i: usize = 0;
    while i < n
        invariant
            n == s@.len(),
            i <= n,
            out@ == old(out)@ + s@.subrange(0, i as int),
        decreases n - i,
    {
        out.push(s.get_char(i));
        assert(out@ =~= old(out)@ + s@.subrange(0, i + 1));
        i = i + 1;
    }
    assert(out@ =~= old(out)@ + s@);
}

fn hex_char_exec(n: u32) -> (c: char)
    requires
        n < 16,
    ensures
        c == hex_char(n as nat),
{
    match n {
        0 => '0', 1 => '1', 2 => '2', 3 => '3', 4 => '4', 5 => '5', 6 => '6', 7 => '7',
        8 => '8', 9 => '9', 10 => 'a', 11 => 'b', 12 => 'c', 13 => 'd', 14 => 'e', _ => 'f',
    }
}

fn push_quoted(out: &mut Vec<char>, s: &str)
    ensures
        final(out)@ == old(out)@ + quoted(s@),
{
    out.push('"');
    let n = s.unicode_len();
    let mut i: usize = 0;
    while i < n
        invariant
            n == s@.len(),
            i <= n,
            out@ == old(out)@ + seq!['"'] + esc_seq(s@.subrange(0, i as int)),
        decreases n - i,
    {
        let c = s.get_char(i);
        proof {
            lemma_esc_seq_snoc(s@.subrange(0, i as int), c);
            assert(s@.subrange(0, i + 1) =~= s@.subrange(0, i as int).push(c));
        }
        if c == '"' {
            out.push('\\');
            out.push('"');
        } else if c == '\\' {
            out.push('\\');
            out.push('\\');
        } else if (c as u32) < 0x20 {
            let code = c as u32;
            out.push('\\');
            out.push('u');
            out.push('0');
            out.push('0');
            out.push(hex_char_exec(code / 16));
            out.push(hex_char_exec(code % 16));
        } else {
            out.push(c);
        }
        assert(out@ =~= old(out)@ + seq!['"'] + esc_seq(s@.subrange(0, i + 1)));
        i = i + 1;
    }
    out.push('"');
    assert(s@.subrange(0, n as int) =~= s@);
    assert(out@ =~= old(out)@ + quoted(s@));
}

fn digit_char_exec(n: u64) -> (c: char)
    requires
        n < 10,
    ensures
        c == digit_char(n as nat),
{
    match n {
        0 => '0', 1 => '1', 2 => '2', 3 => '3', 4 => '4', 5 => '5', 6 => '6', 7 => '7',
        8 => '8', _ => '9',
    }
}

fn push_dec_u64(out: &mut Vec<char>, n: u64)
    ensures
        final(out)@ == old(out)@ + dec_digits(n as nat),
    decreases n,
{
    if n < 10 {
        out.push(digit_char_exec(n));
        assert(out@ =~= old(out)@ + dec_digits(n as nat));
    } else {
        push_dec_u64(out, n / 10);
        out.push(digit_char_exec(n % 10));
        assert(out@ =~= old(out)@ + dec_digits(n as nat));
    }
}

pub fn push_dec_int(out: &mut Vec<char>, v: i64)
    ensures
        final(out)@ == old(out)@ + dec_int(v as int),
{
    if v >= 0 {
        push_dec_u64(out, v as u64);
    } else {
        out.push('-');
        let m: u64 = if v == i64::MIN { 9223372036854775808u64 } else { (-v) as u64 };
        assert(m as nat == (-(v as int)) as nat);
        push_dec_u64(out, m);
        assert(out@ =~= old(out)@ + dec_int(v as int));
    }
}

fn push_opt(out: &mut Vec<char>, o: &Option<String>)
    ensures
        final(out)@ == old(out)@ + ser_opt(opt_str_view(*o)),
{
    match o {
        Option::Some(s) => push_quoted(out, s.as_str()),
        Option::None => push_str_chars(out, "null"),
    }
}

fn push_header_items(out: &mut Vec<char>, hs: &Vec<(String, String)>, from: usize)
    requires
        from < hs@.len(),
    ensures
        final(out)@ == old(out)@ + ser_header_items(headers_view(hs@).skip(from as int)),
    decreases hs@.len() - from,
{
    let ghost hv = headers_view(hs@).skip(from as int);
    proof {
        assert(headers_view(hs@)[from as int] == (hs@[from as int].0@, hs@[from as int].1@));
        assert(hv[0] == headers_view(hs@)[from as int]);
    }
    push_str_chars(out, "\n    ");
    push_quoted(out, hs[from].0.as_str());
    push_str_chars(out, ": ");
    push_quoted(out, hs[from].1.as_str());
    if from < hs.len() - 1 {
        out.push(',');
        push_header_items(out, hs, from + 1);
        proof {
            assert(headers_view(hs@).skip(from as int + 1) =~= hv.skip(1));
            assert(hv.len() > 1);
            assert(out@ =~= old(out)@ + ser_header_items(hv));
        }
    } else {
        proof {
            assert(hv.len() == 1);
            assert(out@ =~= old(out)@ + ser_header_items(hv));
        }
    }
}

fn push_headers(out: &mut Vec<char>, hs: &Vec<(String, String)>)
    ensures
        final(out)@ == old(out)@ + ser_headers(headers_view(hs@)),
{
    if hs.len() == 0 {
        assert(headers_view(hs@).len() == 0);
        push_str_chars(out, "{}");
    } else {
        assert(headers_view(hs@).len() == hs@.len());
        out.push('{');
        push_header_items(out, hs, 0);
        proof {
            assert(headers_view(hs@).skip(0) =~= headers_view(hs@));
        }
        push_str_chars(out, "\n  }");
        assert(out@ =~= old(out)@ + ser_headers(headers_view(hs@)));
    }
}

fn push_data(out: &mut Vec<char>, b: &BodyPayload)
    ensures
        final(out)@ == old(out)@ + ser_data(b@),
{
    out.push('{');
    push_str_chars(out, "\n    \"utf8\": ");
    push_opt(out, &b.utf8);
    out.push(',');
    push_str_chars(out, "\n    \"hex\": ");
    push_opt(out, &b.hex);
    out.push(',');
    push_str_chars(out, "\n    \"file\": ");
    push_opt(out, &b.file);
    push_str_chars(out, "\n  }");
    assert(out@ =~= old(out)@ + ser_data(b@));
}

/// Re-serialize a descriptor to the normalized pretty-printed document that
/// the relay sends downstream.
pub fn to_pretty_json(d: &RequestDescriptor) -> (r: String)
    ensures
        r@ == ser_doc(d@),
{
    let mut out: Vec<char> = Vec::new();
    out.push('{');
    push_str_chars(&mut out, "\n  \"requestHandle\": ");
    push_dec_int(&mut out, d.correlation_handle);
    out.push(',');
    push_str_chars(&mut out, "\n  \"uri\": ");
    push_quoted(&mut out, d.target_uri.as_str());
    out.push(',');
    push_str_chars(&mut out, "\n  \"args\": ");
    push_quoted(&mut out, d.raw_args.as_str());
    out.push(',');
    push_str_chars(&mut out, "\n  \"unparsedUri\": ");
    push_quoted(&mut out, d.unparsed_uri.as_str());
    out.push(',');
    push_str_chars(&mut out, "\n  \"method\": ");
    push_quoted(&mut out, d.http_method.as_str());
    out.push(',');
    push_str_chars(&mut out, "\n  \"protocol\": ");
    push_quoted(&mut out, d.protocol_version.as_str());
    out.push(',');
    push_str_chars(&mut out, "\n  \"headers\": ");
    push_headers(&mut out, &d.headers);
    out.push(',');
    push_str_chars(&mut out, "\n  \"data\": ");
    push_data(&mut out, &d.body);
    push_str_chars(&mut out, "\n}");
    assert(out@ =~= ser_doc(d@));
    chars_to_string(&out)
}

} // verus!
