//! Character-level vocabulary shared by the JSON encoder and decoder:
//! whitespace, digits, hexadecimal digits, control characters and the
//! escaping of string contents.

use vstd::prelude::*;

verus! {

/// Characters treated as insignificant whitespace between JSON tokens.
pub open spec fn is_ws(c: char) -> bool {
    c == ' ' || c == '\t' || c == '\n' || c == '\r'
}

pub open spec fn is_digit(c: char) -> bool {
    '0' <= c && c <= '9'
}

pub open spec fn digit_val(c: char) -> nat {
    (c as u32 - '0' as u32) as nat
}

pub open spec fn digit_char(n: nat) -> char {
    if n == 0 { '0' } else if n == 1 { '1' } else if n == 2 { '2' } else if n == 3 { '3' }
    else if n == 4 { '4' } else if n == 5 { '5' } else if n == 6 { '6' } else if n == 7 { '7' }
    else if n == 8 { '8' } else { '9' }
}

pub open spec fn is_hex(c: char) -> bool {
    is_digit(c) || ('a' <= c && c <= 'f') || ('A' <= c && c <= 'F')
}

pub open spec fn hex_val(c: char) -> nat {
    if is_digit(c) { digit_val(c) }
    else if 'a' <= c && c <= 'f' { (c as u32 - 'a' as u32 + 10) as nat }
    else { (c as u32 - 'A' as u32 + 10) as nat }
}

/// Lowercase hexadecimal digit for a nibble.
pub open spec fn hex_char(n: nat) -> char {
    if n < 10 { digit_char(n) }
    else if n == 10 { 'a' } else if n == 11 { 'b' } else if n == 12 { 'c' }
    else if n == 13 { 'd' } else if n == 14 { 'e' } else { 'f' }
}

/// A Unicode scalar value: a code point a `char` can hold.
pub open spec fn is_scalar_value(v: nat) -> bool {
    v < 0xD800 || (0xE000 <= v && v <= 0x10FFFF)
}

/// A character's code point.
pub open spec fn code_of(c: char) -> nat {
    (c as u32) as nat
}

/// The character with code point `v` (meaningful when `v` is a scalar value
/// that some character carries).
pub open spec fn char_of(v: nat) -> char {
    choose|c: char| code_of(c) == v
}

/// How one character of a string value is written inside a JSON string
/// literal: quotes and backslashes get a two-character escape, control
/// characters a `\u00XX` escape, and everything else stands verbatim.
pub open spec fn esc_char(c: char) -> Seq<char> {
    if c == '"' { seq!['\\', '"'] }
    else if c == '\\' { seq!['\\', '\\'] }
    else if (c as u32) < 0x20 {
        seq!['\\', 'u', '0', '0', hex_char(((c as u32) / 16) as nat), hex_char(((c as u32) % 16) as nat)]
    }
    else { seq![c] }
}

/// The body of a JSON string literal encoding the text `s`.
pub open spec fn esc_seq(s: Seq<char>) -> Seq<char>
    decreases s.len(),
{
    if s.len() == 0 { Seq::empty() } else { esc_char(s[0]) + esc_seq(s.skip(1)) }
}

/// A complete JSON string literal for the text `s`.
pub open spec fn quoted(s: Seq<char>) -> Seq<char> {
    seq!['"'] + esc_seq(s) + seq!['"']
}

/// A character is "plain" when its escaped form is itself.
pub open spec fn is_plain(c: char) -> bool {
    c != '"' && c != '\\' && (c as u32) >= 0x20
}

pub proof fn lemma_char_code_injective(a: char, b: char)
    requires
        a as u32 == b as u32,
    ensures
        a == b,
{
}

/// `char_of` inverts a character's own code point.
pub proof fn lemma_char_of_code(c: char)
    ensures
        char_of((c as u32) as nat) == c,
{
    let v = (c as u32) as nat;
    assert(exists|x: char| code_of(x) == v) by {
        assert(code_of(c) == v);
    }
    assert(code_of(char_of(v)) == v);
    lemma_char_code_injective(char_of(v), c);
}

pub proof fn lemma_hex_round(n: nat)
    requires
        n < 16,
    ensures
        is_hex(hex_char(n)),
        hex_val(hex_char(n)) == n,
{
}

pub proof fn lemma_digit_round(n: nat)
    requires
        n < 10,
    ensures
        is_digit(digit_char(n)),
        digit_val(digit_char(n)) == n,
        digit_char(n) == '0' <==> n == 0,
{
}

/// Appending one character to a text appends its escape to the encoded body.
pub proof fn lemma_esc_seq_snoc(s: Seq<char>, c: char)
    ensures
        esc_seq(s.push(c)) == esc_seq(s) + esc_char(c),
    decreases s.len(),
{
    if s.len() == 0 {
        assert(s.push(c).len() == 1);
        assert(s.push(c)[0] == c);
        assert(s.push(c).skip(1) =~= Seq::<char>::empty());
        assert(esc_seq(s.push(c)) == esc_char(s.push(c)[0]) + esc_seq(s.push(c).skip(1)));
        assert(esc_char(c) + esc_seq(Seq::<char>::empty()) =~= esc_char(c));
        assert(esc_seq(s) + esc_char(c) =~= esc_char(c));
    } else {
        assert(s.push(c).skip(1) =~= s.skip(1).push(c));
        lemma_esc_seq_snoc(s.skip(1), c);
        assert(esc_seq(s.push(c)) =~= esc_char(s[0]) + (esc_seq(s.skip(1)) + esc_char(c)));
        assert(esc_char(s[0]) + (esc_seq(s.skip(1)) + esc_char(c)) =~= esc_seq(s) + esc_char(c));
    }
}

/// Relies on `char::from_u32`: it returns the character with the given code
/// point exactly for Unicode scalar values (everything outside the surrogate
/// range and at most the maximum code point), and `None` otherwise.
#[verifier::external_body]
pub(crate) fn char_from_u32(v: u32) -> (r: Option<char>)
    ensures
        r is Some <==> is_scalar_value(v as nat),
        r matches Some(c) ==> c as u32 == v,
{
    char::from_u32(v)
}

/// Relies on `String::from_iter` over `char`s: the string built collects
/// exactly the characters of the iterator, in order.
#[verifier::external_body]
pub(crate) fn chars_to_string(v: &Vec<char>) -> (r: String)
    ensures
        r@ == v@,
{
    v.iter().collect()
}

/// The characters of a string slice, as an indexable vector.
pub fn str_to_chars(s: &str) -> (r: Vec<char>)
    ensures
        r@ == s@,
{
    let n = s.unicode_len();
    let mut r: Vec<char> = Vec::new();
    let mut i: usize = 0;
    while i < n
        invariant
            n == s@.len(),
            i <= n,
            r@ == s@.subrange(0, i as int),
        decreases n - i,
    {
        r.push(s.get_char(i));
        assert(r@ =~= s@.subrange(0, i + 1));
        i = i + 1;
    }
    assert(r@ =~= s@);
    r
}

/// Whether a character vector spells exactly the text of a string slice.
pub fn eq_chars_str(v: &Vec<char>, s: &str) -> (r: bool)
    ensures
        r == (v@ == s@),
{
    let n = s.unicode_len();
    if v.len() != n {
        assert(v@ != s@) by {
            assert(v@.len() != s@.len());
        }
        return false;
    }
    let mut i: usize = 0;
    while i < n
        invariant
            n == s@.len(),
            v@.len() == n,
            i <= n,
            forall|k: int| 0 <= k < i ==> v@[k] == s@[k],
        decreases n - i,
    {
        if v[i] != s.get_char(i) {
            return false;
        }
        i = i + 1;
    }
    assert(v@ =~= s@);
    true
}

/// A text of plain characters is its own encoded body.
pub proof fn lemma_plain_esc_id(s: Seq<char>)
    requires
        forall|k: int| 0 <= k < s.len() ==> is_plain(#[trigger] s[k]),
    ensures
        esc_seq(s) == s,
    decreases s.len(),
{
    if s.len() == 0 {
        assert(esc_seq(s) =~= s);
    } else {
        lemma_plain_esc_id(s.skip(1));
        assert(esc_char(s[0]) =~= seq![s[0]]);
        assert(esc_seq(s) =~= s);
    }
}

} // verus!
