//! Decimal rendering and parsing of the 64-bit correlation handle, with the
//! lemmas that make the two inverses of each other.

use vstd::prelude::*;
use vstd::arithmetic::div_mod::lemma_fundamental_div_mod;
use crate::chars::{is_digit, digit_val, digit_char, lemma_digit_round};

verus! {

/// The decimal digits of `n`, most significant first, without sign.
pub open spec fn dec_digits(n: nat) -> Seq<char>
    decreases n,
{
    if n < 10 { seq![digit_char(n)] } else { dec_digits(n / 10) + seq![digit_char(n % 10)] }
}

/// The decimal rendering of a signed value, as `i64::to_string` writes it.
pub open spec fn dec_int(v: int) -> Seq<char> {
    if v < 0 { seq!['-'] + dec_digits((-v) as nat) } else { dec_digits(v as nat) }
}

pub open spec fn pow10(k: nat) -> nat
    decreases k,
{
    if k == 0 { 1 } else { 10 * pow10((k - 1) as nat) }
}

/// Greedy parse of a run of decimal digits starting at `i`, folding them onto
/// `acc`; fails as soon as the value would exceed `bound`.
pub open spec fn parse_digits(s: Seq<char>, i: int, acc: nat, bound: nat) -> Option<(nat, int)>
    decreases s.len() - i,
{
    if 0 <= i < s.len() && is_digit(s[i]) {
        if acc * 10 + digit_val(s[i]) > bound {
            None
        } else {
            parse_digits(s, i + 1, acc * 10 + digit_val(s[i]), bound)
        }
    } else {
        Some((acc, i))
    }
}

/// Largest magnitude accepted for a negative value.
pub open spec fn neg_bound() -> nat {
    0x8000_0000_0000_0000
}

/// Largest magnitude accepted for a non-negative value.
pub open spec fn pos_bound() -> nat {
    0x7fff_ffff_ffff_ffff
}

/// Parse of a JSON integer at `i`: optional minus sign, then digits without a
/// leading zero, with the value required to fit a 64-bit signed integer.
pub open spec fn parse_int(s: Seq<char>, i: int) -> Option<(int, int)> {
    if 0 <= i < s.len() {
        let neg = s[i] == '-';
        let start = if neg { i + 1 } else { i };
        if start < s.len() && is_digit(s[start]) {
            if s[start] == '0' && start + 1 < s.len() && is_digit(s[start + 1]) {
                None
            } else {
                match parse_digits(s, start, 0, if neg { neg_bound() } else { pos_bound() }) {
                    Some((m, j)) => Some((if neg { -(m as int) } else { m as int }, j)),
                    None => None,
                }
            }
        } else {
            None
        }
    } else {
        None
    }
}

pub proof fn lemma_pow10_pos(k: nat)
    ensures
        pow10(k) >= 1,
    decreases k,
{
    if k > 0 {
        lemma_pow10_pos((k - 1) as nat);
    }
}

pub proof fn lemma_dec_digits_len(n: nat)
    ensures
        dec_digits(n).len() >= 1,
    decreases n,
{
    if n >= 10 {
        lemma_dec_digits_len(n / 10);
    }
}

pub proof fn lemma_dec_digits_all_digits(n: nat)
    ensures
        forall|k: int| 0 <= k < dec_digits(n).len() ==> is_digit(#[trigger] dec_digits(n)[k]),
    decreases n,
{
    if n < 10 {
        lemma_digit_round(n);
    } else {
        lemma_dec_digits_all_digits(n / 10);
        lemma_digit_round(n % 10);
        let hd = dec_digits(n / 10);
        let lh = hd.len() as int;
        assert forall|k: int| 0 <= k < dec_digits(n).len() implies is_digit(#[trigger] dec_digits(n)[k]) by {
            if k < lh {
                assert(dec_digits(n)[k] == hd[k]);
            } else {
                assert(dec_digits(n)[k] == digit_char(n % 10));
            }
        }
    }
}

pub proof fn lemma_dec_digits_no_leading_zero(n: nat)
    requires
        n >= 10,
    ensures
        dec_digits(n)[0] != '0',
    decreases n,
{
    lemma_dec_digits_len(n / 10);
    if n / 10 < 10 {
        lemma_digit_round(n / 10);
        assert(dec_digits(n)[0] == digit_char(n / 10));
    } else {
        lemma_dec_digits_no_leading_zero(n / 10);
        assert(dec_digits(n)[0] == dec_digits(n / 10)[0]);
    }
}

/// Consuming the digits of `dec_digits(n)` carries the fold from `acc` to
/// `acc * pow10(len) + n`, and never trips the bound on the way when the
/// final value respects it.
pub proof fn lemma_parse_digits_run(s: Seq<char>, i: int, acc: nat, n: nat, bound: nat)
    requires
        0 <= i,
        i + dec_digits(n).len() <= s.len(),
        s.subrange(i, i + dec_digits(n).len() as int) == dec_digits(n),
        acc * pow10(dec_digits(n).len() as nat) + n <= bound,
    ensures
        parse_digits(s, i, acc, bound) == parse_digits(
            s,
            i + dec_digits(n).len() as int,
            (acc * pow10(dec_digits(n).len() as nat) + n) as nat,
            bound,
        ),
    decreases n,
{
    let dd = dec_digits(n);
    let ln = dd.len() as int;
    if n < 10 {
        lemma_digit_round(n);
        assert(s[i] == dd[0]) by {
            assert(s.subrange(i, i + ln)[0] == s[i]);
        }
        assert(digit_val(s[i]) == n);
        assert(pow10(0) == 1);
        assert(pow10(1) == 10);
        assert(acc * 10 + n <= bound);
    } else {
        let hd = dec_digits(n / 10);
        let lh = hd.len() as int;
        assert(dd == hd + seq![digit_char(n % 10)]);
        assert(ln == lh + 1);
        assert(s.subrange(i, i + lh) == hd) by {
            assert forall|k: int| 0 <= k < lh implies s.subrange(i, i + lh)[k] == hd[k] by {
                assert(s.subrange(i, i + ln)[k] == s[i + k]);
                assert(dd[k] == hd[k]);
            }
            assert(s.subrange(i, i + lh) =~= hd);
        }
        lemma_pow10_pos(lh as nat);
        assert(pow10(ln as nat) == 10 * pow10(lh as nat));
        assert(acc * pow10(lh as nat) <= acc * pow10(ln as nat)) by (nonlinear_arith)
            requires pow10(lh as nat) <= pow10(ln as nat), acc >= 0,
        {}
        assert(pow10(lh as nat) <= pow10(ln as nat)) by {
            lemma_pow10_pos(lh as nat);
        }
        assert(acc * pow10(lh as nat) + n / 10 <= bound);
        lemma_parse_digits_run(s, i, acc, n / 10, bound);
        let acc2 = (acc * pow10(lh as nat) + n / 10) as nat;
        let j = i + lh;
        assert(s[j] == dd[lh]) by {
            assert(s.subrange(i, i + ln)[lh] == s[j]);
        }
        lemma_digit_round(n % 10);
        assert(is_digit(s[j]) && digit_val(s[j]) == n % 10);
        assert(acc2 * 10 + n % 10 == acc * pow10(ln as nat) + n) by (nonlinear_arith)
            requires
                acc2 == acc * pow10(lh as nat) + n / 10,
                pow10(ln as nat) == 10 * pow10(lh as nat),
                n == 10 * (n / 10) + n % 10,
        {}
        assert(n == 10 * (n / 10) + n % 10) by {
            lemma_fundamental_div_mod(n as int, 10);
        }
        assert(0 <= j < s.len());
        assert(parse_digits(s, j, acc2, bound) == parse_digits(s, j + 1, (acc2 * 10 + n % 10) as nat, bound));
    }
}

/// Parsing the decimal rendering of `v` (followed by a non-digit or the end
/// of the text) yields `v` and stops right after it.
pub proof fn lemma_parse_int_render(s: Seq<char>, i: int, v: int)
    requires
        0 <= i,
        -0x8000_0000_0000_0000 <= v <= 0x7fff_ffff_ffff_ffff,
        i + dec_int(v).len() <= s.len(),
        s.subrange(i, i + dec_int(v).len() as int) == dec_int(v),
        i + dec_int(v).len() == s.len() || !is_digit(s[i + dec_int(v).len()]),
    ensures
        parse_int(s, i) == Some((v, i + dec_int(v).len() as int)),
{
    let dv = dec_int(v);
    let lv = dv.len() as int;
    let n = (if v < 0 { -v } else { v }) as nat;
    let dd = dec_digits(n);
    let start = if v < 0 { i + 1 } else { i };
    let bound = if v < 0 { neg_bound() } else { pos_bound() };
    lemma_dec_digits_len(n);
    if v < 0 {
        assert(dv == seq!['-'] + dd);
        assert(s[i] == dv[0]) by {
            assert(s.subrange(i, i + lv)[0] == s[i]);
        }
        assert(s[i] == '-');
    } else {
        assert(dv == dd);
        assert(s[i] == dv[0]) by {
            assert(s.subrange(i, i + lv)[0] == s[i]);
        }
        lemma_dec_digits_all_digits(n);
        assert(s[i] != '-');
    }
    let ld = dd.len() as int;
    assert(s.subrange(start, start + ld) == dd) by {
        assert forall|k: int| 0 <= k < ld implies s.subrange(start, start + ld)[k] == dd[k] by {
            assert(s.subrange(i, i + lv)[k + start - i] == s[start + k]);
            if v < 0 {
                assert(dv[k + 1] == dd[k]);
            } else {
                assert(dv[k] == dd[k]);
            }
        }
        assert(s.subrange(start, start + ld) =~= dd);
    }
    assert(s[start] == dd[0]) by {
        assert(s.subrange(start, start + ld)[0] == s[start]);
    }
    lemma_dec_digits_all_digits(n);
    assert(is_digit(s[start]));
    // no leading zero in the rendering
    if s[start] == '0' && start + 1 < s.len() && is_digit(s[start + 1]) {
        if n >= 10 {
            lemma_dec_digits_no_leading_zero(n);
            assert(false);
        } else {
            lemma_digit_round(n);
            assert(n == 0 || dd[0] != '0');
            if n == 0 {
                // a single "0": the next character is past the digits
                assert(ld == 1);
                assert(start + 1 == i + lv);
                assert(false);
            } else {
                assert(false);
            }
        }
    }
    lemma_parse_digits_run(s, start, 0, n, bound);
    assert(0 * pow10(ld as nat) + n == n) by (nonlinear_arith) {}
    assert(parse_digits(s, start, 0, bound) == parse_digits(s, start + ld, n, bound));
    assert(start + ld == i + lv);
    assert(parse_digits(s, start + ld, n, bound) == Some((n, start + ld)));
}

/// Distinct handles render to distinct decimal texts, so no two dispatches
/// can carry each other's correlation header.
pub proof fn lemma_dec_int_injective(a: int, b: int)
    requires
        -0x8000_0000_0000_0000 <= a <= 0x7fff_ffff_ffff_ffff,
        -0x8000_0000_0000_0000 <= b <= 0x7fff_ffff_ffff_ffff,
        dec_int(a) == dec_int(b),
    ensures
        a == b,
{
    let s = dec_int(a);
    assert(s.subrange(0, s.len() as int) =~= s);
    lemma_parse_int_render(s, 0, a);
    lemma_parse_int_render(s, 0, b);
}

} // verus!
