//! Exact money arithmetic in minor units (cents), with parsing and
//! formatting of decimal price texts such as `50.00`.
//!
//! A price text is one or more digits, optionally followed by a dot and one
//! or two fraction digits; its value is an exact number of cents.

use vstd::prelude::*;

use crate::text::{all_digits, digit_char, digit_val, digits_val, digit_str, format_u64, is_digit,
    parse_u64, u64_digits};
use crate::text::{lemma_digits_val_nonneg, lemma_u64_digits_are_digits, lemma_u64_digits_roundtrip};

verus! {

/// There is a decimal point at `k`: digits before it, one or two digits
/// after it.
pub open spec fn dot_at(s: Seq<char>, k: int) -> bool {
    &&& 0 < k < s.len()
    &&& s[k] == '.'
    &&& all_digits(s.subrange(0, k))
    &&& all_digits(s.subrange(k + 1, s.len() as int))
    &&& 1 <= s.len() - (k + 1) <= 2
}

/// A well-formed price text: digits, optionally a dot with one or two
/// fraction digits.
pub open spec fn is_price_text(s: Seq<char>) -> bool {
    (s.len() >= 1 && all_digits(s)) || exists|k: int| dot_at(s, k)
}

/// Value of a well-formed price text, in cents.
pub open spec fn price_text_cents(s: Seq<char>) -> int {
    if s.len() >= 1 && all_digits(s) {
        digits_val(s) * 100
    } else {
        let k = choose|k: int| dot_at(s, k);
        let whole = digits_val(s.subrange(0, k));
        let frac = digits_val(s.subrange(k + 1, s.len() as int));
        if s.len() - (k + 1) == 1 {
            whole * 100 + frac * 10
        } else {
            whole * 100 + frac
        }
    }
}

/// A price text has at most one position that qualifies as its decimal point.
pub proof fn lemma_dot_unique(s: Seq<char>, k1: int, k2: int)
    requires
        dot_at(s, k1),
        dot_at(s, k2),
    ensures
        k1 == k2,
{
    if k1 < k2 {
        assert(is_digit(s.subrange(k1 + 1, s.len() as int)[k2 - (k1 + 1)]));
    }
    if k2 < k1 {
        assert(is_digit(s.subrange(k2 + 1, s.len() as int)[k1 - (k2 + 1)]));
    }
}

/// A qualifying decimal point is the only dot in the text, so it is the
/// first one.
pub proof fn lemma_dot_is_first(s: Seq<char>, k: int, first: int)
    requires
        dot_at(s, k),
        0 <= first < s.len(),
        s[first] == '.',
        forall|j: int| 0 <= j < first ==> s[j] != '.',
    ensures
        k == first,
{
    if first < k {
        assert(is_digit(s.subrange(0, k)[first]));
    }
    if k < first {
        assert(is_digit(s.subrange(k + 1, s.len() as int)[first - (k + 1)]));
    }
}

/// Parses a decimal price text into cents, rejecting malformed texts and
/// values that do not fit in 64 bits.
pub fn parse_price(s: &str) -> (r: Option<u64>)
    ensures
        r matches Some(v) <==> is_price_text(s@) && price_text_cents(s@) <= u64::MAX,
        r matches Some(v) ==> v as int == price_text_cents(s@),
{
    let len = s.unicode_len();
    // Find the first dot, if any.
    let mut i: usize = 0;
    let mut dot: Option<usize> = None;
    while i < len && dot.is_none()
        invariant
            0 <= i <= len,
            len == s@.len(),
            dot matches Some(d) ==> i == d + 1 && d < len && s@[d as int] == '.' && (forall|j: int|
                0 <= j < d ==> s@[j] != '.'),
            dot is None ==> forall|j: int| 0 <= j < i ==> s@[j] != '.',
        decreases len - i,
    {
        if s.get_char(i) == '.' {
            dot = Some(i);
        }
        i += 1;
    }
    match dot {
        None => {
            // Digits only: the value is a whole number of currency units.
            match parse_u64(s) {
                None => {
                    proof {
                        assert(forall|k: int| !dot_at(s@, k));
                        if s@.len() >= 1 && all_digits(s@) {
                            lemma_digits_val_nonneg(s@);
                            assert(digits_val(s@) * 100 > u64::MAX) by (nonlinear_arith)
                                requires digits_val(s@) > u64::MAX;
                        }
                    }
                    None
                },
                Some(w) => {
                    proof {
                        assert(forall|k: int| !dot_at(s@, k));
                        lemma_digits_val_nonneg(s@);
                    }
                    w.checked_mul(100)
                },
            }
        },
        Some(d) => {
            proof {
                assert(forall|k: int| dot_at(s@, k) ==> k == d as int) by {
                    assert forall|k: int| dot_at(s@, k) implies k == d as int by {
                        lemma_dot_is_first(s@, k, d as int);
                    }
                }
                // The whole text is not all digits: it holds a dot.
                assert(!is_digit(s@[d as int]));
            }
            if d == 0 || len - d - 1 < 1 || len - d - 1 > 2 {
                return None;
            }
            let whole_txt = s.substring_char(0, d);
            let frac_txt = s.substring_char(d + 1, len);
            let whole = match parse_u64(whole_txt) {
                None => {
                    proof {
                        if exists|k: int| dot_at(s@, k) {
                            let k = choose|k: int| dot_at(s@, k);
                            if digits_val(s@.subrange(0, d as int)) > u64::MAX {
                                lemma_whole_overflow(s@, d as int);
                            }
                        }
                    }
                    return None;
                },
                Some(w) => w,
            };
            let frac = match parse_u64(frac_txt) {
                None => {
                    proof {
                        if exists|k: int| dot_at(s@, k) {
                            let k = choose|k: int| dot_at(s@, k);
                            lemma_frac_small(s@, d as int);
                        }
                    }
                    return None;
                },
                Some(f) => f,
            };
            proof {
                assert(dot_at(s@, d as int));
                lemma_digits_val_nonneg(s@.subrange(0, d as int));
                lemma_digits_val_nonneg(s@.subrange(d + 1, s@.len() as int));
            }
            let scaled_frac: u64 = if len - d - 1 == 1 {
                proof {
                    lemma_frac_small(s@, d as int);
                }
                frac * 10
            } else {
                frac
            };
            match whole.checked_mul(100) {
                None => {
                    proof {
                        lemma_scaled_overflow(whole as int, scaled_frac as int);
                    }
                    None
                },
                Some(w100) => w100.checked_add(scaled_frac),
            }
        },
    }
}

/// A fraction part of one or two digits is below one hundred.
proof fn lemma_frac_small(s: Seq<char>, k: int)
    requires
        dot_at(s, k),
    ensures
        0 <= digits_val(s.subrange(k + 1, s.len() as int)),
        s.len() - (k + 1) == 1 ==> digits_val(s.subrange(k + 1, s.len() as int)) <= 9,
        s.len() - (k + 1) == 2 ==> digits_val(s.subrange(k + 1, s.len() as int)) <= 99,
{
    let f = s.subrange(k + 1, s.len() as int);
    lemma_digits_val_nonneg(f);
    assert(digits_val(Seq::<char>::empty()) == 0);
    if f.len() == 1 {
        assert(f.drop_last() =~= Seq::<char>::empty());
        assert(f.last() == f[0]);
        assert(digits_val(f) == digit_val(f[0]));
    }
    if f.len() == 2 {
        assert(f.drop_last().drop_last() =~= Seq::<char>::empty());
        assert(f.drop_last().last() == f[0]);
        assert(digits_val(f.drop_last()) == digit_val(f[0]));
        assert(f.last() == f[1]);
        assert(digits_val(f) == digit_val(f[0]) * 10 + digit_val(f[1]));
    }
}

/// If the whole part alone exceeds the range, so does the price in cents.
proof fn lemma_whole_overflow(s: Seq<char>, k: int)
    requires
        dot_at(s, k),
        digits_val(s.subrange(0, k)) > u64::MAX,
    ensures
        price_text_cents(s) > u64::MAX,
{
    let kk = choose|q: int| dot_at(s, q);
    lemma_dot_unique(s, kk, k);
    assert(!is_digit(s[k]));
    let whole = digits_val(s.subrange(0, k));
    let frac = digits_val(s.subrange(k + 1, s.len() as int));
    lemma_digits_val_nonneg(s.subrange(k + 1, s.len() as int));
    assert(whole * 100 > u64::MAX) by (nonlinear_arith)
        requires whole > u64::MAX;
    assert(frac * 10 >= 0) by (nonlinear_arith)
        requires frac >= 0;
}

/// Scaling an over-large whole part cannot be brought back into range by the
/// fraction part.
proof fn lemma_scaled_overflow(whole: int, scaled_frac: int)
    requires
        whole * 100 > u64::MAX,
        scaled_frac >= 0,
    ensures
        whole * 100 + scaled_frac > u64::MAX,
{
}

/// The canonical text of an amount of cents: the whole units, a dot, and
/// exactly two fraction digits.
pub open spec fn cents_text(c: int) -> Seq<char> {
    u64_digits(c / 100) + seq!['.', digit_char((c % 100) / 10), digit_char(c % 10)]
}

/// Formats cents as a decimal price text with two fraction digits.
pub fn format_cents(c: u64) -> (r: String)
    ensures
        r@ == cents_text(c as int),
{
    let mut s = format_u64(c / 100);
    proof {
        reveal_strlit(".");
    }
    s.append(".");
    s.append(digit_str((c % 100) / 10));
    s.append(digit_str(c % 10));
    proof {
        assert((c % 100) as int / 10 == (c as int % 100) / 10);
        assert(s@ =~= cents_text(c as int));
    }
    s
}

/// Formatting is exact: the canonical text of an amount is a well-formed
/// price text and reads back as the same amount.
pub proof fn lemma_cents_roundtrip(c: int)
    requires
        0 <= c <= u64::MAX,
    ensures
        is_price_text(cents_text(c)),
        price_text_cents(cents_text(c)) == c,
{
    let w = u64_digits(c / 100);
    let s = cents_text(c);
    lemma_u64_digits_are_digits(c / 100);
    lemma_u64_digits_roundtrip(c / 100);
    let k = w.len() as int;
    assert(s.subrange(0, k) =~= w);
    let f = s.subrange(k + 1, s.len() as int);
    assert(f =~= seq![digit_char((c % 100) / 10), digit_char(c % 10)]);
    assert(dot_at(s, k));
    assert(!all_digits(s)) by {
        assert(!is_digit(s[k]));
    }
    let kc = choose|q: int| dot_at(s, q);
    lemma_dot_unique(s, kc, k);
    // The fraction digits read back as c % 100.
    assert(f.drop_last() =~= seq![digit_char((c % 100) / 10)]);
    assert(f.drop_last().drop_last() =~= Seq::<char>::empty());
    assert(digits_val(Seq::<char>::empty()) == 0);
    assert(f.drop_last().last() == f[0]);
    assert(digits_val(f.drop_last()) == digit_val(digit_char((c % 100) / 10)));
    assert(digits_val(f) == ((c % 100) / 10) * 10 + digit_val(digit_char(c % 10)));
    assert(c % 10 == (c % 100) % 10) by {
        vstd::arithmetic::div_mod::lemma_mod_mod(c, 10, 10);
    }
    assert(((c % 100) / 10) * 10 + (c % 100) % 10 == c % 100) by {
        vstd::arithmetic::div_mod::lemma_fundamental_div_mod(c % 100, 10);
    }
    assert((c / 100) * 100 + c % 100 == c) by {
        vstd::arithmetic::div_mod::lemma_fundamental_div_mod(c, 100);
    }
}

} // verus!
