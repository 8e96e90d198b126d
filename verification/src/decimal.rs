//! Decimal text for unsigned integers and for fixed-point numbers, written
//! and read without any floating-point arithmetic.

use crate::bytes::{find_byte, lemma_next_byte_is, next_byte};
use vstd::prelude::*;
use vstd::slice::slice_subrange;

verus! {

/// Millionths in one unit of a fixed-point number with six decimals.
pub const MILLION: u64 = 1_000_000;

/// The ASCII byte of the decimal digit `d`.
pub open spec fn digit_byte(d: nat) -> u8
    recommends
        d < 10,
{
    (48 + d) as u8
}

/// `b` is the ASCII byte of a decimal digit.
pub open spec fn is_digit(b: u8) -> bool {
    48 <= b <= 57
}

/// The shortest decimal text of `n`: no sign, no leading zeros.
pub open spec fn decimal_digits(n: nat) -> Seq<u8>
    decreases n,
{
    if n < 10 {
        seq![digit_byte(n)]
    } else {
        decimal_digits(n / 10).push(digit_byte(n % 10))
    }
}

/// The decimal text of `value % 10^width`, padded with zeros to exactly
/// `width` digits.
pub open spec fn fixed_digits(value: nat, width: nat) -> Seq<u8>
    decreases width,
{
    if width == 0 {
        Seq::empty()
    } else {
        fixed_digits(value / 10, (width - 1) as nat).push(digit_byte(value % 10))
    }
}

/// The number that a string of decimal digits stands for.
pub open spec fn digits_value(text: Seq<u8>) -> nat
    decreases text.len(),
{
    if text.len() == 0 {
        0
    } else {
        digits_value(text.drop_last()) * 10 + (text.last() - 48) as nat
    }
}

/// Every byte of `text` is a decimal digit.
pub open spec fn all_digits(text: Seq<u8>) -> bool {
    forall|i: int| 0 <= i < text.len() ==> is_digit(#[trigger] text[i])
}

/// Reads a non-empty string of decimal digits; anything else is `None`.
pub open spec fn parse_decimal(text: Seq<u8>) -> Option<nat> {
    if text.len() > 0 && all_digits(text) {
        Some(digits_value(text))
    } else {
        None
    }
}

/// Ten to the power `e`.
pub open spec fn pow10(e: nat) -> nat
    decreases e,
{
    if e == 0 {
        1
    } else {
        10 * pow10((e - 1) as nat)
    }
}

/// Appends the shortest decimal text of `n` to `out`.
pub fn append_decimal(out: &mut Vec<u8>, n: u64)
    ensures
        final(out)@ == old(out)@ + decimal_digits(n as nat),
    decreases n,
{
    if n >= 10 {
        append_decimal(out, n / 10);
    }
    let digit: u8 = (n % 10) as u8;
    out.push(48 + digit);
    proof {
        if n >= 10 {
            assert(final(out)@ =~= old(out)@ + decimal_digits(n as nat));
        } else {
            assert(final(out)@ =~= old(out)@ + decimal_digits(n as nat));
        }
    }
}

/// Appends `value % 10^width` as exactly `width` zero-padded digits.
pub fn append_fixed(out: &mut Vec<u8>, value: u64, width: u8)
    ensures
        final(out)@ == old(out)@ + fixed_digits(value as nat, width as nat),
    decreases width,
{
    if width > 0 {
        append_fixed(out, value / 10, width - 1);
        let digit: u8 = (value % 10) as u8;
        out.push(48 + digit);
        proof {
            assert(final(out)@ =~= old(out)@ + fixed_digits(value as nat, width as nat));
        }
    } else {
        proof {
            assert(final(out)@ =~= old(out)@ + fixed_digits(value as nat, width as nat));
        }
    }
}

/// A longer string of digits never stands for a smaller number than one of
/// its prefixes.
pub proof fn lemma_digits_value_grows(text: Seq<u8>, k: int)
    requires
        0 <= k <= text.len(),
        all_digits(text),
    ensures
        digits_value(text.take(k)) <= digits_value(text),
    decreases text.len() - k,
{
    if k == text.len() {
        assert(text.take(k) =~= text);
    } else {
        lemma_digits_value_grows(text, k + 1);
        assert(text.take(k + 1).drop_last() =~= text.take(k));
        assert(is_digit(text[k]));
        assert(text.take(k + 1).last() == text[k]);
    }
}

/// Reads a non-empty string of decimal digits whose value is at most
/// `limit`; anything else is `None`.
pub fn parse_bounded(text: &[u8], limit: u64) -> (parsed: Option<u64>)
    ensures
        parsed == match parse_decimal(text@) {
            Some(v) => if v <= limit {
                Some(v as u64)
            } else {
                None
            },
            None => None,
        },
{
    if text.len() == 0 {
        return None;
    }
    let mut value: u64 = 0;
    let mut k: usize = 0;
    proof {
        assert(text@.take(0) =~= Seq::<u8>::empty());
    }
    while k < text.len()
        invariant
            k <= text.len(),
            all_digits(text@.take(k as int)),
            value as nat == digits_value(text@.take(k as int)),
            value <= limit,
        decreases text.len() - k,
    {
        let b: u8 = text[k];
        if b < 48 || b > 57 {
            proof {
                assert(!is_digit(text@[k as int]));
            }
            return None;
        }
        let digit: u64 = (b - 48) as u64;
        proof {
            assert(text@.take(k + 1).drop_last() =~= text@.take(k as int));
            assert(text@.take(k + 1).last() == b);
            assert forall|i: int| 0 <= i < k + 1 implies is_digit(
                #[trigger] text@.take(k + 1)[i],
            ) by {
                if i < k {
                    assert(text@.take(k as int)[i] == text@[i]);
                }
            }
        }
        if limit < digit || value > (limit - digit) / 10 {
            proof {
                // the prefix read so far already exceeds the limit
                assert(value * 10 + digit > limit);
                if forall|i: int| 0 <= i < text@.len() ==> is_digit(#[trigger] text@[i]) {
                    lemma_digits_value_grows(text@, k + 1);
                }
            }
            return None;
        }
        value = value * 10 + digit;
        k += 1;
    }
    proof {
        assert(text@.take(text.len() as int) =~= text@);
    }
    Some(value)
}

/// What the digits behind a decimal point are worth in millionths: one to
/// six digits, the first of which counts tenths.
pub open spec fn fraction_value(digits: Seq<u8>) -> Option<nat> {
    if 1 <= digits.len() <= 6 {
        match parse_decimal(digits) {
            Some(v) => if v < MILLION {
                Some(v * pow10((6 - digits.len()) as nat))
            } else {
                None
            },
            None => None,
        }
    } else {
        None
    }
}

/// Reads a decimal number without sign or exponent, with at most six digits
/// behind an optional point, and answers it in millionths.
pub open spec fn parse_millionths(text: Seq<u8>) -> Option<nat> {
    let point = next_byte(text, 0, 0x2e);
    if point >= text.len() {
        match parse_decimal(text) {
            Some(whole) => Some(whole * (MILLION as nat)),
            None => None,
        }
    } else {
        match (parse_decimal(text.take(point)), fraction_value(text.skip(point + 1))) {
            (Some(whole), Some(fraction)) => Some(whole * (MILLION as nat) + fraction),
            _ => None,
        }
    }
}

fn scale_of(digits: usize) -> (scale: u64)
    requires
        1 <= digits <= 6,
    ensures
        scale == pow10((6 - digits) as nat),
        scale <= 100_000,
{
    proof {
        reveal_with_fuel(pow10, 7);
    }
    if digits == 1 {
        100_000
    } else if digits == 2 {
        10_000
    } else if digits == 3 {
        1_000
    } else if digits == 4 {
        100
    } else if digits == 5 {
        10
    } else {
        1
    }
}

/// Reads a decimal number with at most six digits behind an optional point
/// and answers it in millionths; `None` for any other text and for a number
/// above `limit` millionths.
pub fn read_millionths(text: &[u8], limit: u32) -> (parsed: Option<u32>)
    ensures
        parsed == match parse_millionths(text@) {
            Some(v) => if v <= limit {
                Some(v as u32)
            } else {
                None
            },
            None => None,
        },
{
    let point = find_byte(text, 0, 0x2e);
    let whole_limit: u64 = (limit as u64) / MILLION;
    let whole_text = slice_subrange(text, 0, point);
    proof {
        assert(text@.subrange(0, point as int) =~= text@.take(point as int));
        if point >= text.len() {
            assert(text@.take(point as int) =~= text@);
        }
    }
    let whole: u64 = match parse_bounded(whole_text, whole_limit) {
        Some(whole) => whole,
        None => {
            proof {
                // a whole part above the limit alone exceeds the limit
                if parse_decimal(whole_text@) is Some {
                    let w = parse_decimal(whole_text@).unwrap();
                    assert(w * MILLION > limit) by (nonlinear_arith)
                        requires
                            w >= whole_limit + 1,
                            whole_limit == (limit as int) / (MILLION as int),
                            MILLION == 1_000_000,
                    ;
                }
            }
            return None;
        },
    };
    assert(whole * MILLION <= limit) by (nonlinear_arith)
        requires
            whole <= whole_limit,
            whole_limit == (limit as int) / (MILLION as int),
            MILLION == 1_000_000,
            limit >= 0,
    ;
    if point >= text.len() {
        return Some((whole * MILLION) as u32);
    }
    let digits = slice_subrange(text, point + 1, text.len());
    proof {
        assert(text@.subrange(point + 1, text.len() as int) =~= text@.skip(point + 1));
    }
    if digits.len() < 1 || digits.len() > 6 {
        return None;
    }
    let fraction: u64 = match parse_bounded(digits, MILLION - 1) {
        Some(fraction) => fraction,
        None => { return None; },
    };
    let scale = scale_of(digits.len());
    assert(fraction * scale <= 999_999 * 100_000) by (nonlinear_arith)
        requires
            fraction <= 999_999,
            scale <= 100_000,
    ;
    let value: u64 = whole * MILLION + fraction * scale;
    if value <= limit as u64 {
        Some(value as u32)
    } else {
        None
    }
}

/// Reading the shortest decimal text of a number gives the number back.
pub proof fn lemma_decimal_round_trip(n: nat)
    ensures
        decimal_digits(n).len() > 0,
        all_digits(decimal_digits(n)),
        digits_value(decimal_digits(n)) == n,
        parse_decimal(decimal_digits(n)) == Some(n),
    decreases n,
{
    let all = decimal_digits(n);
    if n >= 10 {
        lemma_decimal_round_trip(n / 10);
        let front = decimal_digits(n / 10);
        assert(all.drop_last() =~= front);
        assert(all.last() == digit_byte(n % 10));
        assert forall|i: int| 0 <= i < all.len() implies is_digit(#[trigger] all[i]) by {
            if i < front.len() {
                assert(all[i] == front[i]);
            }
        }
    } else {
        assert(all.drop_last() =~= Seq::<u8>::empty());
        assert(digits_value(all.drop_last()) == 0);
    }
}

/// Reading the zero-padded text of a number that fits its width gives the
/// number back.
pub proof fn lemma_fixed_round_trip(value: nat, width: nat)
    requires
        value < pow10(width),
    ensures
        fixed_digits(value, width).len() == width,
        all_digits(fixed_digits(value, width)),
        digits_value(fixed_digits(value, width)) == value,
    decreases width,
{
    let all = fixed_digits(value, width);
    if width > 0 {
        lemma_fixed_round_trip(value / 10, (width - 1) as nat);
        let front = fixed_digits(value / 10, (width - 1) as nat);
        assert(all.drop_last() =~= front);
        assert(all.last() == digit_byte(value % 10));
        assert forall|i: int| 0 <= i < all.len() implies is_digit(#[trigger] all[i]) by {
            if i < front.len() {
                assert(all[i] == front[i]);
            }
        }
    }
}

/// Reading a number that is written with its whole part, a point and
/// exactly six digits of millionths gives the number back.
pub proof fn lemma_millionths_round_trip(millionths: nat)
    ensures
        parse_millionths(
            decimal_digits(millionths / (MILLION as nat)) + seq![0x2eu8] + fixed_digits(
                millionths % (MILLION as nat),
                6,
            ),
        ) == Some(millionths),
{
    let whole = millionths / (MILLION as nat);
    let fraction = millionths % (MILLION as nat);
    let front = decimal_digits(whole);
    let back = fixed_digits(fraction, 6);
    let text = front + seq![0x2eu8] + back;
    let point = front.len() as int;
    assert(pow10(6) == 1_000_000) by {
        reveal_with_fuel(pow10, 7);
    }
    assert(pow10(0) == 1);
    lemma_decimal_round_trip(whole);
    lemma_fixed_round_trip(fraction, 6);
    assert forall|i: int| 0 <= i < point implies #[trigger] text[i] != 0x2eu8 by {
        assert(text[i] == front[i]);
        assert(is_digit(front[i]));
    }
    assert(text[point] == 0x2eu8);
    lemma_next_byte_is(text, 0, 0x2e, point);
    assert(text.take(point) =~= front);
    assert(text.skip(point + 1) =~= back);
    assert(parse_decimal(back) == Some(fraction));
    assert(pow10((6 - back.len()) as nat) == 1);
    assert(fraction * pow10((6 - back.len()) as nat) == fraction);
    assert(fraction_value(back) == Some(fraction));
    assert(whole * (MILLION as nat) + fraction == millionths) by (nonlinear_arith)
        requires
            whole == millionths / (MILLION as nat),
            fraction == millionths % (MILLION as nat),
            MILLION == 1_000_000,
    ;
}

} // verus!
