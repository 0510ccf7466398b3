//! Numbers in millionths: the sizes and positions of text.

use crate::cursor::{is_digit, is_digit_byte};
use crate::pdf_object::{PdfValue, PdfVar};
use vstd::prelude::*;

verus! {

/// Sizes and positions are held in millionths of a unit: this is one unit.
pub const UNIT: i64 = 1000000;

/// The largest magnitude that a size or position can have.
pub const LIMIT: i64 = 9223372036854775807;

/// The number within the limits that is nearest to `x`.
pub open spec fn clamp(x: int) -> i64 {
    if x > LIMIT {
        LIMIT
    } else if x < -LIMIT {
        (-LIMIT) as i64
    } else {
        x as i64
    }
}

/// The quotient of `x` by a positive `d`, rounded towards zero.
pub open spec fn trunc_div(x: int, d: int) -> int {
    if x >= 0 {
        x / d
    } else {
        -((-x) / d)
    }
}

/// The sum of two numbers, kept within the limits.
pub open spec fn fixed_sum(a: i64, b: i64) -> i64 {
    clamp(a + b)
}

/// The difference of two numbers, kept within the limits.
pub open spec fn fixed_diff(a: i64, b: i64) -> i64 {
    clamp(a - b)
}

/// The product of two numbers in millionths, rounded towards zero and kept
/// within the limits.
pub open spec fn fixed_product(a: i64, b: i64) -> i64 {
    clamp(trunc_div(a * b, UNIT as int))
}

/// One unit is the unit of the product: a number within the limits times
/// one unit is the number.
pub proof fn lemma_product_with_unit(a: i64)
    requires
        -LIMIT <= a,
    ensures
        fixed_product(a, UNIT) == a,
{
    if a >= 0 {
        assert((a * 1000000) / 1000000 == a) by (nonlinear_arith)
            requires
                a >= 0,
        ;
    } else {
        assert(((-a) * 1000000) / 1000000 == -a) by (nonlinear_arith)
            requires
                a < 0,
        ;
        assert(-(a * 1000000) == (-a) * 1000000) by (nonlinear_arith);
    }
}

/// The magnitude of a number.
pub open spec fn fixed_magnitude(a: i64) -> i64 {
    clamp(if a < 0 {
        -a
    } else {
        a as int
    })
}

/// A number with its sign turned.
pub open spec fn fixed_negated(a: i64) -> i64 {
    clamp(-a)
}

/// Brings a wide number within the limits.
pub fn clamp_wide(x: i128) -> (r: i64)
    ensures
        r == clamp(x as int),
{
    if x > LIMIT as i128 {
        LIMIT
    } else if x < -(LIMIT as i128) {
        -LIMIT
    } else {
        x as i64
    }
}

/// Adds two numbers in millionths.
pub fn plus(a: i64, b: i64) -> (r: i64)
    ensures
        r == fixed_sum(a, b),
{
    clamp_wide(a as i128 + b as i128)
}

/// Takes one number in millionths from another.
pub fn minus(a: i64, b: i64) -> (r: i64)
    ensures
        r == fixed_diff(a, b),
{
    clamp_wide(a as i128 - b as i128)
}

/// Turns the sign of a number in millionths.
pub fn negated(a: i64) -> (r: i64)
    ensures
        r == fixed_negated(a),
{
    clamp_wide(-(a as i128))
}

/// The magnitude of a number in millionths.
pub fn magnitude(a: i64) -> (r: i64)
    ensures
        r == fixed_magnitude(a),
        r >= 0,
{
    if a < 0 {
        clamp_wide(-(a as i128))
    } else {
        a
    }
}

/// The magnitude of a number, as an unsigned wide number.
fn wide_magnitude(a: i64) -> (r: u128)
    ensures
        r == (if a < 0 {
            -a
        } else {
            a as int
        }),
        r <= 0x8000_0000_0000_0000,
{
    if a < 0 {
        (-(a as i128)) as u128
    } else {
        a as u128
    }
}

/// Multiplies two numbers in millionths.
pub fn times(a: i64, b: i64) -> (r: i64)
    ensures
        r == fixed_product(a, b),
{
    let ua: u128 = wide_magnitude(a);
    let ub: u128 = wide_magnitude(b);
    assert(ua * ub <= 0x4000_0000_0000_0000_0000_0000_0000_0000) by (nonlinear_arith)
        requires
            ua <= 0x8000_0000_0000_0000,
            ub <= 0x8000_0000_0000_0000,
    ;
    let product: u128 = ua * ub;
    let quotient: u128 = product / 1000000;
    let negative: bool = (a < 0) != (b < 0);
    proof {
        assert(ua * ub == (if negative {
            -(a * b)
        } else {
            a * b
        })) by (nonlinear_arith)
            requires
                ua == (if a < 0 {
                    -a
                } else {
                    a as int
                }),
                ub == (if b < 0 {
                    -b
                } else {
                    b as int
                }),
                negative == ((a < 0) != (b < 0)),
        ;
        if negative && a * b == 0 {
            assert(trunc_div(a * b, UNIT as int) == 0);
        }
    }
    if quotient > LIMIT as u128 {
        if negative {
            -LIMIT
        } else {
            LIMIT
        }
    } else if negative {
        -(quotient as i64)
    } else {
        quotient as i64
    }
}

/// How many digits of a fraction count.
pub const FRACTION_DIGITS: usize = 6;

/// The whole part that the digits from `i` on write after `acc`, up to the
/// first byte that is no digit. The part stops growing at the limit.
pub open spec fn whole_part(text: Seq<u8>, i: int, acc: int) -> int
    decreases text.len() - i,
{
    if i < 0 || i >= text.len() || !is_digit(text[i]) {
        acc
    } else if acc * 10 + (text[i] - 48) > LIMIT {
        whole_part(text, i + 1, LIMIT as int)
    } else {
        whole_part(text, i + 1, acc * 10 + (text[i] - 48))
    }
}

/// The position of the first byte from `i` on that is no digit.
pub open spec fn whole_end(text: Seq<u8>, i: int) -> int
    decreases text.len() - i,
{
    if i < 0 || i >= text.len() || !is_digit(text[i]) {
        i
    } else {
        whole_end(text, i + 1)
    }
}

/// The millionths that the digits from `i` on write as a fraction: the
/// first six of them count, `left` says how many may still count.
pub open spec fn fraction_part(text: Seq<u8>, i: int, left: nat, acc: int) -> int
    decreases left,
{
    if left == 0 {
        acc
    } else if i < 0 || i >= text.len() || !is_digit(text[i]) {
        fraction_part(text, i, (left - 1) as nat, acc * 10)
    } else {
        fraction_part(text, i + 1, (left - 1) as nat, acc * 10 + (text[i] - 48))
    }
}

/// The number, in millionths, that the text of a real number writes: an
/// optional sign, the whole part, and after a point the fraction, of which
/// six digits count.
pub open spec fn fixed_of_text(text: Seq<u8>) -> i64 {
    let signed = text.len() > 0 && (text[0] == 43 || text[0] == 45);
    let negative = text.len() > 0 && text[0] == 45;
    let from = if signed {
        1int
    } else {
        0int
    };
    let whole = whole_part(text, from, 0);
    let dot = whole_end(text, from);
    let fraction = if dot < text.len() && text[dot] == 46 {
        fraction_part(text, dot + 1, FRACTION_DIGITS as nat, 0)
    } else {
        0
    };
    let total = whole * UNIT + fraction;
    clamp(if negative {
        -total
    } else {
        total
    })
}

/// The number, in millionths, that a value gives: an integer or a real.
pub open spec fn fixed_of(v: PdfValue) -> Option<i64> {
    match v {
        PdfValue::Integer { value, signed } => Some(clamp(value * UNIT)),
        PdfValue::Real(text) => Some(fixed_of_text(text)),
        _ => None,
    }
}

/// The number that a value gives lies within the limits.
pub proof fn lemma_fixed_of_within(v: PdfValue)
    ensures
        match fixed_of(v) {
            Some(x) => -LIMIT <= x <= LIMIT,
            None => true,
        },
{
}

/// Reads the text of a real number as millionths.
pub fn read_fixed_text(text: &Vec<u8>) -> (r: i64)
    ensures
        r == fixed_of_text(text@),
{
    let n: usize = text.len();
    let signed: bool = n > 0 && (text[0] == 43 || text[0] == 45);
    let negative: bool = n > 0 && text[0] == 45;
    let from: usize = if signed {
        1
    } else {
        0
    };
    let mut whole: i128 = 0;
    let mut i: usize = from;
    while i < n && is_digit_byte(text[i])
        invariant
            n == text.len(),
            from <= i <= n,
            0 <= whole <= LIMIT,
            whole_part(text@, i as int, whole as int) == whole_part(text@, from as int, 0),
            whole_end(text@, i as int) == whole_end(text@, from as int),
        decreases n - i,
    {
        let d: i128 = (text[i] - 48) as i128;
        if whole * 10 + d > LIMIT as i128 {
            whole = LIMIT as i128;
        } else {
            whole = whole * 10 + d;
        }
        i += 1;
    }
    let mut fraction: i128 = 0;
    if i < n && text[i] == 46 {
        let mut j: usize = i + 1;
        let mut left: usize = FRACTION_DIGITS;
        while left > 0
            invariant
                n == text.len(),
                i < j <= n,
                left <= FRACTION_DIGITS,
                0 <= fraction,
                (left == 6 ==> fraction < 1) && (left == 5 ==> fraction < 10) && (left == 4
                    ==> fraction < 100) && (left == 3 ==> fraction < 1000) && (left == 2
                    ==> fraction < 10000) && (left == 1 ==> fraction < 100000) && (left == 0
                    ==> fraction < 1000000),
                fraction_part(text@, j as int, left as nat, fraction as int) == fraction_part(
                    text@,
                    i + 1,
                    FRACTION_DIGITS as nat,
                    0,
                ),
            decreases left,
        {
            if j < n && is_digit_byte(text[j]) {
                fraction = fraction * 10 + (text[j] - 48) as i128;
                j += 1;
            } else {
                fraction = fraction * 10;
            }
            left -= 1;
        }
    }
    assert(whole * 1000000 <= 9223372036854775807 * 1000000) by (nonlinear_arith)
        requires
            0 <= whole <= 9223372036854775807,
    ;
    let total: i128 = whole * 1000000 + fraction;
    if negative {
        clamp_wide(-total)
    } else {
        clamp_wide(total)
    }
}

impl PdfVar {
    /// The number that an integer or a real writes, in millionths.
    pub fn get_fixed(&self) -> (r: Option<i64>)
        ensures
            r == fixed_of(self@),
    {
        match self {
            PdfVar::Integer { value, signed } => Some(clamp_wide(*value as i128 * 1000000)),
            PdfVar::Real(text) => Some(read_fixed_text(text)),
            _ => None,
        }
    }
}

} // verus!
