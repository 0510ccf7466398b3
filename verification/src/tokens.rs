//! Reading values that do not nest: numbers, constants, names, strings, and the
//! ends of references and object heads.

use crate::cursor::{
    decimal_value, delimiter_byte, is_delimiter_byte, is_digit, is_digit_byte, is_eol,
    lemma_decimal_value_grows,
};
use crate::decoding::{chars_of_codes, decode_pdfdoc, decoded_text, lemma_ascii_text};
use crate::error::PdfError;
use crate::pdf_object::{
    hex_digit_value, is_hex_digit, is_hex_digit_byte, lemma_values_of_drop_last,
    lemma_values_of_push, value_of, values_of, PdfValue, PdfVar,
};
use crate::tags::{at_false, at_null, at_obj, at_true, tag_false, tag_null, tag_obj, tag_true};
use crate::cursor::has_tag;
use vstd::prelude::*;

verus! {

/// What reading one value, or a run of values, comes to: the position after
/// it and the operand stack with what was read, or an error and the position
/// at which it was found.
pub enum Parsed {
    Done { pos: int, stack: Seq<PdfValue> },
    Failed { error: PdfError, pos: int },
}

/// What scanning the inside of a string or a name comes to: the position
/// after it and its codes, or an error and its position.
pub enum Scanned {
    Done { pos: int, codes: Seq<u32> },
    Failed { error: PdfError, pos: int },
}

/// The outcome of a reading function, as its caller sees it.
pub type Step = Result<usize, (PdfError, usize)>;

/// Whether a reading function's result and the stack it left say what
/// `parsed` says.
pub open spec fn agrees(r: Step, stack: Seq<PdfVar>, parsed: Parsed) -> bool {
    match r {
        Ok(pos) => parsed == (Parsed::Done { pos: pos as int, stack: values_of(stack) }),
        Err((error, pos)) => parsed == (Parsed::Failed { error, pos: pos as int }),
    }
}

/// A byte that may stand in a number: a digit, a sign or a point.
pub open spec fn is_numeric_byte(b: u8) -> bool {
    is_digit(b) || b == 43 || b == 45 || b == 46
}

/// The first position at or after `i` that holds no byte of a number.
pub open spec fn numeric_end(data: Seq<u8>, i: int) -> int
    decreases data.len() - i,
{
    if 0 <= i < data.len() && is_numeric_byte(data[i]) {
        numeric_end(data, i + 1)
    } else {
        i
    }
}

/// How many digits stand in `[from, to)`.
pub open spec fn count_digits(data: Seq<u8>, from: int, to: int) -> nat
    decreases to - from,
{
    if to <= from {
        0
    } else {
        count_digits(data, from, to - 1) + if is_digit(data[to - 1]) {
            1nat
        } else {
            0nat
        }
    }
}

/// How many points stand in `[from, to)`.
pub open spec fn count_points(data: Seq<u8>, from: int, to: int) -> nat
    decreases to - from,
{
    if to <= from {
        0
    } else {
        count_points(data, from, to - 1) + if data[to - 1] == 46 {
            1nat
        } else {
            0nat
        }
    }
}

/// The number written at `pos`, which holds a digit, a sign or a point. The
/// text of the number runs to `numeric_end`. After an optional sign, digits
/// alone write an integer, if it fits in 64 bits; digits with at most one
/// point, or an integer too large, write a real; anything else writes no
/// number.
pub open spec fn numeric_value(data: Seq<u8>, pos: int) -> Option<PdfValue> {
    let end = numeric_end(data, pos);
    let signed = data[pos] == 43 || data[pos] == 45;
    let negative = data[pos] == 45;
    let from = if signed {
        pos + 1
    } else {
        pos
    };
    let digits = count_digits(data, from, end);
    let points = count_points(data, from, end);
    let magnitude = decimal_value(data, from, end);
    if digits >= 1 && digits == end - from && magnitude <= (if negative {
        0x8000_0000_0000_0000int
    } else {
        0x7fff_ffff_ffff_ffffint
    }) {
        Some(
            PdfValue::Integer {
                value: (if negative {
                    -magnitude
                } else {
                    magnitude as int
                }) as i64,
                signed,
            },
        )
    } else if digits >= 1 && points <= 1 && digits + points == end - from {
        Some(PdfValue::Real(data.subrange(pos, end)))
    } else {
        None
    }
}

/// Reading a number.
pub open spec fn spec_numeric(data: Seq<u8>, pos: int, stack: Seq<PdfValue>) -> Parsed {
    match numeric_value(data, pos) {
        Some(v) => Parsed::Done { pos: numeric_end(data, pos), stack: stack.push(v) },
        None => Parsed::Failed { error: PdfError::ObjectError, pos: numeric_end(data, pos) },
    }
}

/// The text of a number ends at or after its start, and within the data.
pub proof fn lemma_numeric_end(data: Seq<u8>, i: int)
    requires
        0 <= i,
    ensures
        i <= numeric_end(data, i),
        numeric_end(data, i) <= data.len() || numeric_end(data, i) == i,
    decreases data.len() - i,
{
    if 0 <= i < data.len() && is_numeric_byte(data[i]) {
        lemma_numeric_end(data, i + 1);
    }
}

/// Where as many digits are counted as there are bytes, all bytes are digits.
proof fn lemma_count_digits(data: Seq<u8>, from: int, to: int)
    requires
        from <= to,
    ensures
        count_digits(data, from, to) <= to - from,
        count_digits(data, from, to) == to - from ==> forall|k: int|
            from <= k < to ==> is_digit(#[trigger] data[k]),
    decreases to - from,
{
    if from < to {
        lemma_count_digits(data, from, to - 1);
    }
}

/// Whether a byte may stand in a number.
pub fn is_numeric(b: u8) -> (r: bool)
    ensures
        r == is_numeric_byte(b),
{
    is_digit_byte(b) || b == 43 || b == 45 || b == 46
}

/// Copies the bytes in `[from, to)`.
pub fn copy_range(data: &Vec<u8>, from: usize, to: usize) -> (r: Vec<u8>)
    requires
        from <= to <= data.len(),
    ensures
        r@ == data@.subrange(from as int, to as int),
{
    let mut out: Vec<u8> = Vec::new();
    let mut i: usize = from;
    while i < to
        invariant
            from <= i <= to <= data.len(),
            out@ == data@.subrange(from as int, i as int),
        decreases to - i,
    {
        out.push(data[i]);
        proof {
            assert(data@.subrange(from as int, i + 1) =~= data@.subrange(
                from as int,
                i as int,
            ).push(data@[i as int]));
        }
        i += 1;
    }
    out
}

/// Reads the number at `pos` and puts it on the stack.
pub fn obj_parse_numeric(data: &Vec<u8>, pos: usize, stack: &mut Vec<PdfVar>) -> (r: Step)
    requires
        pos < data.len(),
        is_numeric_byte(data[pos as int]),
    ensures
        agrees(r, final(stack)@, spec_numeric(data@, pos as int, values_of(old(stack)@))),
        r is Ok ==> pos < r->Ok_0 <= data.len(),
        r is Err ==> pos < r->Err_0.1 <= data.len() && final(stack)@ == old(stack)@,
{
    let n: usize = data.len();
    let signed: bool = data[pos] == 43 || data[pos] == 45;
    let negative: bool = data[pos] == 45;
    let from: usize = if signed {
        pos + 1
    } else {
        pos
    };
    let mut i: usize = from;
    let mut digits: usize = 0;
    let mut points: usize = 0;
    proof {
        lemma_numeric_end(data@, from as int);
    }
    while i < n && is_numeric(data[i])
        invariant
            n == data.len(),
            from <= i <= n,
            numeric_end(data@, i as int) == numeric_end(data@, pos as int),
            digits == count_digits(data@, from as int, i as int),
            points == count_points(data@, from as int, i as int),
            digits <= i - from,
            points <= i - from,
        decreases n - i,
    {
        if is_digit_byte(data[i]) {
            digits += 1;
        } else if data[i] == 46 {
            points += 1;
        }
        i += 1;
    }
    let end: usize = i;
    if digits >= 1 && digits == end - from {
        proof {
            lemma_count_digits(data@, from as int, end as int);
        }
        let mut magnitude: u64 = 0;
        let mut fits: bool = true;
        let mut j: usize = from;
        while j < end && fits
            invariant
                from <= j <= end <= data.len(),
                forall|k: int| from <= k < end ==> is_digit(#[trigger] data[k]),
                fits ==> magnitude == decimal_value(data@, from as int, j as int),
                fits ==> magnitude <= 0x8000_0000_0000_0000,
                !fits ==> decimal_value(data@, from as int, end as int) > 0x8000_0000_0000_0000,
            decreases end - j, fits as int,
        {
            let d: u64 = (data[j] - 48) as u64;
            if magnitude > (0x8000_0000_0000_0000u64 - d) / 10 {
                proof {
                    lemma_decimal_value_grows(data@, from as int, j + 1, end as int);
                }
                fits = false;
            } else {
                magnitude = magnitude * 10 + d;
                j += 1;
            }
        }
        if fits && (negative || magnitude <= 0x7fff_ffff_ffff_ffff) {
            let value: i64 = if negative {
                if magnitude == 0x8000_0000_0000_0000 {
                    i64::MIN
                } else {
                    -(magnitude as i64)
                }
            } else {
                magnitude as i64
            };
            proof {
                lemma_values_of_push(stack@, PdfVar::Integer { value, signed });
            }
            stack.push(PdfVar::Integer { value, signed });
            return Ok(end);
        }
    }
    if digits >= 1 && points <= 1 && digits == end - from - points {
        let text = copy_range(data, pos, end);
        proof {
            lemma_values_of_push(stack@, PdfVar::Real(text));
        }
        stack.push(PdfVar::Real(text));
        return Ok(end);
    }
    Err((PdfError::ObjectError, end))
}

/// A run of digits is the whole text of a number, all digits and no point.
proof fn lemma_digit_run(data: Seq<u8>, p: int, e: int)
    requires
        0 <= p <= e < data.len(),
        forall|k: int| p <= k < e ==> is_digit(#[trigger] data[k]),
        !is_numeric_byte(data[e]),
    ensures
        numeric_end(data, p) == e,
        count_digits(data, p, e) == e - p,
        count_points(data, p, e) == 0,
    decreases e - p,
{
    if p < e {
        lemma_digit_run_counts(data, p, e);
        lemma_digit_run_end(data, p, e);
    }
}

/// See `lemma_digit_run`.
proof fn lemma_digit_run_end(data: Seq<u8>, p: int, e: int)
    requires
        0 <= p <= e < data.len(),
        forall|k: int| p <= k < e ==> is_digit(#[trigger] data[k]),
        !is_numeric_byte(data[e]),
    ensures
        numeric_end(data, p) == e,
    decreases e - p,
{
    if p < e {
        assert(is_digit(data[p]));
        lemma_digit_run_end(data, p + 1, e);
    }
}

/// See `lemma_digit_run`.
proof fn lemma_digit_run_counts(data: Seq<u8>, p: int, e: int)
    requires
        0 <= p <= e <= data.len(),
        forall|k: int| p <= k < e ==> is_digit(#[trigger] data[k]),
    ensures
        count_digits(data, p, e) == e - p,
        count_points(data, p, e) == 0,
    decreases e - p,
{
    if p < e {
        assert(is_digit(data[e - 1]));
        lemma_digit_run_counts(data, p, e - 1);
    }
}

/// Digits alone, before a byte that belongs to no number, read as the
/// integer that they write, where it fits in 64 bits, without a sign.
pub proof fn lemma_plain_integer(data: Seq<u8>, p: int, e: int, stack: Seq<PdfValue>)
    requires
        0 <= p < e < data.len(),
        forall|k: int| p <= k < e ==> is_digit(#[trigger] data[k]),
        !is_numeric_byte(data[e]),
        decimal_value(data, p, e) <= 0x7fff_ffff_ffff_ffff,
    ensures
        spec_numeric(data, p, stack) == (Parsed::Done {
            pos: e,
            stack: stack.push(
                PdfValue::Integer { value: decimal_value(data, p, e) as i64, signed: false },
            ),
        }),
{
    lemma_digit_run(data, p, e);
    assert(is_digit(data[p]));
}

/// Reading `null`, `true` or `false`.
pub open spec fn spec_const(data: Seq<u8>, pos: int, stack: Seq<PdfValue>) -> Parsed {
    if has_tag(data, pos, tag_null()) {
        Parsed::Done { pos: pos + 4, stack: stack.push(PdfValue::Null) }
    } else if has_tag(data, pos, tag_true()) {
        Parsed::Done { pos: pos + 4, stack: stack.push(PdfValue::Boolean(true)) }
    } else if has_tag(data, pos, tag_false()) {
        Parsed::Done { pos: pos + 5, stack: stack.push(PdfValue::Boolean(false)) }
    } else {
        Parsed::Failed { error: PdfError::UnmatchedChar, pos }
    }
}

/// Reads `null`, `true` or `false` at `pos` and puts it on the stack.
pub fn obj_parse_const(data: &Vec<u8>, pos: usize, stack: &mut Vec<PdfVar>) -> (r: Step)
    requires
        pos <= data.len(),
    ensures
        agrees(r, final(stack)@, spec_const(data@, pos as int, values_of(old(stack)@))),
        r is Ok ==> pos < r->Ok_0 <= data.len(),
        r is Err ==> r->Err_0.1 <= data.len() && final(stack)@ == old(stack)@,
{
    if at_null(data, pos) {
        proof {
            lemma_values_of_push(stack@, PdfVar::Null);
        }
        stack.push(PdfVar::Null);
        Ok(pos + 4)
    } else if at_true(data, pos) {
        proof {
            lemma_values_of_push(stack@, PdfVar::Boolean(true));
        }
        stack.push(PdfVar::Boolean(true));
        Ok(pos + 4)
    } else if at_false(data, pos) {
        proof {
            lemma_values_of_push(stack@, PdfVar::Boolean(false));
        }
        stack.push(PdfVar::Boolean(false));
        Ok(pos + 5)
    } else {
        Err((PdfError::UnmatchedChar, pos))
    }
}

/// The number that two hexadecimal digits write.
pub open spec fn hex_pair(high: u8, low: u8) -> u32 {
    (hex_digit_value(high) * 16 + hex_digit_value(low)) as u32
}

/// Scanning a name from `i` on, with the codes read so far. `#` and two
/// hexadecimal digits give one code; a delimiter or the end of the data ends
/// the name; a byte from 31 to 126 stands for itself; no other byte may
/// stand in a name.
pub open spec fn name_scan(data: Seq<u8>, i: int, codes: Seq<u32>) -> Scanned
    decreases data.len() - i,
{
    if i < 0 || i >= data.len() {
        Scanned::Done { pos: i, codes }
    } else if data[i] == 35 {
        if i + 2 < data.len() && is_hex_digit(data[i + 1]) && is_hex_digit(data[i + 2]) {
            name_scan(data, i + 3, codes.push(hex_pair(data[i + 1], data[i + 2])))
        } else {
            Scanned::Failed { error: PdfError::HexError, pos: i }
        }
    } else if delimiter_byte(data[i]) {
        Scanned::Done { pos: i, codes }
    } else if 31 <= data[i] < 127 {
        name_scan(data, i + 1, codes.push(data[i] as u32))
    } else {
        Scanned::Failed { error: PdfError::ObjectError, pos: i }
    }
}

/// Reading a name: the solidus, then the name's codes, which are turned into
/// text as those of a string are.
pub open spec fn spec_name(data: Seq<u8>, pos: int, stack: Seq<PdfValue>) -> Parsed {
    match name_scan(data, pos + 1, Seq::empty()) {
        Scanned::Done { pos: end, codes } => Parsed::Done {
            pos: end,
            stack: stack.push(PdfValue::Name(decoded_text(codes))),
        },
        Scanned::Failed { error, pos: at } => Parsed::Failed { error, pos: at },
    }
}

/// A byte that stands for itself in a name: printable, no delimiter and no
/// `#`.
pub open spec fn is_name_byte(b: u8) -> bool {
    33 <= b <= 126 && !delimiter_byte(b) && b != 35
}

/// See `lemma_plain_name`.
proof fn lemma_name_run(data: Seq<u8>, i: int, codes: Seq<u32>, n: nat)
    requires
        0 <= i,
        i + n < data.len(),
        forall|k: int| i <= k < i + n ==> is_name_byte(#[trigger] data[k]),
        delimiter_byte(data[i + n]),
    ensures
        name_scan(data, i, codes) == (Scanned::Done {
            pos: i + n,
            codes: codes + codes_of(data, i, i + n),
        }),
    decreases n,
{
    if n == 0 {
        assert(codes + codes_of(data, i, i) =~= codes);
    } else {
        assert(is_name_byte(data[i]));
        lemma_name_run(data, i + 1, codes.push(data[i] as u32), (n - 1) as nat);
        assert(codes.push(data[i] as u32) + codes_of(data, i + 1, i + n) =~= codes + codes_of(
            data,
            i,
            i + n,
        ));
    }
}

/// A name of bytes that stand for themselves reads as its bytes: `/`, then
/// `n` such bytes, then a delimiter give the name with the characters of
/// those bytes, and the position of the delimiter.
pub proof fn lemma_plain_name(data: Seq<u8>, pos: int, n: nat, stack: Seq<PdfValue>)
    requires
        0 <= pos,
        pos + n + 1 < data.len(),
        data[pos] == 47,
        forall|k: int| pos < k <= pos + n ==> is_name_byte(#[trigger] data[k]),
        delimiter_byte(data[pos + n + 1]),
    ensures
        spec_name(data, pos, stack) == (Parsed::Done {
            pos: pos + n + 1,
            stack: stack.push(
                PdfValue::Name(chars_of_codes(codes_of(data, pos + 1, pos + n + 1))),
            ),
        }),
{
    let codes = codes_of(data, pos + 1, pos + n + 1);
    lemma_name_run(data, pos + 1, Seq::empty(), n);
    assert(Seq::<u32>::empty() + codes =~= codes);
    assert forall|i: int| 0 <= i < codes.len() implies 32 <= #[trigger] codes[i] <= 126 by {
        assert(is_name_byte(data[pos + 1 + i]));
    }
    lemma_ascii_text(codes);
}

/// The value of a hexadecimal digit.
pub fn hex_digit(b: u8) -> (r: u8)
    requires
        is_hex_digit(b),
    ensures
        r == hex_digit_value(b),
        r < 16,
{
    if 48 <= b && b <= 57 {
        b - 48
    } else if 65 <= b && b <= 70 {
        b - 55
    } else {
        b - 87
    }
}

/// Reads the name at `pos`, which holds a solidus, and puts it on the stack.
pub fn obj_parse_name(data: &Vec<u8>, pos: usize, stack: &mut Vec<PdfVar>) -> (r: Step)
    requires
        pos < data.len(),
    ensures
        agrees(r, final(stack)@, spec_name(data@, pos as int, values_of(old(stack)@))),
        r is Ok ==> pos < r->Ok_0 <= data.len(),
        r is Err ==> r->Err_0.1 <= data.len() && final(stack)@ == old(stack)@,
{
    let n: usize = data.len();
    let mut chars: Vec<u32> = Vec::new();
    let mut i: usize = pos + 1;
    while i < n && !is_delimiter_byte(data[i])
        invariant
            n == data.len(),
            pos < i <= n,
            name_scan(data@, i as int, chars@) == name_scan(data@, pos + 1, Seq::empty()),
        decreases n - i,
    {
        let b: u8 = data[i];
        if b == 35 {
            if n - i > 2 && is_hex_digit_byte(data[i + 1]) && is_hex_digit_byte(data[i + 2]) {
                let code: u32 = hex_digit(data[i + 1]) as u32 * 16 + hex_digit(data[i + 2]) as u32;
                chars.push(code);
                i += 3;
            } else {
                return Err((PdfError::HexError, i));
            }
        } else if 31 <= b && b < 127 {
            chars.push(b as u32);
            i += 1;
        } else {
            return Err((PdfError::ObjectError, i));
        }
    }
    let name: String = decode_pdfdoc(&chars);
    proof {
        lemma_values_of_push(stack@, PdfVar::Name(name));
    }
    stack.push(PdfVar::Name(name));
    Ok(i)
}

/// Scanning a hexadecimal string from `i` on, with the codes read so far. Two
/// digits give one code; a digit without a second one counts as if `0`
/// followed it; `>` ends the string, and nothing else may follow the digits.
pub open spec fn hex_scan(data: Seq<u8>, i: int, codes: Seq<u32>) -> Scanned
    decreases data.len() - i,
{
    if i < 0 || i >= data.len() {
        Scanned::Failed { error: PdfError::HexError, pos: i }
    } else if is_hex_digit(data[i]) {
        if i + 1 < data.len() && is_hex_digit(data[i + 1]) {
            hex_scan(data, i + 2, codes.push(hex_pair(data[i], data[i + 1])))
        } else {
            hex_scan(data, i + 1, codes.push(hex_pair(data[i], 48)))
        }
    } else if data[i] == 62 {
        Scanned::Done { pos: i + 1, codes }
    } else {
        Scanned::Failed { error: PdfError::HexError, pos: i }
    }
}

/// Reading a hexadecimal string.
pub open spec fn spec_hex_string(data: Seq<u8>, pos: int, stack: Seq<PdfValue>) -> Parsed {
    match hex_scan(data, pos + 1, Seq::empty()) {
        Scanned::Done { pos: end, codes } => Parsed::Done {
            pos: end,
            stack: stack.push(PdfValue::StringLiteral(codes)),
        },
        Scanned::Failed { error, pos: at } => Parsed::Failed { error, pos: at },
    }
}

/// Reads the hexadecimal string at `pos`, which holds `<`, and puts it on
/// the stack.
pub fn obj_parse_hex_string(data: &Vec<u8>, pos: usize, stack: &mut Vec<PdfVar>) -> (r: Step)
    requires
        pos < data.len(),
    ensures
        agrees(r, final(stack)@, spec_hex_string(data@, pos as int, values_of(old(stack)@))),
        r is Ok ==> pos < r->Ok_0 <= data.len(),
        r is Err ==> r->Err_0.1 <= data.len() && final(stack)@ == old(stack)@,
{
    let n: usize = data.len();
    let mut hex_vector: Vec<u32> = Vec::new();
    let mut i: usize = pos + 1;
    while i < n && is_hex_digit_byte(data[i])
        invariant
            n == data.len(),
            pos < i <= n,
            hex_scan(data@, i as int, hex_vector@) == hex_scan(data@, pos + 1, Seq::empty()),
        decreases n - i,
    {
        let high: u8 = hex_digit(data[i]);
        if n - i > 1 && is_hex_digit_byte(data[i + 1]) {
            let low: u8 = hex_digit(data[i + 1]);
            hex_vector.push(high as u32 * 16 + low as u32);
            i += 2;
        } else {
            hex_vector.push(high as u32 * 16);
            i += 1;
        }
    }
    if i >= n || data[i] != 62 {
        return Err((PdfError::HexError, i));
    }
    proof {
        lemma_values_of_push(stack@, PdfVar::StringLiteral(hex_vector));
    }
    stack.push(PdfVar::StringLiteral(hex_vector));
    Ok(i + 1)
}

/// What follows a backslash in a string: a code, nothing at all (a line
/// break that the backslash hides), or no escape that is known. `pos` is the
/// last byte that belongs to the escape.
pub enum Escaped {
    Code { code: u32, pos: int },
    Nothing { pos: int },
    Bad,
}

/// The first position at or after `i` that holds no end-of-line byte.
pub open spec fn eol_run_end(data: Seq<u8>, i: int) -> int
    decreases data.len() - i,
{
    if 0 <= i < data.len() && is_eol(data[i]) {
        eol_run_end(data, i + 1)
    } else {
        i
    }
}

/// An octal digit.
pub open spec fn is_octal(b: u8) -> bool {
    48 <= b <= 55
}

/// How many octal digits stand at `i`, up to three.
pub open spec fn octal_count(data: Seq<u8>, i: int) -> int {
    if !(0 <= i < data.len() && is_octal(data[i])) {
        0
    } else if !(i + 1 < data.len() && is_octal(data[i + 1])) {
        1
    } else if !(i + 2 < data.len() && is_octal(data[i + 2])) {
        2
    } else {
        3
    }
}

/// The number that the `count` octal digits at `i` write.
pub open spec fn octal_value(data: Seq<u8>, i: int, count: int) -> u32 {
    if count == 1 {
        (data[i] - 48) as u32
    } else if count == 2 {
        ((data[i] - 48) * 8 + (data[i + 1] - 48)) as u32
    } else {
        ((data[i] - 48) * 64 + (data[i + 1] - 48) * 8 + (data[i + 2] - 48)) as u32
    }
}

/// The escape whose first byte, the one after the backslash, stands at `i`.
/// `\n` gives a space; `\r`, `\b` and `\t` their control codes; a bracket or
/// a backslash itself; line breaks give nothing; one to three octal digits
/// give the number they write.
pub open spec fn escape_at(data: Seq<u8>, i: int) -> Escaped {
    if i < 0 || i >= data.len() {
        Escaped::Bad
    } else if data[i] == 110 {
        Escaped::Code { code: 32, pos: i }
    } else if data[i] == 114 {
        Escaped::Code { code: 13, pos: i }
    } else if data[i] == 98 {
        Escaped::Code { code: 8, pos: i }
    } else if data[i] == 116 {
        Escaped::Code { code: 9, pos: i }
    } else if data[i] == 40 || data[i] == 41 || data[i] == 92 {
        Escaped::Code { code: data[i] as u32, pos: i }
    } else if is_eol(data[i]) {
        Escaped::Nothing { pos: eol_run_end(data, i) - 1 }
    } else if octal_count(data, i) == 0 {
        Escaped::Bad
    } else {
        Escaped::Code {
            code: octal_value(data, i, octal_count(data, i)),
            pos: i + octal_count(data, i) - 1,
        }
    }
}

/// A run of line breaks ends at or after its start, and within the data.
pub proof fn lemma_eol_run_end(data: Seq<u8>, i: int)
    requires
        0 <= i,
    ensures
        i <= eol_run_end(data, i),
        eol_run_end(data, i) <= data.len() || eol_run_end(data, i) == i,
    decreases data.len() - i,
{
    if 0 <= i < data.len() && is_eol(data[i]) {
        lemma_eol_run_end(data, i + 1);
    }
}

/// Whether a byte is an octal digit.
pub fn is_octal_byte(b: u8) -> (r: bool)
    ensures
        r == is_octal(b),
{
    48 <= b && b <= 55
}

/// Reads the escape whose first byte stands at `*it`, puts its code, if it
/// has one, at the end of `literal`, and moves `*it` to the last byte of the
/// escape. `None` where no escape is known; `*it` then stays.
pub fn handle_escape(data: &Vec<u8>, it: &mut usize, literal: &mut Vec<u32>) -> (r: Option<()>)
    requires
        *old(it) <= data.len(),
    ensures
        match escape_at(data@, *old(it) as int) {
            Escaped::Code { code, pos } => r is Some && *final(it) == pos && final(literal)@
                == old(literal)@.push(code),
            Escaped::Nothing { pos } => r is Some && *final(it) == pos && final(literal)@ == old(
                literal,
            )@,
            Escaped::Bad => r is None && *final(it) == *old(it) && final(literal)@ == old(
                literal,
            )@,
        },
        *old(it) <= *final(it) < data.len() || r is None,
{
    let n: usize = data.len();
    let i: usize = *it;
    if i >= n {
        return None;
    }
    let b: u8 = data[i];
    if b == 110 {
        literal.push(32);
    } else if b == 114 {
        literal.push(13);
    } else if b == 98 {
        literal.push(8);
    } else if b == 116 {
        literal.push(9);
    } else if b == 40 || b == 41 || b == 92 {
        literal.push(b as u32);
    } else if b == 13 || b == 10 {
        let mut j: usize = i;
        while j < n && (data[j] == 10 || data[j] == 13)
            invariant
                n == data.len(),
                i <= j <= n,
                eol_run_end(data@, j as int) == eol_run_end(data@, i as int),
            decreases n - j,
        {
            j += 1;
        }
        *it = j - 1;
    } else {
        if !is_octal_byte(b) {
            return None;
        }
        let mut num: u32 = (b - 48) as u32;
        let mut numsize: usize = 1;
        if n - i > 1 && is_octal_byte(data[i + 1]) {
            num = num * 8 + (data[i + 1] - 48) as u32;
            numsize = 2;
            if n - i > 2 && is_octal_byte(data[i + 2]) {
                num = num * 8 + (data[i + 2] - 48) as u32;
                numsize = 3;
            }
        }
        literal.push(num);
        *it = i + numsize - 1;
    }
    Some(())
}

/// Scanning a string in round brackets. `i` is the last byte read; `depth`
/// counts the brackets that are open; `broken` says that an unknown escape
/// was met, after which the rest of the string is read but not kept.
pub open spec fn literal_scan(
    data: Seq<u8>,
    i: int,
    depth: nat,
    codes: Seq<u32>,
    broken: bool,
) -> Scanned
    decreases data.len() - i,
{
    let j = i + 1;
    if i < 0 || j >= data.len() {
        Scanned::Failed { error: PdfError::ObjectError, pos: data.len() as int }
    } else if data[j] == 92 {
        if broken {
            literal_scan(data, j + 1, depth, codes, broken)
        } else {
            match escape_at(data, j + 1) {
                Escaped::Code { code, pos } => if i < pos < data.len() {
                    literal_scan(data, pos, depth, codes.push(code), false)
                } else {
                    Scanned::Failed { error: PdfError::ObjectError, pos: data.len() as int }
                },
                Escaped::Nothing { pos } => if i < pos < data.len() {
                    literal_scan(data, pos, depth, codes, false)
                } else {
                    Scanned::Failed { error: PdfError::ObjectError, pos: data.len() as int }
                },
                Escaped::Bad => literal_scan(data, j + 1, depth, codes, true),
            }
        }
    } else if data[j] == 41 && depth <= 1 {
        Scanned::Done { pos: j + 1, codes }
    } else {
        let kept = if broken {
            codes
        } else {
            codes.push(data[j] as u32)
        };
        let open = if data[j] == 40 {
            depth + 1
        } else if data[j] == 41 {
            (depth - 1) as nat
        } else {
            depth
        };
        literal_scan(data, j, open, kept, broken)
    }
}

/// Reading a string in round brackets.
pub open spec fn spec_string_literal(data: Seq<u8>, pos: int, stack: Seq<PdfValue>) -> Parsed {
    match literal_scan(data, pos, 1, Seq::empty(), false) {
        Scanned::Done { pos: end, codes } => Parsed::Done {
            pos: end,
            stack: stack.push(PdfValue::StringLiteral(codes)),
        },
        Scanned::Failed { error, pos: at } => Parsed::Failed { error, pos: at },
    }
}

/// The bytes in `[from, to)` as codes.
pub open spec fn codes_of(data: Seq<u8>, from: int, to: int) -> Seq<u32> {
    Seq::new((to - from) as nat, |k: int| data[from + k] as u32)
}

/// A byte that stands for itself in a string: no bracket and no backslash.
pub open spec fn is_plain(b: u8) -> bool {
    b != 40 && b != 41 && b != 92
}

/// See `lemma_plain_string`.
proof fn lemma_plain_run(data: Seq<u8>, i: int, depth: nat, codes: Seq<u32>, n: nat)
    requires
        0 <= i,
        i + n < data.len(),
        forall|k: int| i < k <= i + n ==> is_plain(#[trigger] data[k]),
    ensures
        literal_scan(data, i, depth, codes, false) == literal_scan(
            data,
            i + n,
            depth,
            codes + codes_of(data, i + 1, i + n + 1),
            false,
        ),
    decreases n,
{
    if n == 0 {
        assert(codes + codes_of(data, i + 1, i + 1) =~= codes);
    } else {
        assert(is_plain(data[i + 1]));
        lemma_plain_run(data, i + 1, depth, codes.push(data[i + 1] as u32), (n - 1) as nat);
        assert(codes.push(data[i + 1] as u32) + codes_of(data, i + 2, i + n + 1) =~= codes
            + codes_of(data, i + 1, i + n + 1));
    }
}

/// A string that holds neither brackets nor backslashes reads as its bytes:
/// `(`, then `n` such bytes, then `)` give the codes of those bytes, and the
/// position after the closing bracket.
pub proof fn lemma_plain_string(data: Seq<u8>, pos: int, n: nat, stack: Seq<PdfValue>)
    requires
        0 <= pos,
        pos + n + 1 < data.len(),
        data[pos] == 40,
        forall|k: int| pos < k <= pos + n ==> is_plain(#[trigger] data[k]),
        data[pos + n + 1] == 41,
    ensures
        spec_string_literal(data, pos, stack) == (Parsed::Done {
            pos: pos + n + 2,
            stack: stack.push(PdfValue::StringLiteral(codes_of(data, pos + 1, pos + n + 1))),
        }),
{
    lemma_plain_run(data, pos, 1, Seq::empty(), n);
    assert(Seq::<u32>::empty() + codes_of(data, pos + 1, pos + n + 1) =~= codes_of(
        data,
        pos + 1,
        pos + n + 1,
    ));
}

/// Reads the string at `pos`, which holds `(`, and puts it on the stack.
pub fn obj_parse_string_literal(data: &Vec<u8>, pos: usize, stack: &mut Vec<PdfVar>) -> (r: Step)
    requires
        pos < data.len(),
    ensures
        agrees(r, final(stack)@, spec_string_literal(data@, pos as int, values_of(old(stack)@))),
        r is Ok ==> pos < r->Ok_0 <= data.len(),
        r is Err ==> r->Err_0.1 <= data.len() && final(stack)@ == old(stack)@,
{
    let n: usize = data.len();
    let mut parenthesis_depth: usize = 1;
    let mut literal: Vec<u32> = Vec::new();
    let mut reading_err: bool = false;
    let mut i: usize = pos;
    loop
        invariant
            n == data.len(),
            pos <= i <= n,
            1 <= parenthesis_depth <= i - pos + 1,
            stack@ == old(stack)@,
            literal_scan(data@, i as int, parenthesis_depth as nat, literal@, reading_err)
                == literal_scan(data@, pos as int, 1, Seq::empty(), false),
        decreases n - i,
    {
        if n - i <= 1 {
            return Err((PdfError::ObjectError, n));
        }
        i += 1;
        let b: u8 = data[i];
        if b == 92 {
            i += 1;
            if reading_err {
                continue ;
            }
            proof {
                lemma_eol_run_end(data@, i as int);
            }
            match handle_escape(data, &mut i, &mut literal) {
                Some(_) => {},
                None => {
                    reading_err = true;
                },
            }
        } else if b == 40 {
            parenthesis_depth += 1;
            if !reading_err {
                literal.push(b as u32);
            }
        } else if b == 41 {
            if parenthesis_depth == 1 {
                proof {
                    lemma_values_of_push(stack@, PdfVar::StringLiteral(literal));
                }
                stack.push(PdfVar::StringLiteral(literal));
                return Ok(i + 1);
            }
            parenthesis_depth -= 1;
            if !reading_err {
                literal.push(b as u32);
            }
        } else {
            if !reading_err {
                literal.push(b as u32);
            }
        }
    }
}

/// The stack after `R` or `obj`: the two integers on top, which must be
/// unsigned, give way to a reference to, or the head of, the object whose
/// number is the first of them.
pub open spec fn ref_value(stack: Seq<PdfValue>, pos: int, indirect: bool) -> Parsed {
    if stack.len() < 2 {
        Parsed::Failed { error: PdfError::ObjectRefError, pos }
    } else {
        match (stack[stack.len() - 2], stack[stack.len() - 1]) {
            (
                PdfValue::Integer { value: number, signed: s1 },
                PdfValue::Integer { value: generation, signed: s2 },
            ) => if !s1 && !s2 && 0 <= number <= usize::MAX {
                Parsed::Done {
                    pos,
                    stack: stack.take(stack.len() - 2).push(
                        if indirect {
                            PdfValue::IndirectObject(number as usize)
                        } else {
                            PdfValue::ObjectRef(number as usize)
                        },
                    ),
                }
            } else {
                Parsed::Failed { error: PdfError::ObjectRefError, pos }
            },
            _ => Parsed::Failed { error: PdfError::ObjectRefError, pos },
        }
    }
}

/// Reading `R`, which must be followed by a delimiter, or `obj`.
pub open spec fn spec_object_ref(data: Seq<u8>, pos: int, stack: Seq<PdfValue>) -> Parsed {
    if 0 <= pos < data.len() && data[pos] == 82 {
        if pos + 1 < data.len() && delimiter_byte(data[pos + 1]) {
            ref_value(stack, pos + 1, true)
        } else {
            Parsed::Failed { error: PdfError::UnmatchedChar, pos }
        }
    } else if has_tag(data, pos, tag_obj()) {
        ref_value(stack, pos + 3, false)
    } else {
        Parsed::Failed { error: PdfError::ObjectRefError, pos }
    }
}

/// Two unsigned integers and `R` before a delimiter read as a reference to
/// the object whose number is the first integer.
pub proof fn lemma_reference(
    data: Seq<u8>,
    pos: int,
    stack: Seq<PdfValue>,
    number: i64,
    generation: i64,
)
    requires
        0 <= pos,
        pos + 1 < data.len(),
        data[pos] == 82,
        delimiter_byte(data[pos + 1]),
        0 <= number <= usize::MAX,
    ensures
        spec_object_ref(
            data,
            pos,
            stack.push(PdfValue::Integer { value: number, signed: false }).push(
                PdfValue::Integer { value: generation, signed: false },
            ),
        ) == (Parsed::Done {
            pos: pos + 1,
            stack: stack.push(PdfValue::IndirectObject(number as usize)),
        }),
{
    let full = stack.push(PdfValue::Integer { value: number, signed: false }).push(
        PdfValue::Integer { value: generation, signed: false },
    );
    assert(full.take(full.len() - 2) =~= stack);
}

/// Reads `R` or `obj` at `pos` and replaces the two integers on top of the
/// stack by the reference or the object head that they write.
pub fn obj_parse_object_ref(data: &Vec<u8>, pos: usize, stack: &mut Vec<PdfVar>) -> (r: Step)
    requires
        pos < data.len(),
    ensures
        agrees(r, final(stack)@, spec_object_ref(data@, pos as int, values_of(old(stack)@))),
        r is Ok ==> pos < r->Ok_0 <= data.len(),
        r is Err ==> r->Err_0.1 <= data.len() && final(stack)@ == old(stack)@,
{
    let n: usize = data.len();
    let indirect_obj: bool;
    let next: usize;
    if data[pos] == 82 {
        if !(n - pos > 1 && is_delimiter_byte(data[pos + 1])) {
            return Err((PdfError::UnmatchedChar, pos));
        }
        next = pos + 1;
        indirect_obj = true;
    } else if at_obj(data, pos) {
        next = pos + 3;
        indirect_obj = false;
    } else {
        return Err((PdfError::ObjectRefError, pos));
    }
    let ghost before = stack@;
    let n_items: usize = stack.len();
    if n_items < 2 {
        return Err((PdfError::ObjectRefError, next));
    }
    proof {
        lemma_values_of_drop_last(before);
        lemma_values_of_drop_last(before.drop_last());
        assert(values_of(before).take(before.len() - 2) =~= values_of(
            before.drop_last().drop_last(),
        ));
        assert(values_of(before)[before.len() - 2] == value_of(before[before.len() - 2]));
        assert(values_of(before)[before.len() - 1] == value_of(before[before.len() - 1]));
    }
    let number: i64 = match &stack[n_items - 2] {
        PdfVar::Integer { value, signed } => {
            if *signed || *value < 0 {
                return Err((PdfError::ObjectRefError, next));
            }
            *value
        },
        _ => {
            return Err((PdfError::ObjectRefError, next));
        },
    };
    match &stack[n_items - 1] {
        PdfVar::Integer { value, signed } => {
            if *signed {
                return Err((PdfError::ObjectRefError, next));
            }
        },
        _ => {
            return Err((PdfError::ObjectRefError, next));
        },
    }
    let wide: u64 = number as u64;
    if wide > usize::MAX as u64 {
        return Err((PdfError::ObjectRefError, next));
    }
    let id: usize = wide as usize;
    stack.pop();
    stack.pop();
    if indirect_obj {
        proof {
            lemma_values_of_push(stack@, PdfVar::IndirectObject(id));
        }
        stack.push(PdfVar::IndirectObject(id));
    } else {
        proof {
            lemma_values_of_push(stack@, PdfVar::ObjectRef(id));
        }
        stack.push(PdfVar::ObjectRef(id));
    }
    Ok(next)
}

} // verus!
