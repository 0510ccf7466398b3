//! Reading bytes at a position: white space, delimiters, line ends, fixed words
//! and decimal numbers.

use vstd::prelude::*;

verus! {

/// White space between tokens: NUL, tab, line feed, form feed, carriage return
/// and space.
pub open spec fn is_whitespace(b: u8) -> bool {
    b == 0 || b == 9 || b == 10 || b == 12 || b == 13 || b == 32
}

/// The bytes that end a token: white space, brackets of every kind, `/` and `%`.
pub open spec fn delimiter_byte(b: u8) -> bool {
    is_whitespace(b) || b == 40 || b == 41 || b == 60 || b == 62 || b == 91 || b == 93 || b == 123
        || b == 125 || b == 47 || b == 37
}

/// An ASCII decimal digit.
pub open spec fn is_digit(b: u8) -> bool {
    48 <= b <= 57
}

/// An end-of-line byte: line feed or carriage return.
pub open spec fn is_eol(b: u8) -> bool {
    b == 10 || b == 13
}

/// The first position at or after `i` that holds no white space; `i` itself
/// when it lies outside the data.
pub open spec fn skip_ws(data: Seq<u8>, i: int) -> int
    decreases data.len() - i,
{
    if 0 <= i < data.len() && is_whitespace(data[i]) {
        skip_ws(data, i + 1)
    } else {
        i
    }
}

/// The first position at or after `i` that holds an end-of-line byte, or the
/// end of the data.
pub open spec fn line_end(data: Seq<u8>, i: int) -> int
    decreases data.len() - i,
{
    if 0 <= i < data.len() && !is_eol(data[i]) {
        line_end(data, i + 1)
    } else {
        i
    }
}

/// The first byte of the line after the one that holds `i`. A carriage return
/// followed by a line feed ends one line, not two.
pub open spec fn next_line_start(data: Seq<u8>, i: int) -> int {
    let e = line_end(data, i);
    if e < 0 || e >= data.len() {
        e
    } else if data[e] == 13 && e + 1 < data.len() && data[e + 1] == 10 {
        e + 2
    } else {
        e + 1
    }
}

/// The first position at or after `i` that holds no decimal digit.
pub open spec fn digits_end(data: Seq<u8>, i: int) -> int
    decreases data.len() - i,
{
    if 0 <= i < data.len() && is_digit(data[i]) {
        digits_end(data, i + 1)
    } else {
        i
    }
}

/// The number that the decimal digits in `[from, to)` write.
pub open spec fn decimal_value(data: Seq<u8>, from: int, to: int) -> nat
    decreases to - from,
{
    if to <= from {
        0
    } else {
        decimal_value(data, from, to - 1) * 10 + (data[to - 1] - 48) as nat
    }
}

/// Whether the bytes of `tag` stand in `data` from `pos` on.
pub open spec fn has_tag(data: Seq<u8>, pos: int, tag: Seq<u8>) -> bool {
    0 <= pos && pos + tag.len() <= data.len() && data.subrange(pos, pos + tag.len()) == tag
}

/// White space is skipped up to the first byte that is none, and no further.
pub proof fn lemma_skip_ws(data: Seq<u8>, i: int)
    requires
        0 <= i,
    ensures
        i <= skip_ws(data, i),
        skip_ws(data, i) <= data.len() || skip_ws(data, i) == i,
        forall|k: int| i <= k < skip_ws(data, i) ==> is_whitespace(#[trigger] data[k]),
        skip_ws(data, i) < data.len() ==> !is_whitespace(data[skip_ws(data, i)]),
        skip_ws(data, skip_ws(data, i)) == skip_ws(data, i),
    decreases data.len() - i,
{
    if 0 <= i < data.len() && is_whitespace(data[i]) {
        lemma_skip_ws(data, i + 1);
    }
}

/// One byte of white space before a byte that is none is skipped.
pub proof fn lemma_one_space(data: Seq<u8>, i: int)
    requires
        0 <= i,
        i + 1 < data.len(),
        is_whitespace(data[i]),
        !is_whitespace(data[i + 1]),
    ensures
        skip_ws(data, i) == i + 1,
{
    assert(skip_ws(data, i + 1) == i + 1);
}

/// A line ends at the first end-of-line byte, or at the end of the data.
pub proof fn lemma_line_end(data: Seq<u8>, i: int)
    requires
        0 <= i,
    ensures
        i <= line_end(data, i),
        line_end(data, i) <= data.len() || line_end(data, i) == i,
        forall|k: int| i <= k < line_end(data, i) ==> !is_eol(#[trigger] data[k]),
        line_end(data, i) < data.len() ==> is_eol(data[line_end(data, i)]),
    decreases data.len() - i,
{
    if 0 <= i < data.len() && !is_eol(data[i]) {
        lemma_line_end(data, i + 1);
    }
}

/// A run of digits ends at the first byte that is no digit.
pub proof fn lemma_digits_end(data: Seq<u8>, i: int)
    requires
        0 <= i,
    ensures
        i <= digits_end(data, i),
        digits_end(data, i) <= data.len() || digits_end(data, i) == i,
        forall|k: int| i <= k < digits_end(data, i) ==> is_digit(#[trigger] data[k]),
        digits_end(data, i) < data.len() ==> !is_digit(data[digits_end(data, i)]),
    decreases data.len() - i,
{
    if 0 <= i < data.len() && is_digit(data[i]) {
        lemma_digits_end(data, i + 1);
    }
}

/// Whether a byte is white space.
pub fn is_whitespace_byte(b: u8) -> (r: bool)
    ensures
        r == is_whitespace(b),
{
    b == 0 || b == 9 || b == 10 || b == 12 || b == 13 || b == 32
}

/// Whether a byte ends a token.
pub fn is_delimiter_byte(b: u8) -> (r: bool)
    ensures
        r == delimiter_byte(b),
{
    is_whitespace_byte(b) || b == 40 || b == 41 || b == 60 || b == 62 || b == 91 || b == 93 || b
        == 123 || b == 125 || b == 47 || b == 37
}

/// Whether a byte is a decimal digit.
pub fn is_digit_byte(b: u8) -> (r: bool)
    ensures
        r == is_digit(b),
{
    48 <= b && b <= 57
}

/// Whether the byte at `index` ends a token. A position past the end holds no
/// byte, and so no delimiter.
pub fn is_delimiter(vector: &Vec<u8>, index: usize) -> (r: bool)
    ensures
        r == (index < vector.len() && delimiter_byte(vector[index as int])),
{
    index < vector.len() && is_delimiter_byte(vector[index])
}

/// Compares the bytes of `tag` with those of `data` from `pos` on. Data too
/// short to hold the tag there does not match.
pub fn matches_tag(data: &Vec<u8>, pos: usize, tag: &[u8]) -> (r: bool)
    ensures
        r == has_tag(data@, pos as int, tag@),
{
    if tag.len() > data.len() || pos > data.len() - tag.len() {
        return false;
    }
    let mut i: usize = 0;
    while i < tag.len()
        invariant
            i <= tag.len(),
            pos + tag.len() <= data.len(),
            data@.subrange(pos as int, pos + i) == tag@.subrange(0, i as int),
        decreases tag.len() - i,
    {
        if data[pos + i] != tag[i] {
            proof {
                let a = data@.subrange(pos as int, pos + tag.len());
                assert(a[i as int] != tag@[i as int]);
            }
            return false;
        }
        proof {
            assert(data@.subrange(pos as int, pos + i + 1) =~= data@.subrange(
                pos as int,
                pos + i,
            ).push(data@[pos + i]));
            assert(tag@.subrange(0, i + 1) =~= tag@.subrange(0, i as int).push(tag@[i as int]));
        }
        i += 1;
    }
    proof {
        assert(tag@.subrange(0, tag.len() as int) =~= tag@);
    }
    true
}

/// Whether the bytes of `tag` stand in `data` from the position `pos` on.
pub open spec fn has_tag_at(data: Seq<u8>, pos: usize, tag: Seq<u8>) -> bool {
    has_tag(data, pos as int, tag)
}

/// Compares a byte string with the bytes of `vector` from `index` on. A vector
/// too short to hold the byte string there does not match.
pub fn cmp_u8(vector: &Vec<u8>, index: usize, byte_array: &[u8]) -> (r: bool)
    ensures
        r == has_tag_at(vector@, index, byte_array@),
{
    matches_tag(vector, index, byte_array)
}

/// The first position at or after `start` that holds no white space.
pub fn skip_whitespace(doc_u8: &Vec<u8>, start: usize) -> (it: usize)
    ensures
        it == skip_ws(doc_u8@, start as int),
        start <= it,
        it <= doc_u8.len() || it == start,
        forall|k: int| start <= k < it ==> is_whitespace(#[trigger] doc_u8[k]),
        it < doc_u8.len() ==> !is_whitespace(doc_u8[it as int]),
{
    proof {
        lemma_skip_ws(doc_u8@, start as int);
    }
    let mut it: usize = start;
    while it < doc_u8.len() && is_whitespace_byte(doc_u8[it])
        invariant
            start <= it,
            skip_ws(doc_u8@, it as int) == skip_ws(doc_u8@, start as int),
        decreases doc_u8.len() - it,
    {
        it += 1;
    }
    it
}

/// The first byte of the next line: the position after the end-of-line mark
/// that follows `start`, or the end of the data where none follows.
pub fn next_line_from(data: &Vec<u8>, start: usize) -> (it: usize)
    ensures
        it == next_line_start(data@, start as int),
        start <= it,
        it <= data.len() || it == start,
{
    proof {
        lemma_line_end(data@, start as int);
    }
    let mut it: usize = start;
    while it < data.len() && data[it] != 10 && data[it] != 13
        invariant
            start <= it,
            line_end(data@, it as int) == line_end(data@, start as int),
        decreases data.len() - it,
    {
        it += 1;
    }
    if it >= data.len() {
        return it;
    }
    if data[it] == 13 && it + 1 < data.len() && data[it + 1] == 10 {
        it + 2
    } else {
        it + 1
    }
}

/// Reads the decimal number at `pos`: its value and the count of its digits.
/// `None` where no digit stands at `pos`, or the number does not fit.
pub fn read_uint_ascii(data: &Vec<u8>, pos: usize) -> (r: Option<(usize, usize)>)
    ensures
        match r {
            Some((value, count)) => {
                &&& count >= 1
                &&& pos + count == digits_end(data@, pos as int)
                &&& value == decimal_value(data@, pos as int, pos + count)
            },
            None => digits_end(data@, pos as int) == pos || decimal_value(
                data@,
                pos as int,
                digits_end(data@, pos as int),
            ) > usize::MAX,
        },
{
    proof {
        lemma_digits_end(data@, pos as int);
    }
    let mut it: usize = pos;
    let mut value: usize = 0;
    while it < data.len() && is_digit_byte(data[it])
        invariant
            pos <= it,
            it <= data.len() || it == pos,
            digits_end(data@, it as int) == digits_end(data@, pos as int),
            value == decimal_value(data@, pos as int, it as int),
            forall|k: int| pos <= k < it ==> is_digit(#[trigger] data[k]),
        decreases data.len() - it,
    {
        let d: usize = (data[it] - 48) as usize;
        if value > (usize::MAX - d) / 10 {
            proof {
                lemma_digits_end(data@, it + 1);
                lemma_decimal_value_grows(data@, pos as int, it + 1, digits_end(
                    data@,
                    pos as int,
                ));
            }
            return None;
        }
        value = value * 10 + d;
        it += 1;
    }
    if it == pos {
        None
    } else {
        Some((value, it - pos))
    }
}

/// A longer run of digits writes a number at least as large.
pub proof fn lemma_decimal_value_grows(data: Seq<u8>, from: int, mid: int, to: int)
    requires
        0 <= from <= mid <= to <= data.len(),
        forall|k: int| from <= k < to ==> is_digit(#[trigger] data[k]),
    ensures
        decimal_value(data, from, mid) <= decimal_value(data, from, to),
    decreases to - mid,
{
    if mid < to {
        lemma_decimal_value_grows(data, from, mid, to - 1);
        assert(is_digit(data[to - 1]));
    }
}

} // verus!
