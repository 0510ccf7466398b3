//! Text encodings of strings, numbers in base 256, the PNG "Up" predictor and
//! inflating.

use crate::encoding::{pdfdoc_char, pdfdoc_lookup};
use crate::error::PdfError;
use std::io::Read;
use vstd::prelude::*;
use vstd::std_specs::iter::IteratorSpec;

pub use crate::reader::handle_decodeparms;

verus! {

/// Whether a number is a Unicode scalar value: a code point that is no
/// surrogate.
pub open spec fn is_scalar(x: u32) -> bool {
    x < 0xD800 || (0xE000 <= x && x <= 0x10FFFF)
}

/// `char::from_u32`: the character with the given code point, where the code
/// point is a Unicode scalar value, and nothing for any other number.
#[verifier::external_body]
pub(crate) fn char_from_u32(x: u32) -> (r: Option<char>)
    ensures
        r == (if is_scalar(x) {
            Some(x as char)
        } else {
            None
        }),
{
    char::from_u32(x)
}

/// `String::push`: the string with the character at its end.
#[verifier::external_body]
pub(crate) fn push_char(s: &mut String, c: char)
    ensures
        final(s)@ == old(s)@.push(c),
{
    s.push(c)
}

/// Joins characters to a string.
pub fn string_from_chars(chars: &Vec<char>) -> (r: String)
    ensures
        r@ == chars@,
{
    let mut out: String = String::new();
    let mut i: usize = 0;
    while i < chars.len()
        invariant
            i <= chars.len(),
            out@ == chars@.take(i as int),
        decreases chars.len() - i,
    {
        push_char(&mut out, chars[i]);
        proof {
            assert(chars@.take(i + 1) =~= chars@.take(i as int).push(chars@[i as int]));
        }
        i += 1;
    }
    proof {
        assert(chars@.take(chars.len() as int) =~= chars@);
    }
    out
}

/// The characters of a string, in their order.
pub fn chars_of_str(s: &str) -> (r: Vec<char>)
    ensures
        r@ == s@,
{
    let mut out: Vec<char> = Vec::new();
    let mut chars = s.chars();
    proof {
        assert(out@ + chars.remaining() =~= s@);
    }
    loop
        invariant
            out@ + chars.remaining() == s@,
            chars.decrease() is Some,
        decreases chars.decrease()->0,
    {
        match chars.next() {
            Some(c) => {
                out.push(c);
                proof {
                    assert(out@ + chars.remaining() =~= s@);
                }
            },
            None => {
                proof {
                    assert(out@ + chars.remaining() =~= out@);
                }
                return out;
            },
        }
    }
}

/// The text of a sequence of codes read as PDFDocEncoding: each code that has
/// a character gives it, every other code gives nothing.
pub open spec fn pdfdoc_text(codes: Seq<u32>) -> Seq<char>
    decreases codes.len(),
{
    if codes.len() == 0 {
        Seq::empty()
    } else {
        let head = pdfdoc_text(codes.drop_last());
        match pdfdoc_char(codes.last()) {
            Some(c) => head.push(c),
            None => head,
        }
    }
}

/// The 16-bit unit that two codes make, high byte first. Only the low eight
/// bits of each code count.
pub open spec fn utf16_unit(high: u32, low: u32) -> u32 {
    ((high % 256) * 256 + low % 256) as u32
}

/// The text of the first `units` two-code units that follow the byte-order
/// mark. A unit that is a surrogate gives no character.
pub open spec fn utf16be_text(codes: Seq<u32>, units: nat) -> Seq<char>
    decreases units,
{
    if units == 0 {
        Seq::empty()
    } else {
        let head = utf16be_text(codes, (units - 1) as nat);
        let unit = utf16_unit(codes[2 * (units as int)], codes[2 * (units as int) + 1]);
        if is_scalar(unit) {
            head.push(unit as char)
        } else {
            head
        }
    }
}

/// Whether the codes start with the byte-order mark `FE FF`.
pub open spec fn has_utf16_mark(codes: Seq<u32>) -> bool {
    codes.len() >= 2 && codes[0] == 254 && codes[1] == 255
}

/// The text that a string of codes stands for: big-endian UTF-16 after a
/// byte-order mark, PDFDocEncoding without one.
pub open spec fn decoded_text(codes: Seq<u32>) -> Seq<char> {
    if has_utf16_mark(codes) {
        utf16be_text(codes, ((codes.len() - 2) / 2) as nat)
    } else {
        pdfdoc_text(codes)
    }
}

/// Codes that start with the byte-order mark `FE FF` are read as big-endian
/// UTF-16; codes without it are read as PDFDocEncoding.
pub proof fn lemma_mark_selects_encoding(codes: Seq<u32>)
    ensures
        has_utf16_mark(codes) ==> decoded_text(codes) == utf16be_text(
            codes,
            ((codes.len() - 2) / 2) as nat,
        ),
        !has_utf16_mark(codes) ==> decoded_text(codes) == pdfdoc_text(codes),
{
}

/// The characters whose code points are the codes.
pub open spec fn chars_of_codes(codes: Seq<u32>) -> Seq<char> {
    Seq::new(codes.len(), |i: int| codes[i] as char)
}

/// A string of printable ASCII stands for itself: its text has the
/// characters of its codes, one for each code.
pub proof fn lemma_ascii_text(codes: Seq<u32>)
    requires
        forall|i: int| 0 <= i < codes.len() ==> 32 <= #[trigger] codes[i] <= 126,
    ensures
        decoded_text(codes) == chars_of_codes(codes),
    decreases codes.len(),
{
    if codes.len() > 0 {
        assert(32 <= codes[0] <= 126);
        lemma_ascii_text(codes.drop_last());
        assert(32 <= codes.last() <= 126);
        assert(pdfdoc_text(codes) =~= chars_of_codes(codes));
        assert(pdfdoc_text(codes.drop_last()) == chars_of_codes(codes.drop_last()));
    } else {
        assert(pdfdoc_text(codes) =~= chars_of_codes(codes));
    }
}

/// The text of one code in PDFDocEncoding: one character, or none.
pub open spec fn pdfdoc_char_text(code: u32) -> Seq<char> {
    match pdfdoc_char(code) {
        Some(c) => seq![c],
        None => Seq::empty(),
    }
}

/// Decodes one code of PDFDocEncoding to a string of one character, or to the
/// empty string where the code has no character.
pub fn decode_pdfdoc_char(byte: u32) -> (r: String)
    ensures
        r@ == pdfdoc_char_text(byte),
{
    let mut chars: Vec<char> = Vec::new();
    match pdfdoc_lookup(byte) {
        Some(c) => {
            chars.push(c);
            assert(chars@ =~= seq![c]);
        },
        None => {},
    }
    string_from_chars(&chars)
}

/// The characters of `decode_pdfdoc`, before they are joined to a string.
pub fn decode_pdfdoc_chars(bytes: &Vec<u32>) -> (r: Vec<char>)
    ensures
        r@ == decoded_text(bytes@),
{
    let mut decoded: Vec<char> = Vec::new();
    let n: usize = bytes.len();
    if n >= 2 && bytes[0] == 254 && bytes[1] == 255 {
        let mut ix: usize = 3;
        while ix < n
            invariant
                n == bytes.len(),
                ix % 2 == 1,
                3 <= ix <= n + 1,
                decoded@ == utf16be_text(bytes@, ((ix - 3) / 2) as nat),
            decreases n + 1 - ix,
        {
            let unit: u32 = (bytes[ix - 1] % 256) * 256 + bytes[ix] % 256;
            match char_from_u32(unit) {
                Some(c) => {
                    decoded.push(c);
                },
                None => {},
            }
            assert(((ix + 2 - 3) / 2) as nat == ((ix - 3) / 2) as nat + 1);
            assert(2 * (((ix - 3) / 2) as nat + 1) == ix - 1);
            ix += 2;
        }
        assert(((ix - 3) / 2) as nat == ((n - 2) / 2) as nat);
        return decoded;
    }
    let mut i: usize = 0;
    while i < n
        invariant
            n == bytes.len(),
            i <= n,
            decoded@ == pdfdoc_text(bytes@.take(i as int)),
        decreases n - i,
    {
        proof {
            assert(bytes@.take(i + 1).drop_last() =~= bytes@.take(i as int));
        }
        match pdfdoc_lookup(bytes[i]) {
            Some(c) => {
                decoded.push(c);
            },
            None => {},
        }
        i += 1;
    }
    proof {
        assert(bytes@.take(n as int) =~= bytes@);
    }
    decoded
}

/// Turns the codes of a string object into text: big-endian UTF-16 where the
/// codes start with the byte-order mark `FE FF`, PDFDocEncoding otherwise.
pub fn decode_pdfdoc(bytes: &Vec<u32>) -> (r: String)
    ensures
        r@ == decoded_text(bytes@),
{
    let chars = decode_pdfdoc_chars(bytes);
    string_from_chars(&chars)
}

/// The number that bytes write in base 256, most significant byte first.
pub open spec fn be_value(bytes: Seq<u8>) -> nat
    decreases bytes.len(),
{
    if bytes.len() == 0 {
        0
    } else {
        be_value(bytes.drop_last()) * 256 + bytes.last() as nat
    }
}

/// More bytes never write a smaller number.
pub proof fn lemma_be_value_grows(bytes: Seq<u8>, n: int)
    requires
        0 <= n <= bytes.len(),
    ensures
        be_value(bytes.take(n)) <= be_value(bytes),
    decreases bytes.len() - n,
{
    if n < bytes.len() {
        lemma_be_value_grows(bytes.drop_last(), n);
        assert(bytes.drop_last().take(n) =~= bytes.take(n));
    } else {
        assert(bytes.take(n) =~= bytes);
    }
}

/// Reads bytes as a number in base 256, most significant byte first; `None`
/// where the number does not fit.
pub fn checked_256_repr(bytes: &[u8]) -> (r: Option<usize>)
    ensures
        match r {
            Some(v) => v == be_value(bytes@),
            None => be_value(bytes@) > usize::MAX,
        },
{
    let mut output: usize = 0;
    let mut i: usize = 0;
    while i < bytes.len()
        invariant
            i <= bytes.len(),
            output == be_value(bytes@.take(i as int)),
        decreases bytes.len() - i,
    {
        proof {
            assert(bytes@.take(i + 1).drop_last() =~= bytes@.take(i as int));
        }
        let d: usize = bytes[i] as usize;
        if output > (usize::MAX - d) / 256 {
            proof {
                lemma_be_value_grows(bytes@, i + 1);
            }
            return None;
        }
        output = output * 256 + d;
        i += 1;
    }
    proof {
        assert(bytes@.take(bytes.len() as int) =~= bytes@);
    }
    Some(output)
}

/// Reads bytes as a number in base 256, most significant byte first.
pub fn get_256_repr(bytes: &[u8]) -> (r: usize)
    requires
        be_value(bytes@) <= usize::MAX,
    ensures
        r == be_value(bytes@),
{
    match checked_256_repr(bytes) {
        Some(v) => v,
        None => 0,
    }
}

/// How many whole rows a predicted stream holds: each row is one tag byte and
/// `columns` data bytes.
pub open spec fn png_rows(len: nat, columns: nat) -> nat {
    len / (columns + 1)
}

/// The tag byte of row `r`.
pub open spec fn png_row_tag(stream: Seq<u8>, columns: nat, r: int) -> u8 {
    stream[r * (columns + 1)]
}

/// Whether every whole row is tagged as an "Up" row.
pub open spec fn png_rows_are_up(stream: Seq<u8>, columns: nat) -> bool {
    forall|r: int|
        0 <= r < png_rows(stream.len(), columns) ==> #[trigger] png_row_tag(stream, columns, r)
            == 2
}

/// Byte `j` of row `r` after the "Up" predictor is undone: the stored byte
/// plus the byte above it, modulo 256; the first row has nothing above it.
pub open spec fn png_up_byte(stream: Seq<u8>, columns: nat, r: int, j: int) -> u8
    decreases r,
{
    let raw = stream[r * (columns + 1) + 1 + j];
    if r <= 0 {
        raw
    } else {
        ((raw + png_up_byte(stream, columns, r - 1, j)) % 256) as u8
    }
}

/// The first `rows` rows of a stream with the "Up" predictor undone.
pub open spec fn png_up_rows(stream: Seq<u8>, columns: nat, rows: nat) -> Seq<u8> {
    Seq::new(
        rows * columns,
        |k: int|
            if columns > 0 {
                png_up_byte(stream, columns, k / (columns as int), k % (columns as int))
            } else {
                0u8
            },
    )
}

/// A stream with the "Up" predictor undone: all its whole rows.
pub open spec fn png_up(stream: Seq<u8>, columns: nat) -> Seq<u8> {
    png_up_rows(stream, columns, png_rows(stream.len(), columns))
}

/// Where a whole row starts, another row follows what was decoded.
proof fn lemma_row_start(i: int, r: int, columns: int, len: int)
    requires
        0 <= r,
        0 <= columns,
        i == r * (columns + 1),
        i + 1 + columns <= len,
    ensures
        r < len / (columns + 1),
        (r + 1) * (columns + 1) == i + columns + 1,
        (r + 1) * columns == r * columns + columns,
        0 <= r * columns,
{
    assert((r + 1) * (columns + 1) == r * (columns + 1) + (columns + 1)) by (nonlinear_arith);
    assert((r + 1) * columns == r * columns + columns) by (nonlinear_arith);
    assert(0 <= r * columns) by (nonlinear_arith)
        requires
            0 <= r,
            0 <= columns,
    ;
    assert(r < len / (columns + 1)) by (nonlinear_arith)
        requires
            (r + 1) * (columns + 1) <= len,
            columns + 1 > 0,
            0 <= r,
    ;
}

/// Where no whole row is left, all rows have been decoded.
proof fn lemma_last_row(i: int, r: int, columns: int, len: int)
    requires
        0 <= r,
        0 <= columns,
        i == r * (columns + 1),
        i <= len,
        i + 1 + columns > len,
    ensures
        r == len / (columns + 1),
{
    assert(r == len / (columns + 1)) by (nonlinear_arith)
        requires
            r * (columns + 1) <= len,
            len < r * (columns + 1) + (columns + 1),
            columns + 1 > 0,
            0 <= r,
    ;
}

/// The row and the column of a byte of the decoded rows.
proof fn lemma_cell(r: int, j: int, columns: int)
    requires
        0 <= r,
        0 <= j < columns,
    ensures
        (r * columns + j) / columns == r,
        (r * columns + j) % columns == j,
        r > 0 ==> (r - 1) * columns + j == r * columns + j - columns,
{
    assert((r * columns + j) / columns == r && (r * columns + j) % columns == j)
        by (nonlinear_arith)
        requires
            0 <= r,
            0 <= j < columns,
    ;
    assert((r - 1) * columns + j == r * columns + j - columns) by (nonlinear_arith);
}

/// Undoes the PNG "Up" predictor. The stream is read as rows of one tag byte
/// and `columns` data bytes; bytes after the last whole row are dropped. Fails
/// where a whole row carries another tag than 2.
pub fn png_decode(stream: &Vec<u8>, _predictor: usize, columns: usize) -> (r: Result<
    Vec<u8>,
    PdfError,
>)
    ensures
        match r {
            Ok(v) => png_rows_are_up(stream@, columns as nat) && v@ == png_up(
                stream@,
                columns as nat,
            ),
            Err(e) => e == PdfError::DecodeError && !png_rows_are_up(stream@, columns as nat),
        },
{
    let mut i: usize = 0;
    let mut decoded: Vec<u8> = Vec::new();
    let ghost mut rows: nat = 0;
    let n: usize = stream.len();
    if columns >= n {
        proof {
            assert(png_rows(n as nat, columns as nat) == 0) by (nonlinear_arith)
                requires
                    columns >= n,
                    n >= 0,
                    png_rows(n as nat, columns as nat) == (n as nat) / (columns as nat + 1),
            ;
            assert(decoded@ =~= png_up(stream@, columns as nat));
        }
        return Ok(decoded);
    }
    while i < n && n - i > columns
        invariant
            n == stream.len(),
            columns < n,
            i <= n,
            i == rows * (columns + 1),
            decoded@ == png_up_rows(stream@, columns as nat, rows),
            decoded.len() == rows * columns,
            forall|r: int|
                0 <= r < rows ==> #[trigger] png_row_tag(stream@, columns as nat, r) == 2,
        decreases n - i,
    {
        proof {
            lemma_row_start(i as int, rows as int, columns as int, n as int);
        }
        if stream[i] != 2 {
            proof {
                assert(png_row_tag(stream@, columns as nat, rows as int) != 2);
            }
            return Err(PdfError::DecodeError);
        }
        proof {
            assert(png_row_tag(stream@, columns as nat, rows as int) == 2);
        }
        let base: usize = decoded.len();
        let mut j: usize = 0;
        while j < columns
            invariant
                n == stream.len(),
                i + 1 + columns <= n,
                j <= columns,
                i == rows * (columns + 1),
                base == rows * columns,
                decoded.len() == base + j,
                forall|k: int|
                    0 <= k < base ==> decoded@[k] == png_up_rows(stream@, columns as nat, rows)[k],
                forall|k: int|
                    0 <= k < j ==> decoded@[base + k] == png_up_byte(
                        stream@,
                        columns as nat,
                        rows as int,
                        k,
                    ),
            decreases columns - j,
        {
            let raw: u8 = stream[i + 1 + j];
            if base >= columns {
                proof {
                    lemma_cell(rows as int, j as int, columns as int);
                    if rows == 0 {
                        assert(base == 0);
                    }
                    lemma_cell(rows as int - 1, j as int, columns as int);
                }
                let above: u8 = decoded[base - columns + j];
                let sum: u8 = ((raw as u16 + above as u16) % 256) as u8;
                decoded.push(sum);
            } else {
                proof {
                    if rows > 0 {
                        assert(rows * columns >= columns) by (nonlinear_arith)
                            requires
                                rows >= 1,
                                columns >= 0,
                        ;
                    }
                }
                decoded.push(raw);
            }
            j += 1;
        }
        proof {
            let next = png_up_rows(stream@, columns as nat, rows + 1);
            assert(decoded@.len() == next.len());
            assert forall|k: int| 0 <= k < decoded@.len() implies decoded@[k] == next[k] by {
                if k < base {
                    assert(k / (columns as int) < rows && k / (columns as int) >= 0) by (nonlinear_arith)
                        requires
                            0 <= k < rows * columns,
                            columns > 0,
                    ;
                } else {
                    lemma_cell(rows as int, k - base, columns as int);
                }
            }
            assert(decoded@ =~= next);
            rows = rows + 1;
        }
        i = i + 1 + columns;
    }
    proof {
        if i < n {
            lemma_last_row(i as int, rows as int, columns as int, n as int);
        } else {
            lemma_last_row(i as int, rows as int, columns as int, n as int);
        }
    }
    Ok(decoded)
}

/// The length of an "Up"-predicted stream once the predictor is undone, for
/// a stream made of whole rows, with at most one byte left over: the stream's
/// length times `columns / (columns + 1)`, rounded down.
pub proof fn lemma_png_up_length(stream: Seq<u8>, columns: nat)
    requires
        stream.len() % (columns + 1) <= 1,
    ensures
        png_up(stream, columns).len() == (stream.len() * columns) / (columns + 1),
{
    let len = stream.len() as int;
    let c = columns as int;
    let q = len / (c + 1);
    let t = len % (c + 1);
    vstd::arithmetic::div_mod::lemma_fundamental_div_mod(len, c + 1);
    assert(q * c == (len * c) / (c + 1)) by (nonlinear_arith)
        requires
            len == (c + 1) * q + t,
            0 <= t <= 1,
            c >= 0,
            q >= 0,
            len >= 0,
    ;
}

/// What inflating bytes as a zlib stream gives: the bytes that come out up
/// to the end of the stream, or nothing where the stream is found to be
/// malformed or cut short.
pub uninterp spec fn zlib_inflate(data: Seq<u8>) -> Option<Seq<u8>>;

/// `flate2::read::ZlibDecoder` read to its end over the given bytes. The
/// result is what the decoder wrote where it reached the end of the stream
/// without an error, and nothing where it reported one.
#[verifier::external_body]
pub(crate) fn inflate(data: &Vec<u8>) -> (r: Option<Vec<u8>>)
    ensures
        match r {
            Some(out) => zlib_inflate(data@) == Some(out@),
            None => zlib_inflate(data@) is None,
        },
{
    let mut out: Vec<u8> = Vec::new();
    let mut decoder = flate2::read::ZlibDecoder::new(data.as_slice());
    match decoder.read_to_end(&mut out) {
        Ok(_) => Some(out),
        Err(_) => None,
    }
}

/// Replaces zlib-compressed bytes by what they inflate to. Bytes that do not
/// inflate are left as they were.
pub fn decode_flate(data: &mut Vec<u8>) -> (r: Result<(), PdfError>)
    ensures
        match zlib_inflate(old(data)@) {
            Some(out) => r is Ok && final(data)@ == out,
            None => r == Err::<(), PdfError>(PdfError::DecodeError) && final(data)@ == old(data)@,
        },
{
    match inflate(data) {
        Some(out) => {
            *data = out;
            Ok(())
        },
        None => Err(PdfError::DecodeError),
    }
}

} // verus!
