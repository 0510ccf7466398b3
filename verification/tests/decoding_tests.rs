use std::io::Write;
use tag_pdf_to_text::cursor::{next_line_from, read_uint_ascii};
use tag_pdf_to_text::decoding::{
    checked_256_repr, decode_flate, decode_pdfdoc, decode_pdfdoc_char, get_256_repr, png_decode,
};
use tag_pdf_to_text::error::PdfError;

fn zlib(data: &[u8]) -> Vec<u8> {
    let mut encoder =
        flate2::write::ZlibEncoder::new(Vec::new(), flate2::Compression::default());
    encoder.write_all(data).unwrap();
    encoder.finish().unwrap()
}

#[test]
fn next_line_honours_all_line_endings() {
    let data: Vec<u8> = b"ab\ncd\r\nef\rgh\n\nij".to_vec();
    assert_eq!(next_line_from(&data, 0), 3);
    assert_eq!(next_line_from(&data, 3), 7);
    assert_eq!(next_line_from(&data, 7), 10);
    // an empty line is a line
    assert_eq!(next_line_from(&data, 10), 13);
    assert_eq!(next_line_from(&data, 13), 14);
    // no line follows the last one
    assert_eq!(next_line_from(&data, 14), 16);
}

#[test]
fn read_uint_ascii_gives_value_and_digit_count() {
    let data: Vec<u8> = b"0000012345 x".to_vec();
    assert_eq!(read_uint_ascii(&data, 0), Some((12345, 10)));
    assert_eq!(read_uint_ascii(&data, 8), Some((45, 2)));
    assert_eq!(read_uint_ascii(&data, 10), None);
    assert_eq!(read_uint_ascii(&data, 99), None);
    let huge: Vec<u8> = b"99999999999999999999999999".to_vec();
    assert_eq!(read_uint_ascii(&huge, 0), None);
}

#[test]
fn pdfdoc_char_table() {
    assert_eq!(decode_pdfdoc_char(65), "A");
    assert_eq!(decode_pdfdoc_char(32), " ");
    assert_eq!(decode_pdfdoc_char(126), "~");
    assert_eq!(decode_pdfdoc_char(128), "\u{2022}");
    assert_eq!(decode_pdfdoc_char(147), "\u{fb01}");
    assert_eq!(decode_pdfdoc_char(160), "\u{20ac}");
    assert_eq!(decode_pdfdoc_char(233), "\u{e9}");
    assert_eq!(decode_pdfdoc_char(253), "\u{fd}");
    // codes without a character
    for code in [0u32, 10, 31, 127, 159, 173, 254, 255, 256, 70000] {
        assert_eq!(decode_pdfdoc_char(code), "");
    }
}

#[test]
fn string_with_mark_is_utf16_and_without_is_pdfdoc() {
    assert_eq!(decode_pdfdoc(&vec![254, 255, 0, 65, 0, 66, 0, 67]), "ABC");
    assert_eq!(decode_pdfdoc(&vec![254, 255, 0x20, 0xAC]), "\u{20ac}");
    // a surrogate is dropped, and so is a byte without a partner
    assert_eq!(decode_pdfdoc(&vec![254, 255, 0xD8, 0x00, 0, 65, 0]), "A");
    assert_eq!(decode_pdfdoc(&vec![254, 255]), "");
    assert_eq!(decode_pdfdoc(&vec![0, 65, 0, 66]), "AB");
    assert_eq!(decode_pdfdoc(&vec![255, 254, 65, 10, 128]), "A\u{2022}");
    assert_eq!(decode_pdfdoc(&Vec::new()), "");
}

#[test]
fn base_256_numbers() {
    assert_eq!(get_256_repr(&[]), 0);
    assert_eq!(get_256_repr(&[1, 0]), 256);
    assert_eq!(get_256_repr(&[0x12, 0x34, 0x56]), 0x123456);
    assert_eq!(checked_256_repr(&[0, 0, 0, 0, 0, 0, 0, 0, 0, 7]), Some(7));
    assert_eq!(checked_256_repr(&[1; 17]), None);
}

#[test]
fn png_up_adds_the_row_above() {
    let stream: Vec<u8> = vec![2, 1, 2, 3, 2, 10, 20, 250, 2, 1, 1, 10];
    assert_eq!(png_decode(&stream, 12, 3), Ok(vec![1, 2, 3, 11, 22, 253, 12, 23, 7]));
}

#[test]
fn png_up_length_is_rows_times_columns() {
    // whole rows: 12 bytes, 3 columns -> 12 * 3 / 4
    let whole: Vec<u8> = vec![2, 0, 0, 0, 2, 0, 0, 0, 2, 0, 0, 0];
    assert_eq!(png_decode(&whole, 12, 3).unwrap().len(), 12 * 3 / 4);
    // a row cut short is dropped: 5 bytes, 2 columns -> one row
    let cut: Vec<u8> = vec![2, 7, 8, 2, 9];
    assert_eq!(png_decode(&cut, 12, 2), Ok(vec![7, 8]));
    assert_eq!(png_decode(&Vec::new(), 12, 4), Ok(Vec::new()));
    assert_eq!(png_decode(&vec![2, 2, 2], 12, 0), Ok(Vec::new()));
}

#[test]
fn png_rows_of_another_kind_fail() {
    let stream: Vec<u8> = vec![2, 1, 2, 1, 3, 4];
    assert_eq!(png_decode(&stream, 12, 2), Err(PdfError::DecodeError));
    assert_eq!(png_decode(&vec![0, 5], 10, 1), Err(PdfError::DecodeError));
    // the tag of a row that is cut short is not looked at
    assert_eq!(png_decode(&vec![2, 5, 9], 12, 1), Ok(vec![5]));
}

#[test]
fn flate_gives_the_inflated_bytes() {
    let plain: Vec<u8> = b"stream of bytes, stream of bytes, stream of bytes".to_vec();
    let mut data = zlib(&plain);
    assert_ne!(data, plain);
    assert_eq!(decode_flate(&mut data), Ok(()));
    assert_eq!(data, plain);
}

#[test]
fn flate_fails_on_what_is_no_zlib_stream() {
    let mut data: Vec<u8> = b"not compressed at all".to_vec();
    assert_eq!(decode_flate(&mut data), Err(PdfError::DecodeError));
    assert_eq!(data, b"not compressed at all".to_vec());
    let mut cut = zlib(b"some text that is long enough to be cut in the middle");
    cut.truncate(cut.len() / 2);
    let before = cut.clone();
    assert_eq!(decode_flate(&mut cut), Err(PdfError::DecodeError));
    assert_eq!(cut, before);
}
