use tag_pdf_to_text::cursor::{cmp_u8, is_delimiter, skip_whitespace};
use tag_pdf_to_text::pdf_object::to_hex;

#[test]
fn skip_whitespace_stops_at_first_token_byte() {
    let data: Vec<u8> = b" \t\r\n\x0c\x00abc".to_vec();
    assert_eq!(skip_whitespace(&data, 0), 6);
    assert_eq!(skip_whitespace(&data, 6), 6);
    assert_eq!(skip_whitespace(&data, 9), 9);
}

#[test]
fn cmp_u8_is_false_past_the_end() {
    let data: Vec<u8> = b"%PDF-1.7".to_vec();
    assert!(cmp_u8(&data, 0, b"%PDF"));
    assert!(!cmp_u8(&data, 5, b"%PDF"));
    assert!(!cmp_u8(&data, 1, b"%PDF"));
}

#[test]
fn is_delimiter_knows_the_delimiters() {
    let data: Vec<u8> = b"a(b)<>[]{}/% ".to_vec();
    assert!(!is_delimiter(&data, 0));
    assert!(is_delimiter(&data, 1));
    assert!(!is_delimiter(&data, 2));
    for i in 3..13 {
        assert!(is_delimiter(&data, i));
    }
    assert!(!is_delimiter(&data, 13));
}

#[test]
fn to_hex_reads_digits_of_both_cases() {
    assert_eq!(to_hex(b"fF").ok(), Some(255));
    assert_eq!(to_hex(b"0041").ok(), Some(65));
    assert!(to_hex(b"4G").is_err());
    assert!(to_hex(b"100000000").is_err());
}
