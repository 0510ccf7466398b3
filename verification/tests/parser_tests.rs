use tag_pdf_to_text::document::{Document, ObjectRef, Trailer};
use tag_pdf_to_text::error::PdfError;
use tag_pdf_to_text::pdf_object::PdfVar;
use tag_pdf_to_text::reader::{handle_decodeparms, parse_object};

fn doc_of(bytes: &[u8]) -> Document {
    Document {
        xref: Vec::new(),
        trailer: Trailer { info: 0, root: 0, size: 0, encrypt: 0 },
        data: bytes.to_vec(),
        it: 0,
        sections: Vec::new(),
    }
}

fn parse_one(bytes: &[u8]) -> Result<(PdfVar, usize), PdfError> {
    let mut doc = doc_of(bytes);
    let mut stack: Vec<PdfVar> = Vec::new();
    parse_object(&mut doc, &mut stack)?;
    assert_eq!(stack.len(), 1);
    Ok((stack.pop().unwrap(), doc.it))
}

fn codes(text: &str) -> Vec<u32> {
    text.bytes().map(|b| b as u32).collect()
}

#[test]
fn string_with_escaped_brackets() {
    let (v, end) = parse_one(b"(abc\\(def\\)ghi)").unwrap();
    assert_eq!(v, PdfVar::StringLiteral(codes("abc(def)ghi")));
    assert_eq!(end, 15);
}

#[test]
fn string_with_octal_escapes() {
    let (v, _) = parse_one(b"(\\053\\101)").unwrap();
    assert_eq!(v, PdfVar::StringLiteral(vec![43, 65]));
    let (v, _) = parse_one(b"(\\7\\18)").unwrap();
    assert_eq!(v, PdfVar::StringLiteral(vec![7, 1, 56]));
}

#[test]
fn string_escapes_and_nesting() {
    let (v, end) = parse_one(b" (a(b)c\\n\\r\\t\\b\\\\) x").unwrap();
    assert_eq!(
        v,
        PdfVar::StringLiteral(vec![97, 40, 98, 41, 99, 32, 13, 9, 8, 92])
    );
    assert_eq!(end, 18);
    // a backslash before a line break hides the break
    let (v, _) = parse_one(b"(ab\\\r\ncd)").unwrap();
    assert_eq!(v, PdfVar::StringLiteral(codes("abcd")));
    // after an escape that is not known the rest is read but not kept
    let (v, end) = parse_one(b"(ab\\qcd(e))").unwrap();
    assert_eq!(v, PdfVar::StringLiteral(codes("ab")));
    assert_eq!(end, 11);
}

#[test]
fn string_without_end_is_an_object_error() {
    assert_eq!(parse_one(b"(abc").err(), Some(PdfError::ObjectError));
    assert_eq!(parse_one(b"(abc\\").err(), Some(PdfError::ObjectError));
}

#[test]
fn hex_strings() {
    let (v, end) = parse_one(b"<48656C6c6F>").unwrap();
    assert_eq!(v, PdfVar::StringLiteral(codes("Hello")));
    assert_eq!(end, 12);
    // a digit without a partner counts as if 0 followed
    let (v, _) = parse_one(b"<414>").unwrap();
    assert_eq!(v, PdfVar::StringLiteral(vec![0x41, 0x40]));
    let (v, _) = parse_one(b"<>").unwrap();
    assert_eq!(v, PdfVar::StringLiteral(Vec::new()));
    assert_eq!(parse_one(b"<41 42>").err(), Some(PdfError::HexError));
    assert_eq!(parse_one(b"<4G>").err(), Some(PdfError::HexError));
    assert_eq!(parse_one(b"<41").err(), Some(PdfError::HexError));
}

#[test]
fn names() {
    let (v, end) = parse_one(b"/Type /Page").unwrap();
    assert_eq!(v, PdfVar::Name("Type".to_string()));
    assert_eq!(end, 5);
    let (v, _) = parse_one(b"/A#20B#2fC").unwrap();
    assert_eq!(v, PdfVar::Name("A B/C".to_string()));
    let (v, _) = parse_one(b"/").unwrap();
    assert_eq!(v, PdfVar::Name(String::new()));
    assert_eq!(parse_one(b"/A#2").err(), Some(PdfError::HexError));
    assert_eq!(parse_one(b"/A#GG ").err(), Some(PdfError::HexError));
    assert_eq!(parse_one(b"/A\x80B ").err(), Some(PdfError::ObjectError));
}

#[test]
fn numbers() {
    assert_eq!(parse_one(b"42 ").unwrap().0, PdfVar::Integer { value: 42, signed: false });
    assert_eq!(parse_one(b"+42").unwrap().0, PdfVar::Integer { value: 42, signed: true });
    assert_eq!(parse_one(b"-17]").unwrap().0, PdfVar::Integer { value: -17, signed: true });
    assert_eq!(
        parse_one(b"-9223372036854775808").unwrap().0,
        PdfVar::Integer { value: i64::MIN, signed: true }
    );
    assert_eq!(
        parse_one(b"9223372036854775807").unwrap().0,
        PdfVar::Integer { value: i64::MAX, signed: false }
    );
    // an integer too large is a real
    assert_eq!(
        parse_one(b"9223372036854775808").unwrap().0,
        PdfVar::Real(b"9223372036854775808".to_vec())
    );
    assert_eq!(parse_one(b"3.14 ").unwrap().0, PdfVar::Real(b"3.14".to_vec()));
    assert_eq!(parse_one(b"-.5").unwrap().0, PdfVar::Real(b"-.5".to_vec()));
    assert_eq!(parse_one(b"7.").unwrap().0, PdfVar::Real(b"7.".to_vec()));
    for bad in [&b"."[..], b"+", b"-", b"1.2.3", b"1-2", b"--1", b"+-1", b"1+"] {
        assert_eq!(parse_one(bad).err(), Some(PdfError::ObjectError));
    }
}

#[test]
fn real_numbers_in_millionths() {
    let cases: Vec<(&[u8], i64)> = vec![
        (b"3.14", 3_140_000),
        (b"-.5", -500_000),
        (b"7.", 7_000_000),
        (b"+0.0000019", 1),
        (b"-0.1234567", -123_456),
        (b"12", 12_000_000),
        (b"-3", -3_000_000),
        (b"99999999999999999999", i64::MAX),
        (b"-99999999999999999999.5", -i64::MAX),
    ];
    for (text, want) in cases {
        let (v, _) = parse_one(text).unwrap();
        assert_eq!(v.get_fixed(), Some(want));
    }
    assert_eq!(PdfVar::Null.get_fixed(), None);
    assert_eq!(PdfVar::Integer { value: i64::MAX, signed: false }.get_fixed(), Some(i64::MAX));
}

#[test]
fn constants() {
    assert_eq!(parse_one(b"null").unwrap(), (PdfVar::Null, 4));
    assert_eq!(parse_one(b"true").unwrap(), (PdfVar::Boolean(true), 4));
    assert_eq!(parse_one(b"false").unwrap(), (PdfVar::Boolean(false), 5));
    assert_eq!(parse_one(b"nul").err(), Some(PdfError::UnmatchedChar));
    assert_eq!(parse_one(b"tru ").err(), Some(PdfError::UnmatchedChar));
}

#[test]
fn arrays_and_references() {
    let (v, end) = parse_one(b"[1 0 R /N (s) [true] 5 0 R]").unwrap();
    assert_eq!(
        v,
        PdfVar::Array(vec![
            PdfVar::IndirectObject(1),
            PdfVar::Name("N".to_string()),
            PdfVar::StringLiteral(vec![115]),
            PdfVar::Array(vec![PdfVar::Boolean(true)]),
            PdfVar::IndirectObject(5),
        ])
    );
    assert_eq!(end, 27);
    assert_eq!(v.get_usize_array(), None);
    let (ids, _) = parse_one(b"[3 0 R 4 7]").unwrap();
    assert_eq!(ids.get_usize_array(), Some(vec![3, 4, 7]));
    assert_eq!(PdfVar::IndirectObject(9).get_usize_array(), Some(vec![9]));
    assert_eq!(parse_one(b"[1 2").err(), Some(PdfError::ObjectError));
}

#[test]
fn reference_errors() {
    assert_eq!(parse_one(b"[1 R]").err(), Some(PdfError::ObjectRefError));
    assert_eq!(parse_one(b"[/A 0 R]").err(), Some(PdfError::ObjectRefError));
    assert_eq!(parse_one(b"[-1 0 R]").err(), Some(PdfError::ObjectRefError));
    assert_eq!(parse_one(b"[1 +0 R]").err(), Some(PdfError::ObjectRefError));
    assert_eq!(parse_one(b"[1 0 ob]").err(), Some(PdfError::ObjectRefError));
    // `R` must be followed by a delimiter
    assert_eq!(parse_one(b"[1 0 Rx]").err(), Some(PdfError::UnmatchedChar));
}

#[test]
fn dictionaries() {
    let (v, end) = parse_one(b"<< /A 1 /B << /C [2 0 R] >> /A 3 >>").unwrap();
    assert_eq!(end, 35);
    // where a key occurs twice, the first entry counts
    assert_eq!(v.get_dict_value("A"), Some(&PdfVar::Integer { value: 1, signed: false }));
    assert_eq!(v.get_dict_int("A"), Some(1));
    assert_eq!(v.get_dict_value("Z"), None);
    let inner = v.get_dict_value("B").unwrap();
    assert_eq!(
        inner.get_dict_value("C"),
        Some(&PdfVar::Array(vec![PdfVar::IndirectObject(2)]))
    );
    assert_eq!(parse_one(b"<< /A >>").err(), Some(PdfError::DictionaryError));
    assert_eq!(parse_one(b"<< 1 2 >>").err(), Some(PdfError::DictionaryError));
    assert_eq!(parse_one(b"<< /A 1").err(), Some(PdfError::ObjectError));
}

#[test]
fn a_byte_that_starts_no_value() {
    let mut doc = doc_of(b"  ) rest");
    let mut stack: Vec<PdfVar> = Vec::new();
    assert_eq!(parse_object(&mut doc, &mut stack), Err(PdfError::UnmatchedChar));
    assert_eq!(doc.it, 2);
    assert_eq!(parse_one(b"").err(), Some(PdfError::UnmatchedChar));
    assert_eq!(parse_one(b"   ").err(), Some(PdfError::UnmatchedChar));
}

#[test]
fn nesting_is_bounded() {
    let mut deep: Vec<u8> = Vec::new();
    for _ in 0..300 {
        deep.push(b'[');
    }
    for _ in 0..300 {
        deep.push(b']');
    }
    assert_eq!(parse_one(&deep).err(), Some(PdfError::ObjectError));
    let mut fine: Vec<u8> = Vec::new();
    for _ in 0..200 {
        fine.push(b'[');
    }
    for _ in 0..200 {
        fine.push(b']');
    }
    assert!(parse_one(&fine).is_ok());
}

#[test]
fn whole_objects_and_streams() {
    let mut doc = doc_of(b"%PDF-1.4\n7 0 obj\n<< /Length 5 >>\nstream\nhello\nendstream\nendobj\n");
    let obj = PdfVar::from(&mut doc, 9).unwrap();
    assert_eq!(obj.get_stream(), Some((40, 5)));
    assert_eq!(doc.it, 56);
    assert_eq!(obj.get_decoded_stream(&mut doc), Some(b"hello".to_vec()));
    match &obj {
        PdfVar::Object { _id, content } => {
            assert_eq!(*_id, 7);
            assert_eq!(content.len(), 3);
            assert_eq!(content[0], PdfVar::ObjectRef(7));
        }
        _ => panic!("no object"),
    }
    // the line break after the keyword may be a carriage return and a line feed
    let mut doc = doc_of(b"1 0 obj << /Length 2 >> stream\r\n\n\nendstream endobj");
    let obj = PdfVar::from(&mut doc, 0).unwrap();
    assert_eq!(obj.get_stream(), Some((32, 2)));
}

#[test]
fn object_errors() {
    let mut doc = doc_of(b"1 0 obj 5");
    assert_eq!(PdfVar::from(&mut doc, 0), Err(PdfError::ObjectError));
    let mut doc = doc_of(b"5 endobj");
    assert_eq!(PdfVar::from(&mut doc, 0), Err(PdfError::ObjectError));
    let mut doc = doc_of(b"5 6 endobj");
    assert_eq!(PdfVar::from(&mut doc, 0), Err(PdfError::ObjectError));
    let mut doc = doc_of(b"1 0 obj 5 endobj");
    assert_eq!(PdfVar::from(&mut doc, 100), Err(PdfError::ObjectError));
}

#[test]
fn stream_errors() {
    // no dictionary before the stream
    assert_eq!(parse_one(b"stream\nabc\nendstream").err(), Some(PdfError::StreamError));
    let mut doc = doc_of(b"1 0 obj << /Len 3 >> stream\nabc\nendstream endobj");
    assert_eq!(PdfVar::from(&mut doc, 0), Err(PdfError::StreamError));
    let mut doc = doc_of(b"1 0 obj << /Length 5 >> stream\nabc\nendstream endobj");
    assert_eq!(PdfVar::from(&mut doc, 0), Err(PdfError::StreamError));
    let mut doc = doc_of(b"1 0 obj << /Length 999 >> stream\nabc\nendstream endobj");
    assert_eq!(PdfVar::from(&mut doc, 0), Err(PdfError::StreamError));
    let mut doc = doc_of(b"1 0 obj << /Length -3 >> stream\nabc\nendstream endobj");
    assert_eq!(PdfVar::from(&mut doc, 0), Err(PdfError::StreamError));
    let mut doc = doc_of(b"1 0 obj << /Length 3 >> strea");
    assert_eq!(PdfVar::from(&mut doc, 0), Err(PdfError::UnmatchedChar));
}

#[test]
fn length_through_a_reference() {
    let text: &[u8] = b"1 0 obj << /Length 2 0 R >> stream\nabcd\nendstream endobj\n2 0 obj 4 endobj\n";
    let mut doc = doc_of(text);
    doc.xref = vec![
        ObjectRef { compressed: 0, xref: 0, _version: 0 },
        ObjectRef { compressed: 1, xref: 0, _version: 0 },
        ObjectRef { compressed: 1, xref: 57, _version: 0 },
    ];
    let obj = PdfVar::from(&mut doc, 0).unwrap();
    assert_eq!(obj.get_stream(), Some((35, 4)));
    assert_eq!(PdfVar::IndirectObject(2).get_usize(&mut doc), Some(4));
    assert_eq!(PdfVar::IndirectObject(1).get_usize(&mut doc), None);
    assert_eq!(PdfVar::IndirectObject(3).get_usize(&mut doc), None);
    assert_eq!(PdfVar::Integer { value: 4, signed: true }.get_usize(&mut doc), None);
    // a length that refers to itself does not read
    let mut doc = doc_of(b"1 0 obj << /Length 1 0 R >> stream\nab\nendstream endobj");
    doc.xref = vec![
        ObjectRef { compressed: 0, xref: 0, _version: 0 },
        ObjectRef { compressed: 1, xref: 0, _version: 0 },
    ];
    assert_eq!(PdfVar::from(&mut doc, 0), Err(PdfError::StreamError));
}

#[test]
fn decoding_parameters() {
    let mut doc = doc_of(b"");
    let (parms, _) = parse_one(b"<< /Predictor 12 /Columns 2 >>").unwrap();
    assert_eq!(
        handle_decodeparms(vec![2, 1, 1, 2, 1, 1], &parms, &mut doc),
        Ok(vec![1, 1, 2, 2])
    );
    let (plain, _) = parse_one(b"<< /Predictor 1 >>").unwrap();
    assert_eq!(
        handle_decodeparms(vec![1, 2, 3], &plain, &mut doc),
        Err(PdfError::DecodeError)
    );
    let (defaults, _) = parse_one(b"<< /Predictor 15 >>").unwrap();
    assert_eq!(handle_decodeparms(vec![2, 9, 2, 1], &defaults, &mut doc), Ok(vec![9, 10]));
}

#[test]
fn filters_of_a_stream() {
    let mut doc = doc_of(b"1 0 obj << /Length 3 /Filter /LZWDecode >> stream\nabc\nendstream endobj");
    let obj = PdfVar::from(&mut doc, 0).unwrap();
    assert_eq!(obj.get_decoded_stream(&mut doc), None);
    let mut doc = doc_of(b"1 0 obj << /Length 3 /Filter [/FlateDecode] >> stream\nabc\nendstream endobj");
    let obj = PdfVar::from(&mut doc, 0).unwrap();
    assert_eq!(obj.get_decoded_stream(&mut doc), None);
    let mut doc = doc_of(b"1 0 obj << /Length 3 /Filter [] >> stream\nabc\nendstream endobj");
    let obj = PdfVar::from(&mut doc, 0).unwrap();
    assert_eq!(obj.get_decoded_stream(&mut doc), Some(b"abc".to_vec()));
    assert_eq!(PdfVar::Null.get_decoded_stream(&mut doc), None);
}
