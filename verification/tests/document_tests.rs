use tag_pdf_to_text::document::{parse_xref, parse_xref_table, read_start_xref, Document, ObjectRef, Trailer};
use tag_pdf_to_text::error::PdfError;
use tag_pdf_to_text::load_pdf_doc;
use tag_pdf_to_text::reader::{get_page_ids, read_one_pdf, unpack_obj_stm};
use tag_pdf_to_text::xref::{find_start_xref, read_xref_table};

fn entry(kind: u8, at: usize, generation: usize) -> ObjectRef {
    ObjectRef { compressed: kind, xref: at, _version: generation }
}

struct Built {
    bytes: Vec<u8>,
    offsets: Vec<usize>,
}

fn start_file() -> Built {
    Built { bytes: b"%PDF-1.4\n".to_vec(), offsets: Vec::new() }
}

fn add_object(file: &mut Built, id: usize, body: &str) {
    file.offsets.push(file.bytes.len());
    file.bytes.extend_from_slice(format!("{} 0 obj\n{}\nendobj\n", id, body).as_bytes());
}

/// Writes a table for the objects 1 to n at the offsets gathered, and the
/// trailer, and gives the offset of the table.
fn add_table(file: &mut Built, trailer: &str) -> usize {
    let at = file.bytes.len();
    file.bytes.extend_from_slice(format!("xref\n0 {}\n", file.offsets.len() + 1).as_bytes());
    file.bytes.extend_from_slice(b"0000000000 65535 f \n");
    for off in &file.offsets {
        file.bytes.extend_from_slice(format!("{:010} 00000 n \n", off).as_bytes());
    }
    file.bytes.extend_from_slice(format!("trailer\n<< {} >>\n", trailer).as_bytes());
    at
}

fn finish(file: &mut Built, at: usize) -> Vec<u8> {
    file.bytes.extend_from_slice(format!("startxref\n{}\n%%EOF\n", at).as_bytes());
    file.bytes.clone()
}

#[test]
fn header_is_required() {
    assert_eq!(load_pdf_doc(b"%PDX-1.4\nstartxref\n9\n%%EOF".to_vec()).err(), Some(PdfError::LoadError));
    assert_eq!(load_pdf_doc(Vec::new()).err(), Some(PdfError::LoadError));
    assert_eq!(read_one_pdf(b"PDF".to_vec()).err(), Some(PdfError::LoadError));
}

#[test]
fn startxref_is_searched_near_the_end() {
    assert_eq!(find_start_xref(&b"%PDF-1.4\nstartxref\n1234\n%%EOF\n".to_vec()), Some(1234));
    assert_eq!(find_start_xref(&b"%PDF-1.4\nstartxref 7".to_vec()), Some(7));
    // zero is no offset
    assert_eq!(find_start_xref(&b"%PDF-1.4\nstartxref\n0\n%%EOF\n".to_vec()), None);
    assert_eq!(find_start_xref(&b"%PDF-1.4\nstartxref\n%%EOF\n".to_vec()), None);
    assert_eq!(find_start_xref(&b"%PDF-1.4\n%%EOF\n".to_vec()), None);
    // the keyword must start within the last hundred bytes
    let mut far: Vec<u8> = b"%PDF-1.4\nstartxref\n55\n".to_vec();
    for _ in 0..100 {
        far.push(b' ');
    }
    assert_eq!(find_start_xref(&far), None);
    let mut near: Vec<u8> = b"%PDF-1.4\nstartxref\n55\n".to_vec();
    for _ in 0..87 {
        near.push(b' ');
    }
    assert_eq!(near.len() - 9, 100);
    assert_eq!(find_start_xref(&near), Some(55));
    // the last one counts
    assert_eq!(
        find_start_xref(&b"%PDF startxref 11 \nstartxref 22 \n".to_vec()),
        Some(22)
    );
    assert_eq!(load_pdf_doc(b"%PDF-1.4\n%%EOF\n".to_vec()).err(), Some(PdfError::XrefError));
}

#[test]
fn table_entries_free_and_in_use() {
    let data: Vec<u8> =
        b"xref\n0 3\n0000000000 65535 f \n0000000017 00000 n \n0000000081 00002 n \n5 1\n0000000123 00000 n \ntrailer".to_vec();
    let mut xref: Vec<ObjectRef> = Vec::new();
    let end = read_xref_table(&data, 0, &mut xref).unwrap();
    assert_eq!(&data[end..], b"trailer");
    assert_eq!(
        xref,
        vec![
            entry(0, 0, 65535),
            entry(1, 17, 0),
            entry(1, 81, 2),
            entry(3, 0, 0),
            entry(3, 0, 0),
            entry(1, 123, 0),
        ]
    );
}

#[test]
fn table_entries_do_not_replace_what_is_known() {
    let data: Vec<u8> = b"xref\n0 2\n0000000000 65535 f \n0000000017 00000 n \n".to_vec();
    let mut xref: Vec<ObjectRef> = vec![entry(3, 0, 0), entry(1, 999, 0)];
    assert!(read_xref_table(&data, 0, &mut xref).is_some());
    assert_eq!(xref, vec![entry(0, 0, 65535), entry(1, 999, 0)]);
}

fn document_of(data: &[u8]) -> Document {
    Document {
        xref: Vec::new(),
        trailer: Trailer { info: 0, root: 0, size: 0, encrypt: 0 },
        data: data.to_vec(),
        it: 0,
        sections: Vec::new(),
    }
}

#[test]
fn the_read_position_follows_the_offset() {
    let mut doc = document_of(b"%PDF-1.4\nstartxref\n123\n%%EOF");
    assert_eq!(read_start_xref(&mut doc), Ok(123));
    assert_eq!(doc.it, 22);
    assert!(doc.xref.is_empty());
    assert!(doc.sections.is_empty());
    // an offset of zero is refused behind its digit
    let mut doc = document_of(b"%PDF-1.4\nstartxref 0 ");
    assert_eq!(read_start_xref(&mut doc), Err(PdfError::XrefError));
    assert_eq!(doc.it, 20);
    // without the keyword the search gives up at the start of short data
    let mut doc = document_of(b"%PDF-1.4\n%%EOF");
    doc.it = 5;
    assert_eq!(read_start_xref(&mut doc), Err(PdfError::XrefError));
    assert_eq!(doc.it, 0);
    // and a hundred bytes before the last byte of long data
    let mut long: Vec<u8> = b"%PDF-1.4\n".to_vec();
    long.extend_from_slice(&[b' '; 300]);
    let mut doc = document_of(&long);
    assert_eq!(read_start_xref(&mut doc), Err(PdfError::XrefError));
    assert_eq!(doc.it, 309 - 101);
    // a loaded document keeps the position
    let loaded = load_pdf_doc(
        b"%PDF-1.4\nxref\n0 1\n0000000000 65535 f \ntrailer\n<< /Size 1 >>\nstartxref\n9\n%%EOF\n".to_vec(),
    )
    .unwrap();
    assert_eq!(&loaded.data[loaded.it..], b"\n%%EOF\n");
}

#[test]
fn a_table_is_as_long_as_its_sections_say() {
    let mut doc = document_of(
        b"xref\n8388700 2\n0000000017 00000 n \n0000000000 00001 f \ntrailer\n<< >>",
    );
    assert_eq!(parse_xref_table(&mut doc), Ok(()));
    assert_eq!(doc.xref.len(), 8388702);
    assert_eq!(doc.xref[0], entry(3, 0, 0));
    assert_eq!(doc.xref[8388699], entry(3, 0, 0));
    assert_eq!(doc.xref[8388700], entry(1, 17, 0));
    assert_eq!(doc.xref[8388701], entry(0, 0, 1));
    assert_eq!(&doc.data[doc.it..], b"trailer\n<< >>");
    // an offset must have ten digits
    let mut doc = document_of(b"xref\n0 1\n00000000017 00000 n \ntrailer\n");
    doc.it = 0;
    assert_eq!(parse_xref_table(&mut doc), Err(PdfError::XrefError));
    assert_eq!(doc.it, 0);
    assert!(doc.xref.is_empty());
    // a sum of first number and count that no table can have
    let mut doc = document_of(b"xref\n18446744073709551615 1\n0000000017 00000 n \ntrailer\n");
    assert_eq!(parse_xref_table(&mut doc), Err(PdfError::XrefError));
    assert!(doc.xref.is_empty());
}

#[test]
fn malformed_tables() {
    let mut xref: Vec<ObjectRef> = vec![entry(1, 7, 0)];
    for bad in [
        &b"xreg\n0 1\n0000000000 65535 f \n"[..],
        b"xref\ntrailer",
        b"xref\n0\n0000000000 65535 f \n",
        b"xref\n0 1\n000000000 65535 f \n",
        b"xref\n0 1\n0000000000 65535 x \n",
        b"xref\n0 1\n0000000000 f \n",
        b"xref\n0 2\n0000000000 65535 f \n",
        b"xref\n0 99999999999\n0000000000 65535 f \n",
    ] {
        assert_eq!(read_xref_table(&bad.to_vec(), 0, &mut xref), None);
        // a table that does not read leaves nothing behind
        assert_eq!(xref, vec![entry(1, 7, 0)]);
    }
}

#[test]
fn older_sections_do_not_overwrite_newer_ones() {
    let mut file = start_file();
    add_object(&mut file, 1, "<< /Type /Catalog >>");
    add_object(&mut file, 2, "<< /Title (Old) >>");
    let first = add_table(&mut file, "/Size 3 /Root 1 0 R /Info 2 0 R");
    let old_info = file.offsets[1];
    // an update: a new object 2, and a table that names the old one
    let new_info = file.bytes.len();
    file.bytes.extend_from_slice(b"2 0 obj\n<< /Title (New) >>\nendobj\n");
    let second = file.bytes.len();
    file.bytes.extend_from_slice(
        format!(
            "xref\n2 1\n{:010} 00000 n \ntrailer\n<< /Size 3 /Root 1 0 R /Info 2 0 R /Prev {} >>\n",
            new_info, first
        )
        .as_bytes(),
    );
    let bytes = finish(&mut file, second);
    let mut doc = load_pdf_doc(bytes).unwrap();
    assert_ne!(old_info, new_info);
    assert_eq!(doc.xref[2], entry(1, new_info, 0));
    assert_eq!(doc.xref[1], entry(1, file.offsets[0], 0));
    assert_eq!(doc.sections, vec![second, first]);
    assert_eq!(doc.get_info("Title"), Some("New".to_string()));
    assert_eq!(doc.trailer, Trailer { info: 2, root: 1, size: 3, encrypt: 0 });
}

#[test]
fn sections_in_a_circle_are_refused() {
    let mut file = start_file();
    add_object(&mut file, 1, "<< /Type /Catalog >>");
    let at = file.bytes.len();
    file.bytes.extend_from_slice(
        format!(
            "xref\n0 2\n0000000000 65535 f \n{:010} 00000 n \ntrailer\n<< /Size 2 /Root 1 0 R /Prev {} >>\n",
            file.offsets[0], at
        )
        .as_bytes(),
    );
    let bytes = finish(&mut file, at);
    assert_eq!(load_pdf_doc(bytes).err(), Some(PdfError::XrefError));
}

#[test]
fn no_offset_is_read_twice() {
    let mut doc = Document {
        xref: Vec::new(),
        trailer: Trailer { info: 0, root: 0, size: 0, encrypt: 0 },
        data: b"xref\n0 1\n0000000000 65535 f \ntrailer\n<< /Size 1 >>\n".to_vec(),
        it: 0,
        sections: Vec::new(),
    };
    assert_eq!(parse_xref(&mut doc, 0, true), Ok(()));
    assert_eq!(doc.sections, vec![0]);
    assert_eq!(doc.xref.len(), 1);
    assert_eq!(parse_xref(&mut doc, 0, false), Err(PdfError::XrefError));
    assert_eq!(doc.sections, vec![0]);
    assert_eq!(parse_xref(&mut doc, 5000, false), Err(PdfError::XrefError));
    // neither a table nor an object starts there
    assert_eq!(parse_xref(&mut doc, 4, false), Err(PdfError::XrefError));
    // what starts with a digit is read as an object; its error is handed on
    assert_eq!(parse_xref(&mut doc, 5, false), Err(PdfError::UnmatchedChar));
    // after an error the document is as it was
    assert_eq!(doc.sections, vec![0]);
    assert_eq!(doc.xref.len(), 1);
}

#[test]
fn encrypted_documents_are_detected() {
    let mut file = start_file();
    add_object(&mut file, 1, "<< /Type /Catalog >>");
    add_object(&mut file, 2, "<< /Filter /Standard >>");
    let at = add_table(&mut file, "/Size 3 /Root 1 0 R /Encrypt 2 0 R");
    let bytes = finish(&mut file, at);
    let mut doc = load_pdf_doc(bytes).unwrap();
    assert!(doc.is_encrypted());
    assert_eq!(doc.trailer.encrypt, 2);
    assert_eq!(doc.trailer.info, 0);
    assert_eq!(doc.get_info("Title"), None);
}

#[test]
fn trailer_must_follow_the_table() {
    let mut file = start_file();
    add_object(&mut file, 1, "<< /Type /Catalog >>");
    let at = file.bytes.len();
    file.bytes.extend_from_slice(
        format!("xref\n0 2\n0000000000 65535 f \n{:010} 00000 n \n<< /Size 2 >>\n", file.offsets[0])
            .as_bytes(),
    );
    let bytes = finish(&mut file, at);
    assert_eq!(load_pdf_doc(bytes).err(), Some(PdfError::XrefError));
}

#[test]
fn missing_and_free_objects_are_not_found() {
    let mut file = start_file();
    add_object(&mut file, 1, "<< /Type /Catalog >>");
    add_object(&mut file, 2, "<< /Broken");
    let at = add_table(&mut file, "/Size 3 /Root 1 0 R");
    let bytes = finish(&mut file, at);
    let mut doc = load_pdf_doc(bytes).unwrap();
    let size = doc.size();
    assert!(doc.get_object_by_id(1).is_some());
    // free
    assert!(doc.get_object_by_id(0).is_none());
    // does not read
    assert!(doc.get_object_by_id(2).is_none());
    // beyond the table
    assert!(doc.get_object_by_id(3).is_none());
    assert!(doc.get_object_by_id(usize::MAX).is_none());
    assert_eq!(doc.size(), size);
    // an entry that points at an object stream that is not there
    doc.xref.push(entry(2, 40, 0));
    doc.xref.push(entry(2, 3, 0));
    assert!(doc.get_object_by_id(3).is_none());
    assert!(doc.get_object_by_id(4).is_none());
    unpack_obj_stm(&mut doc, 1);
    assert_eq!(doc.size(), size);
}

#[test]
fn pages_are_numbered_in_the_order_of_the_tree() {
    let mut file = start_file();
    add_object(&mut file, 1, "<< /Type /Catalog /Pages 2 0 R >>");
    add_object(&mut file, 2, "<< /Type /Pages /Kids [3 0 R 4 0 R 7 0 R 2 0 R] /Count 3 >>");
    add_object(&mut file, 3, "<< /Type /Page /Parent 2 0 R >>");
    add_object(&mut file, 4, "<< /Type /Pages /Kids [5 0 R 6 0 R 4 0 R 2 0 R] >>");
    add_object(&mut file, 5, "<< /Type /Page /Label (a) >>");
    add_object(&mut file, 6, "<< /Type /Font >>");
    add_object(&mut file, 7, "<< /Type /Page /Label (b) >>");
    let at = add_table(&mut file, "/Size 8 /Root 1 0 R");
    let bytes = finish(&mut file, at);
    let mut doc = load_pdf_doc(bytes).unwrap();
    let mut pages: Vec<usize> = Vec::new();
    let mut visited: Vec<usize> = Vec::new();
    get_page_ids(&mut doc, &mut pages, &mut visited, 2);
    assert_eq!(pages, vec![3, 5, 7]);
    assert_eq!(visited, vec![2, 3, 4, 5, 6, 7]);
    let second = doc.get_page_no(1).unwrap();
    assert_eq!(second.get_dict_value("Label").unwrap().get_str(), Some("a".to_string()));
    let third = doc.get_page_no(2).unwrap();
    assert_eq!(third.get_dict_value("Label").unwrap().get_str(), Some("b".to_string()));
    assert!(doc.get_page_no(3).is_none());
    assert!(doc.get_text_from_page(0).is_none());
}

#[test]
fn cursor_methods_of_a_document() {
    let mut doc = Document {
        xref: Vec::new(),
        trailer: Trailer { info: 0, root: 0, size: 0, encrypt: 0 },
        data: b"  ab\r\ncd".to_vec(),
        it: 0,
        sections: Vec::new(),
    };
    assert_eq!(doc.size(), 8);
    doc.skip_whitespace();
    assert_eq!(doc.it, 2);
    assert_eq!(doc.byte(), b'a');
    doc.next_line();
    assert_eq!(doc.it, 6);
    assert_eq!(doc.byte(), b'c');
    doc.next_line();
    assert_eq!(doc.it, 8);
    doc.skip_whitespace();
    assert_eq!(doc.it, 8);
}

#[test]
fn numbers_at_the_read_position() {
    let mut doc = Document {
        xref: Vec::new(),
        trailer: Trailer { info: 0, root: 0, size: 0, encrypt: 0 },
        data: b"0042 7x".to_vec(),
        it: 0,
        sections: Vec::new(),
    };
    assert_eq!(tag_pdf_to_text::document::read_number(&mut doc), Some((42, 4)));
    assert_eq!(doc.it, 4);
    assert_eq!(tag_pdf_to_text::document::read_number(&mut doc), None);
    assert_eq!(doc.it, 4);
    doc.it = 5;
    assert_eq!(tag_pdf_to_text::document::read_number(&mut doc), Some((7, 1)));
    assert_eq!(doc.it, 6);
    doc.it = 70;
    assert_eq!(tag_pdf_to_text::document::read_number(&mut doc), None);
}
