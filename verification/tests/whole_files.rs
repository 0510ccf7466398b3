use std::io::Write;
use tag_pdf_to_text::load_pdf_doc;
use tag_pdf_to_text::text_parser::Text;
use tag_pdf_to_text::title::{get_probable_title, select_title};

fn deflate(data: &[u8]) -> Vec<u8> {
    let mut encoder =
        flate2::write::ZlibEncoder::new(Vec::new(), flate2::Compression::default());
    encoder.write_all(data).unwrap();
    encoder.finish().unwrap()
}

fn stream_object(dict_entries: &str, payload: &[u8]) -> Vec<u8> {
    let mut body: Vec<u8> = Vec::new();
    body.extend_from_slice(
        format!("<< {} /Length {} >>\nstream\n", dict_entries, payload.len()).as_bytes(),
    );
    body.extend_from_slice(payload);
    body.extend_from_slice(b"\nendstream");
    body
}

/// A file with a classic table: the objects are numbered from 1 in the
/// order given.
fn table_file(bodies: &[Vec<u8>], trailer_entries: &str) -> Vec<u8> {
    let mut out: Vec<u8> = b"%PDF-1.4\n".to_vec();
    let mut offsets: Vec<usize> = Vec::new();
    for (i, body) in bodies.iter().enumerate() {
        offsets.push(out.len());
        out.extend_from_slice(format!("{} 0 obj\n", i + 1).as_bytes());
        out.extend_from_slice(body);
        out.extend_from_slice(b"\nendobj\n");
    }
    let xref_at = out.len();
    out.extend_from_slice(format!("xref\n0 {}\n", bodies.len() + 1).as_bytes());
    out.extend_from_slice(b"0000000000 65535 f \n");
    for off in &offsets {
        out.extend_from_slice(format!("{:010} 00000 n \n", off).as_bytes());
    }
    out.extend_from_slice(
        format!(
            "trailer\n<< /Size {} {} >>\nstartxref\n{}\n%%EOF\n",
            bodies.len() + 1,
            trailer_entries,
            xref_at
        )
        .as_bytes(),
    );
    out
}

fn one_page_file(content: &[u8], font_body: Option<Vec<u8>>, extra: Vec<Vec<u8>>) -> Vec<u8> {
    let mut bodies: Vec<Vec<u8>> = Vec::new();
    bodies.push(b"<< /Type /Catalog /Pages 2 0 R >>".to_vec());
    bodies.push(b"<< /Type /Pages /Kids [3 0 R] /Count 1 >>".to_vec());
    bodies.push(
        b"<< /Type /Page /Parent 2 0 R /Resources << /Font << /F1 5 0 R >> >> /Contents 4 0 R >>"
            .to_vec(),
    );
    bodies.push(stream_object("", content));
    bodies.push(font_body.unwrap_or(b"<< /Type /Font /Subtype /Type1 /BaseFont /Helvetica >>".to_vec()));
    for e in extra {
        bodies.push(e);
    }
    table_file(&bodies, "/Root 1 0 R")
}

#[test]
fn text_table_xref_gives_one_run() {
    let file = one_page_file(
        b"BT /F1 18 Tf 72 720 Td (Hello World This Is A Title) Tj ET",
        None,
        Vec::new(),
    );
    let mut doc = load_pdf_doc(file).unwrap();
    assert!(!doc.is_encrypted());
    let runs = doc.get_text_from_page(0).unwrap();
    assert_eq!(runs.len(), 1);
    assert_eq!(runs[0].chars, "Hello World This Is A Title");
    assert_eq!(runs[0].scaled_font_size, 18_000_000);
    assert_eq!(runs[0].avg_font_size, 18_000_000);
    assert_eq!(runs[0].pos_y, 720_000_000);
    assert!(doc.get_text_from_page(1).is_none());
}

#[test]
fn xref_stream_document_exposes_info() {
    // objects 1 (catalogue), 2 (info), 3 (the cross-reference stream)
    let mut out: Vec<u8> = b"%PDF-1.5\n".to_vec();
    let off1 = out.len();
    out.extend_from_slice(b"1 0 obj\n<< /Type /Catalog >>\nendobj\n");
    let off2 = out.len();
    out.extend_from_slice(b"2 0 obj\n<< /Title (Streamed Cross References) >>\nendobj\n");
    let off3 = out.len();
    let rows: Vec<[u8; 4]> = vec![
        [0, 0, 0, 0],
        [1, (off1 >> 8) as u8, (off1 & 255) as u8, 0],
        [1, (off2 >> 8) as u8, (off2 & 255) as u8, 0],
        [1, (off3 >> 8) as u8, (off3 & 255) as u8, 0],
    ];
    // the "Up" predictor: each row holds the difference to the row above
    let mut predicted: Vec<u8> = Vec::new();
    let mut above = [0u8; 4];
    for row in &rows {
        predicted.push(2);
        for j in 0..4 {
            predicted.push(row[j].wrapping_sub(above[j]));
        }
        above = *row;
    }
    let payload = deflate(&predicted);
    out.extend_from_slice(b"3 0 obj\n");
    out.extend_from_slice(&stream_object(
        "/Type /XRef /Size 4 /W [1 2 1] /Root 1 0 R /Info 2 0 R /Filter /FlateDecode /DecodeParms << /Predictor 12 /Columns 4 >>",
        &payload,
    ));
    out.extend_from_slice(b"\nendobj\n");
    out.extend_from_slice(format!("startxref\n{}\n%%EOF\n", off3).as_bytes());

    let mut doc = load_pdf_doc(out).unwrap();
    assert_eq!(doc.xref.len(), 4);
    assert_eq!(doc.xref[0].compressed, 0);
    assert_eq!(doc.xref[1].compressed, 1);
    assert_eq!(doc.xref[1].xref, off1);
    assert_eq!(doc.xref[2].xref, off2);
    assert_eq!(doc.trailer.root, 1);
    assert_eq!(doc.trailer.info, 2);
    assert_eq!(doc.get_info("Title"), Some("Streamed Cross References".to_string()));
    assert_eq!(doc.get_info("Author"), None);
}

#[test]
fn object_stream_members_resolve() {
    // objects 1 (catalogue) and 2 (info) lie in object stream 3
    let first_body = b"<< /Type /Catalog /Pages 9 0 R >> ";
    let second_body = b"<< /Author (Ada Lovelace) /Title (Notes) >>";
    let header = format!("1 0 2 {} ", first_body.len());
    let mut plain: Vec<u8> = header.as_bytes().to_vec();
    plain.extend_from_slice(first_body);
    plain.extend_from_slice(second_body);
    let payload = deflate(&plain);

    let mut out: Vec<u8> = b"%PDF-1.5\n".to_vec();
    let off3 = out.len();
    out.extend_from_slice(b"3 0 obj\n");
    out.extend_from_slice(&stream_object(
        &format!("/Type /ObjStm /N 2 /First {} /Filter /FlateDecode", header.len()),
        &payload,
    ));
    out.extend_from_slice(b"\nendobj\n");
    let off4 = out.len();
    // rows: kind, two bytes of offset or stream number, one byte of index
    let rows: Vec<u8> = vec![
        0, 0, 0, 0, //
        2, 0, 3, 0, //
        2, 0, 3, 1, //
        1, (off3 >> 8) as u8, (off3 & 255) as u8, 0, //
        1, (off4 >> 8) as u8, (off4 & 255) as u8, 0,
    ];
    out.extend_from_slice(b"4 0 obj\n");
    out.extend_from_slice(&stream_object(
        "/Type /XRef /Size 5 /W [1 2 1] /Root 1 0 R /Info 2 0 R",
        &rows,
    ));
    out.extend_from_slice(b"\nendobj\n");
    out.extend_from_slice(format!("startxref\n{}\n%%EOF\n", off4).as_bytes());

    let mut doc = load_pdf_doc(out).unwrap();
    let before = doc.size();
    assert_eq!(doc.xref[1].compressed, 2);
    assert_eq!(doc.xref[1].xref, 3);
    assert_eq!(doc.get_info("Author"), Some("Ada Lovelace".to_string()));
    // unpacking wrote both objects at the end of the data
    assert!(doc.size() > before);
    assert_eq!(doc.xref[1].compressed, 1);
    assert_eq!(doc.xref[2].compressed, 1);
    assert!(doc.xref[1].xref >= before);
    let catalog = doc.get_object_by_id(1).unwrap();
    assert_eq!(catalog.get_dict_int("Pages"), Some(9));
    assert!(doc.get_object_by_id(0).is_none());
    assert!(doc.get_object_by_id(77).is_none());
}

#[test]
fn to_unicode_map_gives_ligature() {
    let cmap = b"/CIDInit /ProcSet findresource begin\n1 begincodespacerange <00> <FF> endcodespacerange\n3 beginbfchar\n<01> <0066>\n<02> <0069>\n<03> <00660069>\nendbfchar\nendcmap";
    let file = one_page_file(
        b"BT /F1 12 Tf 100 700 Td <010203> Tj ET",
        Some(b"<< /Type /Font /Subtype /Type1 /ToUnicode 6 0 R >>".to_vec()),
        vec![stream_object("", cmap)],
    );
    let mut doc = load_pdf_doc(file).unwrap();
    let runs = doc.get_text_from_page(0).unwrap();
    assert_eq!(runs.len(), 1);
    assert!(runs[0].chars.ends_with("fifi"));
    assert_eq!(runs[0].chars, "fifi");
}

#[test]
fn utf16_info_title_is_decoded() {
    let bodies: Vec<Vec<u8>> = vec![
        b"<< /Type /Catalog >>".to_vec(),
        b"<< /Title <FEFF004100420043> /Subject (caf\\351) >>".to_vec(),
    ];
    let file = table_file(&bodies, "/Root 1 0 R /Info 2 0 R");
    let mut doc = load_pdf_doc(file).unwrap();
    assert_eq!(doc.get_info("Title"), Some("ABC".to_string()));
    assert_eq!(doc.get_info("Subject"), Some("caf\u{e9}".to_string()));
    assert_eq!(doc.get_info("Creator"), None);
}

fn run(size_units: i64, text: &str) -> Text {
    Text {
        pos_y: 0,
        scaled_font_size: size_units * 1_000_000,
        chars: text.to_string(),
        avg_font_size: size_units * 1_000_000,
        font: String::new(),
    }
}

#[test]
fn title_heuristic_picks_the_large_run() {
    let runs = vec![
        run(20, "A Long Research Paper Title About Widgets"),
        run(12, "John Doe, Jane Roe"),
        run(9, "Abstract: ..."),
    ];
    assert_eq!(select_title(&runs, &Vec::new()), "A Long Research Paper Title About Widgets");
}

#[test]
fn title_heuristic_on_a_page() {
    let file = one_page_file(
        b"BT /F1 20 Tf 72 720 Td (A Long Research Paper Title About Widgets) Tj ET\nBT /F1 12 Tf 72 600 Td (John Doe, Jane Roe and others) Tj ET\nBT /F1 9 Tf 72 500 Td (Abstract: ...) Tj ET",
        None,
        Vec::new(),
    );
    let mut doc = load_pdf_doc(file).unwrap();
    assert_eq!(get_probable_title(&mut doc), "A Long Research Paper Title About Widgets");
}

#[test]
fn title_does_not_depend_on_the_order_of_runs() {
    let a = vec![
        run(14, "An Accepted Title Of Some Length"),
        run(14, "A Shorter Accepted Title"),
        run(14, "Fig. 3"),
    ];
    let b = vec![
        run(14, "Fig. 3"),
        run(14, "A Shorter Accepted Title"),
        run(14, "An Accepted Title Of Some Length"),
    ];
    assert_eq!(select_title(&a, &Vec::new()), "An Accepted Title Of Some Length");
    assert_eq!(select_title(&b, &Vec::new()), "An Accepted Title Of Some Length");
}

#[test]
fn stream_length_inside_an_object_stream() {
    let content: &[u8] = b"BT /F1 14 Tf 0 700 Td (A Stream Whose Length Lies Elsewhere) Tj ET";
    let mut out: Vec<u8> = b"%PDF-1.5\n".to_vec();
    let mut offsets: Vec<usize> = vec![0; 8];
    let mut add = |out: &mut Vec<u8>, id: usize, body: &[u8]| {
        offsets[id] = out.len();
        out.extend_from_slice(format!("{} 0 obj\n", id).as_bytes());
        out.extend_from_slice(body);
        out.extend_from_slice(b"\nendobj\n");
    };
    add(&mut out, 1, b"<< /Type /Catalog /Pages 2 0 R >>");
    add(&mut out, 2, b"<< /Type /Pages /Kids [3 0 R] >>");
    add(&mut out, 3, b"<< /Type /Page /Contents 4 0 R >>");
    let mut body: Vec<u8> = b"<< /Length 6 0 R >>\nstream\n".to_vec();
    body.extend_from_slice(content);
    body.extend_from_slice(b"\nendstream");
    add(&mut out, 4, &body);
    // object stream 5 holds object 6, the length
    let held = format!("6 0 {}", content.len());
    add(&mut out, 5, &stream_object("/Type /ObjStm /N 1 /First 4", held.as_bytes()));
    let at = out.len();
    let mut rows: Vec<u8> = vec![0, 0, 0, 0];
    for id in 1..6 {
        rows.extend_from_slice(&[1, (offsets[id] >> 8) as u8, (offsets[id] & 255) as u8, 0]);
    }
    rows.extend_from_slice(&[2, 0, 5, 0]);
    rows.extend_from_slice(&[1, (at >> 8) as u8, (at & 255) as u8, 0]);
    out.extend_from_slice(b"7 0 obj\n");
    out.extend_from_slice(&stream_object("/Type /XRef /Size 8 /W [1 2 1] /Root 1 0 R", &rows));
    out.extend_from_slice(b"\nendobj\n");
    out.extend_from_slice(format!("startxref\n{}\n%%EOF\n", at).as_bytes());

    let mut doc = load_pdf_doc(out).unwrap();
    assert_eq!(doc.xref[6].compressed, 2);
    let runs = doc.get_text_from_page(0).unwrap();
    assert_eq!(runs.len(), 1);
    assert_eq!(runs[0].chars, "A Stream Whose Length Lies Elsewhere");
    // the length was taken out of the object stream on the way
    assert_eq!(doc.xref[6].compressed, 1);
    let first = doc.get_object_by_id(4).unwrap();
    let size = doc.size();
    assert!(doc.get_object_by_id(6).is_some());
    let again = doc.get_object_by_id(4).unwrap();
    assert_eq!(first, again);
    assert_eq!(doc.size(), size);
}

#[test]
fn wide_fields_and_large_sizes_in_a_stream() {
    let mut out: Vec<u8> = b"%PDF-1.5\n".to_vec();
    let off1 = out.len();
    out.extend_from_slice(b"1 0 obj\n<< /Title (Wide Fields) >>\nendobj\n");
    let off2 = out.len();
    // rows: one byte of kind, twenty bytes of offset, one byte of generation
    let mut rows: Vec<u8> = Vec::new();
    for (kind, at) in [(0u8, 0usize), (1, off1), (1, off2)] {
        rows.push(kind);
        rows.extend_from_slice(&[0u8; 18]);
        rows.push((at >> 8) as u8);
        rows.push((at & 255) as u8);
        rows.push(0);
    }
    out.extend_from_slice(b"2 0 obj\n");
    out.extend_from_slice(&stream_object(
        "/Type /XRef /Size 8400000 /Index [0 3] /W [1 20 1] /Root 1 0 R /Info 1 0 R",
        &rows,
    ));
    out.extend_from_slice(b"\nendobj\n");
    out.extend_from_slice(format!("startxref\n{}\n%%EOF\n", off2).as_bytes());
    let mut doc = load_pdf_doc(out).unwrap();
    assert_eq!(doc.xref.len(), 8400000);
    assert_eq!(doc.xref[1].compressed, 1);
    assert_eq!(doc.xref[1].xref, off1);
    assert_eq!(doc.xref[3].compressed, 3);
    assert_eq!(doc.get_info("Title"), Some("Wide Fields".to_string()));
}

#[test]
fn a_field_that_no_number_holds_is_refused() {
    let mut out: Vec<u8> = b"%PDF-1.5\n".to_vec();
    let off1 = out.len();
    let mut rows: Vec<u8> = vec![1];
    rows.extend_from_slice(&[1u8; 20]);
    rows.push(0);
    out.extend_from_slice(b"1 0 obj\n");
    out.extend_from_slice(&stream_object("/Type /XRef /Size 1 /W [1 20 1] /Root 1 0 R", &rows));
    out.extend_from_slice(b"\nendobj\n");
    out.extend_from_slice(format!("startxref\n{}\n%%EOF\n", off1).as_bytes());
    assert!(load_pdf_doc(out).is_err());
}
