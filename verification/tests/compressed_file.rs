use std::io::Write;
use tag_pdf_to_text::load_pdf_doc;
use tag_pdf_to_text::metadata::extract_metadata;

fn deflate(data: &[u8]) -> Vec<u8> {
    let mut encoder =
        flate2::write::ZlibEncoder::new(Vec::new(), flate2::Compression::default());
    encoder.write_all(data).unwrap();
    encoder.finish().unwrap()
}

fn stream_object(dict_entries: &str, payload: &[u8]) -> Vec<u8> {
    let mut body: Vec<u8> = Vec::new();
    body.extend_from_slice(
        format!("<< {} /Length {} >>\nstream\r\n", dict_entries, payload.len()).as_bytes(),
    );
    body.extend_from_slice(payload);
    body.extend_from_slice(b"\r\nendstream");
    body
}

fn object_stream(members: &[(usize, &str)], extra: &str) -> Vec<u8> {
    let mut header = String::new();
    let mut bodies = String::new();
    for (id, body) in members {
        header.push_str(&format!("{} {} ", id, bodies.len()));
        bodies.push_str(body);
        bodies.push('\n');
    }
    let mut plain = header.clone().into_bytes();
    plain.extend_from_slice(bodies.as_bytes());
    stream_object(
        &format!(
            "/Type /ObjStm /N {} /First {} /Filter /FlateDecode {}",
            members.len(),
            header.len(),
            extra
        ),
        &deflate(&plain),
    )
}

fn predicted(rows: &[[u8; 5]]) -> Vec<u8> {
    let mut out: Vec<u8> = Vec::new();
    let mut above = [0u8; 5];
    for row in rows {
        out.push(2);
        for j in 0..5 {
            out.push(row[j].wrapping_sub(above[j]));
        }
        above = *row;
    }
    out
}

fn row(kind: u8, value: usize, last: u8) -> [u8; 5] {
    [kind, (value >> 16) as u8, (value >> 8) as u8, value as u8, last]
}

/// A file as newer writers make it: everything but the streams lies in
/// object streams, one of which extends the other, and the
/// cross-reference stream is predicted and deflated and lists its objects
/// in two sections.
fn modern_file() -> Vec<u8> {
    let cmap = b"/CIDInit /ProcSet findresource begin 12 dict begin begincmap\n1 begincodespacerange <0000> <FFFF> endcodespacerange\n2 beginbfrange\n<0001> <0003> <0041>\n<0010> <0011> [<0066006C> <2014>]\nendbfrange\n1 beginbfchar\n<0020> <0020>\nendbfchar\nendcmap end end";
    let content_one = b"q 0.5 0 0 0.5 0 0 cm\nBT\n/F1 32 Tf\n1 0 0 1 100 1400 Tm\n[<0001> -20 <0002> -400 <0003>] TJ\nET\nQ\n";
    let content_two = b"BT /F1 11 Tf 50 600 Td <00100020> Tj <0011> Tj ET";

    let mut out: Vec<u8> = b"%PDF-1.7\n%\xE2\xE3\xCF\xD3\n".to_vec();
    let mut offsets: Vec<usize> = vec![0; 16];
    let mut add = |out: &mut Vec<u8>, id: usize, body: &[u8]| {
        offsets[id] = out.len();
        out.extend_from_slice(format!("{} 0 obj\n", id).as_bytes());
        out.extend_from_slice(body);
        out.extend_from_slice(b"\nendobj\n");
    };
    // 10, 11: the contents; 12: the code map
    add(&mut out, 10, &stream_object("/Filter /FlateDecode", &deflate(content_one)));
    add(&mut out, 11, &stream_object("/Filter [/FlateDecode]", &deflate(content_two)));
    add(&mut out, 12, &stream_object("/Filter /FlateDecode", &deflate(cmap)));
    // 13 holds the catalogue, the page tree and the page; 14 extends it with the rest
    add(
        &mut out,
        13,
        &object_stream(
            &[
                (1, "<< /Type /Catalog /Pages 2 0 R >>"),
                (2, "<< /Type /Pages /Kids [ 3 0 R ] /Count 1 >>"),
                (3, "<< /Type /Page /Parent 2 0 R /Resources 4 0 R /Contents [ 10 0 R 11 0 R ] >>"),
            ],
            "",
        ),
    );
    add(
        &mut out,
        14,
        &object_stream(
            &[
                (4, "<< /Font 5 0 R >>"),
                (5, "<< /F1 6 0 R >>"),
                (6, "<< /Type /Font /Subtype /Type0 /ToUnicode 12 0 R >>"),
                (7, "<< /Title <FEFF00540068006500200054006900740065> /Author (First Author; Second Author) >>"),
            ],
            "/Extends 13 0 R",
        ),
    );
    let at = out.len();
    let mut rows: Vec<[u8; 5]> = Vec::new();
    rows.push(row(0, 0, 255));
    rows.push(row(2, 13, 0));
    rows.push(row(2, 13, 1));
    rows.push(row(2, 13, 2));
    rows.push(row(2, 14, 0));
    rows.push(row(2, 14, 1));
    rows.push(row(2, 14, 2));
    rows.push(row(2, 14, 3));
    for id in 10..15 {
        rows.push(row(1, offsets[id], 0));
    }
    rows.push(row(1, at, 0));
    out.extend_from_slice(b"15 0 obj\n");
    out.extend_from_slice(&stream_object(
        "/Type /XRef /Size 16 /Index [0 8 10 6] /W [1 3 1] /Root 1 0 R /Info 7 0 R /Filter /FlateDecode /DecodeParms << /Columns 5 /Predictor 12 >>",
        &deflate(&predicted(&rows)),
    ));
    out.extend_from_slice(b"\nendobj\n");
    out.extend_from_slice(format!("startxref\n{}\n%%EOF\n", at).as_bytes());
    out
}

#[test]
fn a_file_of_a_newer_writer_loads() {
    let mut doc = load_pdf_doc(modern_file()).unwrap();
    assert_eq!(doc.xref.len(), 16);
    assert_eq!(doc.xref[1].compressed, 2);
    assert_eq!(doc.xref[8].compressed, 3);
    assert_eq!(doc.xref[9].compressed, 3);
    assert_eq!(doc.xref[10].compressed, 1);
    assert_eq!(doc.trailer.root, 1);
    assert_eq!(doc.trailer.info, 7);
    assert!(!doc.is_encrypted());
    assert_eq!(doc.get_info("Title"), Some("The Tite".to_string()));
    // unpacking 14 unpacked 13, which it extends, first
    assert_eq!(doc.xref[1].compressed, 1);
    assert_eq!(doc.xref[7].compressed, 1);
    assert!(doc.get_object_by_id(8).is_none());
}

#[test]
fn a_file_of_a_newer_writer_gives_its_text() {
    let mut doc = load_pdf_doc(modern_file()).unwrap();
    let runs = doc.get_text_from_page(0).unwrap();
    assert_eq!(runs.len(), 3);
    // the text matrix moved to the right before anything was written
    assert_eq!(runs[0].chars, " ");
    assert_eq!(runs[1].chars, "AB C");
    // 32 units, halved by the page
    assert_eq!(runs[1].scaled_font_size, 16_000_000);
    assert_eq!(runs[1].pos_y, 1_400_000_000);
    assert_eq!(runs[2].chars, "fl \u{2014}");
    assert_eq!(runs[2].scaled_font_size, 11_000_000);
    assert_eq!(runs[2].pos_y, 600_000_000);
    let meta = extract_metadata(&mut doc, "modern.pdf");
    assert_eq!(meta.metadata_title, "The Tite");
    assert_eq!(meta.author, vec!["First Author", "Second Author"]);
    assert_eq!(meta.assumed_title, "");
}
