use tag_pdf_to_text::load_pdf_doc;
use tag_pdf_to_text::metadata::{decode_bytes, extract_metadata, split_authors, split_name};
use tag_pdf_to_text::text_parser::Text;
use tag_pdf_to_text::title::{
    contains_journal, get_probable_title_with, holds_notice, is_accepted_title, select_title,
};

const U: i64 = 1_000_000;

fn run(size: i64, text: &str) -> Text {
    Text {
        pos_y: 0,
        scaled_font_size: size,
        chars: text.to_string(),
        avg_font_size: size,
        font: String::new(),
    }
}

fn title_of(runs: &Vec<Text>) -> String {
    select_title(runs, &Vec::new())
}

#[test]
fn accepted_and_refused_titles() {
    assert!(is_accepted_title("A Survey of Text Recognition in Scientific Articles"));
    assert!(!is_accepted_title("Fig. 3"));
    assert!(!is_accepted_title("ABCDEFGHIJKLMN"));
    assert!(!is_accepted_title("this is rather an excessivelyverylongwordwithoutanyspacesatallinit"));
    assert!(!is_accepted_title("Page 1 / 10 \u{2014} \u{2014} \u{2014} \u{2014} \u{2014}"));
}

#[test]
fn title_length_limits() {
    // 16 bytes: 14 letters and two spaces
    assert!(is_accepted_title("abcde fghij klmn"));
    // 15 bytes
    assert!(!is_accepted_title("abcde fghi jklm"));
    let word = "abcd ";
    let mut long = String::new();
    for _ in 0..60 {
        long.push_str(word);
    }
    assert_eq!(long.len(), 300);
    assert!(is_accepted_title(&long));
    long.push('a');
    assert!(!is_accepted_title(&long));
    // the length counts bytes: eight letters of two bytes are 16 bytes, but too few characters
    assert!(!is_accepted_title("\u{e9}\u{e9}\u{e9}\u{e9} \u{e9}\u{e9}\u{e9}\u{e9}"));
}

#[test]
fn title_shares_of_characters() {
    // seven letters in ten characters that are no white space: just enough
    assert!(is_accepted_title("abcdefg 123 abcdefg 123"));
    // less than seven in ten
    assert!(!is_accepted_title("abcdefg 1234 abcdef 123"));
    // 14 characters for each space: just enough; white space of any kind counts
    assert!(is_accepted_title("abcdefghijklmn\u{a0}\u{2003}opqrstuvwxyzab"));
    assert!(!is_accepted_title("abcdefghijklmno\u{a0}\u{2003}opqrstuvwxyzab"));
    // 52 characters and four spaces are 13 for each space
    assert!(is_accepted_title("this is a rather excessivelyverylongwordwithoutanyspaces"));
    // 57 characters and four spaces are more than 14 for each space
    assert!(!is_accepted_title("this is a rather excessivelyverylongwordwithoutanyspacesatall"));
    // fewer than 14 characters that are no white space
    assert!(!is_accepted_title("a b c d e f g h i j k l m"));
}

#[test]
fn largest_run_wins_when_it_is_the_longest() {
    let runs = vec![
        run(20 * U, "A Long Research Paper Title About Widgets"),
        run(12 * U, "John Doe, Jane Roe"),
        run(9 * U, "Abstract: ..."),
    ];
    assert_eq!(title_of(&runs), "A Long Research Paper Title About Widgets");
}

#[test]
fn survivors_are_above_nine_tenths_and_above_thirteen() {
    // 0.9 * 20 = 18: a run of exactly 18 does not survive
    let runs = vec![
        run(20 * U, "The Largest Run Of Them All"),
        run(18 * U, "A Run That Is Longer Than The Largest One"),
    ];
    assert_eq!(title_of(&runs), "The Largest Run Of Them All");
    let runs = vec![
        run(20 * U, "The Largest Run Of Them All"),
        run(18 * U + 1, "A Run That Is Longer Than The Largest One"),
    ];
    assert_eq!(title_of(&runs), "A Run That Is Longer Than The Largest One");
    // the largest size in view is 13: nothing is above 13
    let runs = vec![run(13 * U, "A Title In A Size Of Thirteen")];
    assert_eq!(title_of(&runs), "");
    let runs = vec![run(13 * U + 1, "A Title In A Size Of Thirteen")];
    assert_eq!(title_of(&runs), "A Title In A Size Of Thirteen");
    // with the largest size below 11 no run survives
    let runs = vec![run(10 * U, "A Title In A Small Size")];
    assert_eq!(title_of(&runs), "");
    assert_eq!(title_of(&Vec::new()), "");
}

#[test]
fn runs_that_are_out_of_view_do_not_count() {
    // the large run is no title, so the largest size in view is 14
    let runs = vec![run(40 * U, "Fig. 3"), run(14 * U, "A Title Below The Figure")];
    assert_eq!(title_of(&runs), "A Title Below The Figure");
    // a mean size of 5 or less is out of view
    let runs = vec![run(5 * U, "A Title In A Size Of Five Only")];
    assert_eq!(title_of(&runs), "");
}

#[test]
fn of_the_longest_the_last_one_wins() {
    let runs = vec![
        run(14 * U, "The First Of Two Titles"),
        run(14 * U, "The Other Of Two Titles"),
        run(14 * U, "A Shorter Title Here"),
    ];
    assert_eq!(title_of(&runs), "The Other Of Two Titles");
}

#[test]
fn order_does_not_matter_with_one_longest() {
    let texts = [
        "An Accepted Title Of Some Length",
        "A Shorter Accepted Title",
        "Another Short Title Here",
    ];
    let orders: [[usize; 3]; 6] =
        [[0, 1, 2], [0, 2, 1], [1, 0, 2], [1, 2, 0], [2, 0, 1], [2, 1, 0]];
    for order in orders {
        let runs: Vec<Text> = order.iter().map(|&i| run(14 * U, texts[i])).collect();
        assert_eq!(title_of(&runs), "An Accepted Title Of Some Length");
    }
}

#[test]
fn journals_and_notices_are_no_titles() {
    let journals = vec!["Journal of Important Results".to_string()];
    assert!(contains_journal(&journals, "  Journal of Important Results \n"));
    assert!(!contains_journal(&journals, "Journal of Important Results II"));
    assert!(!contains_journal(&Vec::new(), ""));
    assert!(holds_notice("x Authorized licensed use limited to: Somebody"));
    assert!(holds_notice("Authorized licensed use limited to"));
    assert!(!holds_notice("Authorized licensed use limited t"));
    assert!(!holds_notice(""));
    let runs = vec![
        run(20 * U, " Journal of Important Results "),
        run(14 * U, "A Title That Stands Below"),
        run(30 * U, "Authorized licensed use limited to: A Library"),
    ];
    assert_eq!(select_title(&runs, &journals), "A Title That Stands Below");
    assert_eq!(select_title(&runs, &Vec::new()), " Journal of Important Results ");
}

#[test]
fn file_names() {
    assert_eq!(split_name("/home/user/paper.pdf"), Some("paper.pdf".to_string()));
    assert_eq!(split_name("C:\\data\\pdfs\\s9.pdf"), Some("s9.pdf".to_string()));
    assert_eq!(split_name("mixed/of\\both/kinds.pdf"), Some("kinds.pdf".to_string()));
    assert_eq!(split_name("plain.pdf"), Some("plain.pdf".to_string()));
    assert_eq!(split_name("dir/"), Some(String::new()));
    assert_eq!(split_name(""), Some(String::new()));
}

#[test]
fn authors_are_split_at_separators() {
    assert_eq!(
        split_authors("Ada Lovelace, Alan Turing; Grace Hopper and Donald Knuth & Edsger Dijkstra"),
        vec!["Ada Lovelace", "Alan Turing", "Grace Hopper", "Donald Knuth", "Edsger Dijkstra"]
    );
    // `and` inside a word does not separate
    assert_eq!(split_authors("Anders Sandberg and Amanda Brand"), vec![
        "Anders Sandberg",
        "Amanda Brand"
    ]);
    assert_eq!(split_authors(" , ;; & "), Vec::<String>::new());
    assert_eq!(split_authors(""), Vec::<String>::new());
    assert_eq!(split_authors("  One Name \t"), vec!["One Name"]);
}

#[test]
fn bytes_of_windows_1252() {
    assert_eq!(decode_bytes(b"Title"), "Title");
    assert_eq!(decode_bytes(&[0x80, 0x31, 0x30, 0xE9]), "\u{20ac}10\u{e9}");
    assert_eq!(decode_bytes(b""), "N/A");
    assert_eq!(decode_bytes(b" \t\n "), "N/A");
    assert_eq!(decode_bytes(b" x "), " x ");
}

fn stream_object(payload: &[u8]) -> Vec<u8> {
    let mut body: Vec<u8> =
        format!("<< /Length {} >>\nstream\n", payload.len()).as_bytes().to_vec();
    body.extend_from_slice(payload);
    body.extend_from_slice(b"\nendstream");
    body
}

fn file_of(bodies: &[Vec<u8>], trailer: &str) -> Vec<u8> {
    let mut out: Vec<u8> = b"%PDF-1.4\n".to_vec();
    let mut offsets: Vec<usize> = Vec::new();
    for (i, body) in bodies.iter().enumerate() {
        offsets.push(out.len());
        out.extend_from_slice(format!("{} 0 obj\n", i + 1).as_bytes());
        out.extend_from_slice(body);
        out.extend_from_slice(b"\nendobj\n");
    }
    let at = out.len();
    out.extend_from_slice(format!("xref\n0 {}\n", bodies.len() + 1).as_bytes());
    out.extend_from_slice(b"0000000000 65535 f \n");
    for off in &offsets {
        out.extend_from_slice(format!("{:010} 00000 n \n", off).as_bytes());
    }
    out.extend_from_slice(
        format!("trailer\n<< /Size {} {} >>\nstartxref\n{}\n%%EOF\n", bodies.len() + 1, trailer, at)
            .as_bytes(),
    );
    out
}

#[test]
fn metadata_of_a_document() {
    let bodies: Vec<Vec<u8>> = vec![
        b"<< /Type /Catalog /Pages 2 0 R >>".to_vec(),
        b"<< /Type /Pages /Kids [3 0 R] >>".to_vec(),
        b"<< /Type /Page /Contents [4 0 R 5 0 R] >>".to_vec(),
        stream_object(b"BT /F1 16 Tf 72 720 Td (A Title Spread Over) Tj "),
        stream_object(b"( Two Content Streams) Tj ET"),
        b"<< /Title (The Title On Record) /Author (Ada Lovelace and Alan Turing) >>".to_vec(),
    ];
    let mut doc = load_pdf_doc(file_of(&bodies, "/Root 1 0 R /Info 6 0 R")).unwrap();
    let meta = extract_metadata(&mut doc, "dir/file.pdf");
    assert_eq!(meta.path, "dir/file.pdf");
    assert_eq!(meta.metadata_title, "The Title On Record");
    assert_eq!(meta.assumed_title, "A Title Spread Over Two Content Streams");
    assert_eq!(meta.author, vec!["Ada Lovelace", "Alan Turing"]);
    let journals = vec!["A Title Spread Over Two Content Streams".to_string()];
    assert_eq!(get_probable_title_with(&mut doc, &journals), "");
}

#[test]
fn metadata_of_a_document_without_any() {
    let bodies: Vec<Vec<u8>> = vec![b"<< /Type /Catalog >>".to_vec()];
    let mut doc = load_pdf_doc(file_of(&bodies, "/Root 1 0 R")).unwrap();
    let meta = extract_metadata(&mut doc, "x.pdf");
    assert_eq!(meta.metadata_title, "");
    assert_eq!(meta.assumed_title, "");
    assert!(meta.author.is_empty());
}

#[test]
fn fonts_with_differences() {
    let bodies: Vec<Vec<u8>> = vec![
        b"<< /Type /Catalog /Pages 2 0 R >>".to_vec(),
        b"<< /Type /Pages /Kids [3 0 R] >>".to_vec(),
        b"<< /Type /Page /Resources 6 0 R /Contents 4 0 R >>".to_vec(),
        stream_object(b"BT /F2 12 Tf 0 700 Td <0102030A0B> Tj /F9 12 Tf (z) Tj ET"),
        b"<< /Differences [1 /C72 /C105 /space 10 /C33 /Cx /C63] >>".to_vec(),
        b"<< /Font 7 0 R >>".to_vec(),
        b"<< /F1 8 0 R /F2 << >> /F2 9 0 R >>".to_vec(),
        b"<< /Type /Font >>".to_vec(),
        b"<< /Type /Font /Encoding 5 0 R >>".to_vec(),
    ];
    let mut doc = load_pdf_doc(file_of(&bodies, "/Root 1 0 R")).unwrap();
    let runs = doc.get_text_from_page(0).unwrap();
    assert_eq!(runs.len(), 1);
    // 1 -> H, 2 -> i, 3 has no number, 10 -> !, 11 has none, 12 -> ?
    assert_eq!(runs[0].chars, "Hi!z");
}

#[test]
fn names_of_journals_one_on_each_line() {
    assert_eq!(
        tag_pdf_to_text::title::journal_names("  Journal A \r\nJournal B\n\n Journal C"),
        vec!["Journal A", "Journal B", "", "Journal C"]
    );
    assert_eq!(tag_pdf_to_text::title::journal_names("One\n"), vec!["One"]);
    assert_eq!(tag_pdf_to_text::title::journal_names(""), Vec::<String>::new());
    assert_eq!(tag_pdf_to_text::title::journal_names("\n"), vec![""]);
}
