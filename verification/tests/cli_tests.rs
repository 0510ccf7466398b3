use tag_pdf_to_text::arg_parser::{parse_args, ArgsIssue, Verbose};
use tag_pdf_to_text::call::{
    best_match, compare_results, measure, query_titles, request_url, Similarity,
};
use tag_pdf_to_text::file_manager::{csv_line, read_file_path, shown_title, sort_by_name};
use tag_pdf_to_text::metadata::PDFStruct;

fn args(list: &[&str]) -> Vec<String> {
    list.iter().map(|s| s.to_string()).collect()
}

#[test]
fn arguments_with_defaults() {
    let data = parse_args(&args(&["metaquill", "papers"])).unwrap();
    assert_eq!(data.path, "papers");
    assert_eq!(data.output_filepath, "output.json");
    assert_eq!(data.reader, 0);
    assert!(data.make_api_call);
    assert_eq!(data.verbose, Verbose::Default);
    assert!(!data.recursive);
    assert!(data.pdfs.is_empty());
    assert_eq!((data.read, data.fails, data.timeouts, data.api_hits), (0, 0, 0, 0));
}

#[test]
fn arguments_with_every_option() {
    let data = parse_args(&args(&[
        "metaquill", "dir", "-r", "lopdf", "-nc", "-m", "full", "-o", "out.json", "-rec",
    ]))
    .unwrap();
    assert_eq!(data.reader, 1);
    assert!(!data.make_api_call);
    assert_eq!(data.verbose, Verbose::Full);
    assert_eq!(data.output_filepath, "out.json");
    assert!(data.recursive);
    let data = parse_args(&args(&[
        "metaquill", "dir", "-reader", "t", "-nocall", "-mode", "l", "-output", "-h", "-recursive",
        "-m", "d", "-r", "l",
    ]))
    .unwrap();
    assert_eq!(data.reader, 1);
    assert_eq!(data.verbose, Verbose::Default);
    // what follows -output is the path, whatever it is
    assert_eq!(data.output_filepath, "-h");
}

#[test]
fn arguments_that_start_no_run() {
    assert_eq!(parse_args(&args(&[])).err(), Some(ArgsIssue::NoPath));
    assert_eq!(parse_args(&args(&["metaquill"])).err(), Some(ArgsIssue::NoPath));
    assert_eq!(parse_args(&args(&["metaquill", "-h"])).err(), Some(ArgsIssue::Help));
    assert_eq!(parse_args(&args(&["metaquill", "-help", "x"])).err(), Some(ArgsIssue::Help));
    assert_eq!(parse_args(&args(&["metaquill", "dir", "-rec", "-help"])).err(), Some(ArgsIssue::Help));
    assert_eq!(parse_args(&args(&["metaquill", "dir", "-r"])).err(), Some(ArgsIssue::MissingValue(2)));
    assert_eq!(parse_args(&args(&["metaquill", "dir", "-nc", "-o"])).err(), Some(ArgsIssue::MissingValue(3)));
    assert_eq!(parse_args(&args(&["metaquill", "dir", "-mode"])).err(), Some(ArgsIssue::MissingValue(2)));
    assert_eq!(parse_args(&args(&["metaquill", "dir", "-r", "pdfium"])).err(), Some(ArgsIssue::InvalidReader(3)));
    assert_eq!(parse_args(&args(&["metaquill", "dir", "-m", "loud"])).err(), Some(ArgsIssue::InvalidMode(3)));
    assert_eq!(parse_args(&args(&["metaquill", "dir", "-x"])).err(), Some(ArgsIssue::Unknown(2)));
    assert_eq!(parse_args(&args(&["metaquill", "dir", "-rec", "more"])).err(), Some(ArgsIssue::Unknown(3)));
}

#[test]
fn request_addresses() {
    assert_eq!(
        request_url("  A Title: on \"things\" & more ", &Vec::new()),
        "https://api.crossref.org/works?query.bibliographic=A%20Title%3A%20on%20%22things%22%20%26%20more"
    );
    assert_eq!(
        request_url("Caf\u{e9}_1-2.3~", &vec![" Ada Lovelace ".to_string(), "Other".to_string()]),
        "https://api.crossref.org/works?query.bibliographic=Caf%C3%A9_1-2.3~&query.author=Ada%20Lovelace"
    );
    assert_eq!(
        request_url("T", &vec!["N/A".to_string()]),
        "https://api.crossref.org/works?query.bibliographic=T"
    );
    assert_eq!(
        request_url("T", &vec!["  ".to_string(), "Real".to_string()]),
        "https://api.crossref.org/works?query.bibliographic=T"
    );
}

#[test]
fn titles_to_ask_for() {
    let mut pdf = PDFStruct {
        path: "p".to_string(),
        metadata_title: "On Record".to_string(),
        assumed_title: "On The Page".to_string(),
        author: Vec::new(),
    };
    assert_eq!(query_titles(&pdf), vec!["On Record", "On The Page"]);
    assert_eq!(shown_title(&pdf), Some("On Record".to_string()));
    pdf.metadata_title = String::new();
    assert_eq!(query_titles(&pdf), vec!["On The Page"]);
    assert_eq!(shown_title(&pdf), Some("On The Page".to_string()));
    pdf.assumed_title = String::new();
    assert_eq!(query_titles(&pdf), Vec::<String>::new());
    assert_eq!(shown_title(&pdf), None);
}

#[test]
fn distance_of_titles() {
    assert_eq!(measure("kitten", "sitting"), Similarity { distance: 3, length: 7 });
    assert_eq!(measure("same", "same"), Similarity { distance: 0, length: 4 });
    assert_eq!(measure("", "abc"), Similarity { distance: 0, length: 0 });
    // the distance counts characters, the length bytes
    assert_eq!(measure("\u{e9}t\u{e9}", "ete"), Similarity { distance: 2, length: 5 });
    assert_eq!(
        compare_results("  A Title Of A PAPER ", "a title of a paper"),
        Similarity { distance: 0, length: 18 }
    );
    assert_eq!(compare_results("   ", "x"), Similarity { distance: 0, length: 0 });
}

#[test]
fn confidence_of_a_match() {
    assert_eq!(Similarity { distance: 0, length: 18 }.confidence(), 100);
    assert_eq!(Similarity { distance: 3, length: 7 }.confidence(), 57);
    assert_eq!(Similarity { distance: 9, length: 4 }.confidence(), 0);
    assert_eq!(Similarity { distance: 0, length: 0 }.confidence(), 0);
    // near enough is 70 in a hundred
    assert!(Similarity { distance: 3, length: 10 }.is_close());
    assert_eq!(Similarity { distance: 3, length: 10 }.confidence(), 70);
    assert!(!Similarity { distance: 31, length: 100 }.is_close());
    assert_eq!(Similarity { distance: 31, length: 100 }.confidence(), 69);
    assert!(!Similarity { distance: 0, length: 0 }.is_close());
    assert!(Similarity { distance: 1, length: 10 }.is_above(&Similarity { distance: 2, length: 10 }));
    assert!(!Similarity { distance: 1, length: 10 }.is_above(&Similarity { distance: 2, length: 20 }));
    assert!(Similarity { distance: 1, length: 10 }.is_above(&Similarity { distance: 0, length: 0 }));
    assert!(!Similarity { distance: 0, length: 0 }.is_above(&Similarity { distance: 0, length: 0 }));
}

#[test]
fn best_of_the_results() {
    assert_eq!(best_match(&Vec::new()), None);
    let list = vec![
        Similarity { distance: 5, length: 10 },
        Similarity { distance: 1, length: 10 },
        Similarity { distance: 2, length: 20 },
        Similarity { distance: 9, length: 10 },
    ];
    // of two with the most confidence the first one
    assert_eq!(best_match(&list), Some(1));
    assert_eq!(best_match(&vec![Similarity { distance: 0, length: 0 }]), Some(0));
}

#[test]
fn lines_of_the_table() {
    assert_eq!(
        csv_line("a.pdf", Some("Api Title"), "Meta", "Assumed", Some(2021)),
        "a.pdf,\"Api Title\",\"Meta\",\"Assumed\",2021"
    );
    assert_eq!(csv_line("b.pdf", None, "", "Only This", None), "b.pdf,\"\",\"\",\"Only This\",");
    assert_eq!(csv_line("c", None, "", "", Some(0)), "c,\"\",\"\",\"\",0");
    assert_eq!(csv_line("c", None, "", "", Some(-44)), "c,\"\",\"\",\"\",-44");
    assert_eq!(
        csv_line("c", None, "", "", Some(i64::MIN)),
        "c,\"\",\"\",\"\",-9223372036854775808"
    );
}

#[test]
fn names_in_natural_order() {
    let names: Vec<String> =
        ["rfc2086.txt", "rfc822.txt", "rfc1.txt", "a10", "a9", "rfc1.txt"].iter().map(|s| s.to_string()).collect();
    assert_eq!(sort_by_name(&names), vec![4, 3, 2, 5, 1, 0]);
    assert_eq!(sort_by_name(&Vec::new()), Vec::<usize>::new());
}

#[test]
fn only_pdf_files_are_listed() {
    let mut paths: Vec<String> = Vec::new();
    read_file_path("dir/paper.pdf", &mut paths);
    read_file_path("dir/notes.txt", &mut paths);
    read_file_path("dir/pdf", &mut paths);
    read_file_path("dir/.pdf", &mut paths);
    read_file_path("other.PDF", &mut paths);
    read_file_path("second.v2.pdf", &mut paths);
    assert_eq!(paths, vec!["dir/paper.pdf", "second.v2.pdf"]);
}

#[test]
fn the_extension_follows_the_last_dot_of_the_last_part() {
    let cases: Vec<(&str, bool)> = vec![
        ("a.pdf", true),
        ("dir/paper.pdf", true),
        ("a/b/c.d/e.tar.pdf", true),
        ("..pdf", true),
        ("a/.hidden.pdf", true),
        ("dir with space/a b.pdf", true),
        // a path from the root
        ("/a.pdf", true),
        ("/home/reader/papers/one.pdf", true),
        ("/home/reader/papers.pdf/one", false),
        ("/.pdf", false),
        // a dot at the start alone makes no extension
        (".pdf", false),
        ("a/.pdf", false),
        // nothing, or something else, follows the last dot
        ("a.", false),
        ("a.pdf.", false),
        ("a.pdf.txt", false),
        ("x.pdfx", false),
        ("x.PDF", false),
        ("x.Pdf", false),
        // the dot stands in another part
        ("dir.pdf/file", false),
        ("dir.pdf/file.txt", false),
        // no dot at all
        ("pdf", false),
        ("dir/pdf", false),
        ("nodot", false),
    ];
    for (path, listed) in cases {
        let mut paths: Vec<String> = vec!["before".to_string()];
        read_file_path(path, &mut paths);
        if listed {
            assert_eq!(paths, vec!["before", path]);
        } else {
            assert_eq!(paths, vec!["before"]);
        }
    }
}
