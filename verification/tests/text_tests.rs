use std::collections::HashMap;
use tag_pdf_to_text::cmap::{read_cmap, read_fchar, read_frange, read_hex_chars};
use tag_pdf_to_text::content::{parse_page_content, read_runs, read_text};
use tag_pdf_to_text::document::{Document, ObjectRef, Trailer};
use tag_pdf_to_text::fixed::{magnitude, minus, negated, plus, times};
use tag_pdf_to_text::fonts::Font;
use tag_pdf_to_text::pdf_object::PdfVar;
use tag_pdf_to_text::text_parser::{
    add_str_lit, add_text_section, eval_text_section, text_tj_array, Text, TextReader, TextRun,
};

const U: i64 = 1_000_000;

fn plain_fonts() -> Vec<Font> {
    vec![Font { name: String::new(), mapping: HashMap::new() }]
}

fn runs_of(content: &[u8]) -> Option<Vec<Text>> {
    let data: Vec<u8> = content.to_vec();
    let xref: Vec<ObjectRef> = Vec::new();
    read_runs(&data, &xref, 0, &plain_fonts())
}

fn texts(content: &[u8]) -> Vec<String> {
    runs_of(content).unwrap().into_iter().map(|t| t.chars).collect()
}

#[test]
fn fixed_point_arithmetic() {
    assert_eq!(times(2 * U, 3 * U), 6 * U);
    assert_eq!(times(1_500_000, 1_500_000), 2_250_000);
    // products are rounded towards zero
    assert_eq!(times(1, 999_999), 0);
    assert_eq!(times(-1, 999_999), 0);
    assert_eq!(times(-3, 500_000), -1);
    assert_eq!(times(700_000, 18 * U), 12_600_000);
    assert_eq!(times(i64::MAX, 2 * U), i64::MAX);
    assert_eq!(times(i64::MIN, 2 * U), -i64::MAX);
    assert_eq!(times(i64::MIN, -2 * U), i64::MAX);
    assert_eq!(plus(i64::MAX, 1), i64::MAX);
    assert_eq!(plus(2, 3), 5);
    assert_eq!(minus(-i64::MAX, 5), -i64::MAX);
    assert_eq!(minus(2, 3), -1);
    assert_eq!(negated(i64::MIN), i64::MAX);
    assert_eq!(negated(5), -5);
    assert_eq!(magnitude(-7), 7);
    assert_eq!(magnitude(i64::MIN), i64::MAX);
}

#[test]
fn one_section_one_run() {
    let runs = runs_of(b"BT /F1 18 Tf 72 720 Td (Hello World This Is A Title) Tj ET").unwrap();
    assert_eq!(
        runs,
        vec![Text {
            pos_y: 720 * U,
            scaled_font_size: 18 * U,
            chars: "Hello World This Is A Title".to_string(),
            avg_font_size: 18 * U,
            font: String::new(),
        }]
    );
}

#[test]
fn lines_of_one_size_are_one_run() {
    // a step of one line: more than 0.7 of the size, less than twice the size
    assert_eq!(
        texts(b"BT /F1 10 Tf 0 700 Td (first line) Tj 0 -12 Td (second line) Tj ET"),
        vec!["first line second line"]
    );
    // a step of more than twice the size starts a new run
    assert_eq!(
        texts(b"BT /F1 10 Tf 0 700 Td (first) Tj 0 -30 Td (second) Tj ET"),
        vec!["first", "second"]
    );
    // no step at all: the same line
    assert_eq!(
        texts(b"BT /F1 10 Tf 0 700 Td (same) Tj 20 0 Td (line) Tj ET"),
        vec!["sameline"]
    );
    // a new line in another size starts a new run
    assert_eq!(
        texts(b"BT /F1 10 Tf 0 700 Td (big) Tj /F1 9 Tf 0 -12 Td (small) Tj ET"),
        vec!["big", "small"]
    );
    // a size that differs by no more than 0.2 goes on
    assert_eq!(
        texts(b"BT /F1 10 Tf 0 700 Td (big) Tj /F1 9.9 Tf 0 -12 Td (small) Tj ET"),
        vec!["big small"]
    );
}

#[test]
fn mean_font_size_is_weighted_by_characters() {
    let runs =
        runs_of(b"BT /F1 10 Tf 0 700 Td (abcd) Tj /F1 10.2 Tf (ef) Tj ET").unwrap();
    assert_eq!(runs.len(), 1);
    assert_eq!(runs[0].chars, "abcdef");
    // (4 * 10 + 2 * 10.2) / 6
    assert_eq!(runs[0].avg_font_size, 10_066_666);
    assert_eq!(runs[0].scaled_font_size, 10_200_000);
}

#[test]
fn kerning_and_wide_moves_break_words() {
    assert_eq!(
        texts(b"BT /F1 10 Tf 0 700 Td [(Hel) -20 (lo) -300 (World) -165 (s) -165.5 (t)] TJ ET"),
        vec!["Hello Worlds t"]
    );
    assert_eq!(
        texts(b"BT /F1 10 Tf 0 700 Td (a) Tj 161 0 Td (b) Tj 160 0 Td (c) Tj ET"),
        vec!["a bc"]
    );
    // a space is not doubled
    assert_eq!(
        texts(b"BT /F1 10 Tf 0 700 Td [(a ) -300 (b)] TJ ET"),
        vec!["a b"]
    );
    // anything but strings and numbers in the array fails the page
    assert!(runs_of(b"BT /F1 10 Tf [(a) /N] TJ ET").is_none());
}

#[test]
fn text_matrix_sets_scale_and_position() {
    let runs = runs_of(b"BT /F1 2 Tf 1 0 0 9 0 500 Tm (scaled) Tj ET").unwrap();
    assert_eq!(runs[0].scaled_font_size, 18 * U);
    assert_eq!(runs[0].pos_y, 500 * U);
    assert_eq!(runs[0].chars, "scaled");
    // a horizontal offset above zero breaks the word
    assert_eq!(
        texts(b"BT /F1 10 Tf 1 0 0 1 0 700 Tm (a) Tj 1 0 0 1 5 700 Tm (b) Tj ET"),
        vec!["a b"]
    );
}

#[test]
fn leading_and_next_line_operators() {
    // TL sets the leading, T* moves by it
    let runs = runs_of(b"BT /F1 10 Tf 0 700 Td 12 TL (a) Tj T* (b) Tj ET").unwrap();
    assert_eq!(runs.len(), 1);
    assert_eq!(runs[0].chars, "a b");
    assert_eq!(runs[0].pos_y, 688 * U);
    // TD sets the leading from its second operand
    let runs = runs_of(b"BT /F1 10 Tf 0 700 Td (a) Tj 0 -11 TD (b) Tj T* (c) Tj ET").unwrap();
    assert_eq!(runs[0].chars, "a b c");
    assert_eq!(runs[0].pos_y, 678 * U);
    // ' moves to the next line and adds a string
    let runs = runs_of(b"BT /F1 10 Tf 0 700 Td 12 TL (a) Tj (b) ' ET").unwrap();
    assert_eq!(runs[0].chars, "a b");
    assert_eq!(runs[0].pos_y, 688 * U);
}

#[test]
fn page_scale_and_saved_states() {
    // cm: the fourth operand scales, the sixth moves
    let runs = runs_of(b"1 0 0 2 0 100 cm BT /F1 10 Tf 0 50 Td (x) Tj ET").unwrap();
    assert_eq!(runs[0].scaled_font_size, 20 * U);
    assert_eq!(runs[0].pos_y, 200 * U);
    // Q brings the saved state back
    let runs = runs_of(
        b"q 1 0 0 2 0 100 cm BT /F1 10 Tf 0 50 Td (x) Tj ET Q BT /F1 10 Tf 0 50 Td (y) Tj ET",
    )
    .unwrap();
    assert_eq!(runs.len(), 2);
    assert_eq!(runs[1].scaled_font_size, 10 * U);
    assert_eq!(runs[1].pos_y, 50 * U);
    // a Q too many does nothing
    let runs = runs_of(b"Q Q Q BT /F1 10 Tf 0 50 Td (z) Tj ET").unwrap();
    assert_eq!(runs[0].chars, "z");
    let data: Vec<u8> = b"q q Q Q Q 12 BT rest".to_vec();
    let mut readers = vec![TextReader {
        y_pos: 0,
        scale: U,
        graph_scale: U,
        graph_y: 0,
        font_size: U,
        scaled_font_size: U,
        leading: 0,
    }];
    assert_eq!(parse_page_content(&data, 0, &mut readers), 15);
    assert_eq!(readers.len(), 1);
    assert_eq!(parse_page_content(&data, 15, &mut readers), data.len());
}

#[test]
fn operators_that_are_not_known_are_passed_over() {
    assert_eq!(
        texts(b"BT /F1 10 Tf 0 700 Td 0 g 1 Tc 0 Tw 3 Tr (a) Tj EMC 0.5 0.5 0.5 rg (b) Tj ET"),
        vec!["ab"]
    );
}

#[test]
fn sections_that_fail() {
    assert!(runs_of(b"BT /F1 Tf (a) Tj ET").is_none());
    assert!(runs_of(b"BT 10 Tj ET").is_none());
    assert!(runs_of(b"BT Tj ET").is_none());
    assert!(runs_of(b"BT 1 Td ET").is_none());
    assert!(runs_of(b"BT 1 2 3 Tm ET").is_none());
    assert!(runs_of(b"BT TL ET").is_none());
    assert!(runs_of(b"BT /F1 10 Tf (never closed) Tj").is_none());
    assert!(runs_of(b"BT <4G> Tj ET").is_none());
    assert_eq!(runs_of(b""), Some(Vec::new()));
    assert_eq!(runs_of(b"0 0 1 rg 1 2 3 4 re f"), Some(Vec::new()));
}

#[test]
fn glyphs_go_through_the_font() {
    let mut mapping: HashMap<u32, Vec<u32>> = HashMap::new();
    mapping.insert(1, vec![0x66]);
    mapping.insert(2, vec![0x66, 0x69]);
    mapping.insert(3, vec![0xD800, 0x41, 0x110000]);
    let fonts = vec![
        Font { name: String::new(), mapping: HashMap::new() },
        Font { name: "F1".to_string(), mapping },
        Font { name: "F1".to_string(), mapping: HashMap::new() },
    ];
    let tr = TextReader {
        y_pos: 0,
        scale: U,
        graph_scale: U,
        graph_y: 0,
        font_size: 12 * U,
        scaled_font_size: 12 * U,
        leading: 0,
    };
    let mut run = TextRun {
        pos_y: 0,
        scaled_font_size: 0,
        chars: vec!['x', 'y'],
        avg_font_size: 6 * U,
        font: "F1".to_string(),
    };
    // code 0 gives nothing, a code that the font does not know its PDFDoc character
    add_str_lit(&mut run, &tr, &vec![1, 0, 2, 3, 65, 128, 5], &fonts);
    let text: String = run.chars.iter().collect();
    assert_eq!(text, "xyffiAA\u{2022}");
    // (2 * 6 + 6 * 12) / 8
    assert_eq!(run.avg_font_size, 10_500_000);
    // a name that no font has selects the first font
    let mut other = TextRun {
        pos_y: 0,
        scaled_font_size: 0,
        chars: Vec::new(),
        avg_font_size: 0,
        font: "F9".to_string(),
    };
    add_str_lit(&mut other, &tr, &vec![1, 66], &fonts);
    assert_eq!(other.chars, vec!['B']);
    assert_eq!(other.avg_font_size, 12 * U);
}

#[test]
fn runs_are_closed_and_started() {
    let mut run = TextRun {
        pos_y: 100 * U,
        scaled_font_size: 10 * U,
        chars: vec!['a'],
        avg_font_size: 10 * U,
        font: "F1".to_string(),
    };
    let mut done: Vec<Text> = Vec::new();
    // at most twice the size and at most 0.7 of the new size: nothing happens
    eval_text_section(&mut run, &mut done, 93 * U, 10 * U);
    assert_eq!(run.chars, vec!['a']);
    assert_eq!(run.pos_y, 100 * U);
    // more than 0.7 of the new size: a new line
    eval_text_section(&mut run, &mut done, 92 * U, 10 * U);
    assert_eq!(run.chars, vec!['a', ' ']);
    assert_eq!(run.pos_y, 92 * U);
    assert!(done.is_empty());
    // exactly twice the size is no jump, but another new line: a space is
    // added also where one stands already
    eval_text_section(&mut run, &mut done, 72 * U, 10 * U);
    assert!(done.is_empty());
    assert_eq!(run.chars, vec!['a', ' ', ' ']);
    assert_eq!(run.pos_y, 72 * U);
    // more than twice the size is
    eval_text_section(&mut run, &mut done, 51_999_999, 11 * U);
    assert_eq!(done.len(), 1);
    assert_eq!(done[0].chars, "a  ");
    assert_eq!(done[0].font, "");
    assert_eq!(done[0].pos_y, 72 * U);
    assert_eq!(run.chars, Vec::<char>::new());
    assert_eq!(run.pos_y, 51_999_999);
    assert_eq!(run.scaled_font_size, 11 * U);
    assert_eq!(run.avg_font_size, 0);
    assert_eq!(run.font, "F1");
    // an empty run is not handed out
    add_text_section(&mut run, &mut done, 0, 0);
    assert_eq!(done.len(), 1);
    run.add_space();
    run.add_space();
    assert_eq!(run.chars, vec![' ']);
}

#[test]
fn destinations_of_a_code_map() {
    let data: Vec<u8> = b"  <00660069> <0041 0042\n0043>x<41><004>".to_vec();
    assert_eq!(read_hex_chars(&data, 0), (Some(vec![0x66, 0x69]), 12));
    assert_eq!(read_hex_chars(&data, 12), (Some(vec![0x41, 0x42, 0x43]), 29));
    assert_eq!(read_hex_chars(&data, 29), (None, 29));
    assert_eq!(read_hex_chars(&data, 30).0, None);
    assert_eq!(read_hex_chars(&data, 34).0, None);
    assert_eq!(read_hex_chars(&data, 99), (None, 99));
}

#[test]
fn bfchar_sections() {
    let data: Vec<u8> =
        b"\n<01> <0066>\n<02> <0069>\n<03> <00660069>\n<0B><0058>\nendbfchar".to_vec();
    let mut map: HashMap<u32, Vec<u32>> = HashMap::new();
    let end = read_fchar(&data, 0, &mut map);
    assert_eq!(&data[end..], b"endbfchar");
    assert_eq!(map.len(), 4);
    assert_eq!(map[&1], vec![0x66]);
    assert_eq!(map[&2], vec![0x69]);
    assert_eq!(map[&3], vec![0x66, 0x69]);
    assert_eq!(map[&11], vec![0x58]);
    // a destination that is no group of four digits ends the reading
    let short: Vec<u8> = b"<0A> <12>\n<0B> <0058>".to_vec();
    let mut few: HashMap<u32, Vec<u32>> = HashMap::new();
    let end = read_fchar(&short, 0, &mut few);
    assert_eq!(&short[end..], b"12>\n<0B> <0058>");
    assert!(few.is_empty());
    // a code that is no hexadecimal number ends it too
    let odd: Vec<u8> = b"<0G> <0058>".to_vec();
    assert_eq!(read_fchar(&odd, 0, &mut few), 3);
    assert!(few.is_empty());
}

#[test]
fn a_triple_after_an_array_is_read() {
    let data: Vec<u8> = b" <01> <02> [<0066> <00660069>]\n<05> <05> <0041>\nendbfrange ".to_vec();
    let mut map: HashMap<u32, Vec<u32>> = HashMap::new();
    let end = read_frange(&data, 0, &mut map);
    assert_eq!(map.len(), 3);
    assert_eq!(map[&1], vec![0x66]);
    assert_eq!(map[&2], vec![0x66, 0x69]);
    assert_eq!(map[&5], vec![0x41]);
    assert_eq!(&data[end..], b"endbfrange ");
}

#[test]
fn a_wide_range_is_filled() {
    let data: Vec<u8> = b"<0000> <0FFFFF> <0000>\n<100000> <100001> <FFFF>\nendbfrange".to_vec();
    let mut map: HashMap<u32, Vec<u32>> = HashMap::new();
    let end = read_frange(&data, 0, &mut map);
    assert_eq!(map.len(), 0x100002);
    assert_eq!(map[&0], vec![0]);
    assert_eq!(map[&0x12345], vec![0x12345]);
    assert_eq!(map[&0xFFFFF], vec![0xFFFFF]);
    assert_eq!(map[&0x100000], vec![0xFFFF]);
    assert_eq!(map[&0x100001], vec![0x10000]);
    assert_eq!(&data[end..], b"endbfrange");
}

#[test]
fn the_quote_operator_is_passed_over() {
    assert_eq!(runs_of(b"BT /F1 10 Tf (a) \" ET"), Some(Vec::new()));
    let runs = runs_of(b"BT /F1 10 Tf 0 700 Td (a) Tj 1 2 (b) \" (c) Tj ET").unwrap();
    assert_eq!(runs.len(), 1);
    assert_eq!(runs[0].chars, "ac");
}

#[test]
fn bfrange_sections() {
    let data: Vec<u8> =
        b" <20> <22> <0041>\n<30> <32> [<0061> <00620063> <0064>]\n<05> <04> <0040>\n<40> <40> <005A>\nendbfrange"
            .to_vec();
    let mut map: HashMap<u32, Vec<u32>> = HashMap::new();
    let end = read_frange(&data, 0, &mut map);
    assert_eq!(map[&0x20], vec![0x41]);
    assert_eq!(map[&0x21], vec![0x42]);
    assert_eq!(map[&0x22], vec![0x43]);
    assert_eq!(map[&0x30], vec![0x61]);
    assert_eq!(map[&0x31], vec![0x62, 0x63]);
    assert_eq!(map[&0x32], vec![0x64]);
    // a range whose end lies before its start holds no code; reading goes on
    assert_eq!(map[&0x40], vec![0x5A]);
    assert_eq!(map.len(), 7);
    assert_eq!(end, data.len() - 10);
    let mut whole: HashMap<u32, Vec<u32>> = HashMap::new();
    let all: Vec<u8> = b"2 beginbfrange\n<40> <40> <005A>\n<0100> <0101> <2022>\nendbfrange\n1 beginbfchar\n<07> <0037>\nendbfchar".to_vec();
    read_cmap(&all, &mut whole);
    assert_eq!(whole.len(), 4);
    assert_eq!(whole[&0x40], vec![0x5A]);
    assert_eq!(whole[&0x100], vec![0x2022]);
    assert_eq!(whole[&0x101], vec![0x2023]);
    assert_eq!(whole[&7], vec![0x37]);
}

#[test]
fn read_text_stops_at_a_delimiter() {
    let mut doc = Document {
        xref: Vec::new(),
        trailer: Trailer { info: 0, root: 0, size: 0, encrypt: 0 },
        data: b"EMC  re[x".to_vec(),
        it: 0,
        sections: Vec::new(),
    };
    assert_eq!(read_text(&mut doc), "EMC");
    assert_eq!(doc.it, 3);
    assert_eq!(read_text(&mut doc), "");
    assert_eq!(doc.it, 3);
    doc.it = 5;
    assert_eq!(read_text(&mut doc), "re");
    doc.it = 8;
    assert_eq!(read_text(&mut doc), "x");
    assert_eq!(doc.it, 9);
    doc.it = 50;
    assert_eq!(read_text(&mut doc), "");
    assert_eq!(doc.it, 50);
}

#[test]
fn an_array_that_does_not_fit_changes_nothing() {
    let tr = TextReader {
        y_pos: 500 * U,
        scale: U,
        graph_scale: U,
        graph_y: 0,
        font_size: 12 * U,
        scaled_font_size: 12 * U,
        leading: 0,
    };
    let mut run = TextRun {
        pos_y: 0,
        scaled_font_size: 12 * U,
        chars: vec!['a'],
        avg_font_size: 12 * U,
        font: String::new(),
    };
    let mut done: Vec<Text> = Vec::new();
    let bad = vec![PdfVar::Array(vec![PdfVar::StringLiteral(vec![66]), PdfVar::Null])];
    assert_eq!(text_tj_array(&tr, &mut run, &mut done, &plain_fonts(), &bad), None);
    assert_eq!(run.chars, vec!['a']);
    assert_eq!(run.pos_y, 0);
    assert!(done.is_empty());
    let good = vec![PdfVar::Array(vec![
        PdfVar::StringLiteral(vec![66]),
        PdfVar::Integer { value: -200, signed: true },
        PdfVar::Real(b"-1.5".to_vec()),
        PdfVar::StringLiteral(vec![67]),
    ])];
    assert_eq!(text_tj_array(&tr, &mut run, &mut done, &plain_fonts(), &good), Some(()));
    assert_eq!(done.len(), 1);
    assert_eq!(done[0].chars, "a");
    assert_eq!(run.chars, vec!['B', ' ', 'C']);
    assert_eq!(run.pos_y, 500 * U);
}
