//! A page that shows one string: what its content reads as, from the bytes
//! to the run of text.

use crate::cmap::GlyphMap;
use crate::content::{
    first_reader, first_text, lemma_shown_string_is_one_run, section_start, spec_gather,
    spec_objects_text, spec_operator, spec_page_content, spec_runs, spec_section,
    spec_text_from_page, SectionStep,
};
use crate::cursor::{decimal_value, has_tag, is_digit, lemma_one_space};
use crate::decoding::{chars_of_codes, lemma_ascii_text, pdfdoc_char_text};
use crate::document::ObjectRef;
use crate::fixed::UNIT;
use crate::fonts::{spec_page_resources, FontModel};
use crate::objects::{spec_page, Store};
use crate::parser::{spec_token, MAX_DEPTH};
use crate::pdf_object::{dict_value, indices_of, PdfValue};
use crate::tags::{tag_bt, tag_et};
use crate::text_parser::{
    glyph_text, page_of, pick_font, spec_flush, Layout, TextModel,
};
use crate::tokens::{
    codes_of, is_plain, lemma_plain_integer, lemma_plain_string, name_scan, spec_name,
    spec_numeric, spec_string_literal, Parsed, Scanned,
};
use vstd::prelude::*;

verus! {

/// What stands before the string in the content of a page that shows one
/// string in the font `F1` at size 18, on the line 720:
/// `BT /F1 18 Tf 72 720 Td (`.
pub open spec fn before_string() -> Seq<u8> {
    seq![
        66u8, 84, 32, 47, 70, 49, 32, 49, 56, 32, 84, 102, 32, 55, 50, 32, 55, 50, 48, 32, 84, 100,
        32, 40,
    ]
}

/// What stands after the string: `) Tj ET`.
pub open spec fn after_string() -> Seq<u8> {
    seq![41u8, 32, 84, 106, 32, 69, 84]
}

/// The content of a page that shows the string with the given bytes.
pub open spec fn one_string_content(text: Seq<u8>) -> Seq<u8> {
    before_string() + text + after_string()
}

/// The name of the font that the content selects.
pub open spec fn shown_font() -> Seq<char> {
    seq!['F', '1']
}

/// The number that two digits write, and that three digits write.
proof fn lemma_few_digits(data: Seq<u8>, p: int)
    requires
        0 <= p,
        p + 3 <= data.len(),
        is_digit(data[p]),
        is_digit(data[p + 1]),
    ensures
        decimal_value(data, p, p + 2) == (data[p] - 48) * 10 + (data[p + 1] - 48),
        is_digit(data[p + 2]) ==> decimal_value(data, p, p + 3) == ((data[p] - 48) * 10 + (data[p
            + 1] - 48)) * 10 + (data[p + 2] - 48),
{
    assert(decimal_value(data, p, p) == 0);
    assert(decimal_value(data, p, p + 1) == decimal_value(data, p, p) * 10 + (data[p] - 48) as nat);
    assert(decimal_value(data, p, p + 2) == decimal_value(data, p, p + 1) * 10 + (data[p + 1]
        - 48) as nat);
    assert(decimal_value(data, p, p + 3) == decimal_value(data, p, p + 2) * 10 + (data[p + 2]
        - 48) as nat);
}

/// An unsigned integer after a space is read as an operand.
proof fn lemma_section_reads_integer(
    d: Seq<u8>,
    xref: Seq<ObjectRef>,
    fonts: Seq<FontModel>,
    q: int,
    e: int,
    stack: Seq<PdfValue>,
    l: Layout,
)
    requires
        0 <= q,
        q + 1 < e < d.len(),
        d[q] == 32,
        forall|k: int| q < k < e ==> is_digit(#[trigger] d[k]),
        d[e] == 32,
        decimal_value(d, q + 1, e) <= 0x7fff_ffff_ffff_ffff,
    ensures
        spec_section(d, xref, fonts, q, stack, l) == spec_section(
            d,
            xref,
            fonts,
            e,
            stack.push(
                PdfValue::Integer { value: decimal_value(d, q + 1, e) as i64, signed: false },
            ),
            l,
        ),
{
    assert(is_digit(d[q + 1]));
    lemma_one_space(d, q);
    lemma_plain_integer(d, q + 1, e, stack);
    assert(spec_token(d, xref, q + 1, stack, MAX_DEPTH as nat) == spec_numeric(d, q + 1, stack));
}

/// An operator of text after a space takes the operands and empties the
/// stack.
proof fn lemma_section_applies_operator(
    d: Seq<u8>,
    xref: Seq<ObjectRef>,
    fonts: Seq<FontModel>,
    q: int,
    stack: Seq<PdfValue>,
    l: Layout,
)
    requires
        0 <= q,
        q + 2 < d.len(),
        d[q] == 32,
        d[q + 1] == 84,
    ensures
        spec_section(d, xref, fonts, q, stack, l) == (match spec_operator(
            d[q + 2],
            l,
            stack,
            fonts,
        ) {
            Some(next) => spec_section(d, xref, fonts, q + 3, Seq::empty(), next),
            None => None,
        }),
{
    lemma_one_space(d, q);
}

/// The name `/F1` after a space is read as an operand.
proof fn lemma_section_reads_font(
    d: Seq<u8>,
    xref: Seq<ObjectRef>,
    fonts: Seq<FontModel>,
    q: int,
    stack: Seq<PdfValue>,
    l: Layout,
)
    requires
        0 <= q,
        q + 4 < d.len(),
        d[q] == 32 && d[q + 1] == 47 && d[q + 2] == 70 && d[q + 3] == 49 && d[q + 4] == 32,
    ensures
        spec_section(d, xref, fonts, q, stack, l) == spec_section(
            d,
            xref,
            fonts,
            q + 4,
            stack.push(PdfValue::Name(shown_font())),
            l,
        ),
{
    lemma_one_space(d, q);
    let none = Seq::<u32>::empty();
    let name_codes = none.push(70).push(49);
    assert(name_scan(d, q + 4, name_codes) == (Scanned::Done { pos: q + 4, codes: name_codes }));
    assert(name_scan(d, q + 3, none.push(70)) == name_scan(d, q + 4, name_codes));
    assert(name_scan(d, q + 2, none) == name_scan(d, q + 3, none.push(70)));
    lemma_ascii_text(name_codes);
    assert(70u32 as char == 'F');
    assert(49u32 as char == '1');
    assert(chars_of_codes(name_codes) =~= shown_font());
    assert(spec_name(d, q + 1, stack) == (Parsed::Done {
        pos: q + 4,
        stack: stack.push(PdfValue::Name(shown_font())),
    }));
    assert(spec_token(d, xref, q + 1, stack, MAX_DEPTH as nat) == spec_name(d, q + 1, stack));
}

/// A string without brackets and backslashes after a space is read as an
/// operand.
proof fn lemma_section_reads_string(
    d: Seq<u8>,
    xref: Seq<ObjectRef>,
    fonts: Seq<FontModel>,
    q: int,
    n: nat,
    stack: Seq<PdfValue>,
    l: Layout,
)
    requires
        0 <= q,
        q + n + 2 < d.len(),
        d[q] == 32,
        d[q + 1] == 40,
        forall|k: int| q + 1 < k <= q + 1 + n ==> is_plain(#[trigger] d[k]),
        d[q + n + 2] == 41,
    ensures
        spec_section(d, xref, fonts, q, stack, l) == spec_section(
            d,
            xref,
            fonts,
            q + n + 3,
            stack.push(PdfValue::StringLiteral(codes_of(d, q + 2, q + n + 2))),
            l,
        ),
{
    lemma_one_space(d, q);
    lemma_plain_string(d, q + 1, n, stack);
    assert(spec_token(d, xref, q + 1, stack, MAX_DEPTH as nat) == spec_string_literal(
        d,
        q + 1,
        stack,
    ));
}

/// `ET` after a space ends the section.
proof fn lemma_section_ends(
    d: Seq<u8>,
    xref: Seq<ObjectRef>,
    fonts: Seq<FontModel>,
    q: int,
    stack: Seq<PdfValue>,
    l: Layout,
)
    requires
        0 <= q,
        q + 3 <= d.len(),
        d[q] == 32 && d[q + 1] == 69 && d[q + 2] == 84,
    ensures
        spec_section(d, xref, fonts, q, stack, l) == Some(SectionStep { pos: q + 3, layout: l }),
{
    lemma_one_space(d, q);
    assert(d.subrange(q + 1, q + 3) =~= tag_et());
    assert(has_tag(d, q + 1, tag_et()));
}

/// Glyphs of printable ASCII that the font's table does not know read as
/// their own characters.
pub proof fn lemma_plain_glyphs(map: GlyphMap, codes: Seq<u32>)
    requires
        forall|i: int|
            0 <= i < codes.len() ==> 32 <= #[trigger] codes[i] <= 126 && !map.contains_key(
                codes[i],
            ),
    ensures
        glyph_text(map, codes) == chars_of_codes(codes),
    decreases codes.len(),
{
    if codes.len() > 0 {
        lemma_plain_glyphs(map, codes.drop_last());
        let key = codes.last();
        assert(32 <= key <= 126 && !map.contains_key(key));
        assert(pdfdoc_char_text(key) =~= seq![key as char]);
        assert(glyph_text(map, codes) =~= chars_of_codes(codes));
    } else {
        assert(glyph_text(map, codes) =~= chars_of_codes(codes));
    }
}

/// Whether the content stands in the data from `o` on, with a string of
/// `n` bytes.
pub open spec fn holds_content(d: Seq<u8>, o: int, n: int) -> bool {
    &&& 0 <= o
    &&& 0 <= n
    &&& d.len() == o + n + 31
    &&& forall|k: int| 0 <= k < 24 ==> #[trigger] d[o + k] == before_string()[k]
    &&& forall|k: int| o + 23 < k <= o + 23 + n ==> is_plain(#[trigger] d[k])
    &&& forall|k: int| 0 <= k < 7 ==> #[trigger] d[o + n + 24 + k] == after_string()[k]
}

/// The content stands behind whatever it is put.
proof fn lemma_content_stands(before: Seq<u8>, text: Seq<u8>)
    requires
        forall|k: int| 0 <= k < text.len() ==> is_plain(#[trigger] text[k]),
    ensures
        holds_content(
            before + one_string_content(text),
            before.len() as int,
            text.len() as int,
        ),
        codes_of(
            before + one_string_content(text),
            (before.len() + 24) as int,
            (before.len() + 24 + text.len()) as int,
        ) == codes_of(text, 0, text.len() as int),
{
    let content = one_string_content(text);
    let d = before + content;
    let o = before.len() as int;
    let n = text.len() as int;
    assert(d.len() == o + n + 31);
    assert forall|k: int| 0 <= k < 24 implies #[trigger] d[o + k] == before_string()[k] by {
        assert(content[k] == before_string()[k]);
    }
    assert forall|k: int| o + 23 < k <= o + 23 + n implies is_plain(#[trigger] d[k]) by {
        assert(content[k - o] == text[k - o - 24]);
    }
    assert forall|k: int| 0 <= k < 7 implies #[trigger] d[o + n + 24 + k] == after_string()[k] by {
        assert(content[n + 24 + k] == after_string()[k]);
    }
    assert forall|k: int| 0 <= k < n implies d[o + 24 + k] == text[k] by {
        assert(content[24 + k] == text[k]);
    }
    assert(codes_of(d, o + 24, o + 24 + n) =~= codes_of(text, 0, n));
}

/// The start of the section: the font and its size are chosen.
proof fn lemma_section_chooses(
    d: Seq<u8>,
    o: int,
    xref: Seq<ObjectRef>,
    fonts: Seq<FontModel>,
    start: Layout,
    chosen: Layout,
)
    requires
        0 <= o,
        o + 13 < d.len(),
        d[o + 2] == 32 && d[o + 3] == 47 && d[o + 4] == 70 && d[o + 5] == 49 && d[o + 6] == 32,
        d[o + 7] == 49 && d[o + 8] == 56 && d[o + 9] == 32 && d[o + 10] == 84 && d[o + 11] == 102,
        spec_operator(
            102,
            start,
            seq![
                PdfValue::Name(shown_font()),
                (PdfValue::Integer { value: 18, signed: false }),
            ],
            fonts,
        ) == Some(chosen),
    ensures
        spec_section(d, xref, fonts, o + 2, Seq::empty(), start) == spec_section(
            d,
            xref,
            fonts,
            o + 12,
            Seq::empty(),
            chosen,
        ),
{
    let none = Seq::<PdfValue>::empty();
    let size = PdfValue::Integer { value: 18, signed: false };
    let st1 = none.push(PdfValue::Name(shown_font()));
    let st2 = seq![PdfValue::Name(shown_font()), size];
    lemma_section_reads_font(d, xref, fonts, o + 2, none, start);
    lemma_few_digits(d, o + 7);
    assert(decimal_value(d, o + 7, o + 9) == 18);
    assert forall|k: int| o + 6 < k < o + 9 implies is_digit(#[trigger] d[k]) by {
        assert(k == o + 7 || k == o + 8);
    }
    lemma_section_reads_integer(d, xref, fonts, o + 6, o + 9, st1, start);
    assert(st1.push(size) =~= st2);
    lemma_section_applies_operator(d, xref, fonts, o + 9, st2, start);
}

/// The section goes on: the line is set.
proof fn lemma_section_moves(
    d: Seq<u8>,
    o: int,
    xref: Seq<ObjectRef>,
    fonts: Seq<FontModel>,
    chosen: Layout,
    moved: Layout,
)
    requires
        0 <= o,
        o + 23 < d.len(),
        d[o + 12] == 32 && d[o + 13] == 55 && d[o + 14] == 50 && d[o + 15] == 32 && d[o + 16]
            == 55 && d[o + 17] == 50 && d[o + 18] == 48,
        d[o + 19] == 32 && d[o + 20] == 84 && d[o + 21] == 100,
        spec_operator(
            100,
            chosen,
            seq![
                (PdfValue::Integer { value: 72, signed: false }),
                (PdfValue::Integer { value: 720, signed: false }),
            ],
            fonts,
        ) == Some(moved),
    ensures
        spec_section(d, xref, fonts, o + 12, Seq::empty(), chosen) == spec_section(
            d,
            xref,
            fonts,
            o + 22,
            Seq::empty(),
            moved,
        ),
{
    let none = Seq::<PdfValue>::empty();
    let tx = PdfValue::Integer { value: 72, signed: false };
    let ty = PdfValue::Integer { value: 720, signed: false };
    let st4 = none.push(tx);
    let st5 = seq![tx, ty];
    lemma_few_digits(d, o + 13);
    assert(decimal_value(d, o + 13, o + 15) == 72);
    assert forall|k: int| o + 12 < k < o + 15 implies is_digit(#[trigger] d[k]) by {
        assert(k == o + 13 || k == o + 14);
    }
    lemma_section_reads_integer(d, xref, fonts, o + 12, o + 15, none, chosen);
    lemma_few_digits(d, o + 16);
    assert(decimal_value(d, o + 16, o + 19) == 720);
    assert forall|k: int| o + 15 < k < o + 19 implies is_digit(#[trigger] d[k]) by {
        assert(k == o + 16 || k == o + 17 || k == o + 18);
    }
    lemma_section_reads_integer(d, xref, fonts, o + 15, o + 19, st4, chosen);
    assert(st4.push(ty) =~= st5);
    lemma_section_applies_operator(d, xref, fonts, o + 19, st5, chosen);
}

/// The section up to the string: the font and its size are chosen and the
/// line is set.
proof fn lemma_section_head(
    d: Seq<u8>,
    o: int,
    n: int,
    xref: Seq<ObjectRef>,
    fonts: Seq<FontModel>,
    start: Layout,
    chosen: Layout,
    moved: Layout,
)
    requires
        holds_content(d, o, n),
        spec_operator(
            102,
            start,
            seq![
                PdfValue::Name(shown_font()),
                (PdfValue::Integer { value: 18, signed: false }),
            ],
            fonts,
        ) == Some(chosen),
        spec_operator(
            100,
            chosen,
            seq![
                (PdfValue::Integer { value: 72, signed: false }),
                (PdfValue::Integer { value: 720, signed: false }),
            ],
            fonts,
        ) == Some(moved),
    ensures
        spec_section(d, xref, fonts, o + 2, Seq::empty(), start) == spec_section(
            d,
            xref,
            fonts,
            o + 22,
            Seq::empty(),
            moved,
        ),
{
    lemma_bytes_before(d, o);
    lemma_section_chooses(d, o, xref, fonts, start, chosen);
    lemma_section_moves(d, o, xref, fonts, chosen, moved);
}

/// The section from the string on: the string is shown and the section
/// ends.
proof fn lemma_section_tail(
    d: Seq<u8>,
    o: int,
    n: int,
    xref: Seq<ObjectRef>,
    fonts: Seq<FontModel>,
    moved: Layout,
    shown: Layout,
)
    requires
        holds_content(d, o, n),
        spec_operator(
            106,
            moved,
            seq![PdfValue::StringLiteral(codes_of(d, o + 24, o + 24 + n))],
            fonts,
        ) == Some(shown),
    ensures
        spec_section(d, xref, fonts, o + 22, Seq::empty(), moved) == Some(
            SectionStep { pos: o + n + 31, layout: shown },
        ),
{
    let none = Seq::<PdfValue>::empty();
    let st7 = seq![PdfValue::StringLiteral(codes_of(d, o + 24, o + 24 + n))];
    lemma_bytes_before(d, o);
    lemma_bytes_after(d, o + n + 24);
    lemma_section_reads_string(d, xref, fonts, o + 22, n as nat, none, moved);
    assert(none.push(PdfValue::StringLiteral(codes_of(d, o + 24, o + 24 + n))) =~= st7);
    lemma_section_applies_operator(d, xref, fonts, o + n + 25, st7, moved);
    lemma_section_ends(d, xref, fonts, o + n + 28, none, shown);
}

/// A page that shows one string has one run. Where the content of a page
/// is `BT /F1 18 Tf 72 720 Td (`, a string without brackets and
/// backslashes, and `) Tj ET`, and the glyphs of the string give some text
/// in the font `F1`, the page reads as one run: that text, on the line 720,
/// with the size 18 as its size and as the mean size of its characters. The
/// content may stand behind any other bytes.
pub proof fn lemma_one_string_page(
    before: Seq<u8>,
    text: Seq<u8>,
    xref: Seq<ObjectRef>,
    fonts: Seq<FontModel>,
)
    requires
        forall|k: int| 0 <= k < text.len() ==> is_plain(#[trigger] text[k]),
        0 < glyph_text(
            pick_font(fonts, shown_font(), 0).mapping,
            codes_of(text, 0, text.len() as int),
        ).len(),
    ensures
        spec_runs(
            before + one_string_content(text),
            xref,
            fonts,
            before.len() as int,
            seq![first_reader()],
            page_of(first_text(), Seq::empty()),
        ) == Some(
            seq![
                (TextModel {
                    pos_y: (720 * UNIT) as i64,
                    scaled_font_size: (18 * UNIT) as i64,
                    chars: glyph_text(
                        pick_font(fonts, shown_font(), 0).mapping,
                        codes_of(text, 0, text.len() as int),
                    ),
                    avg_font_size: (18 * UNIT) as i64,
                    font: Seq::empty(),
                }),
            ],
        ),
{
    let d = before + one_string_content(text);
    let o = before.len() as int;
    let n = text.len() as int;
    let codes = codes_of(text, 0, n);
    let size = PdfValue::Integer { value: 18, signed: false };
    let tx = PdfValue::Integer { value: 72, signed: false };
    let ty = PdfValue::Integer { value: 720, signed: false };
    let start = Layout {
        tr: section_start(first_reader()),
        page: page_of(first_text(), Seq::empty()),
    };
    lemma_content_stands(before, text);
    lemma_shown_string_is_one_run(shown_font(), size, tx, ty, codes, fonts);
    let chosen = spec_operator(102, start, seq![PdfValue::Name(shown_font()), size], fonts)->0;
    let moved = spec_operator(100, chosen, seq![tx, ty], fonts)->0;
    let shown = spec_operator(106, moved, seq![PdfValue::StringLiteral(codes)], fonts)->0;
    lemma_section_head(d, o, n, xref, fonts, start, chosen, moved);
    lemma_section_tail(d, o, n, xref, fonts, moved, shown);
    lemma_runs_of_one_section(d, o, n, xref, fonts, shown);
}

/// A page that shows one string of printable ASCII, in a font whose table
/// knows none of the string's codes, has one run that reads as the string.
pub proof fn lemma_one_plain_string_page(
    before: Seq<u8>,
    text: Seq<u8>,
    xref: Seq<ObjectRef>,
    fonts: Seq<FontModel>,
)
    requires
        0 < text.len(),
        forall|k: int|
            0 <= k < text.len() ==> is_plain(#[trigger] text[k]) && 32 <= text[k] <= 126
                && !pick_font(fonts, shown_font(), 0).mapping.contains_key(text[k] as u32),
    ensures
        spec_runs(
            before + one_string_content(text),
            xref,
            fonts,
            before.len() as int,
            seq![first_reader()],
            page_of(first_text(), Seq::empty()),
        ) == Some(
            seq![
                (TextModel {
                    pos_y: (720 * UNIT) as i64,
                    scaled_font_size: (18 * UNIT) as i64,
                    chars: Seq::new(text.len(), |k: int| text[k] as char),
                    avg_font_size: (18 * UNIT) as i64,
                    font: Seq::empty(),
                }),
            ],
        ),
{
    let codes = codes_of(text, 0, text.len() as int);
    let map = pick_font(fonts, shown_font(), 0).mapping;
    assert forall|i: int| 0 <= i < codes.len() implies 32 <= #[trigger] codes[i] <= 126
        && !map.contains_key(codes[i]) by {
        assert(is_plain(text[i]));
    }
    lemma_plain_glyphs(map, codes);
    assert(chars_of_codes(codes) =~= Seq::new(text.len(), |k: int| text[k] as char));
    lemma_one_string_page(before, text, xref, fonts);
}

/// Where the streams that a page names under `Contents` hold such a content
/// between them, the page has that one run.
pub proof fn lemma_one_string_in_streams(
    store: Store,
    ids: Seq<usize>,
    fonts: Seq<FontModel>,
    text: Seq<u8>,
)
    requires
        spec_gather(store, ids, 0, Seq::empty()).content == Some(one_string_content(text)),
        spec_gather(store, ids, 0, Seq::empty()).store.data.len() + text.len() + 31
            <= usize::MAX,
        0 < text.len(),
        forall|k: int|
            0 <= k < text.len() ==> is_plain(#[trigger] text[k]) && 32 <= text[k] <= 126
                && !pick_font(fonts, shown_font(), 0).mapping.contains_key(text[k] as u32),
    ensures
        spec_objects_text(store, ids, fonts).runs == Some(
            seq![
                (TextModel {
                    pos_y: (720 * UNIT) as i64,
                    scaled_font_size: (18 * UNIT) as i64,
                    chars: Seq::new(text.len(), |k: int| text[k] as char),
                    avg_font_size: (18 * UNIT) as i64,
                    font: Seq::empty(),
                }),
            ],
        ),
{
    let gathered = spec_gather(store, ids, 0, Seq::empty());
    lemma_content_length(text);
    lemma_one_plain_string_page(gathered.store.data, text, gathered.store.xref, fonts);
}

/// The content is 31 bytes longer than its string.
proof fn lemma_content_length(text: Seq<u8>)
    ensures
        one_string_content(text).len() == text.len() + 31,
{
}

/// A page whose streams hold such a content between them reads as that one
/// run: what `Document::get_text_from_page` then gives for the page.
pub proof fn lemma_one_string_on_page(store: Store, root: usize, page_nr: usize, text: Seq<u8>)
    requires
        spec_page(store, root, page_nr).object is Some,
        dict_value(spec_page(store, root, page_nr).object->0, "Contents"@) is Some,
        indices_of(
            dict_value(spec_page(store, root, page_nr).object->0, "Contents"@)->0,
        ) is Some,
        ({
            let page = spec_page(store, root, page_nr);
            let found = spec_page_resources(page.store, page.object->0);
            let ids = indices_of(dict_value(page.object->0, "Contents"@)->0)->0;
            let gathered = spec_gather(found.store, ids, 0, Seq::empty());
            &&& gathered.content == Some(one_string_content(text))
            &&& gathered.store.data.len() + text.len() + 31 <= usize::MAX
            &&& forall|k: int|
                0 <= k < text.len() ==> is_plain(#[trigger] text[k]) && 32 <= text[k] <= 126
                    && !pick_font(found.fonts, shown_font(), 0).mapping.contains_key(
                    text[k] as u32,
                )
        }),
        0 < text.len(),
    ensures
        spec_text_from_page(store, root, page_nr).runs == Some(
            seq![
                (TextModel {
                    pos_y: (720 * UNIT) as i64,
                    scaled_font_size: (18 * UNIT) as i64,
                    chars: Seq::new(text.len(), |k: int| text[k] as char),
                    avg_font_size: (18 * UNIT) as i64,
                    font: Seq::empty(),
                }),
            ],
        ),
{
    let page = spec_page(store, root, page_nr);
    let found = spec_page_resources(page.store, page.object->0);
    let ids = indices_of(dict_value(page.object->0, "Contents"@)->0)->0;
    lemma_one_string_in_streams(found.store, ids, found.fonts, text);
}

/// The runs of a content that is one text section: what the section has
/// built, with the last run closed.
proof fn lemma_runs_of_one_section(
    d: Seq<u8>,
    o: int,
    n: int,
    xref: Seq<ObjectRef>,
    fonts: Seq<FontModel>,
    shown: Layout,
)
    requires
        holds_content(d, o, n),
        spec_section(
            d,
            xref,
            fonts,
            o + 2,
            Seq::empty(),
            Layout {
                tr: section_start(first_reader()),
                page: page_of(first_text(), Seq::empty()),
            },
        ) == Some(SectionStep { pos: o + n + 31, layout: shown }),
    ensures
        spec_runs(
            d,
            xref,
            fonts,
            o,
            seq![first_reader()],
            page_of(first_text(), Seq::empty()),
        ) == Some(spec_flush(shown.page, 0, 0).runs),
{
    lemma_page_starts(d, o, n);
    let readers = seq![first_reader()];
    let step = spec_page_content(d, o, Seq::empty(), readers);
    assert(step.readers.len() == 1);
    assert(step.readers.last() == first_reader());
    let after = step.readers.update(step.readers.len() - 1, shown.tr);
    assert(spec_runs(d, xref, fonts, o + n + 31, after, shown.page) == Some(
        spec_flush(shown.page, 0, 0).runs,
    ));
}

/// The content starts with `BT`.
proof fn lemma_page_starts(d: Seq<u8>, o: int, n: int)
    requires
        holds_content(d, o, n),
    ensures
        spec_page_content(d, o, Seq::empty(), seq![first_reader()]).pos == o + 2,
        spec_page_content(d, o, Seq::empty(), seq![first_reader()]).readers == seq![
            first_reader(),
        ],
{
    lemma_bytes_before(d, o);
    assert(d.subrange(o, o + 2) =~= tag_bt());
    assert(has_tag(d, o, tag_bt()));
}

/// The bytes of `before_string`, one by one.
proof fn lemma_bytes_before(d: Seq<u8>, o: int)
    requires
        forall|k: int| 0 <= k < 24 ==> #[trigger] d[o + k] == before_string()[k],
    ensures
        d[o] == 66 && d[o + 1] == 84 && d[o + 2] == 32 && d[o + 3] == 47 && d[o + 4] == 70 && d[o
            + 5] == 49 && d[o + 6] == 32 && d[o + 7] == 49 && d[o + 8] == 56 && d[o + 9] == 32,
        d[o + 10] == 84 && d[o + 11] == 102 && d[o + 12] == 32 && d[o + 13] == 55 && d[o + 14]
            == 50 && d[o + 15] == 32 && d[o + 16] == 55 && d[o + 17] == 50 && d[o + 18] == 48,
        d[o + 19] == 32 && d[o + 20] == 84 && d[o + 21] == 100 && d[o + 22] == 32 && d[o + 23]
            == 40,
{
    assert(d[o + 0] == before_string()[0]);
    assert(d[o + 1] == before_string()[1]);
    assert(d[o + 2] == before_string()[2]);
    assert(d[o + 3] == before_string()[3]);
    assert(d[o + 4] == before_string()[4]);
    assert(d[o + 5] == before_string()[5]);
    assert(d[o + 6] == before_string()[6]);
    assert(d[o + 7] == before_string()[7]);
    assert(d[o + 8] == before_string()[8]);
    assert(d[o + 9] == before_string()[9]);
    assert(d[o + 10] == before_string()[10]);
    assert(d[o + 11] == before_string()[11]);
    assert(d[o + 12] == before_string()[12]);
    assert(d[o + 13] == before_string()[13]);
    assert(d[o + 14] == before_string()[14]);
    assert(d[o + 15] == before_string()[15]);
    assert(d[o + 16] == before_string()[16]);
    assert(d[o + 17] == before_string()[17]);
    assert(d[o + 18] == before_string()[18]);
    assert(d[o + 19] == before_string()[19]);
    assert(d[o + 20] == before_string()[20]);
    assert(d[o + 21] == before_string()[21]);
    assert(d[o + 22] == before_string()[22]);
    assert(d[o + 23] == before_string()[23]);
}

/// The bytes of `after_string`, one by one.
proof fn lemma_bytes_after(d: Seq<u8>, e: int)
    requires
        forall|k: int| 0 <= k < 7 ==> #[trigger] d[e + k] == after_string()[k],
    ensures
        d[e] == 41 && d[e + 1] == 32 && d[e + 2] == 84 && d[e + 3] == 106 && d[e + 4] == 32 && d[e
            + 5] == 69 && d[e + 6] == 84,
{
    assert(d[e + 0] == after_string()[0]);
    assert(d[e + 1] == after_string()[1]);
    assert(d[e + 2] == after_string()[2]);
    assert(d[e + 3] == after_string()[3]);
    assert(d[e + 4] == after_string()[4]);
    assert(d[e + 5] == after_string()[5]);
    assert(d[e + 6] == after_string()[6]);
}

} // verus!
