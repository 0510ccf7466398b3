//! Runs of text: the state that text operators change, the glyphs of strings,
//! and where one run ends and the next begins.

use crate::cmap::{glyphs_of, GlyphMap};
use crate::decoding::{char_from_u32, is_scalar, pdfdoc_char_text, string_from_chars};
use crate::encoding::pdfdoc_lookup;
use crate::fixed::{
    clamp, clamp_wide, fixed_diff, fixed_magnitude, fixed_negated, fixed_of, fixed_product,
    fixed_sum, magnitude, minus, negated, plus, times, trunc_div, UNIT,
};
use crate::fonts::{fonts_of, FontModel};
use crate::pdf_object::{lemma_value_of_array, values_of, PdfValue, PdfVar};
use vstd::prelude::*;

pub use crate::cmap::{read_fchar, read_frange, read_hex_chars};
pub use crate::content::{
    graph_cm, parse_page_content, read_objects_text, read_text,
};
pub use crate::fonts::{get_page_resources, read_encoding, read_to_unicode, Font};

verus! {

broadcast use vstd::std_specs::hash::group_hash_axioms;

/// A run of text of a page. Positions and sizes are in millionths of a unit
/// of the page.
#[derive(Debug, PartialEq)]
pub struct Text {
    /// Where the run's last line stands on the page.
    pub pos_y: i64,
    /// The font size, with the scale of the text and of the page in it, of
    /// what was last added.
    pub scaled_font_size: i64,
    pub chars: String,
    /// The mean of the font sizes of the run's characters.
    pub avg_font_size: i64,
    /// The name of the font that is selected. Runs that are handed out have
    /// none.
    pub font: String,
}

/// A run that is being built.
#[derive(Debug)]
pub struct TextRun {
    pub pos_y: i64,
    pub scaled_font_size: i64,
    pub chars: Vec<char>,
    pub avg_font_size: i64,
    pub font: String,
}

/// The mathematical value of a run.
pub struct TextModel {
    pub pos_y: i64,
    pub scaled_font_size: i64,
    pub chars: Seq<char>,
    pub avg_font_size: i64,
    pub font: Seq<char>,
}

impl View for Text {
    type V = TextModel;

    open spec fn view(&self) -> TextModel {
        TextModel {
            pos_y: self.pos_y,
            scaled_font_size: self.scaled_font_size,
            chars: self.chars@,
            avg_font_size: self.avg_font_size,
            font: self.font@,
        }
    }
}

impl View for TextRun {
    type V = TextModel;

    open spec fn view(&self) -> TextModel {
        TextModel {
            pos_y: self.pos_y,
            scaled_font_size: self.scaled_font_size,
            chars: self.chars@,
            avg_font_size: self.avg_font_size,
            font: self.font@,
        }
    }
}

/// The values of a sequence of runs.
pub open spec fn texts_of(texts: Seq<Text>) -> Seq<TextModel> {
    Seq::new(texts.len(), |i: int| texts[i]@)
}

/// The state of the text and of the page's graphics that the reading of a
/// content stream keeps, in millionths.
#[derive(Debug, Clone, Copy)]
pub struct TextReader {
    pub y_pos: i64,
    pub scale: i64,
    pub graph_scale: i64,
    pub graph_y: i64,
    pub font_size: i64,
    pub scaled_font_size: i64,
    pub leading: i64,
}

/// The runs of a page while they are built: the run that is being built
/// and the runs that are closed.
pub struct Page {
    pub text: TextModel,
    pub runs: Seq<TextModel>,
}

/// What reading text has built: the state and the runs.
pub struct Layout {
    pub tr: TextReader,
    pub page: Page,
}

/// The product of three numbers in millionths.
pub open spec fn product3(a: i64, b: i64, c: i64) -> i64 {
    fixed_product(fixed_product(a, b), c)
}

/// The state with its scaled font size brought up to date: the font size
/// times the scale of the text times the scale of the page.
pub open spec fn rescaled(tr: TextReader) -> TextReader {
    TextReader { scaled_font_size: product3(tr.font_size, tr.scale, tr.graph_scale), ..tr }
}

/// Characters with a space at their end, unless one stands there already.
pub open spec fn spaced(chars: Seq<char>) -> Seq<char> {
    if chars.len() > 0 && chars.last() == ' ' {
        chars
    } else {
        chars.push(' ')
    }
}

/// The characters of the code points that are Unicode scalar values.
pub open spec fn scalar_chars(codes: Seq<u32>) -> Seq<char>
    decreases codes.len(),
{
    if codes.len() == 0 {
        Seq::empty()
    } else {
        let head = scalar_chars(codes.drop_last());
        if is_scalar(codes.last()) {
            head.push(codes.last() as char)
        } else {
            head
        }
    }
}

/// The text of glyph codes under a font's table: a code that the table
/// knows gives the characters of its code points; any other code gives its
/// character in PDFDocEncoding, if it has one; code 0 gives nothing.
pub open spec fn glyph_text(map: GlyphMap, codes: Seq<u32>) -> Seq<char>
    decreases codes.len(),
{
    if codes.len() == 0 {
        Seq::empty()
    } else {
        let head = glyph_text(map, codes.drop_last());
        let key = codes.last();
        if key == 0 {
            head
        } else if map.contains_key(key) {
            head + scalar_chars(map[key])
        } else {
            head + pdfdoc_char_text(key)
        }
    }
}

/// A glyph to which the font's table gives two code points adds the
/// characters of both.
pub proof fn lemma_glyph_of_two_code_points(
    map: GlyphMap,
    before: Seq<u32>,
    code: u32,
    first: u32,
    second: u32,
)
    requires
        code != 0,
        map.contains_key(code),
        map[code] == seq![first, second],
        is_scalar(first),
        is_scalar(second),
    ensures
        glyph_text(map, before.push(code)) == glyph_text(map, before).push(first as char).push(
            second as char,
        ),
{
    let pair = seq![first, second];
    assert(before.push(code).drop_last() =~= before);
    assert(pair.drop_last() =~= seq![first]);
    assert(seq![first].drop_last() =~= Seq::<u32>::empty());
    assert(scalar_chars(Seq::<u32>::empty()) =~= Seq::<char>::empty());
    assert(seq![first].last() == first);
    assert(scalar_chars(seq![first]) =~= seq![first as char]);
    assert(pair.last() == second);
    assert(scalar_chars(pair) =~= seq![first as char, second as char]);
    assert(glyph_text(map, before) + seq![first as char, second as char] =~= glyph_text(
        map,
        before,
    ).push(first as char).push(second as char));
}

/// A glyph to which the font's table gives one code point adds its
/// character.
pub proof fn lemma_glyph_of_one_code_point(map: GlyphMap, before: Seq<u32>, code: u32, point: u32)
    requires
        code != 0,
        map.contains_key(code),
        map[code] == seq![point],
        is_scalar(point),
    ensures
        glyph_text(map, before.push(code)) == glyph_text(map, before).push(point as char),
{
    assert(before.push(code).drop_last() =~= before);
    assert(seq![point].drop_last() =~= Seq::<u32>::empty());
    assert(scalar_chars(Seq::<u32>::empty()) =~= Seq::<char>::empty());
    assert(seq![point].last() == point);
    assert(scalar_chars(seq![point]) =~= seq![point as char]);
    assert(glyph_text(map, before) + seq![point as char] =~= glyph_text(map, before).push(
        point as char,
    ));
}

/// A ligature reads as its letters: under a table that gives one code
/// point to a first glyph, another to a second, and both to a third, the
/// three glyphs in a row read as the two characters twice.
pub proof fn lemma_ligature_reads_as_its_letters(
    map: GlyphMap,
    one: u32,
    other: u32,
    both: u32,
    first: u32,
    second: u32,
)
    requires
        one != 0 && other != 0 && both != 0,
        is_scalar(first) && is_scalar(second),
        map.contains_key(one) && map[one] == seq![first],
        map.contains_key(other) && map[other] == seq![second],
        map.contains_key(both) && map[both] == seq![first, second],
    ensures
        glyph_text(map, seq![one, other, both]) == seq![
            first as char,
            second as char,
            first as char,
            second as char,
        ],
{
    let none = Seq::<u32>::empty();
    assert(glyph_text(map, none) =~= Seq::<char>::empty());
    lemma_glyph_of_one_code_point(map, none, one, first);
    lemma_glyph_of_one_code_point(map, none.push(one), other, second);
    lemma_glyph_of_two_code_points(map, none.push(one).push(other), both, first, second);
    assert(none.push(one).push(other).push(both) =~= seq![one, other, both]);
    assert(glyph_text(map, seq![one, other, both]) =~= seq![
        first as char,
        second as char,
        first as char,
        second as char,
    ]);
}

/// The font with the given name: the first of that name, or the first font
/// of all where none has it.
pub open spec fn pick_font(fonts: Seq<FontModel>, name: Seq<char>, i: int) -> FontModel
    decreases fonts.len() - i,
{
    if i < 0 || i >= fonts.len() {
        fonts[0]
    } else if fonts[i].name == name {
        fonts[i]
    } else {
        pick_font(fonts, name, i + 1)
    }
}

/// The mean font size of a run that had `pre` characters of mean size `avg`
/// and now has `post`, the new ones of size `size`.
pub open spec fn weighted_avg(pre: nat, avg: i64, post: nat, size: i64) -> i64 {
    clamp(trunc_div(pre * avg + (post - pre) * size, post as int))
}

/// The run after the glyphs of a string have been added to it.
pub open spec fn spec_add_str_lit(
    text: TextModel,
    size: i64,
    codes: Seq<u32>,
    fonts: Seq<FontModel>,
) -> TextModel {
    let chars = text.chars + glyph_text(pick_font(fonts, text.font, 0).mapping, codes);
    TextModel {
        chars,
        avg_font_size: if 0 < chars.len() {
            weighted_avg(text.chars.len(), text.avg_font_size, chars.len(), size)
        } else {
            text.avg_font_size
        },
        ..text
    }
}

/// Closing the run that is being built, if it holds anything, and starting
/// a new one at `y_pos` with the given size.
pub open spec fn spec_flush(page: Page, y_pos: i64, size: i64) -> Page {
    Page {
        runs: if page.text.chars.len() > 0 {
            page.runs.push(TextModel { font: Seq::empty(), ..page.text })
        } else {
            page.runs
        },
        text: TextModel {
            chars: Seq::empty(),
            pos_y: y_pos,
            scaled_font_size: size,
            avg_font_size: 0,
            ..page.text
        },
    }
}

/// Deciding, before glyphs are added at `y_pos` with the given size, whether
/// they belong to the run that is being built. A jump of more than twice
/// the run's size starts a new run. A jump of more than 0.7 of the new size
/// is a new line: with a size that differs by more than 0.2 it starts a new
/// run, otherwise a space is added to the run, which goes on at `y_pos`.
/// The run then has the new size.
pub open spec fn spec_eval(page: Page, y_pos: i64, size: i64) -> Page {
    let diff = fixed_magnitude(fixed_diff(page.text.pos_y, y_pos));
    let moved = if diff > clamp(2 * page.text.scaled_font_size) {
        spec_flush(page, y_pos, size)
    } else if diff > fixed_product(700000, size) {
        if fixed_magnitude(fixed_diff(page.text.scaled_font_size, size)) > 200000 {
            spec_flush(page, y_pos, size)
        } else {
            Page {
                text: TextModel { chars: page.text.chars.push(' '), pos_y: y_pos, ..page.text },
                ..page
            }
        }
    } else {
        page
    };
    Page { text: TextModel { scaled_font_size: size, ..moved.text }, ..moved }
}

/// `Tf`: selects the font and sets the font size.
pub open spec fn spec_tf(tr: TextReader, text: TextModel, stack: Seq<PdfValue>) -> Option<
    (TextReader, TextModel),
> {
    if stack.len() < 2 {
        None
    } else {
        match (stack[0], fixed_of(stack[1])) {
            (PdfValue::Name(name), Some(size)) => Some(
                (rescaled(TextReader { font_size: size, ..tr }), TextModel { font: name, ..text }),
            ),
            _ => None,
        }
    }
}

/// `Tm`: sets the scale of the text from the fourth operand and the
/// position from the sixth; a fifth operand above zero breaks the word.
pub open spec fn spec_tm(tr: TextReader, text: TextModel, stack: Seq<PdfValue>) -> Option<
    (TextReader, TextModel),
> {
    if stack.len() < 6 {
        None
    } else {
        match (fixed_of(stack[3]), fixed_of(stack[4]), fixed_of(stack[5])) {
            (Some(scale), Some(tx), Some(ty)) => Some(
                (
                    rescaled(TextReader { scale, y_pos: ty, ..tr }),
                    if tx > 0 {
                        TextModel { chars: spaced(text.chars), ..text }
                    } else {
                        text
                    },
                ),
            ),
            _ => None,
        }
    }
}

/// `Td`: moves the position by the second operand, scaled; a first operand
/// that, scaled by the page, is above 160 breaks the word.
pub open spec fn spec_td(tr: TextReader, text: TextModel, stack: Seq<PdfValue>) -> Option<
    (TextReader, TextModel),
> {
    if stack.len() < 2 {
        None
    } else {
        match (fixed_of(stack[0]), fixed_of(stack[1])) {
            (Some(tx), Some(ty)) => Some(
                (
                    TextReader {
                        y_pos: fixed_sum(tr.y_pos, product3(ty, tr.scale, tr.graph_scale)),
                        ..tr
                    },
                    if fixed_product(tx, tr.graph_scale) > 160 * UNIT {
                        TextModel { chars: spaced(text.chars), ..text }
                    } else {
                        text
                    },
                ),
            ),
            _ => None,
        }
    }
}

/// `TL`, or the leading that `TD` sets: the first operand, or the second
/// with its sign turned.
pub open spec fn spec_tl(tr: TextReader, inverse: bool, stack: Seq<PdfValue>) -> Option<
    TextReader,
> {
    let index = if inverse {
        1int
    } else {
        0int
    };
    if stack.len() <= index {
        None
    } else {
        match fixed_of(stack[index]) {
            Some(lf) => Some(
                TextReader {
                    leading: if inverse {
                        fixed_negated(lf)
                    } else {
                        lf
                    },
                    ..tr
                },
            ),
            None => None,
        }
    }
}

/// `T*`: moves the position down by the leading, scaled.
pub open spec fn spec_asterisk(tr: TextReader) -> TextReader {
    TextReader {
        y_pos: fixed_sum(tr.y_pos, product3(fixed_negated(tr.leading), tr.scale, tr.graph_scale)),
        ..tr
    }
}

/// Where the glyphs of the state land on the page.
pub open spec fn page_y(tr: TextReader) -> i64 {
    fixed_sum(tr.y_pos, tr.graph_y)
}

/// `Tj`: adds the glyphs of a string.
pub open spec fn spec_tj(
    tr: TextReader,
    page: Page,
    stack: Seq<PdfValue>,
    fonts: Seq<FontModel>,
) -> Option<Page> {
    if stack.len() < 1 {
        None
    } else {
        match stack[0] {
            PdfValue::StringLiteral(codes) => {
                let placed = spec_eval(page, page_y(tr), tr.scaled_font_size);
                Some(
                    Page {
                        text: spec_add_str_lit(placed.text, tr.scaled_font_size, codes, fonts),
                        ..placed
                    },
                )
            },
            _ => None,
        }
    }
}

/// The run after the items of a `TJ` array from item `i` on: a string adds
/// its glyphs, a number below -165 a space. Any other item fails.
pub open spec fn spec_tj_items(
    text: TextModel,
    size: i64,
    items: Seq<PdfValue>,
    i: int,
    fonts: Seq<FontModel>,
) -> Option<TextModel>
    decreases items.len() - i,
{
    if i < 0 || i >= items.len() {
        Some(text)
    } else {
        match fixed_of(items[i]) {
            Some(num) => spec_tj_items(
                if num < -165 * UNIT {
                    TextModel { chars: spaced(text.chars), ..text }
                } else {
                    text
                },
                size,
                items,
                i + 1,
                fonts,
            ),
            None => match items[i] {
                PdfValue::StringLiteral(codes) => spec_tj_items(
                    spec_add_str_lit(text, size, codes, fonts),
                    size,
                    items,
                    i + 1,
                    fonts,
                ),
                _ => None,
            },
        }
    }
}

/// Whether every item of a `TJ` array is a number or a string.
pub open spec fn tj_items_fit(items: Seq<PdfValue>) -> bool {
    forall|i: int|
        0 <= i < items.len() ==> fixed_of(#[trigger] items[i]) is Some || items[i] is StringLiteral
}

/// The items of a `TJ` array can be added where each is a number or a
/// string, and only then.
pub proof fn lemma_tj_items_fit(
    text: TextModel,
    size: i64,
    items: Seq<PdfValue>,
    i: int,
    fonts: Seq<FontModel>,
)
    requires
        0 <= i,
    ensures
        spec_tj_items(text, size, items, i, fonts) is Some <==> forall|k: int|
            i <= k < items.len() ==> fixed_of(#[trigger] items[k]) is Some
                || items[k] is StringLiteral,
    decreases items.len() - i,
{
    if i < items.len() {
        match fixed_of(items[i]) {
            Some(num) => {
                lemma_tj_items_fit(
                    if num < -165 * UNIT {
                        TextModel { chars: spaced(text.chars), ..text }
                    } else {
                        text
                    },
                    size,
                    items,
                    i + 1,
                    fonts,
                );
            },
            None => match items[i] {
                PdfValue::StringLiteral(codes) => {
                    lemma_tj_items_fit(
                        spec_add_str_lit(text, size, codes, fonts),
                        size,
                        items,
                        i + 1,
                        fonts,
                    );
                },
                _ => {
                    assert(!(fixed_of(items[i]) is Some || items[i] is StringLiteral));
                },
            },
        }
    }
}

/// `TJ`: adds the glyphs of the strings of an array.
pub open spec fn spec_tj_array(
    tr: TextReader,
    page: Page,
    stack: Seq<PdfValue>,
    fonts: Seq<FontModel>,
) -> Option<Page> {
    if stack.len() < 1 {
        None
    } else {
        match stack[0] {
            PdfValue::Array(items) => {
                let placed = spec_eval(page, page_y(tr), tr.scaled_font_size);
                match spec_tj_items(placed.text, tr.scaled_font_size, items, 0, fonts) {
                    Some(text) => Some(Page { text, ..placed }),
                    None => None,
                }
            },
            _ => None,
        }
    }
}

/// The page that a run and closed runs make.
pub open spec fn page_of(text: TextModel, runs: Seq<TextModel>) -> Page {
    Page { text, runs }
}

impl TextRun {
    /// Adds a space, unless the run ends with one.
    pub fn add_space(&mut self)
        ensures
            final(self)@ == (TextModel { chars: spaced(old(self).chars@), ..old(self)@ }),
    {
        let n: usize = self.chars.len();
        if n > 0 && self.chars[n - 1] == ' ' {
            return ;
        }
        self.chars.push(' ');
    }
}

/// Brings the scaled font size of the state up to date.
pub fn rescale(tr: &mut TextReader)
    ensures
        *final(tr) == rescaled(*old(tr)),
{
    tr.scaled_font_size = times(times(tr.font_size, tr.scale), tr.graph_scale);
}

/// Closes the run that is being built, if it holds anything, and starts a
/// new one.
pub fn add_text_section(
    text: &mut TextRun,
    text_objects: &mut Vec<Text>,
    y_pos: i64,
    scaled_font_size: i64,
)
    ensures
        page_of(final(text)@, texts_of(final(text_objects)@)) == spec_flush(
            page_of(old(text)@, texts_of(old(text_objects)@)),
            y_pos,
            scaled_font_size,
        ),
{
    if text.chars.len() > 0 {
        let copy = Text {
            pos_y: text.pos_y,
            scaled_font_size: text.scaled_font_size,
            chars: string_from_chars(&text.chars),
            avg_font_size: text.avg_font_size,
            font: String::new(),
        };
        proof {
            assert(texts_of(text_objects@.push(copy)) =~= texts_of(text_objects@).push(copy@));
        }
        text_objects.push(copy);
        text.chars = Vec::new();
    }
    text.pos_y = y_pos;
    text.scaled_font_size = scaled_font_size;
    text.avg_font_size = 0;
    proof {
        assert(final(text).chars@ =~= Seq::<char>::empty());
    }
}

/// Decides whether glyphs at `y_pos` with the given size go on with the run
/// that is being built, and closes the run where they do not.
pub fn eval_text_section(
    text: &mut TextRun,
    text_objects: &mut Vec<Text>,
    y_pos: i64,
    scaled_font_size: i64,
)
    ensures
        page_of(final(text)@, texts_of(final(text_objects)@)) == spec_eval(
            page_of(old(text)@, texts_of(old(text_objects)@)),
            y_pos,
            scaled_font_size,
        ),
{
    let diff: i64 = magnitude(minus(text.pos_y, y_pos));
    if diff > clamp_wide(2 * (text.scaled_font_size as i128)) {
        add_text_section(text, text_objects, y_pos, scaled_font_size);
    } else if diff > times(700000, scaled_font_size) {
        if magnitude(minus(text.scaled_font_size, scaled_font_size)) > 200000 {
            add_text_section(text, text_objects, y_pos, scaled_font_size);
        } else {
            text.chars.push(' ');
            text.pos_y = y_pos;
        }
    }
    text.scaled_font_size = scaled_font_size;
}

/// Finds the font with the given name.
fn find_font<'a>(fonts: &'a Vec<Font>, name: &String) -> (r: &'a Font)
    requires
        fonts.len() >= 1,
    ensures
        r@ == pick_font(fonts_of(fonts@), name@, 0),
{
    let mut i: usize = 0;
    while i < fonts.len()
        invariant
            i <= fonts.len(),
            fonts.len() >= 1,
            pick_font(fonts_of(fonts@), name@, i as int) == pick_font(fonts_of(fonts@), name@, 0),
        decreases fonts.len() - i,
    {
        if fonts[i].name == *name {
            return &fonts[i];
        }
        i += 1;
    }
    &fonts[0]
}

/// Adds the characters of the code points that are scalar values.
fn push_scalars(chars: &mut Vec<char>, codes: &Vec<u32>)
    ensures
        final(chars)@ == old(chars)@ + scalar_chars(codes@),
{
    let mut i: usize = 0;
    proof {
        assert(chars@ =~= old(chars)@ + scalar_chars(codes@.take(0)));
    }
    while i < codes.len()
        invariant
            i <= codes.len(),
            chars@ == old(chars)@ + scalar_chars(codes@.take(i as int)),
        decreases codes.len() - i,
    {
        proof {
            assert(codes@.take(i + 1).drop_last() =~= codes@.take(i as int));
        }
        match char_from_u32(codes[i]) {
            Some(uc) => {
                chars.push(uc);
                proof {
                    assert(chars@ =~= old(chars)@ + scalar_chars(codes@.take(i + 1)));
                }
            },
            None => {},
        }
        i += 1;
    }
    proof {
        assert(codes@.take(codes.len() as int) =~= codes@);
    }
}

/// The mean font size of a run that grew.
fn mean_size(pre: usize, avg: i64, post: usize, size: i64) -> (r: i64)
    requires
        pre <= post,
        0 < post,
    ensures
        r == weighted_avg(pre as nat, avg, post as nat, size),
{
    let a: i128 = pre as i128;
    let b: i128 = (post - pre) as i128;
    assert(-(a * 0x8000_0000_0000_0000) <= a * avg <= a * 0x8000_0000_0000_0000)
        by (nonlinear_arith)
        requires
            0 <= a,
            -0x8000_0000_0000_0000 <= avg <= 0x8000_0000_0000_0000,
    ;
    assert(-(b * 0x8000_0000_0000_0000) <= b * size <= b * 0x8000_0000_0000_0000)
        by (nonlinear_arith)
        requires
            0 <= b,
            -0x8000_0000_0000_0000 <= size <= 0x8000_0000_0000_0000,
    ;
    assert(a + b == post);
    assert(post <= 0xFFFF_FFFF_FFFF_FFFF);
    let sum: i128 = a * (avg as i128) + b * (size as i128);
    let divisor: u128 = post as u128;
    if sum >= 0 {
        let q: u128 = (sum as u128) / divisor;
        clamp_wide(q as i128)
    } else {
        let q: u128 = ((-sum) as u128) / divisor;
        clamp_wide(-(q as i128))
    }
}

/// Adds the glyphs of a string to the run, through the table of the run's
/// font, and brings the run's mean font size up to date.
pub fn add_str_lit(text: &mut TextRun, tr: &TextReader, string_lit: &Vec<u32>, fonts: &Vec<Font>)
    requires
        fonts.len() >= 1,
    ensures
        final(text)@ == spec_add_str_lit(
            old(text)@,
            tr.scaled_font_size,
            string_lit@,
            fonts_of(fonts@),
        ),
{
    let font: &Font = find_font(fonts, &text.font);
    let pre_size: usize = text.chars.len();
    let ghost map = glyphs_of(font.mapping@);
    let ghost before = text.chars@;
    let mut i: usize = 0;
    proof {
        assert(text.chars@ =~= before + glyph_text(map, string_lit@.take(0)));
    }
    while i < string_lit.len()
        invariant
            i <= string_lit.len(),
            map == glyphs_of(font.mapping@),
            text.chars@ == before + glyph_text(map, string_lit@.take(i as int)),
            text.pos_y == old(text).pos_y,
            text.scaled_font_size == old(text).scaled_font_size,
            text.avg_font_size == old(text).avg_font_size,
            text.font == old(text).font,
        decreases string_lit.len() - i,
    {
        proof {
            assert(string_lit@.take(i + 1).drop_last() =~= string_lit@.take(i as int));
        }
        let key: u32 = string_lit[i];
        if key != 0 {
            match font.mapping.get(&key) {
                Some(x_vec) => {
                    push_scalars(&mut text.chars, x_vec);
                    proof {
                        assert(text.chars@ =~= before + glyph_text(map, string_lit@.take(i + 1)));
                    }
                },
                None => {
                    match pdfdoc_lookup(key) {
                        Some(c) => {
                            text.chars.push(c);
                            proof {
                                assert(text.chars@ =~= before + glyph_text(
                                    map,
                                    string_lit@.take(i + 1),
                                ));
                            }
                        },
                        None => {
                            proof {
                                assert(text.chars@ =~= before + glyph_text(
                                    map,
                                    string_lit@.take(i + 1),
                                ));
                            }
                        },
                    }
                },
            }
        }
        i += 1;
    }
    proof {
        assert(string_lit@.take(string_lit.len() as int) =~= string_lit@);
    }
    let post_size: usize = text.chars.len();
    if post_size > 0 {
        text.avg_font_size = mean_size(pre_size, text.avg_font_size, post_size, tr.scaled_font_size);
    }
}

/// `Tf`
pub fn text_tf(tr: &mut TextReader, text: &mut TextRun, stack: &Vec<PdfVar>) -> (r: Option<()>)
    ensures
        match spec_tf(*old(tr), old(text)@, values_of(stack@)) {
            Some(l) => r is Some && (*final(tr), final(text)@) == l,
            None => r is None && *final(tr) == *old(tr) && final(text)@ == old(text)@,
        },
{
    if stack.len() < 2 {
        return None;
    }
    proof {
        assert(values_of(stack@)[0] == stack@[0]@);
        assert(values_of(stack@)[1] == stack@[1]@);
    }
    let font_name: String = match stack[0].get_name() {
        Some(x) => x,
        None => {
            return None;
        },
    };
    let font_size_tmp: i64 = match stack[1].get_fixed() {
        Some(x) => x,
        None => {
            return None;
        },
    };
    text.font = font_name;
    tr.font_size = font_size_tmp;
    rescale(tr);
    Some(())
}

/// `Tm`
pub fn text_tm(tr: &mut TextReader, text: &mut TextRun, stack: &Vec<PdfVar>) -> (r: Option<()>)
    ensures
        match spec_tm(*old(tr), old(text)@, values_of(stack@)) {
            Some(l) => r is Some && (*final(tr), final(text)@) == l,
            None => r is None && *final(tr) == *old(tr) && final(text)@ == old(text)@,
        },
{
    if stack.len() < 6 {
        return None;
    }
    proof {
        assert(values_of(stack@)[3] == stack@[3]@);
        assert(values_of(stack@)[4] == stack@[4]@);
        assert(values_of(stack@)[5] == stack@[5]@);
    }
    let new_scale: i64 = match stack[3].get_fixed() {
        Some(x) => x,
        None => {
            return None;
        },
    };
    let tx: i64 = match stack[4].get_fixed() {
        Some(x) => x,
        None => {
            return None;
        },
    };
    let ty: i64 = match stack[5].get_fixed() {
        Some(x) => x,
        None => {
            return None;
        },
    };
    if tx > 0 {
        text.add_space();
    }
    tr.scale = new_scale;
    tr.y_pos = ty;
    rescale(tr);
    Some(())
}

/// `Td`
pub fn text_td(tr: &mut TextReader, text: &mut TextRun, stack: &Vec<PdfVar>) -> (r: Option<()>)
    ensures
        match spec_td(*old(tr), old(text)@, values_of(stack@)) {
            Some(l) => r is Some && (*final(tr), final(text)@) == l,
            None => r is None && *final(tr) == *old(tr) && final(text)@ == old(text)@,
        },
{
    if stack.len() < 2 {
        return None;
    }
    proof {
        assert(values_of(stack@)[0] == stack@[0]@);
        assert(values_of(stack@)[1] == stack@[1]@);
    }
    let tx: i64 = match stack[0].get_fixed() {
        Some(x) => x,
        None => {
            return None;
        },
    };
    let ty: i64 = match stack[1].get_fixed() {
        Some(x) => x,
        None => {
            return None;
        },
    };
    if times(tx, tr.graph_scale) > 160 * UNIT {
        text.add_space();
    }
    tr.y_pos = plus(tr.y_pos, times(times(ty, tr.scale), tr.graph_scale));
    Some(())
}

/// `TL`, and the leading of `TD`
pub fn text_tl(tr: &mut TextReader, inverse: bool, stack: &Vec<PdfVar>) -> (r: Option<()>)
    ensures
        match spec_tl(*old(tr), inverse, values_of(stack@)) {
            Some(l) => r is Some && *final(tr) == l,
            None => r is None && *final(tr) == *old(tr),
        },
{
    let index: usize = if inverse {
        1
    } else {
        0
    };
    if stack.len() <= index {
        return None;
    }
    proof {
        assert(values_of(stack@)[index as int] == stack@[index as int]@);
    }
    let lf: i64 = match stack[index].get_fixed() {
        Some(x) => x,
        None => {
            return None;
        },
    };
    tr.leading = if inverse {
        negated(lf)
    } else {
        lf
    };
    Some(())
}

/// `T*`
pub fn text_asterisk(tr: &mut TextReader)
    ensures
        *final(tr) == spec_asterisk(*old(tr)),
{
    tr.y_pos = plus(tr.y_pos, times(times(negated(tr.leading), tr.scale), tr.graph_scale));
}

/// `Tj`
pub fn text_tj(
    tr: &TextReader,
    text: &mut TextRun,
    text_objects: &mut Vec<Text>,
    fonts: &Vec<Font>,
    stack: &Vec<PdfVar>,
) -> (r: Option<()>)
    requires
        fonts.len() >= 1,
    ensures
        match spec_tj(
            *tr,
            page_of(old(text)@, texts_of(old(text_objects)@)),
            values_of(stack@),
            fonts_of(fonts@),
        ) {
            Some(l) => r is Some && page_of(final(text)@, texts_of(final(text_objects)@)) == l,
            None => r is None && final(text)@ == old(text)@ && final(text_objects)@ == old(
                text_objects,
            )@,
        },
{
    if stack.len() < 1 {
        return None;
    }
    proof {
        assert(values_of(stack@)[0] == stack@[0]@);
    }
    match &stack[0] {
        PdfVar::StringLiteral(string_lit) => {
            eval_text_section(
                text,
                text_objects,
                plus(tr.y_pos, tr.graph_y),
                tr.scaled_font_size,
            );
            add_str_lit(text, tr, string_lit, fonts);
            Some(())
        },
        _ => None,
    }
}

/// Adds the items of a `TJ` array to the run.
fn add_tj_items(text: &mut TextRun, tr: &TextReader, tj_array: &Vec<PdfVar>, fonts: &Vec<Font>) -> (r:
    Option<()>)
    requires
        fonts.len() >= 1,
    ensures
        match spec_tj_items(
            old(text)@,
            tr.scaled_font_size,
            values_of(tj_array@),
            0,
            fonts_of(fonts@),
        ) {
            Some(t) => r is Some && final(text)@ == t,
            None => r is None,
        },
{
    let mut i: usize = 0;
    while i < tj_array.len()
        invariant
            i <= tj_array.len(),
            fonts.len() >= 1,
            spec_tj_items(
                text@,
                tr.scaled_font_size,
                values_of(tj_array@),
                i as int,
                fonts_of(fonts@),
            ) == spec_tj_items(
                old(text)@,
                tr.scaled_font_size,
                values_of(tj_array@),
                0,
                fonts_of(fonts@),
            ),
        decreases tj_array.len() - i,
    {
        proof {
            assert(values_of(tj_array@)[i as int] == tj_array@[i as int]@);
        }
        match tj_array[i].get_fixed() {
            Some(num) => {
                if num < -165 * UNIT {
                    text.add_space();
                }
            },
            None => {
                match &tj_array[i] {
                    PdfVar::StringLiteral(string_lit) => {
                        add_str_lit(text, tr, string_lit, fonts);
                    },
                    _ => {
                        return None;
                    },
                }
            },
        }
        i += 1;
    }
    Some(())
}

/// Whether every item of a `TJ` array is a number or a string.
fn items_fit(tj_array: &Vec<PdfVar>) -> (r: bool)
    ensures
        r == tj_items_fit(values_of(tj_array@)),
{
    let mut i: usize = 0;
    while i < tj_array.len()
        invariant
            i <= tj_array.len(),
            forall|k: int|
                0 <= k < i ==> fixed_of(#[trigger] values_of(tj_array@)[k]) is Some || values_of(
                    tj_array@,
                )[k] is StringLiteral,
        decreases tj_array.len() - i,
    {
        proof {
            assert(values_of(tj_array@)[i as int] == tj_array@[i as int]@);
        }
        let fits: bool = match &tj_array[i] {
            PdfVar::StringLiteral(_) => true,
            other => other.get_fixed().is_some(),
        };
        if !fits {
            return false;
        }
        i += 1;
    }
    true
}

/// `TJ`. Where the array holds anything but numbers and strings, nothing
/// changes.
pub fn text_tj_array(
    tr: &TextReader,
    text: &mut TextRun,
    text_objects: &mut Vec<Text>,
    fonts: &Vec<Font>,
    stack: &Vec<PdfVar>,
) -> (r: Option<()>)
    requires
        fonts.len() >= 1,
    ensures
        match spec_tj_array(
            *tr,
            page_of(old(text)@, texts_of(old(text_objects)@)),
            values_of(stack@),
            fonts_of(fonts@),
        ) {
            Some(l) => r is Some && page_of(final(text)@, texts_of(final(text_objects)@)) == l,
            None => r is None && final(text)@ == old(text)@ && final(text_objects)@ == old(
                text_objects,
            )@,
        },
{
    if stack.len() < 1 {
        return None;
    }
    proof {
        assert(values_of(stack@)[0] == stack@[0]@);
    }
    match &stack[0] {
        PdfVar::Array(tj_array) => {
            proof {
                lemma_value_of_array(*tj_array);
                let placed = spec_eval(
                    page_of(text@, texts_of(text_objects@)),
                    page_y(*tr),
                    tr.scaled_font_size,
                );
                lemma_tj_items_fit(
                    placed.text,
                    tr.scaled_font_size,
                    values_of(tj_array@),
                    0,
                    fonts_of(fonts@),
                );
            }
            if !items_fit(tj_array) {
                return None;
            }
            eval_text_section(
                text,
                text_objects,
                plus(tr.y_pos, tr.graph_y),
                tr.scaled_font_size,
            );
            add_tj_items(text, tr, tj_array, fonts)
        },
        _ => None,
    }
}

} // verus!
