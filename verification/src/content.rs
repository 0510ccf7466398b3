//! Content streams: what stands outside and inside the text sections of a page,
//! and the runs of text that reading them gives.

use crate::cursor::{delimiter_byte, has_tag, is_delimiter_byte, skip_whitespace, skip_ws};
use crate::decoding::{is_scalar, string_from_chars};
use crate::document::{Document, ObjectRef};
use crate::error::PdfError;
use crate::fixed::{
    fixed_of, fixed_product, fixed_sum, lemma_fixed_of_within, lemma_product_with_unit, plus,
    times, UNIT,
};
use crate::fonts::{fonts_of, get_page_resources, spec_page_resources, Font, FontModel};
use crate::objects::{append_range, spec_get_object, spec_page, store_of, Store, MAX_UNPACK};
use crate::parser::{parse_token, spec_token, MAX_DEPTH};
use crate::pdf_object::{dict_value, indices_of, lemma_value_of_object, values_of, PdfValue, PdfVar};
use crate::reader::only_grew;
use crate::streams::{decoded_stream, spec_decoded_stream};
use crate::tags::{at_bt, at_cm, at_et, tag_bt, tag_cm, tag_et};
use crate::text_parser::{
    add_text_section, glyph_text, lemma_ligature_reads_as_its_letters, page_of, page_y, pick_font,
    rescale, rescaled, spec_asterisk,
    spec_eval, spec_flush, spec_td, spec_tf,
    spec_tj, spec_tj_array, spec_tl, spec_tm, text_asterisk, text_td, text_tf, text_tj,
    text_tj_array, text_tl, text_tm, texts_of, Layout, Page, Text, TextModel, TextReader, TextRun,
};
use crate::tokens::{is_numeric, is_numeric_byte, obj_parse_numeric, spec_numeric, Parsed};
use vstd::prelude::*;

verus! {

/// The first position at or after `i` that holds a delimiter, or the end of
/// the data.
pub open spec fn text_end(data: Seq<u8>, i: int) -> int
    decreases data.len() - i,
{
    if 0 <= i < data.len() && !delimiter_byte(data[i]) {
        text_end(data, i + 1)
    } else {
        i
    }
}

/// A word ends at or after its start, and within the data.
pub proof fn lemma_text_end(data: Seq<u8>, i: int)
    requires
        0 <= i,
    ensures
        i <= text_end(data, i),
        text_end(data, i) <= data.len() || text_end(data, i) == i,
    decreases data.len() - i,
{
    if 0 <= i < data.len() && !delimiter_byte(data[i]) {
        lemma_text_end(data, i + 1);
    }
}

/// The bytes in `[from, to)` as characters.
pub open spec fn bytes_as_chars(data: Seq<u8>, from: int, to: int) -> Seq<char> {
    Seq::new((to - from) as nat, |k: int| data[from + k] as char)
}

/// The position of the next delimiter at or after `pos`, and the bytes up
/// to it as characters.
pub fn read_word(data: &Vec<u8>, pos: usize) -> (r: (usize, Vec<char>))
    requires
        pos <= data.len(),
    ensures
        r.0 == text_end(data@, pos as int),
        pos <= r.0 <= data.len(),
        r.1@ == bytes_as_chars(data@, pos as int, r.0 as int),
{
    let n: usize = data.len();
    let mut output: Vec<char> = Vec::new();
    let mut i: usize = pos;
    proof {
        assert(output@ =~= bytes_as_chars(data@, pos as int, pos as int));
    }
    while i < n && !is_delimiter_byte(data[i])
        invariant
            n == data.len(),
            pos <= i <= n,
            text_end(data@, i as int) == text_end(data@, pos as int),
            output@ == bytes_as_chars(data@, pos as int, i as int),
        decreases n - i,
    {
        output.push(data[i] as char);
        proof {
            assert(output@ =~= bytes_as_chars(data@, pos as int, i + 1));
        }
        i += 1;
    }
    (i, output)
}

/// Reads the bytes from the read position to the next delimiter as text,
/// and moves the read position there.
pub fn read_text(doc: &mut Document) -> (r: String)
    ensures
        final(doc).data == old(doc).data,
        final(doc).xref == old(doc).xref,
        final(doc).trailer == old(doc).trailer,
        final(doc).sections == old(doc).sections,
        old(doc).it <= old(doc).data.len() ==> final(doc).it == text_end(
            old(doc).data@,
            old(doc).it as int,
        ) && r@ == bytes_as_chars(old(doc).data@, old(doc).it as int, final(doc).it as int),
        old(doc).it > old(doc).data.len() ==> final(doc).it == old(doc).it && r@.len() == 0,
{
    if doc.it > doc.data.len() {
        return String::new();
    }
    let (end, chars) = read_word(&doc.data, doc.it);
    doc.it = end;
    string_from_chars(&chars)
}

/// The states after `cm`: the state on top takes the fourth operand into
/// the scale of the page and the sixth into its offset.
pub open spec fn spec_cm(readers: Seq<TextReader>, stack: Seq<PdfValue>) -> Seq<TextReader> {
    if stack.len() < 6 || readers.len() == 0 {
        readers
    } else {
        match (fixed_of(stack[3]), fixed_of(stack[5])) {
            (Some(d), Some(f)) => readers.update(
                readers.len() - 1,
                rescaled(
                    TextReader {
                        graph_scale: fixed_product(readers.last().graph_scale, d),
                        graph_y: fixed_sum(readers.last().graph_y, f),
                        ..readers.last()
                    },
                ),
            ),
            _ => readers,
        }
    }
}

/// `cm`
pub fn graph_cm(text_reader_stack: &mut Vec<TextReader>, stack: &Vec<PdfVar>) -> (r: Option<()>)
    ensures
        final(text_reader_stack)@ == spec_cm(old(text_reader_stack)@, values_of(stack@)),
        final(text_reader_stack).len() == old(text_reader_stack).len(),
        r is Some <==> stack.len() >= 6 && old(text_reader_stack).len() > 0 && fixed_of(
            values_of(stack@)[3],
        ) is Some && fixed_of(values_of(stack@)[5]) is Some,
{
    if stack.len() < 6 || text_reader_stack.len() == 0 {
        return None;
    }
    proof {
        assert(values_of(stack@)[3] == stack@[3]@);
        assert(values_of(stack@)[5] == stack@[5]@);
    }
    let new_scale: i64 = match stack[3].get_fixed() {
        Some(x) => x,
        None => {
            return None;
        },
    };
    let ty: i64 = match stack[5].get_fixed() {
        Some(x) => x,
        None => {
            return None;
        },
    };
    let last: usize = text_reader_stack.len() - 1;
    let mut top: TextReader = text_reader_stack[last];
    top.graph_scale = times(top.graph_scale, new_scale);
    top.graph_y = plus(top.graph_y, ty);
    rescale(&mut top);
    text_reader_stack.set(last, top);
    Some(())
}

/// Where reading the page outside its text sections stands.
pub struct ContentStep {
    pub pos: int,
    pub readers: Seq<TextReader>,
}

/// Reading what stands outside the text sections, from `pos` to the `BT`
/// that starts the next section or to the end. Numbers are gathered as
/// operands; `q` saves the state on top, `Q` brings the saved one back,
/// `cm` changes the scale and offset of the page. The position is that
/// after `BT`, or the end of the data.
pub open spec fn spec_page_content(
    data: Seq<u8>,
    pos: int,
    stack: Seq<PdfValue>,
    readers: Seq<TextReader>,
) -> ContentStep
    decreases data.len() - pos,
{
    if pos < 0 || pos >= data.len() {
        ContentStep { pos: data.len() as int, readers }
    } else if data[pos] == 66 && has_tag(data, pos, tag_bt()) {
        ContentStep { pos: pos + 2, readers }
    } else if is_numeric_byte(data[pos]) {
        match spec_numeric(data, pos, stack) {
            Parsed::Done { pos: end, stack: more } => if pos < end < data.len() {
                spec_page_content(data, end + 1, more, readers)
            } else {
                ContentStep { pos: data.len() as int, readers }
            },
            Parsed::Failed { error, pos: end } => if pos < end < data.len() {
                spec_page_content(data, end + 1, stack, readers)
            } else {
                ContentStep { pos: data.len() as int, readers }
            },
        }
    } else if data[pos] == 113 {
        spec_page_content(
            data,
            pos + 1,
            Seq::empty(),
            if readers.len() > 0 {
                readers.push(readers.last())
            } else {
                readers
            },
        )
    } else if data[pos] == 81 {
        spec_page_content(
            data,
            pos + 1,
            Seq::empty(),
            if readers.len() > 1 {
                readers.drop_last()
            } else {
                readers
            },
        )
    } else if data[pos] == 99 && has_tag(data, pos, tag_cm()) {
        spec_page_content(data, pos + 2, Seq::empty(), spec_cm(readers, stack))
    } else {
        spec_page_content(data, pos + 1, Seq::empty(), readers)
    }
}

/// Reads what stands outside the text sections, up to the next `BT`.
pub fn parse_page_content(data: &Vec<u8>, pos: usize, text_reader_stack: &mut Vec<TextReader>) -> (r:
    usize)
    requires
        pos <= data.len(),
        old(text_reader_stack).len() >= 1,
    ensures
        spec_page_content(data@, pos as int, Seq::empty(), old(text_reader_stack)@) == (
        ContentStep { pos: r as int, readers: final(text_reader_stack)@ }),
        pos <= r <= data.len(),
        final(text_reader_stack).len() >= 1,
{
    let n: usize = data.len();
    let mut stack: Vec<PdfVar> = Vec::new();
    let mut it: usize = pos;
    proof {
        assert(values_of(stack@) =~= Seq::empty());
    }
    while it < n
        invariant
            n == data.len(),
            pos <= it <= n,
            text_reader_stack.len() >= 1,
            spec_page_content(data@, it as int, values_of(stack@), text_reader_stack@)
                == spec_page_content(data@, pos as int, Seq::empty(), old(text_reader_stack)@),
        decreases n - it,
    {
        let b: u8 = data[it];
        if b == 66 && at_bt(data, it) {
            return it + 2;
        } else if is_numeric(b) {
            let end: usize = match obj_parse_numeric(data, it, &mut stack) {
                Ok(e) => e,
                Err((_, e)) => e,
            };
            if end <= it || end >= n {
                return n;
            }
            it = end + 1;
            continue ;
        } else if b == 113 {
            let top: TextReader = text_reader_stack[text_reader_stack.len() - 1];
            text_reader_stack.push(top);
        } else if b == 81 {
            if text_reader_stack.len() > 1 {
                text_reader_stack.pop();
            }
        } else if b == 99 && at_cm(data, it) {
            graph_cm(text_reader_stack, &stack);
            it += 1;
        }
        it += 1;
        stack = Vec::new();
        proof {
            assert(values_of(stack@) =~= Seq::empty());
        }
    }
    n
}

/// What the operator `T` and the byte `c` does to the layout. An operator
/// that is not known does nothing.
pub open spec fn spec_operator(c: u8, l: Layout, stack: Seq<PdfValue>, fonts: Seq<FontModel>) -> Option<
    Layout,
> {
    if c == 102 {
        match spec_tf(l.tr, l.page.text, stack) {
            Some((tr, text)) => Some(Layout { tr, page: Page { text, ..l.page } }),
            None => None,
        }
    } else if c == 74 {
        match spec_tj_array(l.tr, l.page, stack, fonts) {
            Some(page) => Some(Layout { page, ..l }),
            None => None,
        }
    } else if c == 109 {
        match spec_tm(l.tr, l.page.text, stack) {
            Some((tr, text)) => Some(Layout { tr, page: Page { text, ..l.page } }),
            None => None,
        }
    } else if c == 100 {
        match spec_td(l.tr, l.page.text, stack) {
            Some((tr, text)) => Some(Layout { tr, page: Page { text, ..l.page } }),
            None => None,
        }
    } else if c == 68 {
        match spec_tl(l.tr, true, stack) {
            Some(led) => match spec_td(led, l.page.text, stack) {
                Some((tr, text)) => Some(Layout { tr, page: Page { text, ..l.page } }),
                None => None,
            },
            None => None,
        }
    } else if c == 42 {
        Some(Layout { tr: spec_asterisk(l.tr), ..l })
    } else if c == 76 {
        match spec_tl(l.tr, false, stack) {
            Some(tr) => Some(Layout { tr, ..l }),
            None => None,
        }
    } else if c == 106 {
        match spec_tj(l.tr, l.page, stack, fonts) {
            Some(page) => Some(Layout { page, ..l }),
            None => None,
        }
    } else {
        Some(l)
    }
}

/// The layout that a state, a run and closed runs make.
pub open spec fn layout_of(tr: TextReader, text: TextModel, runs: Seq<TextModel>) -> Layout {
    Layout { tr, page: page_of(text, runs) }
}

/// Carries out the operator `T` and the byte `c`. Where the operator lacks
/// an operand, nothing changes.
pub fn text_operator(
    c: u8,
    tr: &mut TextReader,
    text: &mut TextRun,
    text_objects: &mut Vec<Text>,
    fonts: &Vec<Font>,
    stack: &Vec<PdfVar>,
) -> (r: Option<()>)
    requires
        fonts.len() >= 1,
    ensures
        match spec_operator(
            c,
            layout_of(*old(tr), old(text)@, texts_of(old(text_objects)@)),
            values_of(stack@),
            fonts_of(fonts@),
        ) {
            Some(l) => r is Some && layout_of(
                *final(tr),
                final(text)@,
                texts_of(final(text_objects)@),
            ) == l,
            None => r is None && *final(tr) == *old(tr) && final(text)@ == old(text)@
                && final(text_objects)@ == old(text_objects)@,
        },
{
    if c == 102 {
        text_tf(tr, text, stack)
    } else if c == 74 {
        text_tj_array(tr, text, text_objects, fonts, stack)
    } else if c == 109 {
        text_tm(tr, text, stack)
    } else if c == 100 {
        text_td(tr, text, stack)
    } else if c == 68 {
        let saved: TextReader = *tr;
        match text_tl(tr, true, stack) {
            Some(_) => match text_td(tr, text, stack) {
                Some(_) => Some(()),
                None => {
                    *tr = saved;
                    None
                },
            },
            None => None,
        }
    } else if c == 42 {
        text_asterisk(tr);
        Some(())
    } else if c == 76 {
        text_tl(tr, false, stack)
    } else if c == 106 {
        text_tj(tr, text, text_objects, fonts, stack)
    } else {
        Some(())
    }
}

/// Where reading a text section stands.
pub struct SectionStep {
    pub pos: int,
    pub layout: Layout,
}

/// Reading a text section from `pos` on, with the operands read so far, to
/// its `ET`. An operator takes the operands before it; `'` moves to the
/// next line and adds a string; a word that is no operator is passed over.
/// The section fails where an operator lacks an operand, a value does not
/// read or the data ends. The position is that after `ET`.
pub open spec fn spec_section(
    data: Seq<u8>,
    xref: Seq<ObjectRef>,
    fonts: Seq<FontModel>,
    pos: int,
    stack: Seq<PdfValue>,
    l: Layout,
) -> Option<SectionStep>
    decreases data.len() - pos,
{
    let p = skip_ws(data, pos);
    if pos < 0 || p < pos || p >= data.len() {
        None
    } else if data[p] == 84 {
        if p + 1 >= data.len() {
            None
        } else {
            match spec_operator(data[p + 1], l, stack, fonts) {
                Some(next) => spec_section(data, xref, fonts, p + 2, Seq::empty(), next),
                None => None,
            }
        }
    } else if data[p] == 39 {
        match spec_tj(spec_asterisk(l.tr), l.page, stack, fonts) {
            Some(page) => spec_section(
                data,
                xref,
                fonts,
                p + 1,
                Seq::empty(),
                Layout { tr: spec_asterisk(l.tr), page },
            ),
            None => None,
        }
    } else if data[p] == 69 {
        if has_tag(data, p, tag_et()) {
            Some(SectionStep { pos: p + 2, layout: l })
        } else if p < text_end(data, p) <= data.len() {
            spec_section(data, xref, fonts, text_end(data, p), Seq::empty(), l)
        } else {
            None
        }
    } else {
        match spec_token(data, xref, p, stack, MAX_DEPTH as nat) {
            Parsed::Done { pos: next, stack: more } => if p < next <= data.len() {
                spec_section(data, xref, fonts, next, more, l)
            } else {
                None
            },
            Parsed::Failed { error, pos: at } => if error == PdfError::UnmatchedChar && p <= at
                && p <= text_end(data, at) < data.len() {
                spec_section(data, xref, fonts, text_end(data, at) + 1, Seq::empty(), l)
            } else {
                None
            },
        }
    }
}

/// Whether the runs `after` are the runs `before` with runs added at their
/// end.
pub open spec fn runs_added(before: Seq<TextModel>, after: Seq<TextModel>) -> bool {
    &&& before.len() <= after.len()
    &&& forall|i: int| 0 <= i < before.len() ==> #[trigger] after[i] == before[i]
}

/// An operator closes runs at most: the runs that were closed stay, in
/// their order.
pub proof fn lemma_operator_adds_runs(c: u8, l: Layout, stack: Seq<PdfValue>, fonts: Seq<FontModel>)
    ensures
        match spec_operator(c, l, stack, fonts) {
            Some(next) => runs_added(l.page.runs, next.page.runs),
            None => true,
        },
        match spec_tj(l.tr, l.page, stack, fonts) {
            Some(page) => runs_added(l.page.runs, page.runs),
            None => true,
        },
{
}

/// A text section closes runs at most: the runs that were closed before it
/// stay, in their order.
pub proof fn lemma_section_adds_runs(
    data: Seq<u8>,
    xref: Seq<ObjectRef>,
    fonts: Seq<FontModel>,
    pos: int,
    stack: Seq<PdfValue>,
    l: Layout,
)
    ensures
        match spec_section(data, xref, fonts, pos, stack, l) {
            Some(step) => runs_added(l.page.runs, step.layout.page.runs),
            None => true,
        },
    decreases data.len() - pos,
{
    let p = skip_ws(data, pos);
    if !(pos < 0 || p < pos || p >= data.len()) {
        if data[p] == 84 {
            if p + 1 < data.len() {
                lemma_operator_adds_runs(data[p + 1], l, stack, fonts);
                match spec_operator(data[p + 1], l, stack, fonts) {
                    Some(next) => {
                        lemma_section_adds_runs(data, xref, fonts, p + 2, Seq::empty(), next);
                    },
                    None => {},
                }
            }
        } else if data[p] == 39 {
            let moved = Layout { tr: spec_asterisk(l.tr), ..l };
            lemma_operator_adds_runs(0, moved, stack, fonts);
            match spec_tj(spec_asterisk(l.tr), l.page, stack, fonts) {
                Some(page) => {
                    lemma_section_adds_runs(
                        data,
                        xref,
                        fonts,
                        p + 1,
                        Seq::empty(),
                        Layout { tr: spec_asterisk(l.tr), page },
                    );
                },
                None => {},
            }
        } else if data[p] == 69 {
            if !has_tag(data, p, tag_et()) && p < text_end(data, p) <= data.len() {
                lemma_section_adds_runs(data, xref, fonts, text_end(data, p), Seq::empty(), l);
            }
        } else {
            match spec_token(data, xref, p, stack, MAX_DEPTH as nat) {
                Parsed::Done { pos: next, stack: more } => if p < next <= data.len() {
                    lemma_section_adds_runs(data, xref, fonts, next, more, l);
                },
                Parsed::Failed { error, pos: at } => if error == PdfError::UnmatchedChar && p <= at
                    && p <= text_end(data, at) < data.len() {
                    lemma_section_adds_runs(
                        data,
                        xref,
                        fonts,
                        text_end(data, at) + 1,
                        Seq::empty(),
                        l,
                    );
                },
            }
        }
    }
}

/// Reads a text section from `pos` on, on to its `ET`.
pub(crate) fn parse_text_section(
    data: &Vec<u8>,
    xref: &Vec<ObjectRef>,
    pos: usize,
    text_objects: &mut Vec<Text>,
    text: &mut TextRun,
    fonts: &Vec<Font>,
    tr: &mut TextReader,
) -> (r: Option<usize>)
    requires
        pos <= data.len(),
        fonts.len() >= 1,
    ensures
        match spec_section(
            data@,
            xref@,
            fonts_of(fonts@),
            pos as int,
            Seq::empty(),
            layout_of(*old(tr), old(text)@, texts_of(old(text_objects)@)),
        ) {
            Some(step) => r is Some && r->0 == step.pos && layout_of(
                *final(tr),
                final(text)@,
                texts_of(final(text_objects)@),
            ) == step.layout && pos < r->0 <= data.len(),
            None => r is None,
        },
{
    let n: usize = data.len();
    let mut stack: Vec<PdfVar> = Vec::new();
    let mut cur: usize = pos;
    proof {
        assert(values_of(stack@) =~= Seq::empty());
    }
    loop
        invariant
            n == data.len(),
            pos <= cur <= n,
            fonts.len() >= 1,
            spec_section(
                data@,
                xref@,
                fonts_of(fonts@),
                cur as int,
                values_of(stack@),
                layout_of(*tr, text@, texts_of(text_objects@)),
            ) == spec_section(
                data@,
                xref@,
                fonts_of(fonts@),
                pos as int,
                Seq::empty(),
                layout_of(*old(tr), old(text)@, texts_of(old(text_objects)@)),
            ),
        decreases n - cur,
    {
        let p: usize = skip_whitespace(data, cur);
        if p >= n {
            return None;
        }
        let b: u8 = data[p];
        if b == 84 {
            if n - p <= 1 {
                return None;
            }
            match text_operator(data[p + 1], tr, text, text_objects, fonts, &stack) {
                Some(_) => {},
                None => {
                    return None;
                },
            }
            cur = p + 2;
            stack = Vec::new();
            proof {
                assert(values_of(stack@) =~= Seq::empty());
            }
        } else if b == 39 {
            text_asterisk(tr);
            match text_tj(tr, text, text_objects, fonts, &stack) {
                Some(_) => {},
                None => {
                    return None;
                },
            }
            cur = p + 1;
            stack = Vec::new();
            proof {
                assert(values_of(stack@) =~= Seq::empty());
            }
        } else if b == 69 {
            if at_et(data, p) {
                return Some(p + 2);
            }
            proof {
                lemma_text_end(data@, p + 1);
            }
            let (end, _) = read_word(data, p);
            cur = end;
            stack = Vec::new();
            proof {
                assert(values_of(stack@) =~= Seq::empty());
            }
        } else {
            match parse_token(data, xref, p, &mut stack, MAX_DEPTH) {
                Ok(next) => {
                    cur = next;
                },
                Err((e, at)) => {
                    match e {
                        PdfError::UnmatchedChar => {
                            if at < p {
                                return None;
                            }
                            let (end, _) = read_word(data, at);
                            if end >= n {
                                return None;
                            }
                            cur = end + 1;
                            stack = Vec::new();
                            proof {
                                assert(values_of(stack@) =~= Seq::empty());
                            }
                        },
                        _ => {
                            return None;
                        },
                    }
                },
            }
        }
    }
}

/// The content that was gathered, if all of it could be had, and the data
/// and table after the lookups.
pub struct Gathered {
    pub content: Option<Seq<u8>>,
    pub store: Store,
}

/// Gathering the decoded streams of the objects of a list, from item `i`
/// on, after what was gathered before. Every object must be there and
/// decode.
pub open spec fn spec_gather_array(store: Store, ids: Seq<usize>, i: int, acc: Seq<u8>) -> Gathered
    decreases ids.len() - i,
{
    if i < 0 || i >= ids.len() {
        Gathered { content: Some(acc), store }
    } else {
        let found = spec_get_object(store, ids[i], MAX_UNPACK as nat);
        match found.object {
            None => Gathered { content: None, store: found.store },
            Some(obj) => match spec_decoded_stream(found.store.data, found.store.xref, obj) {
                None => Gathered { content: None, store: found.store },
                Some(decoded) => spec_gather_array(found.store, ids, i + 1, acc + decoded),
            },
        }
    }
}

/// Gathering the content of a page from the objects that its `Contents`
/// names, from item `i` on. An object whose body is a list of references
/// stands for the streams of that list; any other object gives its own
/// stream, or nothing where it has none that decodes.
pub open spec fn spec_gather(store: Store, ids: Seq<usize>, i: int, acc: Seq<u8>) -> Gathered
    decreases ids.len() - i,
{
    if i < 0 || i >= ids.len() {
        Gathered { content: Some(acc), store }
    } else {
        let found = spec_get_object(store, ids[i], MAX_UNPACK as nat);
        match found.object {
            Some(PdfValue::Object { id, content }) => if content.len() < 2 {
                Gathered { content: None, store: found.store }
            } else {
                match indices_of(content[1]) {
                    Some(array) => {
                        let inner = spec_gather_array(found.store, array, 0, acc);
                        match inner.content {
                            Some(more) => spec_gather(inner.store, ids, i + 1, more),
                            None => inner,
                        }
                    },
                    None => match spec_decoded_stream(
                        found.store.data,
                        found.store.xref,
                        PdfValue::Object { id, content },
                    ) {
                        Some(decoded) => spec_gather(found.store, ids, i + 1, acc + decoded),
                        None => spec_gather(found.store, ids, i + 1, acc),
                    },
                }
            },
            _ => Gathered { content: None, store: found.store },
        }
    }
}

/// The state in which the reading of a page starts.
pub open spec fn first_reader() -> TextReader {
    TextReader {
        y_pos: 0,
        scale: UNIT,
        graph_scale: UNIT,
        graph_y: 0,
        font_size: UNIT,
        scaled_font_size: UNIT,
        leading: 0,
    }
}

/// The run with which the reading of a page starts.
pub open spec fn first_text() -> TextModel {
    TextModel {
        pos_y: (-UNIT) as i64,
        scaled_font_size: 0,
        chars: Seq::empty(),
        avg_font_size: UNIT,
        font: Seq::empty(),
    }
}

/// The state at the start of a text section: the position, the scale of the
/// text and the leading start anew; what belongs to the page stays.
pub open spec fn section_start(tr: TextReader) -> TextReader {
    rescaled(TextReader { scale: UNIT, y_pos: 0, leading: 0, ..tr })
}

/// The runs of a content stream that is read from `pos` on: what stands
/// outside text sections changes the states, each text section adds to the
/// runs, and the run that is being built at the end is closed. Nothing
/// where a text section fails.
pub open spec fn spec_runs(
    data: Seq<u8>,
    xref: Seq<ObjectRef>,
    fonts: Seq<FontModel>,
    pos: int,
    readers: Seq<TextReader>,
    page: Page,
) -> Option<Seq<TextModel>>
    decreases data.len() - pos,
{
    if pos < 0 || pos >= data.len() {
        Some(spec_flush(page, 0, 0).runs)
    } else {
        let step = spec_page_content(data, pos, Seq::empty(), readers);
        if step.pos >= data.len() {
            Some(spec_flush(page, 0, 0).runs)
        } else if step.readers.len() == 0 {
            None
        } else {
            match spec_section(
                data,
                xref,
                fonts,
                step.pos,
                Seq::empty(),
                Layout { tr: section_start(step.readers.last()), page },
            ) {
                None => None,
                Some(done) => if pos < done.pos <= data.len() {
                    spec_runs(
                        data,
                        xref,
                        fonts,
                        done.pos,
                        step.readers.update(step.readers.len() - 1, done.layout.tr),
                        done.layout.page,
                    )
                } else {
                    None
                },
            }
        }
    }
}

/// The runs of a page come in the order in which the content closes them:
/// the runs that were closed when the reading stood at `pos` are the first
/// of the runs of the page.
pub proof fn lemma_runs_in_order(
    data: Seq<u8>,
    xref: Seq<ObjectRef>,
    fonts: Seq<FontModel>,
    pos: int,
    readers: Seq<TextReader>,
    page: Page,
)
    ensures
        match spec_runs(data, xref, fonts, pos, readers, page) {
            Some(runs) => runs_added(page.runs, runs),
            None => true,
        },
    decreases data.len() - pos,
{
    if !(pos < 0 || pos >= data.len()) {
        let step = spec_page_content(data, pos, Seq::empty(), readers);
        if step.pos < data.len() && step.readers.len() > 0 {
            let l = Layout { tr: section_start(step.readers.last()), page };
            lemma_section_adds_runs(data, xref, fonts, step.pos, Seq::empty(), l);
            match spec_section(data, xref, fonts, step.pos, Seq::empty(), l) {
                None => {},
                Some(done) => if pos < done.pos <= data.len() {
                    lemma_runs_in_order(
                        data,
                        xref,
                        fonts,
                        done.pos,
                        step.readers.update(step.readers.len() - 1, done.layout.tr),
                        done.layout.page,
                    );
                },
            }
        }
    }
}

/// One string shown at the start of a page is one run. Where a text
/// section selects a font and a size that is not negative, moves to a line
/// without breaking the word, and shows a string whose glyphs give some
/// text, the page then holds one run: that text, at that line, with the
/// size as its size and as the mean size of its characters.
pub proof fn lemma_shown_string_is_one_run(
    font: Seq<char>,
    size: PdfValue,
    tx: PdfValue,
    ty: PdfValue,
    codes: Seq<u32>,
    fonts: Seq<FontModel>,
)
    requires
        fixed_of(size) is Some && fixed_of(size)->0 >= 0,
        fixed_of(tx) is Some && fixed_of(tx)->0 <= 160 * UNIT,
        fixed_of(ty) is Some,
        0 < glyph_text(pick_font(fonts, font, 0).mapping, codes).len(),
    ensures
        ({
            let start = Layout {
                tr: section_start(first_reader()),
                page: Page { text: first_text(), runs: Seq::empty() },
            };
            let chosen = spec_operator(102, start, seq![PdfValue::Name(font), size], fonts);
            let moved = spec_operator(100, chosen->0, seq![tx, ty], fonts);
            let shown = spec_operator(
                106,
                moved->0,
                seq![PdfValue::StringLiteral(codes)],
                fonts,
            );
            &&& chosen is Some && moved is Some && shown is Some
            &&& spec_flush(shown->0.page, 0, 0).runs == seq![
                (TextModel {
                    pos_y: fixed_of(ty)->0,
                    scaled_font_size: fixed_of(size)->0,
                    chars: glyph_text(pick_font(fonts, font, 0).mapping, codes),
                    avg_font_size: fixed_of(size)->0,
                    font: Seq::empty(),
                }),
            ]
        }),
{
    let s = fixed_of(size)->0;
    let x = fixed_of(tx)->0;
    let y = fixed_of(ty)->0;
    let text = glyph_text(pick_font(fonts, font, 0).mapping, codes);
    let n = text.len() as int;
    lemma_fixed_of_within(size);
    lemma_fixed_of_within(tx);
    lemma_fixed_of_within(ty);
    lemma_product_with_unit(UNIT);
    lemma_product_with_unit(s);
    lemma_product_with_unit(x);
    lemma_product_with_unit(y);
    assert(700000 * s >= 0) by (nonlinear_arith)
        requires
            s >= 0,
    ;
    assert((700000 * s) / 1000000 >= 0) by (nonlinear_arith)
        requires
            700000 * s >= 0,
    ;
    assert((n * s) / n == s) by (nonlinear_arith)
        requires
            n > 0,
            s >= 0,
    ;
    assert(n * s >= 0) by (nonlinear_arith)
        requires
            n > 0,
            s >= 0,
    ;
    let start = Layout {
        tr: section_start(first_reader()),
        page: Page { text: first_text(), runs: Seq::empty() },
    };
    assert(start.tr.scaled_font_size == UNIT);
    let chosen = spec_operator(102, start, seq![PdfValue::Name(font), size], fonts);
    assert(chosen is Some);
    assert(chosen->0.tr.scaled_font_size == s);
    let moved = spec_operator(100, chosen->0, seq![tx, ty], fonts);
    assert(moved is Some);
    assert(moved->0.tr.y_pos == y);
    assert(moved->0.page.text.chars =~= Seq::<char>::empty());
    let shown = spec_operator(106, moved->0, seq![PdfValue::StringLiteral(codes)], fonts);
    assert(shown is Some);
    let placed = spec_eval(moved->0.page, page_y(moved->0.tr), s);
    assert(placed.text.chars =~= Seq::<char>::empty());
    assert(placed.text.pos_y == y);
    assert(placed.runs =~= Seq::<TextModel>::empty());
    assert(Seq::<char>::empty() + text =~= text);
    assert(shown->0.page.text.chars =~= text);
    assert(shown->0.page.text.avg_font_size == s);
}

/// A ligature that is shown reads as its letters. Where the font's table
/// gives one code point to a first glyph, another to a second and both to a
/// third, a string of the three glyphs, shown as in
/// `lemma_shown_string_is_one_run`, is one run that holds the two
/// characters twice.
pub proof fn lemma_shown_ligature(
    font: Seq<char>,
    size: PdfValue,
    tx: PdfValue,
    ty: PdfValue,
    one: u32,
    other: u32,
    both: u32,
    first: u32,
    second: u32,
    fonts: Seq<FontModel>,
)
    requires
        fixed_of(size) is Some && fixed_of(size)->0 >= 0,
        fixed_of(tx) is Some && fixed_of(tx)->0 <= 160 * UNIT,
        fixed_of(ty) is Some,
        one != 0 && other != 0 && both != 0,
        is_scalar(first) && is_scalar(second),
        ({
            let map = pick_font(fonts, font, 0).mapping;
            &&& map.contains_key(one) && map[one] == seq![first]
            &&& map.contains_key(other) && map[other] == seq![second]
            &&& map.contains_key(both) && map[both] == seq![first, second]
        }),
    ensures
        ({
            let start = Layout {
                tr: section_start(first_reader()),
                page: Page { text: first_text(), runs: Seq::empty() },
            };
            let chosen = spec_operator(102, start, seq![PdfValue::Name(font), size], fonts);
            let moved = spec_operator(100, chosen->0, seq![tx, ty], fonts);
            let shown = spec_operator(
                106,
                moved->0,
                seq![PdfValue::StringLiteral(seq![one, other, both])],
                fonts,
            );
            &&& chosen is Some && moved is Some && shown is Some
            &&& spec_flush(shown->0.page, 0, 0).runs == seq![
                (TextModel {
                    pos_y: fixed_of(ty)->0,
                    scaled_font_size: fixed_of(size)->0,
                    chars: seq![first as char, second as char, first as char, second as char],
                    avg_font_size: fixed_of(size)->0,
                    font: Seq::empty(),
                }),
            ]
        }),
{
    let map = pick_font(fonts, font, 0).mapping;
    lemma_ligature_reads_as_its_letters(map, one, other, both, first, second);
    lemma_shown_string_is_one_run(font, size, tx, ty, seq![one, other, both], fonts);
}

/// Reads the runs of the content that stands in the data from `start` on.
pub fn read_runs(data: &Vec<u8>, xref: &Vec<ObjectRef>, start: usize, fonts: &Vec<Font>) -> (r:
    Option<Vec<Text>>)
    requires
        start <= data.len(),
        fonts.len() >= 1,
    ensures
        match spec_runs(
            data@,
            xref@,
            fonts_of(fonts@),
            start as int,
            seq![first_reader()],
            page_of(first_text(), Seq::empty()),
        ) {
            Some(runs) => r is Some && texts_of(r->0@) == runs,
            None => r is None,
        },
{
    let n: usize = data.len();
    let mut text_objects: Vec<Text> = Vec::new();
    let mut text = TextRun {
        pos_y: -UNIT,
        chars: Vec::new(),
        scaled_font_size: 0,
        font: String::new(),
        avg_font_size: UNIT,
    };
    let text_reader = TextReader {
        y_pos: 0,
        scale: UNIT,
        font_size: UNIT,
        scaled_font_size: UNIT,
        leading: 0,
        graph_scale: UNIT,
        graph_y: 0,
    };
    let mut text_reader_stack: Vec<TextReader> = Vec::new();
    text_reader_stack.push(text_reader);
    let mut it: usize = start;
    proof {
        assert(text_reader_stack@ =~= seq![first_reader()]);
        assert(texts_of(text_objects@) =~= Seq::empty());
        assert(text@ == first_text());
    }
    while it < n
        invariant
            n == data.len(),
            start <= it <= n,
            fonts.len() >= 1,
            text_reader_stack.len() >= 1,
            spec_runs(
                data@,
                xref@,
                fonts_of(fonts@),
                it as int,
                text_reader_stack@,
                page_of(text@, texts_of(text_objects@)),
            ) == spec_runs(
                data@,
                xref@,
                fonts_of(fonts@),
                start as int,
                seq![first_reader()],
                page_of(first_text(), Seq::empty()),
            ),
        decreases n - it,
    {
        let at: usize = parse_page_content(data, it, &mut text_reader_stack);
        if at >= n {
            add_text_section(&mut text, &mut text_objects, 0, 0);
            return Some(text_objects);
        }
        let last: usize = text_reader_stack.len() - 1;
        let mut top: TextReader = text_reader_stack[last];
        top.scale = UNIT;
        top.y_pos = 0;
        top.leading = 0;
        rescale(&mut top);
        match parse_text_section(data, xref, at, &mut text_objects, &mut text, fonts, &mut top) {
            Some(next) => {
                text_reader_stack.set(last, top);
                it = next;
            },
            None => {
                return None;
            },
        }
    }
    add_text_section(&mut text, &mut text_objects, 0, 0);
    Some(text_objects)
}

/// The runs of a page, if they could be read, and the data and table after
/// the reading.
pub struct RunsFound {
    pub runs: Option<Seq<TextModel>>,
    pub store: Store,
}

/// The runs of the content that the objects of a list hold: the content is
/// gathered and written at the end of the data, and read there.
pub open spec fn spec_objects_text(store: Store, ids: Seq<usize>, fonts: Seq<FontModel>) -> RunsFound {
    let gathered = spec_gather(store, ids, 0, Seq::empty());
    match gathered.content {
        None => RunsFound { runs: None, store: gathered.store },
        Some(content) => if gathered.store.data.len() + content.len() > usize::MAX {
            RunsFound { runs: None, store: gathered.store }
        } else {
            let data = gathered.store.data + content;
            RunsFound {
                runs: spec_runs(
                    data,
                    gathered.store.xref,
                    fonts,
                    gathered.store.data.len() as int,
                    seq![first_reader()],
                    page_of(first_text(), Seq::empty()),
                ),
                store: store_of(data, gathered.store.xref),
            }
        },
    }
}

/// Gathers the decoded streams of the objects of a list.
fn gather_array(doc: &mut Document, ids: &Vec<usize>, content: &mut Vec<u8>) -> (r: bool)
    ensures
        spec_gather_array(old(doc).store(), ids@, 0, old(content)@) == (Gathered {
            content: if r {
                Some(final(content)@)
            } else {
                None
            },
            store: final(doc).store(),
        }),
        only_grew(old(doc), final(doc)),
{
    let mut i: usize = 0;
    while i < ids.len()
        invariant
            i <= ids.len(),
            only_grew(old(doc), doc),
            spec_gather_array(doc.store(), ids@, i as int, content@) == spec_gather_array(
                old(doc).store(),
                ids@,
                0,
                old(content)@,
            ),
        decreases ids.len() - i,
    {
        let objx = match doc.get_object_by_id(ids[i]) {
            Some(x) => x,
            None => {
                return false;
            },
        };
        let decoded = match decoded_stream(&doc.data, &doc.xref, &objx) {
            Some(x) => x,
            None => {
                return false;
            },
        };
        append_range(content, &decoded, 0, decoded.len());
        proof {
            assert(decoded@.subrange(0, decoded.len() as int) =~= decoded@);
        }
        i += 1;
    }
    true
}

/// Gathers the content of a page.
fn gather_content(doc: &mut Document, obj_ids: &Vec<usize>, content: &mut Vec<u8>) -> (r: bool)
    ensures
        spec_gather(old(doc).store(), obj_ids@, 0, old(content)@) == (Gathered {
            content: if r {
                Some(final(content)@)
            } else {
                None
            },
            store: final(doc).store(),
        }),
        only_grew(old(doc), final(doc)),
{
    let mut i: usize = 0;
    while i < obj_ids.len()
        invariant
            i <= obj_ids.len(),
            only_grew(old(doc), doc),
            spec_gather(doc.store(), obj_ids@, i as int, content@) == spec_gather(
                old(doc).store(),
                obj_ids@,
                0,
                old(content)@,
            ),
        decreases obj_ids.len() - i,
    {
        let obj = match doc.get_object_by_id(obj_ids[i]) {
            Some(x) => x,
            None => {
                return false;
            },
        };
        let inner: Option<Vec<usize>> = match &obj {
            PdfVar::Object { _id, content: parts } => {
                proof {
                    lemma_value_of_object(*_id, *parts);
                }
                if parts.len() < 2 {
                    return false;
                }
                parts[1].get_usize_array()
            },
            _ => {
                return false;
            },
        };
        match inner {
            Some(array) => {
                if !gather_array(doc, &array, content) {
                    return false;
                }
            },
            None => {
                match decoded_stream(&doc.data, &doc.xref, &obj) {
                    Some(decoded) => {
                        append_range(content, &decoded, 0, decoded.len());
                        proof {
                            assert(decoded@.subrange(0, decoded.len() as int) =~= decoded@);
                        }
                    },
                    None => {},
                }
            },
        }
        i += 1;
    }
    true
}

/// Reads the runs of the content that the objects of a list hold. The
/// content is written at the end of the document's data and read there.
pub fn read_objects_text(doc: &mut Document, obj_ids: Vec<usize>, fonts: &Vec<Font>) -> (r: Option<
    Vec<Text>,
>)
    requires
        fonts.len() >= 1,
    ensures
        spec_objects_text(old(doc).store(), obj_ids@, fonts_of(fonts@)) == (RunsFound {
            runs: match r {
                Some(texts) => Some(texts_of(texts@)),
                None => None,
            },
            store: final(doc).store(),
        }),
        only_grew(old(doc), final(doc)),
{
    let mut content: Vec<u8> = Vec::new();
    if !gather_content(doc, &obj_ids, &mut content) {
        return None;
    }
    if content.len() > usize::MAX - doc.data.len() {
        return None;
    }
    let start: usize = doc.data.len();
    append_range(&mut doc.data, &content, 0, content.len());
    proof {
        assert(content@.subrange(0, content.len() as int) =~= content@);
    }
    read_runs(&doc.data, &doc.xref, start, fonts)
}

/// The runs of page number `page_nr`: the page is looked up, its fonts are
/// built, and the content that it names under `Contents` is read.
pub open spec fn spec_text_from_page(store: Store, root: usize, page_nr: usize) -> RunsFound {
    let page = spec_page(store, root, page_nr);
    match page.object {
        None => RunsFound { runs: None, store: page.store },
        Some(page_obj) => {
            let found = spec_page_resources(page.store, page_obj);
            match dict_value(page_obj, "Contents"@) {
                None => RunsFound { runs: None, store: found.store },
                Some(contents) => match indices_of(contents) {
                    None => RunsFound { runs: None, store: found.store },
                    Some(ids) => spec_objects_text(found.store, ids, found.fonts),
                },
            }
        },
    }
}

impl Document {
    /// Reads the runs of text of page number `page_nr`, counted from 0.
    /// Nothing where the document has no such page, the page names no
    /// content, or the content does not read.
    pub fn get_text_from_page(&mut self, page_nr: usize) -> (r: Option<Vec<Text>>)
        ensures
            spec_text_from_page(old(self).store(), old(self).trailer.root, page_nr) == (
            RunsFound {
                runs: match r {
                    Some(texts) => Some(texts_of(texts@)),
                    None => None,
                },
                store: final(self).store(),
            }),
            only_grew(old(self), final(self)),
    {
        let page_object = match self.get_page_no(page_nr) {
            Some(x) => x,
            None => {
                return None;
            },
        };
        let fonts = get_page_resources(self, &page_object);
        let content_ids: Vec<usize> = match page_object.get_dict_value("Contents") {
            Some(page_contents) => match page_contents.get_usize_array() {
                Some(x) => x,
                None => {
                    return None;
                },
            },
            None => {
                return None;
            },
        };
        read_objects_text(self, content_ids, &fonts)
    }
}

} // verus!
