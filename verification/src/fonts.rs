//! The fonts of a page and the tables that map their glyph codes.

use crate::cmap::{glyphs_of, put_glyph, read_cmap, spec_cmap_scan, GlyphMap};
use crate::decoding::chars_of_str;
use crate::document::Document;
use crate::objects::{spec_get_object, Found, Store, MAX_UNPACK};
use crate::pdf_object::{
    dict_value, entries_of, index_of, lemma_value_of_array, lemma_value_of_dictionary,
    lemma_value_of_object, values_of, PdfValue, PdfVar,
};
use crate::reader::only_grew;
use crate::streams::{decoded_stream, spec_decoded_stream};
use std::collections::HashMap;
use vstd::prelude::*;

verus! {

broadcast use vstd::std_specs::hash::group_hash_axioms;

/// A font of a page: the name under which content streams select it, and
/// the code points that its glyph codes stand for.
#[derive(Debug)]
pub struct Font {
    pub name: String,
    pub mapping: HashMap<u32, Vec<u32>>,
}

/// The mathematical value of a font.
pub struct FontModel {
    pub name: Seq<char>,
    pub mapping: GlyphMap,
}

impl View for Font {
    type V = FontModel;

    open spec fn view(&self) -> FontModel {
        FontModel { name: self.name@, mapping: glyphs_of(self.mapping@) }
    }
}

/// The values of a sequence of fonts.
pub open spec fn fonts_of(fonts: Seq<Font>) -> Seq<FontModel> {
    Seq::new(fonts.len(), |i: int| fonts[i]@)
}

/// The fonts of a page, and the data and table after they were looked up.
pub struct FontsFound {
    pub fonts: Seq<FontModel>,
    pub store: Store,
}

/// A table, and the data and table of the document after it was read.
pub struct MapFound {
    pub map: GlyphMap,
    pub store: Store,
}

/// The number that the decimal digits of `s` from `i` on write after `acc`,
/// where all are digits and the number fits in 32 bits.
pub open spec fn digits_number(s: Seq<char>, i: int, acc: nat) -> Option<u32>
    decreases s.len() - i,
{
    if i < 0 || i >= s.len() {
        if acc <= u32::MAX {
            Some(acc as u32)
        } else {
            None
        }
    } else if '0' <= s[i] <= '9' && acc * 10 + (s[i] as u32 - 48) <= u32::MAX {
        digits_number(s, i + 1, (acc * 10 + (s[i] as u32 - 48)) as nat)
    } else {
        None
    }
}

/// The number in a glyph name of the form `C` and a decimal number.
pub open spec fn glyph_number(name: Seq<char>) -> Option<u32> {
    if name.len() >= 2 && name[0] == 'C' {
        digits_number(name, 1, 0)
    } else {
        None
    }
}

/// Walking a `Differences` array from item `i` on. An integer sets the code
/// of the next name; each name takes the next code; a name of the form `C`
/// and a decimal number maps its code to that number.
pub open spec fn spec_differences(
    items: Seq<PdfValue>,
    i: int,
    code: Option<u32>,
    map: GlyphMap,
) -> GlyphMap
    decreases items.len() - i,
{
    if i < 0 || i >= items.len() {
        map
    } else {
        match items[i] {
            PdfValue::Integer { value, signed } => spec_differences(
                items,
                i + 1,
                if !signed && 0 <= value <= u32::MAX {
                    Some(value as u32)
                } else {
                    None
                },
                map,
            ),
            PdfValue::Name(name) => match code {
                None => spec_differences(items, i + 1, None, map),
                Some(c) => spec_differences(
                    items,
                    i + 1,
                    if c < u32::MAX {
                        Some((c + 1) as u32)
                    } else {
                        None
                    },
                    match glyph_number(name) {
                        Some(v) => map.insert(c, seq![v]),
                        None => map,
                    },
                ),
            },
            _ => spec_differences(items, i + 1, code, map),
        }
    }
}

/// Reading the `Differences` of the encoding that `encoding_ref` refers to
/// into the table.
pub open spec fn spec_encoding(store: Store, map: GlyphMap, encoding_ref: PdfValue) -> MapFound {
    match index_of(encoding_ref) {
        None => MapFound { map, store },
        Some(enc_id) => {
            let found = spec_get_object(store, enc_id, MAX_UNPACK as nat);
            match found.object {
                None => MapFound { map, store: found.store },
                Some(enc_obj) => match dict_value(enc_obj, "Differences"@) {
                    Some(PdfValue::Array(items)) => MapFound {
                        map: spec_differences(items, 0, None, map),
                        store: found.store,
                    },
                    _ => MapFound { map, store: found.store },
                },
            }
        },
    }
}

/// Reading the code map in the stream of object `to_unicode_id` into the
/// table.
pub open spec fn spec_to_unicode(store: Store, map: GlyphMap, to_unicode_id: usize) -> MapFound {
    let found = spec_get_object(store, to_unicode_id, MAX_UNPACK as nat);
    match found.object {
        None => MapFound { map, store: found.store },
        Some(obj) => match spec_decoded_stream(found.store.data, found.store.xref, obj) {
            None => MapFound { map, store: found.store },
            Some(content) => MapFound {
                map: spec_cmap_scan(content, 0, map),
                store: found.store,
            },
        },
    }
}

/// The table of one font object: its `ToUnicode` code map, then the
/// `Differences` of its `Encoding`.
pub open spec fn spec_font_map(store: Store, font_obj: PdfValue) -> MapFound {
    let first = match dict_value(font_obj, "ToUnicode"@) {
        Some(tv) => match index_of(tv) {
            Some(id) => spec_to_unicode(store, Map::empty(), id),
            None => MapFound { map: Map::empty(), store },
        },
        None => MapFound { map: Map::empty(), store },
    };
    match dict_value(font_obj, "Encoding"@) {
        Some(enc) => spec_encoding(first.store, first.map, enc),
        None => first,
    }
}

/// The fonts that the entries of a font dictionary give, from entry `i` on,
/// after those found so far. An entry that refers to no object that reads
/// gives no font.
pub open spec fn spec_font_entries(
    store: Store,
    entries: Seq<(Seq<char>, PdfValue)>,
    i: int,
    fonts: Seq<FontModel>,
) -> FontsFound
    decreases entries.len() - i,
{
    if i < 0 || i >= entries.len() {
        FontsFound { fonts, store }
    } else {
        match index_of(entries[i].1) {
            None => spec_font_entries(store, entries, i + 1, fonts),
            Some(obj_id) => {
                let found = spec_get_object(store, obj_id, MAX_UNPACK as nat);
                match found.object {
                    None => spec_font_entries(found.store, entries, i + 1, fonts),
                    Some(font_obj) => {
                        let made = spec_font_map(found.store, font_obj);
                        spec_font_entries(
                            made.store,
                            entries,
                            i + 1,
                            fonts.push(FontModel { name: entries[i].0, mapping: made.map }),
                        )
                    },
                }
            },
        }
    }
}

/// The fonts that were found before stay first when more are found.
pub proof fn lemma_font_entries_keep_first(
    store: Store,
    entries: Seq<(Seq<char>, PdfValue)>,
    i: int,
    fonts: Seq<FontModel>,
)
    requires
        fonts.len() > 0,
    ensures
        spec_font_entries(store, entries, i, fonts).fonts.len() >= fonts.len(),
        spec_font_entries(store, entries, i, fonts).fonts[0] == fonts[0],
    decreases entries.len() - i,
{
    if !(i < 0 || i >= entries.len()) {
        match index_of(entries[i].1) {
            None => {
                lemma_font_entries_keep_first(store, entries, i + 1, fonts);
            },
            Some(obj_id) => {
                let found = spec_get_object(store, obj_id, MAX_UNPACK as nat);
                match found.object {
                    None => {
                        lemma_font_entries_keep_first(found.store, entries, i + 1, fonts);
                    },
                    Some(font_obj) => {
                        let made = spec_font_map(found.store, font_obj);
                        lemma_font_entries_keep_first(
                            made.store,
                            entries,
                            i + 1,
                            fonts.push(FontModel { name: entries[i].0, mapping: made.map }),
                        );
                    },
                }
            },
        }
    }
}

/// The font that every page has first: no name and an empty table.
pub open spec fn empty_font() -> FontModel {
    FontModel { name: Seq::empty(), mapping: Map::empty() }
}

/// The fonts that a font dictionary, or a reference to an object that holds
/// one, gives after those found so far.
pub open spec fn spec_font_dict(store: Store, font_dict: PdfValue, base: Seq<FontModel>) -> FontsFound {
    match font_dict {
        PdfValue::Dictionary(entries) => spec_font_entries(store, entries, 0, base),
        PdfValue::IndirectObject(id) => {
            let held = spec_get_object(store, id, MAX_UNPACK as nat);
            match held.object {
                Some(PdfValue::Object { id: _, content }) => if content.len() > 1 {
                    match content[1] {
                        PdfValue::Dictionary(entries) => spec_font_entries(
                            held.store,
                            entries,
                            0,
                            base,
                        ),
                        _ => FontsFound { fonts: base, store: held.store },
                    }
                } else {
                    FontsFound { fonts: base, store: held.store }
                },
                _ => FontsFound { fonts: base, store: held.store },
            }
        },
        _ => FontsFound { fonts: base, store },
    }
}

/// The resources of a page: the dictionary under `Resources`, or the object
/// that a reference there refers to.
pub open spec fn spec_resources(store: Store, page: PdfValue) -> Found {
    match dict_value(page, "Resources"@) {
        None => Found { object: None, store },
        Some(resources) => match resources {
            PdfValue::IndirectObject(id) => spec_get_object(store, id, MAX_UNPACK as nat),
            PdfValue::Dictionary(_) => Found { object: Some(resources), store },
            _ => Found { object: None, store },
        },
    }
}

/// The first font of every page is the empty font.
pub proof fn lemma_first_font_is_empty(store: Store, page: PdfValue)
    ensures
        spec_page_resources(store, page).fonts.len() >= 1,
        spec_page_resources(store, page).fonts[0] == empty_font(),
{
    let base = seq![empty_font()];
    let res = spec_resources(store, page);
    match res.object {
        None => {},
        Some(res_obj) => match dict_value(res_obj, "Font"@) {
            None => {},
            Some(font_dict) => match font_dict {
                PdfValue::Dictionary(entries) => {
                    lemma_font_entries_keep_first(res.store, entries, 0, base);
                },
                PdfValue::IndirectObject(id) => {
                    let held = spec_get_object(res.store, id, MAX_UNPACK as nat);
                    match held.object {
                        Some(PdfValue::Object { id: _, content }) => if content.len() > 1 {
                            match content[1] {
                                PdfValue::Dictionary(entries) => {
                                    lemma_font_entries_keep_first(held.store, entries, 0, base);
                                },
                                _ => {},
                            }
                        },
                        _ => {},
                    }
                },
                _ => {},
            },
        },
    }
}

/// The fonts of a page. The page's resources hold under `Font` a dictionary,
/// or a reference to one, from the names of the fonts to the font objects.
/// The empty font always comes first.
pub open spec fn spec_page_resources(store: Store, page: PdfValue) -> FontsFound {
    let base = seq![empty_font()];
    let res = spec_resources(store, page);
    match res.object {
        None => FontsFound { fonts: base, store: res.store },
        Some(res_obj) => match dict_value(res_obj, "Font"@) {
            None => FontsFound { fonts: base, store: res.store },
            Some(font_dict) => spec_font_dict(res.store, font_dict, base),
        },
    }
}

/// Reads the number in a glyph name of the form `C` and a decimal number.
fn read_glyph_number(name: &String) -> (r: Option<u32>)
    ensures
        r == glyph_number(name@),
{
    let chars: Vec<char> = chars_of_str(name.as_str());
    if chars.len() < 2 || chars[0] != 'C' {
        return None;
    }
    let mut acc: u32 = 0;
    let mut i: usize = 1;
    while i < chars.len()
        invariant
            1 <= i <= chars.len(),
            chars@ == name@,
            digits_number(chars@, i as int, acc as nat) == digits_number(chars@, 1, 0),
        decreases chars.len() - i,
    {
        let c: char = chars[i];
        if c < '0' || c > '9' {
            return None;
        }
        let d: u32 = c as u32 - 48;
        if acc > (u32::MAX - d) / 10 {
            return None;
        }
        acc = acc * 10 + d;
        i += 1;
    }
    Some(acc)
}

/// Walks a `Differences` array into the table.
fn read_differences(items: &Vec<PdfVar>, codex: &mut HashMap<u32, Vec<u32>>)
    ensures
        glyphs_of(final(codex)@) == spec_differences(
            values_of(items@),
            0,
            None,
            glyphs_of(old(codex)@),
        ),
{
    let mut code: Option<u32> = None;
    let mut i: usize = 0;
    while i < items.len()
        invariant
            i <= items.len(),
            spec_differences(values_of(items@), i as int, code, glyphs_of(codex@))
                == spec_differences(values_of(items@), 0, None, glyphs_of(old(codex)@)),
        decreases items.len() - i,
    {
        proof {
            assert(values_of(items@)[i as int] == items@[i as int]@);
        }
        match &items[i] {
            PdfVar::Integer { value, signed } => {
                if !*signed && 0 <= *value && *value <= u32::MAX as i64 {
                    code = Some(*value as u32);
                } else {
                    code = None;
                }
            },
            PdfVar::Name(name) => {
                match code {
                    None => {},
                    Some(c) => {
                        match read_glyph_number(name) {
                            Some(v) => {
                                let mut one: Vec<u32> = Vec::new();
                                one.push(v);
                                proof {
                                    assert(one@ =~= seq![v]);
                                }
                                put_glyph(codex, c, one);
                            },
                            None => {},
                        }
                        if c < u32::MAX {
                            code = Some(c + 1);
                        } else {
                            code = None;
                        }
                    },
                }
            },
            _ => {},
        }
        i += 1;
    }
}

/// Reads the `Differences` of the encoding that `encoding_ref` refers to
/// into the table.
pub fn read_encoding(
    doc: &mut Document,
    codex: &mut HashMap<u32, Vec<u32>>,
    encoding_ref: &PdfVar,
)
    ensures
        spec_encoding(old(doc).store(), glyphs_of(old(codex)@), encoding_ref@) == (MapFound {
            map: glyphs_of(final(codex)@),
            store: final(doc).store(),
        }),
        only_grew(old(doc), final(doc)),
{
    let enc_id: usize = match encoding_ref.get_indirect_obj_index() {
        Some(x) => x,
        None => {
            return ;
        },
    };
    let enc_obj = match doc.get_object_by_id(enc_id) {
        Some(x) => x,
        None => {
            return ;
        },
    };
    match enc_obj.get_dict_value("Differences") {
        Some(PdfVar::Array(enc_array)) => {
            proof {
                lemma_value_of_array(*enc_array);
            }
            read_differences(enc_array, codex);
        },
        _ => {},
    }
}

/// Reads the code map in the stream of object `to_unicode_id` into the
/// table.
pub fn read_to_unicode(doc: &mut Document, codex: &mut HashMap<u32, Vec<u32>>, to_unicode_id: usize)
    ensures
        spec_to_unicode(old(doc).store(), glyphs_of(old(codex)@), to_unicode_id) == (MapFound {
            map: glyphs_of(final(codex)@),
            store: final(doc).store(),
        }),
        only_grew(old(doc), final(doc)),
{
    let to_unicode_obj = match doc.get_object_by_id(to_unicode_id) {
        Some(x) => x,
        None => {
            return ;
        },
    };
    let to_unicode_content = match decoded_stream(&doc.data, &doc.xref, &to_unicode_obj) {
        Some(x) => x,
        None => {
            return ;
        },
    };
    read_cmap(&to_unicode_content, codex);
}

/// Builds the table of one font object.
fn read_font_map(doc: &mut Document, font_obj: &PdfVar) -> (codex: HashMap<u32, Vec<u32>>)
    ensures
        spec_font_map(old(doc).store(), font_obj@) == (MapFound {
            map: glyphs_of(codex@),
            store: final(doc).store(),
        }),
        only_grew(old(doc), final(doc)),
{
    let mut codex: HashMap<u32, Vec<u32>> = HashMap::new();
    proof {
        assert(glyphs_of(codex@) =~= Map::empty());
    }
    match font_obj.get_dict_int("ToUnicode") {
        Some(to_unicode_id) => {
            read_to_unicode(doc, &mut codex, to_unicode_id);
        },
        None => {},
    }
    match font_obj.get_dict_value("Encoding") {
        Some(encoding_ref) => {
            read_encoding(doc, &mut codex, encoding_ref);
        },
        None => {},
    }
    codex
}

/// Reads the fonts that the entries of a font dictionary give.
fn read_font_entries(doc: &mut Document, entries: &Vec<(String, PdfVar)>, fonts: &mut Vec<Font>)
    ensures
        spec_font_entries(old(doc).store(), entries_of(entries@), 0, fonts_of(old(fonts)@)) == (
        FontsFound { fonts: fonts_of(final(fonts)@), store: final(doc).store() }),
        only_grew(old(doc), final(doc)),
        final(fonts).len() >= old(fonts).len(),
{
    let mut i: usize = 0;
    while i < entries.len()
        invariant
            i <= entries.len(),
            fonts.len() >= old(fonts).len(),
            spec_font_entries(doc.store(), entries_of(entries@), i as int, fonts_of(fonts@))
                == spec_font_entries(
                old(doc).store(),
                entries_of(entries@),
                0,
                fonts_of(old(fonts)@),
            ),
            only_grew(old(doc), doc),
        decreases entries.len() - i,
    {
        proof {
            assert(entries_of(entries@)[i as int] == (
                entries@[i as int].0@,
                entries@[i as int].1@,
            ));
        }
        match entries[i].1.get_indirect_obj_index() {
            Some(obj_id) => {
                match doc.get_object_by_id(obj_id) {
                    Some(font_obj) => {
                        let codex = read_font_map(doc, &font_obj);
                        let font = Font { name: entries[i].0.clone(), mapping: codex };
                        proof {
                            assert(fonts_of(fonts@.push(font)) =~= fonts_of(fonts@).push(font@));
                        }
                        fonts.push(font);
                    },
                    None => {},
                }
            },
            None => {},
        }
        i += 1;
    }
}

/// Reads the fonts that a font dictionary, or a reference to one, gives.
fn read_font_dict(doc: &mut Document, font_dict: &PdfVar, fonts: &mut Vec<Font>)
    ensures
        spec_font_dict(old(doc).store(), font_dict@, fonts_of(old(fonts)@)) == (FontsFound {
            fonts: fonts_of(final(fonts)@),
            store: final(doc).store(),
        }),
        only_grew(old(doc), final(doc)),
        final(fonts).len() >= old(fonts).len(),
{
    match font_dict {
        PdfVar::Dictionary(x) => {
            proof {
                lemma_value_of_dictionary(*x);
            }
            read_font_entries(doc, x, fonts);
        },
        PdfVar::IndirectObject(x) => {
            let unpacked = match doc.get_object_by_id(*x) {
                Some(o) => o,
                None => {
                    return ;
                },
            };
            match &unpacked {
                PdfVar::Object { _id, content } => {
                    proof {
                        lemma_value_of_object(*_id, *content);
                    }
                    if content.len() > 1 {
                        match &content[1] {
                            PdfVar::Dictionary(dict) => {
                                proof {
                                    lemma_value_of_dictionary(*dict);
                                }
                                read_font_entries(doc, dict, fonts);
                            },
                            _ => {},
                        }
                    }
                },
                _ => {},
            }
        },
        _ => {},
    }
}

/// Builds the fonts of a page: the empty font, then one font for each entry
/// of the page's font dictionary that gives one.
pub fn get_page_resources(doc: &mut Document, page_obj: &PdfVar) -> (fonts: Vec<Font>)
    ensures
        spec_page_resources(old(doc).store(), page_obj@) == (FontsFound {
            fonts: fonts_of(fonts@),
            store: final(doc).store(),
        }),
        only_grew(old(doc), final(doc)),
        fonts.len() >= 1,
        fonts[0]@ == empty_font(),
{
    proof {
        lemma_first_font_is_empty(doc.store(), page_obj@);
    }
    let mut fonts: Vec<Font> = Vec::new();
    let first = Font { name: String::new(), mapping: HashMap::new() };
    proof {
        assert(glyphs_of(first.mapping@) =~= Map::empty());
    }
    fonts.push(first);
    proof {
        assert(fonts_of(fonts@) =~= seq![empty_font()]);
    }
    let resource_dict_obj: &PdfVar = match page_obj.get_dict_value("Resources") {
        Some(x) => x,
        None => {
            return fonts;
        },
    };
    let looked_up: Option<PdfVar> = match resource_dict_obj {
        PdfVar::IndirectObject(obj_id) => match doc.get_object_by_id(*obj_id) {
            Some(x) => Some(x),
            None => {
                return fonts;
            },
        },
        PdfVar::Dictionary(_) => None,
        _ => {
            return fonts;
        },
    };
    let font_dict_obj: &PdfVar = match &looked_up {
        Some(x) => x,
        None => resource_dict_obj,
    };
    match font_dict_obj.get_dict_value("Font") {
        Some(font_dict) => {
            read_font_dict(doc, font_dict, &mut fonts);
        },
        None => {},
    }
    fonts
}

} // verus!
