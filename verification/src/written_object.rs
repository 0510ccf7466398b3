//! An object that holds one text under one key, as the information
//! dictionary of a document holds its title: what it reads as, from the
//! bytes to the text.

use crate::cursor::{decimal_value, has_tag, is_digit, lemma_one_space, skip_ws};
use crate::decoding::chars_of_codes;
use crate::document::ObjectRef;
use crate::error::PdfError;
use crate::objects::{spec_get_object, Found, Store, MAX_UNPACK};
use crate::parser::{
    entries_from, key_at, spec_dictionary, spec_items, spec_object, spec_object_items, spec_token,
    MAX_DEPTH,
};
use crate::pdf_object::{entry_lookup, PdfValue};
use crate::reader::{lemma_plain_text_under, text_under};
use crate::tags::{tag_dict_end, tag_endobj, tag_obj};
use crate::tokens::{
    codes_of, is_name_byte, is_plain, lemma_plain_integer, lemma_plain_name, lemma_plain_string,
    ref_value, spec_name, spec_numeric, spec_object_ref, spec_string_literal, Parsed,
};
use vstd::prelude::*;

verus! {

/// What stands between the number of the object and the key: ` 0 obj`, a
/// line feed, and `<< /`.
pub open spec fn after_number() -> Seq<u8> {
    seq![32u8, 48, 32, 111, 98, 106, 10, 60, 60, 32, 47]
}

/// What stands after the text: `) >>`, a line feed, and `endobj`.
pub open spec fn after_text() -> Seq<u8> {
    seq![41u8, 32, 62, 62, 10, 101, 110, 100, 111, 98, 106]
}

/// Whether an object with one text under one key stands in the data from
/// `o` on: a number of `h` digits, ` 0 obj`, a line feed, `<< /`, a key of
/// `k` bytes that stand for themselves, ` (`, a text of `n` bytes of
/// printable ASCII without brackets and backslashes, `) >>`, a line feed and
/// `endobj`.
pub open spec fn holds_object(d: Seq<u8>, o: int, h: int, k: int, n: int) -> bool {
    &&& 0 <= o && 1 <= h && 0 <= k && 0 <= n
    &&& o + h + k + n + 24 <= d.len()
    &&& forall|j: int| o <= j < o + h ==> is_digit(#[trigger] d[j])
    &&& forall|j: int| 0 <= j < 11 ==> #[trigger] d[o + h + j] == after_number()[j]
    &&& forall|j: int| o + h + 11 <= j < o + h + 11 + k ==> is_name_byte(#[trigger] d[j])
    &&& d[o + h + 11 + k] == 32
    &&& d[o + h + 12 + k] == 40
    &&& forall|j: int|
        o + h + 13 + k <= j < o + h + 13 + k + n ==> is_plain(#[trigger] d[j]) && 32 <= d[j]
            <= 126
    &&& forall|j: int| 0 <= j < 11 ==> #[trigger] d[o + h + 13 + k + n + j] == after_text()[j]
}

/// The number of the object that stands at `o`.
pub open spec fn written_number(d: Seq<u8>, o: int, h: int) -> nat {
    decimal_value(d, o, o + h)
}

/// The key of the object that stands at `o`.
pub open spec fn written_key(d: Seq<u8>, o: int, h: int, k: int) -> Seq<char> {
    chars_of_codes(codes_of(d, o + h + 11, o + h + 11 + k))
}

/// The codes of the text of the object that stands at `o`.
pub open spec fn written_codes(d: Seq<u8>, o: int, h: int, k: int, n: int) -> Seq<u32> {
    codes_of(d, o + h + 13 + k, o + h + 13 + k + n)
}

/// The value that the object reads as: its head, and a dictionary with the
/// text under the key.
pub open spec fn written_value(d: Seq<u8>, o: int, h: int, k: int, n: int) -> PdfValue {
    PdfValue::Object {
        id: written_number(d, o, h) as usize,
        content: seq![
            PdfValue::ObjectRef(written_number(d, o, h) as usize),
            PdfValue::Dictionary(
                seq![
                    (written_key(d, o, h, k), PdfValue::StringLiteral(written_codes(d, o, h, k, n))),
                ],
            ),
        ],
    }
}

/// No word stands where its first byte does not.
proof fn lemma_no_tag(d: Seq<u8>, p: int, tag: Seq<u8>)
    requires
        0 <= p < d.len(),
        tag.len() > 0,
        d[p] != tag[0],
    ensures
        !has_tag(d, p, tag),
{
    if has_tag(d, p, tag) {
        assert(d.subrange(p, p + tag.len())[0] == tag[0]);
    }
}

/// The bytes of `after_number`, one by one.
proof fn lemma_bytes_after_number(d: Seq<u8>, e: int)
    requires
        forall|j: int| 0 <= j < 11 ==> #[trigger] d[e + j] == after_number()[j],
    ensures
        d[e] == 32 && d[e + 1] == 48 && d[e + 2] == 32 && d[e + 3] == 111 && d[e + 4] == 98 && d[e
            + 5] == 106 && d[e + 6] == 10 && d[e + 7] == 60 && d[e + 8] == 60 && d[e + 9] == 32
            && d[e + 10] == 47,
{
    assert(d[e + 0] == after_number()[0]);
    assert(d[e + 1] == after_number()[1]);
    assert(d[e + 2] == after_number()[2]);
    assert(d[e + 3] == after_number()[3]);
    assert(d[e + 4] == after_number()[4]);
    assert(d[e + 5] == after_number()[5]);
    assert(d[e + 6] == after_number()[6]);
    assert(d[e + 7] == after_number()[7]);
    assert(d[e + 8] == after_number()[8]);
    assert(d[e + 9] == after_number()[9]);
    assert(d[e + 10] == after_number()[10]);
}

/// The bytes of `after_text`, one by one.
proof fn lemma_bytes_after_text(d: Seq<u8>, e: int)
    requires
        forall|j: int| 0 <= j < 11 ==> #[trigger] d[e + j] == after_text()[j],
    ensures
        d[e] == 41 && d[e + 1] == 32 && d[e + 2] == 62 && d[e + 3] == 62 && d[e + 4] == 10 && d[e
            + 5] == 101 && d[e + 6] == 110 && d[e + 7] == 100 && d[e + 8] == 111 && d[e + 9]
            == 98 && d[e + 10] == 106,
{
    assert(d[e + 0] == after_text()[0]);
    assert(d[e + 1] == after_text()[1]);
    assert(d[e + 2] == after_text()[2]);
    assert(d[e + 3] == after_text()[3]);
    assert(d[e + 4] == after_text()[4]);
    assert(d[e + 5] == after_text()[5]);
    assert(d[e + 6] == after_text()[6]);
    assert(d[e + 7] == after_text()[7]);
    assert(d[e + 8] == after_text()[8]);
    assert(d[e + 9] == after_text()[9]);
    assert(d[e + 10] == after_text()[10]);
}

/// The inside of the dictionary: the key and the text, up to `>>`.
proof fn lemma_entry_reads(
    d: Seq<u8>,
    xref: Seq<ObjectRef>,
    s: int,
    k: int,
    n: int,
    depth: nat,
)
    requires
        0 <= s && 0 <= k && 0 <= n,
        s + k + n + 7 < d.len(),
        d[s] == 32 && d[s + 1] == 47,
        forall|j: int| s + 1 < j <= s + 1 + k ==> is_name_byte(#[trigger] d[j]),
        d[s + 2 + k] == 32 && d[s + 3 + k] == 40,
        forall|j: int| s + 3 + k < j <= s + 3 + k + n ==> is_plain(#[trigger] d[j]),
        d[s + 4 + k + n] == 41 && d[s + 5 + k + n] == 32 && d[s + 6 + k + n] == 62 && d[s + 7 + k
            + n] == 62,
    ensures
        spec_items(d, xref, s, Seq::empty(), depth, true) == (Parsed::Done {
            pos: s + 8 + k + n,
            stack: seq![
                PdfValue::Name(chars_of_codes(codes_of(d, s + 2, s + 2 + k))),
                PdfValue::StringLiteral(codes_of(d, s + 4 + k, s + 4 + k + n)),
            ],
        }),
{
    let none = Seq::<PdfValue>::empty();
    let name = PdfValue::Name(chars_of_codes(codes_of(d, s + 2, s + 2 + k)));
    let text = PdfValue::StringLiteral(codes_of(d, s + 4 + k, s + 4 + k + n));
    let st1 = none.push(name);
    let st2 = st1.push(text);
    assert(st2 =~= seq![name, text]);
    // `>>`
    lemma_one_space(d, s + 5 + k + n);
    assert(d.subrange(s + 6 + k + n, s + 8 + k + n) =~= tag_dict_end());
    assert(has_tag(d, s + 6 + k + n, tag_dict_end()));
    assert(spec_items(d, xref, s + 5 + k + n, st2, depth, true) == (Parsed::Done {
        pos: s + 8 + k + n,
        stack: st2,
    }));
    // the text
    lemma_one_space(d, s + 2 + k);
    lemma_no_tag(d, s + 3 + k, tag_dict_end());
    lemma_plain_string(d, s + 3 + k, n as nat, st1);
    assert(spec_token(d, xref, s + 3 + k, st1, depth) == spec_string_literal(d, s + 3 + k, st1));
    assert(spec_items(d, xref, s + 2 + k, st1, depth, true) == spec_items(
        d,
        xref,
        s + 5 + k + n,
        st2,
        depth,
        true,
    ));
    // the key
    lemma_one_space(d, s);
    lemma_no_tag(d, s + 1, tag_dict_end());
    lemma_plain_name(d, s + 1, k as nat, none);
    assert(spec_token(d, xref, s + 1, none, depth) == spec_name(d, s + 1, none));
    assert(spec_items(d, xref, s, none, depth, true) == spec_items(
        d,
        xref,
        s + 2 + k,
        st1,
        depth,
        true,
    ));
}

/// The dictionary, from `<<` to `>>`.
proof fn lemma_dictionary_reads(
    d: Seq<u8>,
    xref: Seq<ObjectRef>,
    t: int,
    k: int,
    n: int,
    stack: Seq<PdfValue>,
    depth: nat,
)
    requires
        depth > 0,
        0 <= t && 0 <= k && 0 <= n,
        t + k + n + 9 < d.len(),
        d[t] == 60 && d[t + 1] == 60 && d[t + 2] == 32 && d[t + 3] == 47,
        forall|j: int| t + 3 < j <= t + 3 + k ==> is_name_byte(#[trigger] d[j]),
        d[t + 4 + k] == 32 && d[t + 5 + k] == 40,
        forall|j: int| t + 5 + k < j <= t + 5 + k + n ==> is_plain(#[trigger] d[j]),
        d[t + 6 + k + n] == 41 && d[t + 7 + k + n] == 32 && d[t + 8 + k + n] == 62 && d[t + 9 + k
            + n] == 62,
    ensures
        spec_token(d, xref, t, stack, depth) == (Parsed::Done {
            pos: t + 10 + k + n,
            stack: stack.push(
                PdfValue::Dictionary(
                    seq![
                        (
                            chars_of_codes(codes_of(d, t + 4, t + 4 + k)),
                            PdfValue::StringLiteral(codes_of(d, t + 6 + k, t + 6 + k + n)),
                        ),
                    ],
                ),
            ),
        }),
{
    let name = PdfValue::Name(chars_of_codes(codes_of(d, t + 4, t + 4 + k)));
    let text = PdfValue::StringLiteral(codes_of(d, t + 6 + k, t + 6 + k + n));
    let items = seq![name, text];
    lemma_entry_reads(d, xref, t + 2, k, n, (depth - 1) as nat);
    assert(key_at(items, 0) is Name);
    assert(entries_from(items) is Some);
    assert(entries_from(items)->0 =~= seq![(name->Name_0, text)]);
    assert(spec_token(d, xref, t, stack, depth) == spec_dictionary(d, xref, t, stack, depth));
}

/// The head of the object: its number, its generation and `obj`.
proof fn lemma_head_reads(d: Seq<u8>, xref: Seq<ObjectRef>, o: int, h: int, depth: nat)
    requires
        0 <= o && 1 <= h,
        o + h + 8 < d.len(),
        forall|j: int| o <= j < o + h ==> is_digit(#[trigger] d[j]),
        d[o + h] == 32 && d[o + h + 1] == 48 && d[o + h + 2] == 32 && d[o + h + 3] == 111 && d[o
            + h + 4] == 98 && d[o + h + 5] == 106 && d[o + h + 6] == 10 && d[o + h + 7] == 60,
        decimal_value(d, o, o + h) <= usize::MAX,
        decimal_value(d, o, o + h) <= 0x7fff_ffff_ffff_ffff,
    ensures
        spec_object_items(d, xref, o, Seq::empty(), depth) == spec_object_items(
            d,
            xref,
            o + h + 6,
            seq![PdfValue::ObjectRef(decimal_value(d, o, o + h) as usize)],
            depth,
        ),
{
    let none = Seq::<PdfValue>::empty();
    let number = PdfValue::Integer { value: decimal_value(d, o, o + h) as i64, signed: false };
    let generation = PdfValue::Integer { value: 0, signed: false };
    let st1 = none.push(number);
    let st2 = st1.push(generation);
    let st3 = seq![PdfValue::ObjectRef(decimal_value(d, o, o + h) as usize)];
    // `obj`
    lemma_one_space(d, o + h + 2);
    assert(d.subrange(o + h + 3, o + h + 6) =~= tag_obj());
    assert(has_tag(d, o + h + 3, tag_obj()));
    assert(st2.take(st2.len() - 2) =~= none);
    assert(none.push(PdfValue::ObjectRef(decimal_value(d, o, o + h) as usize)) =~= st3);
    assert(ref_value(st2, o + h + 6, false) == (Parsed::Done { pos: o + h + 6, stack: st3 }));
    assert(spec_token(d, xref, o + h + 3, st2, depth) == spec_object_ref(d, o + h + 3, st2));
    lemma_one_space(d, o + h + 6);
    lemma_no_tag(d, o + h + 7, tag_endobj());
    assert(spec_object_items(d, xref, o + h + 2, st2, depth) == spec_object_items(
        d,
        xref,
        o + h + 6,
        st3,
        depth,
    ));
    // the generation
    lemma_one_space(d, o + h);
    assert(decimal_value(d, o + h + 1, o + h + 1) == 0);
    assert(decimal_value(d, o + h + 1, o + h + 2) == 0);
    assert forall|j: int| o + h + 1 <= j < o + h + 2 implies is_digit(#[trigger] d[j]) by {
        assert(j == o + h + 1);
    }
    lemma_plain_integer(d, o + h + 1, o + h + 2, st1);
    assert(spec_token(d, xref, o + h + 1, st1, depth) == spec_numeric(d, o + h + 1, st1));
    lemma_no_tag(d, o + h + 3, tag_endobj());
    assert(spec_object_items(d, xref, o + h, st1, depth) == spec_object_items(
        d,
        xref,
        o + h + 2,
        st2,
        depth,
    ));
    // the number
    assert(is_digit(d[o]));
    assert(skip_ws(d, o) == o);
    lemma_plain_integer(d, o, o + h, none);
    assert(spec_token(d, xref, o, none, depth) == spec_numeric(d, o, none));
    lemma_no_tag(d, o + h + 1, tag_endobj());
    assert(spec_object_items(d, xref, o, none, depth) == spec_object_items(
        d,
        xref,
        o + h,
        st1,
        depth,
    ));
}

/// The body of the object: the dictionary, and `endobj` after it.
proof fn lemma_body_reads(
    d: Seq<u8>,
    xref: Seq<ObjectRef>,
    o: int,
    h: int,
    k: int,
    n: int,
    stack: Seq<PdfValue>,
    depth: nat,
)
    requires
        depth > 0,
        holds_object(d, o, h, k, n),
    ensures
        spec_object_items(d, xref, o + h + 6, stack, depth) == (Parsed::Done {
            pos: o + h + 18 + k + n,
            stack: stack.push(
                PdfValue::Dictionary(
                    seq![
                        (
                            written_key(d, o, h, k),
                            PdfValue::StringLiteral(written_codes(d, o, h, k, n)),
                        ),
                    ],
                ),
            ),
        }),
{
    let t = o + h + 7;
    lemma_bytes_after_number(d, o + h);
    lemma_bytes_after_text(d, o + h + 13 + k + n);
    lemma_one_space(d, o + h + 6);
    lemma_dictionary_reads(d, xref, t, k, n, stack, depth);
    lemma_one_space(d, t + 10 + k + n);
    assert(d.subrange(t + 11 + k + n, t + 17 + k + n) =~= tag_endobj());
    assert(has_tag(d, t + 11 + k + n, tag_endobj()));
}

/// An object with one text under one key reads as it is written: it holds
/// its number, and a dictionary with the codes of the text under the key.
pub proof fn lemma_object_reads_as_written(
    d: Seq<u8>,
    xref: Seq<ObjectRef>,
    o: int,
    h: int,
    k: int,
    n: int,
)
    requires
        holds_object(d, o, h, k, n),
        written_number(d, o, h) <= usize::MAX,
        written_number(d, o, h) <= 0x7fff_ffff_ffff_ffff,
    ensures
        spec_object(d, xref, o, MAX_DEPTH as nat) == Ok::<PdfValue, PdfError>(
            written_value(d, o, h, k, n),
        ),
        text_under(written_value(d, o, h, k, n), written_key(d, o, h, k)) == Some(
            chars_of_codes(written_codes(d, o, h, k, n)),
        ),
{
    let depth = MAX_DEPTH as nat;
    let head = seq![PdfValue::ObjectRef(written_number(d, o, h) as usize)];
    let codes = written_codes(d, o, h, k, n);
    let entry = PdfValue::Dictionary(
        seq![(written_key(d, o, h, k), PdfValue::StringLiteral(codes))],
    );
    lemma_bytes_after_number(d, o + h);
    lemma_head_reads(d, xref, o, h, depth);
    lemma_body_reads(d, xref, o, h, k, n, head, depth);
    assert(head.push(entry) =~= seq![head[0], entry]);
    assert forall|i: int| 0 <= i < codes.len() implies 32 <= #[trigger] codes[i] <= 126 by {
        assert(is_plain(d[o + h + 13 + k + i]));
    }
    let entries = seq![(written_key(d, o, h, k), PdfValue::StringLiteral(codes))];
    assert(entry_lookup(entries, written_key(d, o, h, k)) == Some(
        PdfValue::StringLiteral(codes),
    ));
    lemma_plain_text_under(written_value(d, o, h, k, n), written_key(d, o, h, k), codes);
}

/// Looking up an object that the table places where such an object is
/// written gives the object, and the text under its key reads as written.
/// With the number of the information dictionary, this is what
/// `Document::get_info` gives for the key.
pub proof fn lemma_lookup_reads_as_written(
    store: Store,
    obj_id: usize,
    h: int,
    k: int,
    n: int,
)
    requires
        obj_id < store.xref.len(),
        store.xref[obj_id as int].compressed == 1,
        holds_object(store.data, store.xref[obj_id as int].xref as int, h, k, n),
        written_number(store.data, store.xref[obj_id as int].xref as int, h) <= usize::MAX,
        written_number(store.data, store.xref[obj_id as int].xref as int, h)
            <= 0x7fff_ffff_ffff_ffff,
    ensures
        ({
            let o = store.xref[obj_id as int].xref as int;
            let found = spec_get_object(store, obj_id, MAX_UNPACK as nat);
            &&& found == (Found {
                object: Some(written_value(store.data, o, h, k, n)),
                store,
            })
            &&& text_under(found.object->0, written_key(store.data, o, h, k)) == Some(
                chars_of_codes(written_codes(store.data, o, h, k, n)),
            )
        }),
{
    let o = store.xref[obj_id as int].xref as int;
    lemma_object_reads_as_written(store.data, store.xref, o, h, k, n);
}

} // verus!
