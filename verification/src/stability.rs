//! Reading does not depend on what is added to the data later: the offsets that
//! the cross-reference table gives stay good while object streams are unpacked.

use crate::cursor::{decimal_value, has_tag, is_whitespace, skip_ws};
use crate::tokens::{
    count_digits, count_points, escape_at, eol_run_end, hex_scan, is_numeric_byte, literal_scan,
    name_scan, numeric_end, spec_const, spec_hex_string, spec_name, spec_numeric, spec_object_ref,
    spec_string_literal, Escaped, Parsed,
};
use crate::document::ObjectRef;
use crate::error::PdfError;
use crate::objects::{
    header_numbers, held_by, object_in, spec_get_object, spec_pending_length, spec_read_placed,
    spec_unpack, synthesized, unpack_pairs, Found, Store,
};
use crate::parser::MAX_DEPTH;
use crate::pdf_object::{dict_value, index_of};
use crate::streams::spec_decoded_stream;
use crate::parser::{
    spec_items, spec_object, spec_object_items, spec_resolve, spec_stream, spec_token,
};
use crate::pdf_object::PdfValue;
use vstd::prelude::*;

verus! {

/// Whether `wider` is `data` with bytes added at its end.
pub open spec fn extends(data: Seq<u8>, wider: Seq<u8>) -> bool {
    &&& data.len() <= wider.len()
    &&& forall|i: int| 0 <= i < data.len() ==> #[trigger] wider[i] == data[i]
}

/// White space that ends before the end of the data ends at the same place when
/// bytes are added.
pub proof fn lemma_skip_ws_stable(data: Seq<u8>, wider: Seq<u8>, i: int)
    requires
        extends(data, wider),
        0 <= i,
        skip_ws(data, i) < data.len(),
    ensures
        skip_ws(wider, i) == skip_ws(data, i),
    decreases data.len() - i,
{
    if 0 <= i < data.len() && is_whitespace(data[i]) {
        lemma_skip_ws_stable(data, wider, i + 1);
    }
}

/// A word that stands in the data stands there when bytes are added.
pub proof fn lemma_tag_stable(data: Seq<u8>, wider: Seq<u8>, p: int, tag: Seq<u8>)
    requires
        extends(data, wider),
        has_tag(data, p, tag),
    ensures
        has_tag(wider, p, tag),
{
    assert(wider.subrange(p, p + tag.len()) =~= data.subrange(p, p + tag.len()));
}

/// A word that differs from the data in a byte that the data holds does not
/// stand there when bytes are added.
pub proof fn lemma_no_tag_stable(data: Seq<u8>, wider: Seq<u8>, p: int, tag: Seq<u8>, k: int)
    requires
        extends(data, wider),
        0 <= k < tag.len(),
        0 <= p,
        p + k < data.len(),
        data[p + k] != tag[k],
    ensures
        !has_tag(wider, p, tag),
{
    if has_tag(wider, p, tag) {
        assert(wider.subrange(p, p + tag.len())[k] == tag[k]);
    }
}

/// A number that ends before the end of the data ends at the same place when
/// bytes are added.
proof fn lemma_numeric_end_stable(data: Seq<u8>, wider: Seq<u8>, i: int)
    requires
        extends(data, wider),
        0 <= i,
        numeric_end(data, i) < data.len(),
    ensures
        numeric_end(wider, i) == numeric_end(data, i),
        i <= numeric_end(data, i),
    decreases data.len() - i,
{
    if 0 <= i < data.len() && is_numeric_byte(data[i]) {
        lemma_numeric_end_stable(data, wider, i + 1);
    }
}

/// What is counted within the data does not change when bytes are added.
proof fn lemma_counts_stable(data: Seq<u8>, wider: Seq<u8>, from: int, to: int)
    requires
        extends(data, wider),
        0 <= from,
        to <= data.len(),
    ensures
        count_digits(wider, from, to) == count_digits(data, from, to),
        count_points(wider, from, to) == count_points(data, from, to),
        decimal_value(wider, from, to) == decimal_value(data, from, to),
    decreases to - from,
{
    if from < to {
        lemma_counts_stable(data, wider, from, to - 1);
    }
}

/// A number that ends before the end of the data reads the same when bytes
/// are added to the data.
pub proof fn lemma_numeric_stable(data: Seq<u8>, wider: Seq<u8>, p: int, stack: Seq<PdfValue>)
    requires
        extends(data, wider),
        0 <= p < data.len(),
        numeric_end(data, p) < data.len(),
    ensures
        spec_numeric(wider, p, stack) == spec_numeric(data, p, stack),
{
    lemma_numeric_end_stable(data, wider, p);
    let end = numeric_end(data, p);
    if is_numeric_byte(data[p]) {
        lemma_numeric_end_stable(data, wider, p + 1);
    }
    lemma_counts_stable(data, wider, p, end);
    lemma_counts_stable(data, wider, p + 1, end);
    assert(wider.subrange(p, end) =~= data.subrange(p, end));
}

/// A constant that is read reads the same when bytes are added.
pub proof fn lemma_const_stable(data: Seq<u8>, wider: Seq<u8>, p: int, stack: Seq<PdfValue>)
    requires
        extends(data, wider),
        spec_const(data, p, stack) is Done,
    ensures
        spec_const(wider, p, stack) == spec_const(data, p, stack),
{
    let null = crate::tags::tag_null();
    let yes = crate::tags::tag_true();
    let no = crate::tags::tag_false();
    if has_tag(data, p, null) {
        lemma_tag_stable(data, wider, p, null);
    } else if has_tag(data, p, yes) {
        lemma_tag_stable(data, wider, p, yes);
        assert(data.subrange(p, p + 4)[0] == yes[0]);
        lemma_no_tag_stable(data, wider, p, null, 0);
    } else {
        lemma_tag_stable(data, wider, p, no);
        assert(data.subrange(p, p + 5)[0] == no[0]);
        lemma_no_tag_stable(data, wider, p, null, 0);
        lemma_no_tag_stable(data, wider, p, yes, 0);
    }
}

/// See `lemma_name_stable`.
proof fn lemma_name_scan_stable(data: Seq<u8>, wider: Seq<u8>, i: int, codes: Seq<u32>)
    requires
        extends(data, wider),
        0 <= i,
        name_scan(data, i, codes) is Done,
        name_scan(data, i, codes)->Done_pos < data.len(),
    ensures
        name_scan(wider, i, codes) == name_scan(data, i, codes),
    decreases data.len() - i,
{
    if i < data.len() {
        if data[i] == 35 {
            lemma_name_scan_stable(
                data,
                wider,
                i + 3,
                codes.push(crate::tokens::hex_pair(data[i + 1], data[i + 2])),
            );
        } else if crate::cursor::delimiter_byte(data[i]) {
        } else {
            lemma_name_scan_stable(data, wider, i + 1, codes.push(data[i] as u32));
        }
    }
}

/// A name that ends before the end of the data reads the same when bytes
/// are added.
pub proof fn lemma_name_stable(data: Seq<u8>, wider: Seq<u8>, p: int, stack: Seq<PdfValue>)
    requires
        extends(data, wider),
        0 <= p,
        spec_name(data, p, stack) is Done,
        spec_name(data, p, stack)->Done_pos < data.len(),
    ensures
        spec_name(wider, p, stack) == spec_name(data, p, stack),
{
    lemma_name_scan_stable(data, wider, p + 1, Seq::empty());
}

/// See `lemma_hex_string_stable`.
proof fn lemma_hex_scan_stable(data: Seq<u8>, wider: Seq<u8>, i: int, codes: Seq<u32>)
    requires
        extends(data, wider),
        0 <= i,
        hex_scan(data, i, codes) is Done,
    ensures
        hex_scan(wider, i, codes) == hex_scan(data, i, codes),
    decreases data.len() - i,
{
    if i < data.len() && crate::pdf_object::is_hex_digit(data[i]) {
        if i + 1 < data.len() && crate::pdf_object::is_hex_digit(data[i + 1]) {
            lemma_hex_scan_stable(
                data,
                wider,
                i + 2,
                codes.push(crate::tokens::hex_pair(data[i], data[i + 1])),
            );
        } else {
            lemma_hex_scan_stable(
                data,
                wider,
                i + 1,
                codes.push(crate::tokens::hex_pair(data[i], 48)),
            );
        }
    }
}

/// A hexadecimal string that is read reads the same when bytes are added.
pub proof fn lemma_hex_string_stable(data: Seq<u8>, wider: Seq<u8>, p: int, stack: Seq<PdfValue>)
    requires
        extends(data, wider),
        0 <= p,
        spec_hex_string(data, p, stack) is Done,
    ensures
        spec_hex_string(wider, p, stack) == spec_hex_string(data, p, stack),
{
    lemma_hex_scan_stable(data, wider, p + 1, Seq::empty());
}

/// A run of line breaks that ends before the end of the data ends at the same
/// place when bytes are added.
proof fn lemma_eol_run_stable(data: Seq<u8>, wider: Seq<u8>, i: int)
    requires
        extends(data, wider),
        0 <= i,
        eol_run_end(data, i) < data.len(),
    ensures
        eol_run_end(wider, i) == eol_run_end(data, i),
    decreases data.len() - i,
{
    if i < data.len() && crate::cursor::is_eol(data[i]) {
        lemma_eol_run_stable(data, wider, i + 1);
    }
}

/// An escape that is followed by a byte of the data is the same when bytes are
/// added.
proof fn lemma_escape_stable(data: Seq<u8>, wider: Seq<u8>, i: int)
    requires
        extends(data, wider),
        0 <= i < data.len(),
        match escape_at(data, i) {
            Escaped::Code { code, pos } => pos + 1 < data.len(),
            Escaped::Nothing { pos } => pos + 1 < data.len(),
            Escaped::Bad => true,
        },
    ensures
        escape_at(wider, i) == escape_at(data, i),
{
    if crate::cursor::is_eol(data[i]) {
        lemma_eol_run_stable(data, wider, i);
    }
}

/// See `lemma_string_stable`.
proof fn lemma_literal_scan_stable(
    data: Seq<u8>,
    wider: Seq<u8>,
    i: int,
    depth: nat,
    codes: Seq<u32>,
    broken: bool,
)
    requires
        extends(data, wider),
        0 <= i,
        literal_scan(data, i, depth, codes, broken) is Done,
    ensures
        literal_scan(wider, i, depth, codes, broken) == literal_scan(
            data,
            i,
            depth,
            codes,
            broken,
        ),
    decreases data.len() - i,
{
    let j = i + 1;
    if j < data.len() {
        if data[j] == 92 {
            if broken {
                lemma_literal_scan_stable(data, wider, j + 1, depth, codes, broken);
            } else {
                if j + 1 < data.len() {
                    match escape_at(data, j + 1) {
                        Escaped::Code { code, pos } => {
                            if i < pos < data.len() {
                                lemma_literal_scan_stable(
                                    data,
                                    wider,
                                    pos,
                                    depth,
                                    codes.push(code),
                                    false,
                                );
                                lemma_escape_stable(data, wider, j + 1);
                            }
                        },
                        Escaped::Nothing { pos } => {
                            if i < pos < data.len() {
                                lemma_literal_scan_stable(data, wider, pos, depth, codes, false);
                                lemma_escape_stable(data, wider, j + 1);
                            }
                        },
                        Escaped::Bad => {
                            lemma_literal_scan_stable(data, wider, j + 1, depth, codes, true);
                            lemma_escape_stable(data, wider, j + 1);
                        },
                    }
                } else {
                    assert(escape_at(data, j + 1) is Bad);
                    assert(literal_scan(data, j + 1, depth, codes, true) is Failed);
                }
            }
        } else if data[j] == 41 && depth <= 1 {
        } else {
            let kept = if broken {
                codes
            } else {
                codes.push(data[j] as u32)
            };
            let open = if data[j] == 40 {
                depth + 1
            } else if data[j] == 41 {
                (depth - 1) as nat
            } else {
                depth
            };
            lemma_literal_scan_stable(data, wider, j, open, kept, broken);
        }
    }
}

/// A string that is read reads the same when bytes are added.
pub proof fn lemma_string_stable(data: Seq<u8>, wider: Seq<u8>, p: int, stack: Seq<PdfValue>)
    requires
        extends(data, wider),
        0 <= p,
        spec_string_literal(data, p, stack) is Done,
    ensures
        spec_string_literal(wider, p, stack) == spec_string_literal(data, p, stack),
{
    lemma_literal_scan_stable(data, wider, p, 1, Seq::empty(), false);
}

/// The end of a reference or of an object head that is read reads the same
/// when bytes are added.
pub proof fn lemma_object_ref_stable(data: Seq<u8>, wider: Seq<u8>, p: int, stack: Seq<PdfValue>)
    requires
        extends(data, wider),
        0 <= p < data.len(),
        spec_object_ref(data, p, stack) is Done,
    ensures
        spec_object_ref(wider, p, stack) == spec_object_ref(data, p, stack),
{
    if data[p] != 82 {
        lemma_tag_stable(data, wider, p, crate::tags::tag_obj());
    }
}

/// Whether every object that the table places in the data is placed at
/// the same offset by the other table.
pub open spec fn keeps_placed(xref: Seq<ObjectRef>, other: Seq<ObjectRef>) -> bool {
    &&& xref.len() == other.len()
    &&& forall|j: int|
        0 <= j < xref.len() && (#[trigger] xref[j]).compressed == 1 ==> other[j] == xref[j]
}

/// A value that ends before the end of the data reads the same when bytes
/// are added to the data and objects that were not placed are placed.
pub proof fn lemma_token_stable(
    data: Seq<u8>,
    wider: Seq<u8>,
    xref: Seq<ObjectRef>,
    other: Seq<ObjectRef>,
    p: int,
    stack: Seq<PdfValue>,
    depth: nat,
)
    requires
        extends(data, wider),
        keeps_placed(xref, other),
        spec_token(data, xref, p, stack, depth) is Done,
        spec_token(data, xref, p, stack, depth)->Done_pos < data.len(),
    ensures
        spec_token(wider, other, p, stack, depth) == spec_token(data, xref, p, stack, depth),
    decreases depth, data.len() - p, 2int,
{
    if 0 <= p < data.len() {
        if is_numeric_byte(data[p]) {
            lemma_numeric_stable(data, wider, p, stack);
        } else if data[p] == 91 {
            if depth > 0 {
                lemma_items_stable(
                    data,
                    wider,
                    xref,
                    other,
                    p + 1,
                    Seq::empty(),
                    (depth - 1) as nat,
                    false,
                );
            }
        } else if data[p] == 60 {
            if p + 1 < data.len() && data[p + 1] == 60 {
                if depth > 0 {
                    lemma_items_stable(
                        data,
                        wider,
                        xref,
                        other,
                        p + 2,
                        Seq::empty(),
                        (depth - 1) as nat,
                        true,
                    );
                }
            } else {
                if p + 1 >= data.len() {
                    assert(hex_scan(data, p + 1, Seq::empty()) is Failed);
                }
                lemma_hex_string_stable(data, wider, p, stack);
            }
        } else if data[p] == 40 {
            lemma_string_stable(data, wider, p, stack);
        } else if data[p] == 47 {
            lemma_name_stable(data, wider, p, stack);
        } else if data[p] == 110 || data[p] == 116 || data[p] == 102 {
            lemma_const_stable(data, wider, p, stack);
        } else if data[p] == 82 || data[p] == 111 {
            lemma_object_ref_stable(data, wider, p, stack);
        } else if data[p] == 115 {
            lemma_stream_stable(data, wider, xref, other, p, stack, depth);
        }
    }
}

/// See `lemma_token_stable`.
pub proof fn lemma_items_stable(
    data: Seq<u8>,
    wider: Seq<u8>,
    xref: Seq<ObjectRef>,
    other: Seq<ObjectRef>,
    pos: int,
    items: Seq<PdfValue>,
    depth: nat,
    in_dict: bool,
)
    requires
        extends(data, wider),
        keeps_placed(xref, other),
        spec_items(data, xref, pos, items, depth, in_dict) is Done,
    ensures
        spec_items(wider, other, pos, items, depth, in_dict) == spec_items(
            data,
            xref,
            pos,
            items,
            depth,
            in_dict,
        ),
    decreases depth, data.len() - pos, 3int,
{
    let q = skip_ws(data, pos);
    if !(pos < 0 || q < pos || q >= data.len()) {
        lemma_skip_ws_stable(data, wider, pos);
        if !in_dict && data[q] == 93 {
        } else if in_dict && has_tag(data, q, crate::tags::tag_dict_end()) {
            lemma_tag_stable(data, wider, q, crate::tags::tag_dict_end());
        } else {
            match spec_token(data, xref, q, items, depth) {
                Parsed::Done { pos: next, stack: more } => {
                    if q < next <= data.len() {
                        crate::cursor::lemma_skip_ws(data, next);
                        assert(spec_items(data, xref, next, more, depth, in_dict) is Done);
                        assert(skip_ws(data, next) < data.len());
                        lemma_token_stable(data, wider, xref, other, q, items, depth);
                        lemma_items_stable(data, wider, xref, other, next, more, depth, in_dict);
                        if in_dict {
                            if data[q] == 62 {
                                if q + 1 < data.len() {
                                    let t = crate::tags::tag_dict_end();
                                    if data[q + 1] == 62 {
                                        assert(data.subrange(q, q + 2) =~= t);
                                    }
                                    lemma_no_tag_stable(data, wider, q, t, 1);
                                }
                            } else {
                                lemma_no_tag_stable(
                                    data,
                                    wider,
                                    q,
                                    crate::tags::tag_dict_end(),
                                    0,
                                );
                            }
                        }
                    }
                },
                Parsed::Failed { .. } => {},
            }
        }
    }
}

/// See `lemma_token_stable`.
pub proof fn lemma_stream_stable(
    data: Seq<u8>,
    wider: Seq<u8>,
    xref: Seq<ObjectRef>,
    other: Seq<ObjectRef>,
    p: int,
    stack: Seq<PdfValue>,
    depth: nat,
)
    requires
        extends(data, wider),
        keeps_placed(xref, other),
        spec_stream(data, xref, p, stack, depth) is Done,
    ensures
        spec_stream(wider, other, p, stack, depth) == spec_stream(data, xref, p, stack, depth),
    decreases depth, data.len() - p, 1int,
{
    if !(p < 0 || p >= data.len() || !has_tag(data, p, crate::tags::tag_stream())) {
        lemma_tag_stable(data, wider, p, crate::tags::tag_stream());
        let start = crate::parser::stream_data_start(data, p + 6);
        if stack.len() > 0 {
            match crate::pdf_object::dict_value(stack.last(), "Length"@) {
                None => {},
                Some(length) => match spec_resolve(data, xref, length, depth) {
                    None => {},
                    Some(size) => {
                        lemma_resolve_stable(data, wider, xref, other, length, depth);
                        let end = skip_ws(data, start + size);
                        crate::cursor::lemma_skip_ws(data, start + size);
                        if has_tag(data, end, crate::tags::tag_endstream()) {
                            lemma_skip_ws_stable(data, wider, start + size);
                            lemma_tag_stable(data, wider, end, crate::tags::tag_endstream());
                        }
                    },
                },
            }
        }
    }
}

/// A number that is resolved resolves to the same when bytes are added to
/// the data and objects that were not placed are placed.
pub proof fn lemma_resolve_stable(
    data: Seq<u8>,
    wider: Seq<u8>,
    xref: Seq<ObjectRef>,
    other: Seq<ObjectRef>,
    v: PdfValue,
    depth: nat,
)
    requires
        extends(data, wider),
        keeps_placed(xref, other),
        spec_resolve(data, xref, v, depth) is Some,
    ensures
        spec_resolve(wider, other, v, depth) == spec_resolve(data, xref, v, depth),
    decreases depth, 0int, 0int,
{
    match v {
        PdfValue::IndirectObject(id) => {
            if !(depth == 0 || id >= xref.len() || xref[id as int].compressed != 1) {
                assert(other[id as int] == xref[id as int]);
                lemma_object_items_stable(
                    data,
                    wider,
                    xref,
                    other,
                    xref[id as int].xref as int,
                    Seq::empty(),
                    (depth - 1) as nat,
                );
            }
        },
        _ => {},
    }
}

/// What an object holds reads the same when bytes are added to the data and
/// objects that were not placed are placed.
pub proof fn lemma_object_items_stable(
    data: Seq<u8>,
    wider: Seq<u8>,
    xref: Seq<ObjectRef>,
    other: Seq<ObjectRef>,
    pos: int,
    stack: Seq<PdfValue>,
    depth: nat,
)
    requires
        extends(data, wider),
        keeps_placed(xref, other),
        spec_object_items(data, xref, pos, stack, depth) is Done,
    ensures
        spec_object_items(wider, other, pos, stack, depth) == spec_object_items(
            data,
            xref,
            pos,
            stack,
            depth,
        ),
    decreases depth, data.len() - pos, 3int,
{
    let q = skip_ws(data, pos);
    if !(pos < 0 || q < pos || q >= data.len()) {
        lemma_skip_ws_stable(data, wider, pos);
        match spec_token(data, xref, q, stack, depth) {
            Parsed::Done { pos: next, stack: more } => {
                if q < next <= data.len() {
                    let e = skip_ws(data, next);
                    crate::cursor::lemma_skip_ws(data, next);
                    let tag = crate::tags::tag_endobj();
                    if has_tag(data, e, tag) {
                        lemma_token_stable(data, wider, xref, other, q, stack, depth);
                        lemma_skip_ws_stable(data, wider, next);
                        lemma_tag_stable(data, wider, e, tag);
                    } else {
                        assert(spec_object_items(data, xref, next, more, depth) is Done);
                        assert(e < data.len());
                        lemma_token_stable(data, wider, xref, other, q, stack, depth);
                        lemma_skip_ws_stable(data, wider, next);
                        lemma_object_items_stable(data, wider, xref, other, next, more, depth);
                        assert(spec_token(data, xref, e, more, depth) is Done);
                        lemma_no_tag_stable(data, wider, e, tag, 0);
                    }
                }
            },
            Parsed::Failed { .. } => {},
        }
    }
}

/// An object that reads reads the same when bytes are added to the data and
/// objects that were not placed are placed: the offsets that the table
/// gives stay good.
pub proof fn lemma_object_stable(
    data: Seq<u8>,
    wider: Seq<u8>,
    xref: Seq<ObjectRef>,
    other: Seq<ObjectRef>,
    index: int,
    depth: nat,
)
    requires
        extends(data, wider),
        keeps_placed(xref, other),
        spec_object(data, xref, index, depth) is Ok,
    ensures
        spec_object(wider, other, index, depth) == spec_object(data, xref, index, depth),
{
    lemma_object_items_stable(data, wider, xref, other, index, Seq::empty(), depth);
}

/// Whether the data only grew at its end and every object that was placed
/// in the data stayed where it was.
pub open spec fn grows(before: Store, after: Store) -> bool {
    extends(before.data, after.data) && keeps_placed(before.xref, after.xref)
}

/// Growing goes on from store to store.
pub proof fn lemma_grows_chain(a: Store, b: Store, c: Store)
    requires
        grows(a, b),
        grows(b, c),
    ensures
        grows(a, c),
{
    assert forall|i: int| 0 <= i < a.data.len() implies #[trigger] c.data[i] == a.data[i] by {
        assert(b.data[i] == a.data[i]);
    }
    assert forall|j: int| 0 <= j < a.xref.len() && (#[trigger] a.xref[j]).compressed
        == 1 implies c.xref[j] == a.xref[j] by {
        assert(b.xref[j] == a.xref[j]);
    }
}

/// Taking objects out of an object stream adds to the data and moves no
/// object that was placed.
pub proof fn lemma_unpack_pairs_grows(
    store: Store,
    decoded: Seq<u8>,
    nums: Seq<usize>,
    first: usize,
    stream_id: usize,
    ix: int,
)
    ensures
        grows(store, unpack_pairs(store, decoded, nums, first, stream_id, ix)),
    decreases nums.len() + 2 - ix,
{
    if !(ix < 1 || ix >= nums.len()) {
        let id = nums[ix - 1];
        let from = nums[ix] + first;
        let to = if ix + 2 < nums.len() {
            nums[ix + 2] + first
        } else {
            decoded.len() as int
        };
        let next = if held_by(store.xref, id, stream_id) && from <= to <= decoded.len()
            && store.data.len() + synthesized(id, decoded.subrange(from, to)).len()
            <= usize::MAX {
            Store {
                data: store.data + synthesized(id, decoded.subrange(from, to)),
                xref: store.xref.update(
                    id as int,
                    ObjectRef { compressed: 1, xref: store.data.len() as usize, _version: 0 },
                ),
            }
        } else {
            store
        };
        assert(grows(store, next));
        lemma_unpack_pairs_grows(next, decoded, nums, first, stream_id, ix + 2);
        lemma_grows_chain(
            store,
            next,
            unpack_pairs(next, decoded, nums, first, stream_id, ix + 2),
        );
    }
}

/// Looking up an object adds to the data and moves no object that was
/// placed.
pub proof fn lemma_get_object_grows(store: Store, obj_id: usize, fuel: nat)
    ensures
        grows(store, spec_get_object(store, obj_id, fuel).store),
    decreases fuel, 2int,
{
    if obj_id < store.xref.len() {
        if store.xref[obj_id as int].compressed == 1 {
            lemma_read_placed_grows(store, obj_id, fuel);
        } else if store.xref[obj_id as int].compressed == 2 {
            lemma_unpack_grows(store, store.xref[obj_id as int].xref, fuel);
            let after = spec_unpack(store, store.xref[obj_id as int].xref, fuel);
            if obj_id < after.xref.len() && after.xref[obj_id as int].compressed == 1 {
                lemma_read_placed_grows(after, obj_id, fuel);
                lemma_grows_chain(store, after, spec_read_placed(after, obj_id, fuel).store);
            }
        }
    }
}

/// Reading an object that is placed adds to the data and moves no object
/// that was placed.
pub proof fn lemma_read_placed_grows(store: Store, obj_id: usize, fuel: nat)
    ensures
        grows(store, spec_read_placed(store, obj_id, fuel).store),
    decreases fuel, 1int,
{
    let offset = store.xref[obj_id as int].xref;
    match spec_object(store.data, store.xref, offset as int, MAX_DEPTH as nat) {
        Ok(obj) => {},
        Err(e) => if e == PdfError::StreamError {
            match spec_pending_length(store, offset) {
                Some(length_id) => {
                    lemma_unpack_grows(store, store.xref[length_id as int].xref, fuel);
                },
                None => {},
            }
        },
    }
}

/// An object that was found is placed in the data and reads there.
pub proof fn lemma_found_is_placed(store: Store, obj_id: usize, fuel: nat)
    requires
        spec_get_object(store, obj_id, fuel).object is Some,
    ensures
        ({
            let found = spec_get_object(store, obj_id, fuel);
            &&& obj_id < found.store.xref.len()
            &&& found.store.xref[obj_id as int].compressed == 1
            &&& object_in(found.store, obj_id) == found.object
        }),
{
    if store.xref[obj_id as int].compressed == 1 {
        lemma_read_is_placed(store, obj_id, fuel);
    } else {
        let after = spec_unpack(store, store.xref[obj_id as int].xref, fuel);
        lemma_read_is_placed(after, obj_id, fuel);
    }
}

/// See `lemma_found_is_placed`.
pub proof fn lemma_read_is_placed(store: Store, obj_id: usize, fuel: nat)
    requires
        obj_id < store.xref.len(),
        store.xref[obj_id as int].compressed == 1,
        spec_read_placed(store, obj_id, fuel).object is Some,
    ensures
        ({
            let found = spec_read_placed(store, obj_id, fuel);
            &&& obj_id < found.store.xref.len()
            &&& found.store.xref[obj_id as int].compressed == 1
            &&& object_in(found.store, obj_id) == found.object
        }),
{
    lemma_read_placed_grows(store, obj_id, fuel);
    let found = spec_read_placed(store, obj_id, fuel);
    assert(found.store.xref[obj_id as int] == store.xref[obj_id as int]);
}

/// Unpacking an object stream adds to the data and moves no object that
/// was placed.
pub proof fn lemma_unpack_grows(store: Store, stream_id: usize, fuel: nat)
    ensures
        grows(store, spec_unpack(store, stream_id, fuel)),
    decreases fuel, 0int,
{
    if fuel > 0 {
        let found = spec_get_object(store, stream_id, (fuel - 1) as nat);
        lemma_get_object_grows(store, stream_id, (fuel - 1) as nat);
        match found.object {
            None => {},
            Some(stream_obj) => {
                match dict_value(stream_obj, "Extends"@) {
                    Some(ext) => match index_of(ext) {
                        Some(ext_id) => {
                            lemma_unpack_grows(found.store, ext_id, (fuel - 1) as nat);
                            let base = spec_unpack(found.store, ext_id, (fuel - 1) as nat);
                            lemma_grows_chain(store, found.store, base);
                            lemma_unpack_rest_grows(base, stream_obj, stream_id);
                            lemma_grows_chain(
                                store,
                                base,
                                spec_unpack(store, stream_id, fuel),
                            );
                        },
                        None => {},
                    },
                    None => {
                        lemma_unpack_rest_grows(found.store, stream_obj, stream_id);
                        lemma_grows_chain(
                            store,
                            found.store,
                            spec_unpack(store, stream_id, fuel),
                        );
                    },
                }
            },
        }
    }
}

/// What unpacking does once the stream and the stream that it extends are
/// at hand.
pub open spec fn unpack_rest(base: Store, stream_obj: PdfValue, stream_id: usize) -> Store {
    match dict_value(stream_obj, "First"@) {
        None => base,
        Some(fv) => match (index_of(fv), spec_decoded_stream(base.data, base.xref, stream_obj)) {
            (Some(first), Some(decoded)) => unpack_pairs(
                base,
                decoded,
                header_numbers(decoded, 0, first as int, Seq::empty()),
                first,
                stream_id,
                1,
            ),
            _ => base,
        },
    }
}

/// See `lemma_unpack_grows`.
proof fn lemma_unpack_rest_grows(base: Store, stream_obj: PdfValue, stream_id: usize)
    ensures
        grows(base, unpack_rest(base, stream_obj, stream_id)),
{
    match dict_value(stream_obj, "First"@) {
        None => {},
        Some(fv) => match (index_of(fv), spec_decoded_stream(base.data, base.xref, stream_obj)) {
            (Some(first), Some(decoded)) => {
                lemma_unpack_pairs_grows(
                    base,
                    decoded,
                    header_numbers(decoded, 0, first as int, Seq::empty()),
                    first,
                    stream_id,
                    1,
                );
            },
            _ => {},
        },
    }
}

/// An object that is placed in the data and reads there is found again, the
/// same, whatever was added to the data since: looking it up changes
/// nothing.
pub proof fn lemma_placed_object_stays(store: Store, after: Store, obj_id: usize, fuel: nat)
    requires
        grows(store, after),
        obj_id < store.xref.len(),
        store.xref[obj_id as int].compressed == 1,
        object_in(store, obj_id) is Some,
    ensures
        spec_get_object(after, obj_id, fuel) == (Found {
            object: object_in(store, obj_id),
            store: after,
        }),
{
    assert(after.xref[obj_id as int] == store.xref[obj_id as int]);
    lemma_object_stable(
        store.data,
        after.data,
        store.xref,
        after.xref,
        store.xref[obj_id as int].xref as int,
        MAX_DEPTH as nat,
    );
}

/// An object that was found is found again, the same, after any other
/// object has been looked up; the second lookup of it changes nothing.
pub proof fn lemma_lookups_keep_objects(store: Store, first: usize, second: usize, fuel: nat)
    requires
        spec_get_object(store, first, fuel).object is Some,
    ensures
        ({
            let one = spec_get_object(store, first, fuel);
            let two = spec_get_object(one.store, second, fuel);
            spec_get_object(two.store, first, fuel) == (Found {
                object: one.object,
                store: two.store,
            })
        }),
{
    let one = spec_get_object(store, first, fuel);
    lemma_found_is_placed(store, first, fuel);
    lemma_get_object_grows(one.store, second, fuel);
    let two = spec_get_object(one.store, second, fuel);
    lemma_placed_object_stays(one.store, two.store, first, fuel);
}

} // verus!
