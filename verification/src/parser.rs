//! Reading values that nest: arrays, dictionaries, streams, and whole objects.

use crate::cursor::{has_tag, lemma_skip_ws, skip_whitespace, skip_ws};
use crate::document::ObjectRef;
use crate::error::PdfError;
use crate::pdf_object::{
    dict_value, entries_of, value_of, lemma_value_of_array, lemma_value_of_dictionary,
    lemma_value_of_object, lemma_values_of_drop_last, lemma_values_of_push, values_of, PdfValue,
    PdfVar,
};
use crate::tags::{
    at_dict_end, at_endobj, at_endstream, at_stream, tag_dict_end, tag_endobj, tag_endstream,
    tag_stream,
};
use crate::tokens::{
    agrees, is_numeric, is_numeric_byte, obj_parse_const, obj_parse_hex_string, obj_parse_name,
    obj_parse_numeric, obj_parse_object_ref, obj_parse_string_literal, spec_const, spec_hex_string,
    spec_name, spec_numeric, spec_object_ref, spec_string_literal, Parsed, Step,
};
use vstd::prelude::*;

verus! {

/// How deep arrays, dictionaries and references to lengths may nest.
pub const MAX_DEPTH: usize = 256;

/// The key of item `k` of a dictionary's items.
pub open spec fn key_at(items: Seq<PdfValue>, k: int) -> PdfValue {
    items[2 * k]
}

/// The entries that a dictionary's items make: keys and values in turn, each
/// key a name. Nothing where a key has no value or is no name.
pub open spec fn entries_from(items: Seq<PdfValue>) -> Option<Seq<(Seq<char>, PdfValue)>> {
    if items.len() % 2 == 0 && (forall|k: int|
        0 <= k < items.len() / 2 ==> #[trigger] key_at(items, k) is Name) {
        Some(Seq::new(items.len() / 2, |k: int| (items[2 * k]->Name_0, items[2 * k + 1])))
    } else {
        None
    }
}

/// Where the bytes of a stream start: after the line break that follows the
/// keyword, a line feed alone or after a carriage return.
pub open spec fn stream_data_start(data: Seq<u8>, after: int) -> int {
    if after + 1 < data.len() && data[after] == 13 && data[after + 1] == 10 {
        after + 2
    } else if 0 <= after < data.len() && data[after] == 10 {
        after + 1
    } else {
        after
    }
}

/// The magnitude of an integer, where it fits.
pub open spec fn number_in(v: PdfValue) -> Option<usize> {
    match v {
        PdfValue::Integer { value, signed } => if -(usize::MAX as int) <= value <= usize::MAX {
            Some(
                (if value < 0 {
                    -value
                } else {
                    value as int
                }) as usize,
            )
        } else {
            None
        },
        _ => None,
    }
}

/// The number that stands as the body of an object.
pub open spec fn object_number(content: Seq<PdfValue>) -> Option<usize> {
    if content.len() > 1 {
        number_in(content[1])
    } else {
        None
    }
}

/// Reading the value that starts at `p`, where no white space stands.
///
/// The first byte decides what is read: a number, an array, a dictionary, a
/// string, a name, a constant, the end of a reference or of an object head,
/// or a stream. Arrays and dictionaries may nest `depth` deep.
pub open spec fn spec_token(
    data: Seq<u8>,
    xref: Seq<ObjectRef>,
    p: int,
    stack: Seq<PdfValue>,
    depth: nat,
) -> Parsed
    decreases depth, data.len() - p, 2int,
{
    if p < 0 || p >= data.len() {
        Parsed::Failed { error: PdfError::UnmatchedChar, pos: p }
    } else if is_numeric_byte(data[p]) {
        spec_numeric(data, p, stack)
    } else if data[p] == 91 {
        spec_array(data, xref, p, stack, depth)
    } else if data[p] == 60 {
        if p + 1 < data.len() && data[p + 1] == 60 {
            spec_dictionary(data, xref, p, stack, depth)
        } else {
            spec_hex_string(data, p, stack)
        }
    } else if data[p] == 40 {
        spec_string_literal(data, p, stack)
    } else if data[p] == 47 {
        spec_name(data, p, stack)
    } else if data[p] == 110 || data[p] == 116 || data[p] == 102 {
        spec_const(data, p, stack)
    } else if data[p] == 82 || data[p] == 111 {
        spec_object_ref(data, p, stack)
    } else if data[p] == 115 {
        spec_stream(data, xref, p, stack, depth)
    } else {
        Parsed::Failed { error: PdfError::UnmatchedChar, pos: p }
    }
}

/// Reading an array, whose `[` stands at `p`.
pub open spec fn spec_array(
    data: Seq<u8>,
    xref: Seq<ObjectRef>,
    p: int,
    stack: Seq<PdfValue>,
    depth: nat,
) -> Parsed
    decreases depth, data.len() - p, 1int,
{
    if depth == 0 || p < 0 || p >= data.len() {
        Parsed::Failed { error: PdfError::ObjectError, pos: p }
    } else {
        match spec_items(data, xref, p + 1, Seq::empty(), (depth - 1) as nat, false) {
            Parsed::Done { pos: end, stack: items } => Parsed::Done {
                pos: end,
                stack: stack.push(PdfValue::Array(items)),
            },
            Parsed::Failed { error, pos: at } => Parsed::Failed { error, pos: at },
        }
    }
}

/// Reading a dictionary, whose `<<` stands at `p`.
pub open spec fn spec_dictionary(
    data: Seq<u8>,
    xref: Seq<ObjectRef>,
    p: int,
    stack: Seq<PdfValue>,
    depth: nat,
) -> Parsed
    decreases depth, data.len() - p, 1int,
{
    if depth == 0 || p < 0 || p >= data.len() {
        Parsed::Failed { error: PdfError::ObjectError, pos: p }
    } else {
        match spec_items(data, xref, p + 2, Seq::empty(), (depth - 1) as nat, true) {
            Parsed::Done { pos: end, stack: items } => match entries_from(items) {
                Some(entries) => Parsed::Done {
                    pos: end,
                    stack: stack.push(PdfValue::Dictionary(entries)),
                },
                None => Parsed::Failed { error: PdfError::DictionaryError, pos: end },
            },
            Parsed::Failed { error, pos: at } => Parsed::Failed { error, pos: at },
        }
    }
}

/// Reading the items of an array, up to `]`, or of a dictionary, up to `>>`,
/// with the items read so far.
pub open spec fn spec_items(
    data: Seq<u8>,
    xref: Seq<ObjectRef>,
    pos: int,
    items: Seq<PdfValue>,
    depth: nat,
    in_dict: bool,
) -> Parsed
    decreases depth, data.len() - pos, 3int,
{
    let q = skip_ws(data, pos);
    if pos < 0 || q < pos || q >= data.len() {
        Parsed::Failed { error: PdfError::ObjectError, pos: data.len() as int }
    } else if !in_dict && data[q] == 93 {
        Parsed::Done { pos: q + 1, stack: items }
    } else if in_dict && has_tag(data, q, tag_dict_end()) {
        Parsed::Done { pos: q + 2, stack: items }
    } else {
        match spec_token(data, xref, q, items, depth) {
            Parsed::Done { pos: next, stack: more } => if q < next <= data.len() {
                spec_items(data, xref, next, more, depth, in_dict)
            } else {
                Parsed::Failed { error: PdfError::ObjectError, pos: data.len() as int }
            },
            Parsed::Failed { error, pos: at } => Parsed::Failed { error, pos: at },
        }
    }
}

/// Reading a stream: the keyword, a line break, as many bytes as the
/// dictionary on top of the stack gives under `Length`, and `endstream`.
pub open spec fn spec_stream(
    data: Seq<u8>,
    xref: Seq<ObjectRef>,
    p: int,
    stack: Seq<PdfValue>,
    depth: nat,
) -> Parsed
    decreases depth, data.len() - p, 1int,
{
    if p < 0 || p >= data.len() || !has_tag(data, p, tag_stream()) {
        Parsed::Failed { error: PdfError::UnmatchedChar, pos: p }
    } else {
        let start = stream_data_start(data, p + 6);
        if stack.len() == 0 {
            Parsed::Failed { error: PdfError::StreamError, pos: start }
        } else {
            match dict_value(stack.last(), "Length"@) {
                None => Parsed::Failed { error: PdfError::StreamError, pos: start },
                Some(length) => match spec_resolve(data, xref, length, depth) {
                    None => Parsed::Failed { error: PdfError::StreamError, pos: start },
                    Some(size) => {
                        let end = skip_ws(data, start + size);
                        if has_tag(data, end, tag_endstream()) {
                            Parsed::Done {
                                pos: end + 9,
                                stack: stack.push(
                                    PdfValue::Stream { start: start as usize, size },
                                ),
                            }
                        } else {
                            Parsed::Failed { error: PdfError::StreamError, pos: start }
                        }
                    },
                },
            }
        }
    }
}

/// The number that a value gives where a count or a length is needed: an
/// unsigned integer itself; for a reference, the number that is the body of
/// the object referred to, which must stand in the data; for an object, the
/// number that is its body.
pub open spec fn spec_resolve(
    data: Seq<u8>,
    xref: Seq<ObjectRef>,
    v: PdfValue,
    depth: nat,
) -> Option<usize>
    decreases depth, 0int, 0int,
{
    match v {
        PdfValue::Integer { value, signed } => if !signed && 0 <= value <= usize::MAX {
            Some(value as usize)
        } else {
            None
        },
        PdfValue::IndirectObject(id) => if depth == 0 || id >= xref.len() || xref[id as int].compressed
            != 1 {
            None
        } else {
            match spec_object_items(
                data,
                xref,
                xref[id as int].xref as int,
                Seq::empty(),
                (depth - 1) as nat,
            ) {
                Parsed::Done { pos, stack } => if stack.len() >= 2 && stack[0] is ObjectRef {
                    object_number(stack)
                } else {
                    None
                },
                Parsed::Failed { .. } => None,
            }
        },
        PdfValue::Object { id, content } => object_number(content),
        _ => None,
    }
}

/// Reading what an object holds, from its head to `endobj`, with the values
/// read so far. The position that results is that of `endobj`.
pub open spec fn spec_object_items(
    data: Seq<u8>,
    xref: Seq<ObjectRef>,
    pos: int,
    stack: Seq<PdfValue>,
    depth: nat,
) -> Parsed
    decreases depth, data.len() - pos, 3int,
{
    let q = skip_ws(data, pos);
    if pos < 0 || q < pos || q >= data.len() {
        Parsed::Failed { error: PdfError::ObjectError, pos: data.len() as int }
    } else {
        match spec_token(data, xref, q, stack, depth) {
            Parsed::Done { pos: next, stack: more } => if q < next <= data.len() {
                if has_tag(data, skip_ws(data, next), tag_endobj()) {
                    Parsed::Done { pos: skip_ws(data, next), stack: more }
                } else {
                    spec_object_items(data, xref, next, more, depth)
                }
            } else {
                Parsed::Failed { error: PdfError::ObjectError, pos: data.len() as int }
            },
            Parsed::Failed { error, pos: at } => Parsed::Failed { error, pos: at },
        }
    }
}

/// Reading the head of an object and what follows it, up to the keyword of
/// the object's stream. The position that results is that of the keyword.
pub open spec fn spec_head_items(
    data: Seq<u8>,
    xref: Seq<ObjectRef>,
    pos: int,
    stack: Seq<PdfValue>,
    depth: nat,
) -> Parsed
    decreases data.len() - pos,
{
    let q = skip_ws(data, pos);
    if pos < 0 || q < pos || q >= data.len() {
        Parsed::Failed { error: PdfError::ObjectError, pos: data.len() as int }
    } else if data[q] == 115 {
        Parsed::Done { pos: q, stack }
    } else {
        match spec_token(data, xref, q, stack, depth) {
            Parsed::Done { pos: next, stack: more } => if q < next <= data.len() {
                spec_head_items(data, xref, next, more, depth)
            } else {
                Parsed::Failed { error: PdfError::ObjectError, pos: data.len() as int }
            },
            Parsed::Failed { error, pos: at } => Parsed::Failed { error, pos: at },
        }
    }
}

/// Reading one value from `pos` on, after any white space.
pub open spec fn spec_value(
    data: Seq<u8>,
    xref: Seq<ObjectRef>,
    pos: int,
    stack: Seq<PdfValue>,
    depth: nat,
) -> Parsed {
    spec_token(data, xref, skip_ws(data, pos), stack, depth)
}

/// The object that starts at `index`: its head `N G obj`, at least one value
/// more, and `endobj`.
pub open spec fn spec_object(
    data: Seq<u8>,
    xref: Seq<ObjectRef>,
    index: int,
    depth: nat,
) -> Result<PdfValue, PdfError> {
    match spec_object_items(data, xref, index, Seq::empty(), depth) {
        Parsed::Done { pos, stack } => if stack.len() >= 2 && stack[0] is ObjectRef {
            Ok(PdfValue::Object { id: stack[0]->ObjectRef_0, content: stack })
        } else {
            Err(PdfError::ObjectError)
        },
        Parsed::Failed { error, pos } => Err(error),
    }
}

/// Where reading the object at `index` stops: at its `endobj`, or where the
/// error was found.
pub open spec fn spec_object_end(
    data: Seq<u8>,
    xref: Seq<ObjectRef>,
    index: int,
    depth: nat,
) -> int {
    match spec_object_items(data, xref, index, Seq::empty(), depth) {
        Parsed::Done { pos, stack } => pos,
        Parsed::Failed { error, pos } => pos,
    }
}

/// The stream that was read has the length that the dictionary before it
/// gives under `Length`, resolved through a reference where it is one.
pub proof fn lemma_stream_length(
    data: Seq<u8>,
    xref: Seq<ObjectRef>,
    p: int,
    stack: Seq<PdfValue>,
    depth: nat,
)
    requires
        spec_stream(data, xref, p, stack, depth) is Done,
    ensures
        stack.len() > 0,
        dict_value(stack.last(), "Length"@) is Some,
        spec_stream(data, xref, p, stack, depth)->Done_stack.last() is Stream,
        Some(spec_stream(data, xref, p, stack, depth)->Done_stack.last()->Stream_size)
            == spec_resolve(data, xref, dict_value(stack.last(), "Length"@)->0, depth),
{
}

/// Turns the items of a dictionary into its entries.
fn build_entries(items: Vec<PdfVar>) -> (r: Option<Vec<(String, PdfVar)>>)
    ensures
        match r {
            Some(entries) => entries_from(values_of(items@)) == Some(entries_of(entries@)),
            None => entries_from(values_of(items@)) is None,
        },
{
    let ghost all = values_of(items@);
    let n: usize = items.len();
    if n % 2 != 0 {
        return None;
    }
    let mut rest = items;
    let mut entries: Vec<(String, PdfVar)> = Vec::new();
    while rest.len() > 0
        invariant
            n % 2 == 0,
            all.len() == n,
            all == values_of(items@),
            rest.len() % 2 == 0,
            rest.len() + 2 * entries.len() == n,
            values_of(rest@) == all.take(rest.len() as int),
            forall|k: int|
                0 <= k < entries.len() ==> #[trigger] entries_of(entries@)[k] == (
                    all[rest.len() + 2 * k]->Name_0,
                    all[rest.len() + 2 * k + 1],
                ) && all[rest.len() + 2 * k] is Name,
        decreases rest.len(),
    {
        proof {
            lemma_values_of_drop_last(rest@);
            lemma_values_of_drop_last(rest@.drop_last());
            assert(all.take(rest.len() as int).drop_last() =~= all.take(rest.len() - 1));
            assert(all.take(rest.len() - 1).drop_last() =~= all.take(rest.len() - 2));
        }
        let ghost before = entries_of(entries@);
        let ghost m = rest.len();
        let ghost pending = rest@;
        let value = rest.pop();
        let key = rest.pop();
        proof {
            assert(key == Some(pending[m - 2]));
            assert(value == Some(pending[m - 1]));
            assert(values_of(pending)[m - 2] == value_of(pending[m - 2]));
            assert(values_of(pending)[m - 1] == value_of(pending[m - 1]));
            assert(all[m - 2] == all.take(m as int)[m - 2]);
            assert(all[m - 1] == all.take(m as int)[m - 1]);
            assert(2 * ((m - 2) / 2) == m - 2);
        }
        match (key, value) {
            (Some(PdfVar::Name(name)), Some(v)) => {
                entries.insert(0, (name, v));
                proof {
                    assert(all[m - 2] == all.take(m as int)[m - 2]);
                    assert(all[m - 1] == all.take(m as int)[m - 1]);
                    assert forall|k: int| 0 <= k < entries.len() implies #[trigger] entries_of(
                        entries@,
                    )[k] == (all[rest.len() + 2 * k]->Name_0, all[rest.len() + 2 * k + 1])
                        && all[rest.len() + 2 * k] is Name by {
                        if k > 0 {
                            assert(entries_of(entries@)[k] == before[k - 1]);
                        }
                    }
                }
            },
            _ => {
                proof {
                    assert(!(pending[m - 2] is Name));
                    assert(!(value_of(pending[m - 2]) is Name));
                    assert(values_of(pending) == all.take(m as int));
                    assert(key_at(all, (m - 2) / 2) == all[m - 2]);
                    assert(!(key_at(all, (m - 2) / 2) is Name));
                    assert(0 <= (m - 2) / 2 < all.len() / 2);
                }
                return None;
            },
        }
    }
    proof {
        assert forall|k: int| 0 <= k < all.len() / 2 implies #[trigger] key_at(all, k) is Name by {
            assert(entries_of(entries@)[k] == (all[2 * k]->Name_0, all[2 * k + 1]));
        }
        assert(entries_from(all)->0 =~= entries_of(entries@));
    }
    Some(entries)
}

/// The magnitude of an integer, where it fits.
fn magnitude_of(v: &PdfVar) -> (r: Option<usize>)
    ensures
        r == number_in(v@),
{
    match v {
        PdfVar::Integer { value, signed } => {
            if *value == i64::MIN {
                if usize::MAX as u64 >= 0x8000_0000_0000_0000u64 {
                    return Some(0x8000_0000_0000_0000u64 as usize);
                }
                return None;
            }
            let wide: u64 = if *value < 0 {
                (-*value) as u64
            } else {
                *value as u64
            };
            if wide > usize::MAX as u64 {
                return None;
            }
            Some(wide as usize)
        },
        _ => None,
    }
}

/// Reads the value that starts at `pos`, where no white space stands, and
/// puts it on the stack.
pub fn parse_token(
    data: &Vec<u8>,
    xref: &Vec<ObjectRef>,
    pos: usize,
    stack: &mut Vec<PdfVar>,
    depth: usize,
) -> (r: Step)
    requires
        pos <= data.len(),
    ensures
        agrees(
            r,
            final(stack)@,
            spec_token(data@, xref@, pos as int, values_of(old(stack)@), depth as nat),
        ),
        r is Ok ==> pos < r->Ok_0 <= data.len(),
        r is Err ==> r->Err_0.1 <= data.len() && final(stack)@ == old(stack)@,
    decreases depth, data.len() - pos, 2int,
{
    let n: usize = data.len();
    if pos >= n {
        return Err((PdfError::UnmatchedChar, pos));
    }
    let b: u8 = data[pos];
    if is_numeric(b) {
        obj_parse_numeric(data, pos, stack)
    } else if b == 91 {
        obj_parse_array(data, xref, pos, stack, depth)
    } else if b == 60 {
        if n - pos > 1 && data[pos + 1] == 60 {
            obj_parse_dictionary(data, xref, pos, stack, depth)
        } else {
            obj_parse_hex_string(data, pos, stack)
        }
    } else if b == 40 {
        obj_parse_string_literal(data, pos, stack)
    } else if b == 47 {
        obj_parse_name(data, pos, stack)
    } else if b == 110 || b == 116 || b == 102 {
        obj_parse_const(data, pos, stack)
    } else if b == 82 || b == 111 {
        obj_parse_object_ref(data, pos, stack)
    } else if b == 115 {
        obj_parse_stream(data, xref, pos, stack, depth)
    } else {
        Err((PdfError::UnmatchedChar, pos))
    }
}

/// Reads the array whose `[` stands at `pos` and puts it on the stack.
pub fn obj_parse_array(
    data: &Vec<u8>,
    xref: &Vec<ObjectRef>,
    pos: usize,
    stack: &mut Vec<PdfVar>,
    depth: usize,
) -> (r: Step)
    requires
        pos < data.len(),
    ensures
        agrees(
            r,
            final(stack)@,
            spec_array(data@, xref@, pos as int, values_of(old(stack)@), depth as nat),
        ),
        r is Ok ==> pos < r->Ok_0 <= data.len(),
        r is Err ==> r->Err_0.1 <= data.len() && final(stack)@ == old(stack)@,
    decreases depth, data.len() - pos, 1int,
{
    if depth == 0 {
        return Err((PdfError::ObjectError, pos));
    }
    let mut array_stack: Vec<PdfVar> = Vec::new();
    proof {
        assert(values_of(array_stack@) =~= Seq::empty());
    }
    let end = parse_items(data, xref, pos + 1, &mut array_stack, depth - 1, false)?;
    proof {
        lemma_value_of_array(array_stack);
        lemma_values_of_push(stack@, PdfVar::Array(array_stack));
    }
    stack.push(PdfVar::Array(array_stack));
    Ok(end)
}

/// Reads the dictionary whose `<<` stands at `pos` and puts it on the
/// stack.
pub fn obj_parse_dictionary(
    data: &Vec<u8>,
    xref: &Vec<ObjectRef>,
    pos: usize,
    stack: &mut Vec<PdfVar>,
    depth: usize,
) -> (r: Step)
    requires
        pos + 1 < data.len(),
    ensures
        agrees(
            r,
            final(stack)@,
            spec_dictionary(data@, xref@, pos as int, values_of(old(stack)@), depth as nat),
        ),
        r is Ok ==> pos < r->Ok_0 <= data.len(),
        r is Err ==> r->Err_0.1 <= data.len() && final(stack)@ == old(stack)@,
    decreases depth, data.len() - pos, 1int,
{
    if depth == 0 {
        return Err((PdfError::ObjectError, pos));
    }
    let mut dict_stack: Vec<PdfVar> = Vec::new();
    proof {
        assert(values_of(dict_stack@) =~= Seq::empty());
    }
    let end = parse_items(data, xref, pos + 2, &mut dict_stack, depth - 1, true)?;
    match build_entries(dict_stack) {
        Some(entries) => {
            proof {
                lemma_value_of_dictionary(entries);
                lemma_values_of_push(stack@, PdfVar::Dictionary(entries));
            }
            stack.push(PdfVar::Dictionary(entries));
            Ok(end)
        },
        None => Err((PdfError::DictionaryError, end)),
    }
}

/// Reads the items of an array or of a dictionary, from `pos` to the closing
/// bracket, onto `items`.
pub(crate) fn parse_items(
    data: &Vec<u8>,
    xref: &Vec<ObjectRef>,
    pos: usize,
    items: &mut Vec<PdfVar>,
    depth: usize,
    in_dict: bool,
) -> (r: Step)
    requires
        pos <= data.len(),
    ensures
        agrees(
            r,
            final(items)@,
            spec_items(data@, xref@, pos as int, values_of(old(items)@), depth as nat, in_dict),
        ),
        r is Ok ==> pos < r->Ok_0 <= data.len(),
        r is Err ==> r->Err_0.1 <= data.len(),
    decreases depth, data.len() - pos, 3int,
{
    let n: usize = data.len();
    let mut cur: usize = pos;
    loop
        invariant
            n == data.len(),
            pos <= cur <= n,
            spec_items(data@, xref@, cur as int, values_of(items@), depth as nat, in_dict)
                == spec_items(
                data@,
                xref@,
                pos as int,
                values_of(old(items)@),
                depth as nat,
                in_dict,
            ),
        decreases n - cur,
    {
        let q: usize = skip_whitespace(data, cur);
        if q >= n {
            return Err((PdfError::ObjectError, n));
        }
        if !in_dict && data[q] == 93 {
            return Ok(q + 1);
        }
        if in_dict && at_dict_end(data, q) {
            return Ok(q + 2);
        }
        cur = parse_token(data, xref, q, items, depth)?;
    }
}

/// Reads the stream whose keyword starts at `pos` and puts it on the stack.
pub fn obj_parse_stream(
    data: &Vec<u8>,
    xref: &Vec<ObjectRef>,
    pos: usize,
    stack: &mut Vec<PdfVar>,
    depth: usize,
) -> (r: Step)
    requires
        pos < data.len(),
    ensures
        agrees(
            r,
            final(stack)@,
            spec_stream(data@, xref@, pos as int, values_of(old(stack)@), depth as nat),
        ),
        r is Ok ==> pos < r->Ok_0 <= data.len(),
        r is Err ==> r->Err_0.1 <= data.len() && final(stack)@ == old(stack)@,
    decreases depth, data.len() - pos, 1int,
{
    let n: usize = data.len();
    if !at_stream(data, pos) {
        return Err((PdfError::UnmatchedChar, pos));
    }
    let after: usize = pos + 6;
    let start: usize = if n - after > 1 && data[after] == 13 && data[after + 1] == 10 {
        after + 2
    } else if after < n && data[after] == 10 {
        after + 1
    } else {
        after
    };
    if stack.len() == 0 {
        return Err((PdfError::StreamError, start));
    }
    proof {
        lemma_values_of_drop_last(stack@);
    }
    let size: usize = match stack[stack.len() - 1].get_dict_value("Length") {
        None => {
            return Err((PdfError::StreamError, start));
        },
        Some(length_obj) => match resolve_usize(data, xref, length_obj, depth) {
            None => {
                return Err((PdfError::StreamError, start));
            },
            Some(size) => size,
        },
    };
    if size > n - start {
        proof {
            lemma_skip_ws(data@, start + size);
        }
        return Err((PdfError::StreamError, start));
    }
    let end: usize = skip_whitespace(data, start + size);
    if !at_endstream(data, end) {
        return Err((PdfError::StreamError, start));
    }
    proof {
        lemma_values_of_push(stack@, PdfVar::Stream { start, size });
    }
    stack.push(PdfVar::Stream { start, size });
    Ok(end + 9)
}

/// The number that a value gives where a count or a length is needed.
pub fn resolve_usize(data: &Vec<u8>, xref: &Vec<ObjectRef>, v: &PdfVar, depth: usize) -> (r:
    Option<usize>)
    ensures
        r == spec_resolve(data@, xref@, v@, depth as nat),
    decreases depth, 0int, 0int,
{
    match v {
        PdfVar::Integer { value, signed } => {
            if *signed || *value < 0 {
                return None;
            }
            let wide: u64 = *value as u64;
            if wide > usize::MAX as u64 {
                return None;
            }
            Some(wide as usize)
        },
        PdfVar::IndirectObject(obj_id) => {
            if depth == 0 || *obj_id >= xref.len() || xref[*obj_id].compressed != 1 {
                return None;
            }
            let offset: usize = xref[*obj_id].xref;
            if offset > data.len() {
                proof {
                    lemma_skip_ws(data@, offset as int);
                }
                return None;
            }
            let mut stack: Vec<PdfVar> = Vec::new();
            proof {
                assert(values_of(stack@) =~= Seq::empty());
            }
            match parse_object_items(data, xref, offset, &mut stack, depth - 1) {
                Ok(_) => {
                    if stack.len() < 2 {
                        return None;
                    }
                    match &stack[0] {
                        PdfVar::ObjectRef(_) => magnitude_of(&stack[1]),
                        _ => None,
                    }
                },
                Err(_) => None,
            }
        },
        PdfVar::Object { _id, content } => {
            proof {
                lemma_value_of_object(*_id, *content);
            }
            if content.len() > 1 {
                magnitude_of(&content[1])
            } else {
                None
            }
        },
        _ => None,
    }
}

/// Reads the head of an object and what follows it, up to the keyword of
/// the object's stream, onto the stack.
pub(crate) fn parse_head_items(
    data: &Vec<u8>,
    xref: &Vec<ObjectRef>,
    pos: usize,
    stack: &mut Vec<PdfVar>,
    depth: usize,
) -> (r: Step)
    requires
        pos <= data.len(),
    ensures
        agrees(
            r,
            final(stack)@,
            spec_head_items(data@, xref@, pos as int, values_of(old(stack)@), depth as nat),
        ),
        r is Ok ==> pos <= r->Ok_0 < data.len(),
        r is Err ==> r->Err_0.1 <= data.len(),
{
    let n: usize = data.len();
    let mut cur: usize = pos;
    loop
        invariant
            n == data.len(),
            pos <= cur <= n,
            spec_head_items(data@, xref@, cur as int, values_of(stack@), depth as nat)
                == spec_head_items(
                data@,
                xref@,
                pos as int,
                values_of(old(stack)@),
                depth as nat,
            ),
        decreases n - cur,
    {
        let q: usize = skip_whitespace(data, cur);
        if q >= n {
            return Err((PdfError::ObjectError, n));
        }
        if data[q] == 115 {
            return Ok(q);
        }
        cur = parse_token(data, xref, q, stack, depth)?;
    }
}

/// Reads what an object holds, from its head at `pos` to `endobj`, onto the
/// stack.
pub(crate) fn parse_object_items(
    data: &Vec<u8>,
    xref: &Vec<ObjectRef>,
    pos: usize,
    stack: &mut Vec<PdfVar>,
    depth: usize,
) -> (r: Step)
    requires
        pos <= data.len(),
    ensures
        agrees(
            r,
            final(stack)@,
            spec_object_items(data@, xref@, pos as int, values_of(old(stack)@), depth as nat),
        ),
        r is Ok ==> pos < r->Ok_0 <= data.len(),
        r is Err ==> r->Err_0.1 <= data.len(),
    decreases depth, data.len() - pos, 3int,
{
    let n: usize = data.len();
    let mut cur: usize = pos;
    loop
        invariant
            n == data.len(),
            pos <= cur <= n,
            spec_object_items(data@, xref@, cur as int, values_of(stack@), depth as nat)
                == spec_object_items(
                data@,
                xref@,
                pos as int,
                values_of(old(stack)@),
                depth as nat,
            ),
        decreases n - cur,
    {
        let q: usize = skip_whitespace(data, cur);
        if q >= n {
            return Err((PdfError::ObjectError, n));
        }
        cur = parse_token(data, xref, q, stack, depth)?;
        let end: usize = skip_whitespace(data, cur);
        if at_endobj(data, end) {
            return Ok(end);
        }
    }
}

} // verus!
