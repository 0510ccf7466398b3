//! Looking up objects by number, unpacking object streams, and walking the page
//! tree.

use crate::cursor::{skip_whitespace, skip_ws};
use crate::document::{object_at, ObjectRef};
use crate::error::PdfError;
use crate::parser::{parse_head_items, spec_head_items, spec_object, MAX_DEPTH};
use crate::tokens::Parsed;
use crate::pdf_object::{dict_value, index_of, PdfValue, PdfVar};
use crate::streams::{decoded_stream, spec_decoded_stream};
use crate::xref::{number_at, read_number_at};
use vstd::prelude::*;

verus! {

/// How many object streams may be opened, one for the sake of another, to
/// reach one object.
pub const MAX_UNPACK: usize = 64;

/// The digits that write a number in base ten.
pub open spec fn decimal_digits(n: nat) -> Seq<u8>
    decreases n,
{
    if n < 10 {
        seq![(48 + n) as u8]
    } else {
        decimal_digits(n / 10).push((48 + n % 10) as u8)
    }
}

/// ` 0 obj` and a line feed: what follows the number in an object's head.
pub open spec fn head_rest() -> Seq<u8> {
    seq![32u8, 48, 32, 111, 98, 106, 10]
}

/// `endobj` and two line feeds.
pub open spec fn object_tail() -> Seq<u8> {
    seq![101u8, 110, 100, 111, 98, 106, 10, 10]
}

/// The text of an object with the given number and body, as it is written
/// into the data for an object taken out of an object stream.
pub open spec fn synthesized(id: usize, body: Seq<u8>) -> Seq<u8> {
    decimal_digits(id as nat) + head_rest() + body + object_tail()
}

/// The data and the table while objects are looked up.
pub struct Store {
    pub data: Seq<u8>,
    pub xref: Seq<ObjectRef>,
}

/// What looking up an object gives: the object, if there is one, and the
/// data and table as the lookup left them.
pub struct Found {
    pub object: Option<PdfValue>,
    pub store: Store,
}

/// The numbers at the start of a decoded object stream: the decimal numbers,
/// separated by white space, that start before `first`.
pub open spec fn header_numbers(decoded: Seq<u8>, ix: int, first: int, nums: Seq<usize>) -> Seq<
    usize,
>
    decreases decoded.len() - ix,
{
    let p = skip_ws(decoded, ix);
    if ix < 0 || ix >= first || p < ix || p >= decoded.len() {
        nums
    } else {
        match number_at(decoded, p) {
            None => nums,
            Some((value, end)) => if p < end <= decoded.len() {
                header_numbers(decoded, end, first, nums.push(value))
            } else {
                nums
            },
        }
    }
}

/// Whether the table says that object `id` lies in object stream `stream_id`.
pub open spec fn held_by(xref: Seq<ObjectRef>, id: usize, stream_id: usize) -> bool {
    id < xref.len() && xref[id as int].compressed == 2 && xref[id as int].xref == stream_id
}

/// Taking the objects out of a decoded object stream, from pair number
/// `ix / 2` on. `nums` holds pairs of an object number and the offset of the
/// object's body after `first`; a body ends where the next one starts, the
/// last at the end of the stream. Each object that the table places in this
/// stream is written at the end of the data, and the table then gives that
/// place for it.
pub open spec fn unpack_pairs(
    store: Store,
    decoded: Seq<u8>,
    nums: Seq<usize>,
    first: usize,
    stream_id: usize,
    ix: int,
) -> Store
    decreases nums.len() + 2 - ix,
{
    if ix < 1 || ix >= nums.len() {
        store
    } else {
        let id = nums[ix - 1];
        let from = nums[ix] + first;
        let to = if ix + 2 < nums.len() {
            nums[ix + 2] + first
        } else {
            decoded.len() as int
        };
        let next = if held_by(store.xref, id, stream_id) && from <= to <= decoded.len()
            && store.data.len() + synthesized(id, decoded.subrange(from, to)).len()
            <= usize::MAX {
            Store {
                data: store.data + synthesized(id, decoded.subrange(from, to)),
                xref: store.xref.update(
                    id as int,
                    ObjectRef { compressed: 1, xref: store.data.len() as usize, _version: 0 },
                ),
            }
        } else {
            store
        };
        unpack_pairs(next, decoded, nums, first, stream_id, ix + 2)
    }
}

/// The object whose number a stream names as its length, where that object
/// lies in an object stream: the stream is that of the object at `offset`,
/// which is read up to the keyword of its stream.
pub open spec fn spec_pending_length(store: Store, offset: usize) -> Option<usize> {
    match spec_head_items(store.data, store.xref, offset as int, Seq::empty(), MAX_DEPTH as nat) {
        Parsed::Done { pos, stack } => if stack.len() > 0 {
            match dict_value(stack.last(), "Length"@) {
                Some(PdfValue::IndirectObject(id)) => if id < store.xref.len()
                    && store.xref[id as int].compressed == 2 {
                    Some(id)
                } else {
                    None
                },
                _ => None,
            }
        } else {
            None
        },
        Parsed::Failed { .. } => None,
    }
}

/// Looking up object `obj_id`. An object that stands in the data is read
/// there. One that lies in an object stream is read after that stream has
/// been unpacked. A free or missing entry gives nothing.
pub open spec fn spec_get_object(store: Store, obj_id: usize, fuel: nat) -> Found
    decreases fuel, 2int,
{
    if obj_id >= store.xref.len() {
        Found { object: None, store }
    } else if store.xref[obj_id as int].compressed == 1 {
        spec_read_placed(store, obj_id, fuel)
    } else if store.xref[obj_id as int].compressed == 2 {
        let after = spec_unpack(store, store.xref[obj_id as int].xref, fuel);
        if obj_id < after.xref.len() && after.xref[obj_id as int].compressed == 1 {
            spec_read_placed(after, obj_id, fuel)
        } else {
            Found { object: None, store: after }
        }
    } else {
        Found { object: None, store }
    }
}

/// Reading an object that the table places in the data. Where its stream
/// cannot be read because the object that gives the stream's length lies in
/// an object stream, that object stream is unpacked and the object is read
/// once more.
pub open spec fn spec_read_placed(store: Store, obj_id: usize, fuel: nat) -> Found
    decreases fuel, 1int,
{
    let offset = store.xref[obj_id as int].xref;
    match spec_object(store.data, store.xref, offset as int, MAX_DEPTH as nat) {
        Ok(obj) => Found { object: Some(obj), store },
        Err(e) => if e == PdfError::StreamError {
            match spec_pending_length(store, offset) {
                Some(length_id) => {
                    let after = spec_unpack(store, store.xref[length_id as int].xref, fuel);
                    if obj_id < after.xref.len() {
                        Found { object: object_in(after, obj_id), store: after }
                    } else {
                        Found { object: None, store: after }
                    }
                },
                None => Found { object: None, store },
            }
        } else {
            Found { object: None, store }
        },
    }
}

/// The object that the table places in the data, read where it stands.
pub open spec fn object_in(store: Store, obj_id: usize) -> Option<PdfValue> {
    match spec_object(
        store.data,
        store.xref,
        store.xref[obj_id as int].xref as int,
        MAX_DEPTH as nat,
    ) {
        Ok(obj) => Some(obj),
        Err(_) => None,
    }
}

/// Unpacking object stream `stream_id`: the stream that it extends first,
/// then its own objects. Nothing changes where the stream cannot be had or
/// decoded, or gives no number under `First`.
pub open spec fn spec_unpack(store: Store, stream_id: usize, fuel: nat) -> Store
    decreases fuel, 0int,
{
    if fuel == 0 {
        store
    } else {
        let found = spec_get_object(store, stream_id, (fuel - 1) as nat);
        match found.object {
            None => found.store,
            Some(stream_obj) => {
                let extended = match dict_value(stream_obj, "Extends"@) {
                    Some(ext) => match index_of(ext) {
                        Some(ext_id) => Some(spec_unpack(found.store, ext_id, (fuel - 1) as nat)),
                        None => None,
                    },
                    None => Some(found.store),
                };
                match extended {
                    None => found.store,
                    Some(base) => match dict_value(stream_obj, "First"@) {
                        None => base,
                        Some(fv) => match (
                            index_of(fv),
                            spec_decoded_stream(base.data, base.xref, stream_obj),
                        ) {
                            (Some(first), Some(decoded)) => unpack_pairs(
                                base,
                                decoded,
                                header_numbers(decoded, 0, first as int, Seq::empty()),
                                first,
                                stream_id,
                                1,
                            ),
                            _ => base,
                        },
                    },
                }
            },
        }
    }
}

/// Writes a number in base ten at the end of `out`.
pub fn push_decimal(out: &mut Vec<u8>, n: usize)
    ensures
        final(out)@ == old(out)@ + decimal_digits(n as nat),
    decreases n,
{
    if n >= 10 {
        push_decimal(out, n / 10);
    }
    let d: u8 = (n % 10) as u8;
    out.push(48 + d);
    proof {
        if n >= 10 {
            assert(final(out)@ =~= old(out)@ + decimal_digits(n as nat));
        } else {
            assert(final(out)@ =~= old(out)@ + decimal_digits(n as nat));
        }
    }
}

/// Copies the bytes of `src` in `[from, to)` to the end of `out`.
pub fn append_range(out: &mut Vec<u8>, src: &Vec<u8>, from: usize, to: usize)
    requires
        from <= to <= src.len(),
    ensures
        final(out)@ == old(out)@ + src@.subrange(from as int, to as int),
{
    let mut i: usize = from;
    while i < to
        invariant
            from <= i <= to <= src.len(),
            out@ == old(out)@ + src@.subrange(from as int, i as int),
        decreases to - i,
    {
        out.push(src[i]);
        proof {
            assert(out@ =~= old(out)@ + src@.subrange(from as int, i + 1));
        }
        i += 1;
    }
    proof {
        assert(out@ =~= old(out)@ + src@.subrange(from as int, to as int));
    }
}

/// Builds the text of an object taken out of an object stream.
fn synthesize(id: usize, decoded: &Vec<u8>, from: usize, to: usize) -> (r: Vec<u8>)
    requires
        from <= to <= decoded.len(),
    ensures
        r@ == synthesized(id, decoded@.subrange(from as int, to as int)),
{
    let mut text: Vec<u8> = Vec::new();
    push_decimal(&mut text, id);
    let head: [u8; 7] = [32, 48, 32, 111, 98, 106, 10];
    let mut k: usize = 0;
    while k < 7
        invariant
            k <= 7,
            head@ == head_rest(),
            text@ == decimal_digits(id as nat) + head_rest().take(k as int),
        decreases 7 - k,
    {
        text.push(head[k]);
        proof {
            assert(text@ =~= decimal_digits(id as nat) + head_rest().take(k + 1));
        }
        k += 1;
    }
    proof {
        assert(head_rest().take(7) =~= head_rest());
    }
    append_range(&mut text, decoded, from, to);
    let tail: [u8; 8] = [101, 110, 100, 111, 98, 106, 10, 10];
    let ghost stem = text@;
    let mut j: usize = 0;
    while j < 8
        invariant
            j <= 8,
            tail@ == object_tail(),
            text@ == stem + object_tail().take(j as int),
        decreases 8 - j,
    {
        text.push(tail[j]);
        proof {
            assert(text@ =~= stem + object_tail().take(j + 1));
        }
        j += 1;
    }
    proof {
        assert(object_tail().take(8) =~= object_tail());
        assert(text@ =~= synthesized(id, decoded@.subrange(from as int, to as int)));
    }
    text
}

/// Reads the numbers at the start of a decoded object stream.
fn read_header_numbers(decoded: &Vec<u8>, first: usize) -> (r: Vec<usize>)
    ensures
        r@ == header_numbers(decoded@, 0, first as int, Seq::empty()),
{
    let n: usize = decoded.len();
    let mut obj_nums: Vec<usize> = Vec::new();
    let mut ix: usize = 0;
    while ix < first
        invariant
            n == decoded.len(),
            ix <= n,
            header_numbers(decoded@, ix as int, first as int, obj_nums@) == header_numbers(
                decoded@,
                0,
                first as int,
                Seq::empty(),
            ),
        decreases n - ix,
    {
        let p: usize = skip_whitespace(decoded, ix);
        if p >= n {
            return obj_nums;
        }
        match read_number_at(decoded, p) {
            Some((value, end)) => {
                obj_nums.push(value);
                ix = end;
            },
            None => {
                return obj_nums;
            },
        }
    }
    obj_nums
}

/// The store that a document's data and table make.
pub open spec fn store_of(data: Seq<u8>, xref: Seq<ObjectRef>) -> Store {
    Store { data, xref }
}

/// Takes the objects out of a decoded object stream.
fn unpack_all(
    data: &mut Vec<u8>,
    xref: &mut Vec<ObjectRef>,
    decoded: &Vec<u8>,
    obj_nums: &Vec<usize>,
    first: usize,
    stream_id: usize,
)
    ensures
        store_of(final(data)@, final(xref)@) == unpack_pairs(
            store_of(old(data)@, old(xref)@),
            decoded@,
            obj_nums@,
            first,
            stream_id,
            1,
        ),
        old(data)@.is_prefix_of(final(data)@),
        final(xref).len() == old(xref).len(),
{
    let mut ix: usize = 1;
    while ix < obj_nums.len()
        invariant
            1 <= ix,
            unpack_pairs(
                store_of(data@, xref@),
                decoded@,
                obj_nums@,
                first,
                stream_id,
                ix as int,
            ) == unpack_pairs(
                store_of(old(data)@, old(xref)@),
                decoded@,
                obj_nums@,
                first,
                stream_id,
                1,
            ),
            old(data)@.is_prefix_of(data@),
            xref.len() == old(xref).len(),
        decreases obj_nums.len() + 2 - ix,
    {
        let id: usize = obj_nums[ix - 1];
        let offset: usize = obj_nums[ix];
        let n: usize = decoded.len();
        let held: bool = id < xref.len() && xref[id].compressed == 2 && xref[id].xref
            == stream_id;
        let from_fits: bool = offset <= usize::MAX - first;
        let mut to: usize = n;
        let mut to_fits: bool = true;
        if obj_nums.len() - ix > 2 {
            if obj_nums[ix + 2] <= usize::MAX - first {
                to = obj_nums[ix + 2] + first;
            } else {
                to_fits = false;
            }
        }
        if held && from_fits && to_fits && offset + first <= to && to <= n {
            let text = synthesize(id, decoded, offset + first, to);
            if text.len() <= usize::MAX - data.len() {
                let place: usize = data.len();
                append_range(data, &text, 0, text.len());
                proof {
                    assert(text@.subrange(0, text.len() as int) =~= text@);
                    assert(old(data)@.is_prefix_of(data@));
                }
                xref.set(id, ObjectRef { compressed: 1, xref: place, _version: 0 });
            }
        }
        if ix > usize::MAX - 2 {
            proof {
                assert(unpack_pairs(
                    store_of(data@, xref@),
                    decoded@,
                    obj_nums@,
                    first,
                    stream_id,
                    ix + 2,
                ) == store_of(data@, xref@));
            }
            return ;
        }
        ix += 2;
    }
}

/// Finds the object whose number a stream names as its length, where that
/// object lies in an object stream.
fn pending_length(data: &Vec<u8>, xref: &Vec<ObjectRef>, offset: usize) -> (r: Option<usize>)
    ensures
        r == spec_pending_length(store_of(data@, xref@), offset),
        r is Some ==> r->0 < xref.len() && xref[r->0 as int].compressed == 2,
{
    if offset > data.len() {
        proof {
            crate::cursor::lemma_skip_ws(data@, offset as int);
        }
        return None;
    }
    let mut stack: Vec<PdfVar> = Vec::new();
    proof {
        assert(crate::pdf_object::values_of(stack@) =~= Seq::empty());
    }
    match parse_head_items(data, xref, offset, &mut stack, MAX_DEPTH) {
        Ok(_) => {},
        Err(_) => {
            return None;
        },
    }
    if stack.len() == 0 {
        return None;
    }
    proof {
        crate::pdf_object::lemma_values_of_drop_last(stack@);
    }
    match stack[stack.len() - 1].get_dict_value("Length") {
        Some(PdfVar::IndirectObject(id)) => {
            if *id < xref.len() && xref[*id].compressed == 2 {
                Some(*id)
            } else {
                None
            }
        },
        _ => None,
    }
}

/// Reads an object that the table places in the data.
pub fn read_placed(data: &mut Vec<u8>, xref: &mut Vec<ObjectRef>, obj_id: usize, fuel: usize) -> (r:
    Option<PdfVar>)
    requires
        obj_id < old(xref).len(),
    ensures
        spec_read_placed(store_of(old(data)@, old(xref)@), obj_id, fuel as nat) == (Found {
            object: match r {
                Some(obj) => Some(obj@),
                None => None,
            },
            store: store_of(final(data)@, final(xref)@),
        }),
        r is Some ==> r->0@ is Object,
        old(data)@.is_prefix_of(final(data)@),
        final(xref).len() == old(xref).len(),
    decreases fuel, 1int,
{
    let offset: usize = xref[obj_id].xref;
    match object_at(data, xref, offset) {
        Ok(x) => Some(x),
        Err(PdfError::StreamError) => {
            match pending_length(data, xref, offset) {
                Some(length_id) => {
                    let stream_id: usize = xref[length_id].xref;
                    unpack_obj_stm_in(data, xref, stream_id, fuel);
                    match object_at(data, xref, xref[obj_id].xref) {
                        Ok(x) => Some(x),
                        Err(_) => None,
                    }
                },
                None => None,
            }
        },
        Err(_) => None,
    }
}

/// Looks up object `obj_id`, unpacking the object stream that holds it
/// where the table says that one does.
pub fn lookup_object(data: &mut Vec<u8>, xref: &mut Vec<ObjectRef>, obj_id: usize, fuel: usize) -> (r:
    Option<PdfVar>)
    ensures
        spec_get_object(store_of(old(data)@, old(xref)@), obj_id, fuel as nat) == (Found {
            object: match r {
                Some(obj) => Some(obj@),
                None => None,
            },
            store: store_of(final(data)@, final(xref)@),
        }),
        r is Some ==> r->0@ is Object,
        old(data)@.is_prefix_of(final(data)@),
        final(xref).len() == old(xref).len(),
    decreases fuel, 2int,
{
    if obj_id >= xref.len() {
        return None;
    }
    let kind: u8 = xref[obj_id].compressed;
    if kind == 2 {
        let stream_id: usize = xref[obj_id].xref;
        unpack_obj_stm_in(data, xref, stream_id, fuel);
        if xref[obj_id].compressed != 1 {
            return None;
        }
    } else if kind != 1 {
        return None;
    }
    read_placed(data, xref, obj_id, fuel)
}

/// Unpacks object stream `stream_id`: writes each object that the table
/// places in it at the end of the data, and makes the table point there.
pub fn unpack_obj_stm_in(
    data: &mut Vec<u8>,
    xref: &mut Vec<ObjectRef>,
    stream_id: usize,
    fuel: usize,
)
    ensures
        store_of(final(data)@, final(xref)@) == spec_unpack(
            store_of(old(data)@, old(xref)@),
            stream_id,
            fuel as nat,
        ),
        old(data)@.is_prefix_of(final(data)@),
        final(xref).len() == old(xref).len(),
    decreases fuel, 0int,
{
    if fuel == 0 {
        return ;
    }
    let stream_obj = match lookup_object(data, xref, stream_id, fuel - 1) {
        Some(x) => x,
        None => {
            return ;
        },
    };
    match stream_obj.get_dict_value("Extends") {
        Some(ext_obj) => {
            match ext_obj.get_indirect_obj_index() {
                Some(ext_id) => {
                    unpack_obj_stm_in(data, xref, ext_id, fuel - 1);
                },
                None => {
                    return ;
                },
            }
        },
        None => {},
    }
    let first: usize = match stream_obj.get_dict_value("First") {
        Some(fv) => match fv.get_indirect_obj_index() {
            Some(x) => x,
            None => {
                return ;
            },
        },
        None => {
            return ;
        },
    };
    let stream_decompr = match decoded_stream(data, xref, &stream_obj) {
        Some(x) => x,
        None => {
            return ;
        },
    };
    let obj_nums = read_header_numbers(&stream_decompr, first);
    unpack_all(data, xref, &stream_decompr, &obj_nums, first, stream_id);
}

/// How deep the page tree may be.
pub const MAX_PAGE_DEPTH: usize = 64;

/// Where a walk over the page tree stands: the data and the table, the pages
/// found so far, in their order, and the nodes that were looked at.
pub struct PageWalk {
    pub store: Store,
    pub pages: Seq<usize>,
    pub visited: Seq<usize>,
}

/// Walking the page tree from node `obj_id`. A node of type `Pages` gives
/// the pages of its `Kids`, in their order; a node of type `Page` is a page;
/// any other node gives nothing. No node is looked at twice.
pub open spec fn spec_page_ids(walk: PageWalk, obj_id: usize, fuel: nat) -> PageWalk
    decreases fuel, 0int, 0int,
{
    if walk.visited.contains(obj_id) {
        walk
    } else {
        let found = spec_get_object(walk.store, obj_id, MAX_UNPACK as nat);
        let seen = PageWalk {
            store: found.store,
            pages: walk.pages,
            visited: walk.visited.push(obj_id),
        };
        match found.object {
            None => seen,
            Some(object) => match dict_value(object, "Type"@) {
                Some(PdfValue::Name(name)) => if name == "Pages"@ {
                    match dict_value(object, "Kids"@) {
                        Some(kv) => match crate::pdf_object::indices_of(kv) {
                            Some(kids) => if fuel > 0 {
                                spec_kids(seen, kids, 0, (fuel - 1) as nat)
                            } else {
                                seen
                            },
                            None => seen,
                        },
                        None => seen,
                    }
                } else if name == "Page"@ {
                    PageWalk { pages: seen.pages.push(obj_id), ..seen }
                } else {
                    seen
                },
                _ => seen,
            },
        }
    }
}

/// Walking the kids of a node, from kid number `i` on.
pub open spec fn spec_kids(walk: PageWalk, kids: Seq<usize>, i: int, fuel: nat) -> PageWalk
    decreases fuel, 1int, kids.len() - i,
{
    if i < 0 || i >= kids.len() {
        walk
    } else {
        spec_kids(spec_page_ids(walk, kids[i], fuel), kids, i + 1, fuel)
    }
}

/// No node of the page tree is looked at twice.
pub proof fn lemma_walk_visits_once(walk: PageWalk, obj_id: usize, fuel: nat)
    requires
        walk.visited.no_duplicates(),
    ensures
        spec_page_ids(walk, obj_id, fuel).visited.no_duplicates(),
    decreases fuel, 0int, 0int,
{
    if !walk.visited.contains(obj_id) {
        let found = spec_get_object(walk.store, obj_id, MAX_UNPACK as nat);
        let seen = PageWalk {
            store: found.store,
            pages: walk.pages,
            visited: walk.visited.push(obj_id),
        };
        assert(seen.visited.no_duplicates());
        match found.object {
            None => {},
            Some(object) => match dict_value(object, "Type"@) {
                Some(PdfValue::Name(name)) => if name == "Pages"@ {
                    match dict_value(object, "Kids"@) {
                        Some(kv) => match crate::pdf_object::indices_of(kv) {
                            Some(kids) => if fuel > 0 {
                                lemma_kids_visit_once(seen, kids, 0, (fuel - 1) as nat);
                            },
                            None => {},
                        },
                        None => {},
                    }
                },
                _ => {},
            },
        }
    }
}

/// See `lemma_walk_visits_once`.
pub proof fn lemma_kids_visit_once(walk: PageWalk, kids: Seq<usize>, i: int, fuel: nat)
    requires
        walk.visited.no_duplicates(),
    ensures
        spec_kids(walk, kids, i, fuel).visited.no_duplicates(),
    decreases fuel, 1int, kids.len() - i,
{
    if !(i < 0 || i >= kids.len()) {
        lemma_walk_visits_once(walk, kids[i], fuel);
        lemma_kids_visit_once(spec_page_ids(walk, kids[i], fuel), kids, i + 1, fuel);
    }
}

/// Whether the number is in the list.
pub fn contains_id(list: &Vec<usize>, x: usize) -> (r: bool)
    ensures
        r == list@.contains(x),
{
    let mut i: usize = 0;
    while i < list.len()
        invariant
            i <= list.len(),
            forall|k: int| 0 <= k < i ==> list@[k] != x,
        decreases list.len() - i,
    {
        if list[i] == x {
            return true;
        }
        i += 1;
    }
    false
}

/// The walk that a document's parts and two lists make.
pub open spec fn walk_of(
    data: Seq<u8>,
    xref: Seq<ObjectRef>,
    pages: Seq<usize>,
    visited: Seq<usize>,
) -> PageWalk {
    PageWalk { store: store_of(data, xref), pages, visited }
}

/// Adds the pages below node `obj_id` to `page_ids`.
pub fn walk_pages(
    data: &mut Vec<u8>,
    xref: &mut Vec<ObjectRef>,
    page_ids: &mut Vec<usize>,
    visited: &mut Vec<usize>,
    obj_id: usize,
    fuel: usize,
)
    ensures
        walk_of(final(data)@, final(xref)@, final(page_ids)@, final(visited)@) == spec_page_ids(
            walk_of(old(data)@, old(xref)@, old(page_ids)@, old(visited)@),
            obj_id,
            fuel as nat,
        ),
        old(data)@.is_prefix_of(final(data)@),
        final(xref).len() == old(xref).len(),
    decreases fuel, 0int, 0int,
{
    if contains_id(visited, obj_id) {
        return ;
    }
    visited.push(obj_id);
    let object = match lookup_object(data, xref, obj_id, MAX_UNPACK) {
        Some(x) => x,
        None => {
            return ;
        },
    };
    let obj_name: String = match object.get_dict_value("Type") {
        Some(obj_type) => match obj_type.get_name() {
            Some(x) => x,
            None => {
                return ;
            },
        },
        None => {
            return ;
        },
    };
    if crate::pdf_object::name_is(&obj_name, "Pages") {
        let kids_ids: Vec<usize> = match object.get_dict_value("Kids") {
            Some(kids_obj) => match kids_obj.get_usize_array() {
                Some(x) => x,
                None => {
                    return ;
                },
            },
            None => {
                return ;
            },
        };
        if fuel == 0 {
            return ;
        }
        let mut i: usize = 0;
        let ghost start = walk_of(data@, xref@, page_ids@, visited@);
        while i < kids_ids.len()
            invariant
                i <= kids_ids.len(),
                fuel > 0,
                spec_kids(
                    walk_of(data@, xref@, page_ids@, visited@),
                    kids_ids@,
                    i as int,
                    (fuel - 1) as nat,
                ) == spec_kids(start, kids_ids@, 0, (fuel - 1) as nat),
                old(data)@.is_prefix_of(data@),
                xref.len() == old(xref).len(),
            decreases kids_ids.len() - i,
        {
            walk_pages(data, xref, page_ids, visited, kids_ids[i], fuel - 1);
            i += 1;
        }
    } else if crate::pdf_object::name_is(&obj_name, "Page") {
        page_ids.push(obj_id);
    }
}

/// What asking for page number `page_nr` comes to: the catalogue names the
/// root of the page tree under `Pages`; the pages of the tree are numbered
/// from 0 in the order of the walk; the page's object is looked up.
pub open spec fn spec_page(store: Store, root: usize, page_nr: usize) -> Found {
    let catalog = spec_get_object(store, root, MAX_UNPACK as nat);
    match catalog.object {
        None => Found { object: None, store: catalog.store },
        Some(catalog_obj) => match dict_value(catalog_obj, "Pages"@) {
            None => Found { object: None, store: catalog.store },
            Some(pv) => match index_of(pv) {
                None => Found { object: None, store: catalog.store },
                Some(pages_id) => {
                    let walk = spec_page_ids(
                        PageWalk {
                            store: catalog.store,
                            pages: Seq::empty(),
                            visited: Seq::empty(),
                        },
                        pages_id,
                        MAX_PAGE_DEPTH as nat,
                    );
                    if page_nr < walk.pages.len() {
                        spec_get_object(walk.store, walk.pages[page_nr as int], MAX_UNPACK as nat)
                    } else {
                        Found { object: None, store: walk.store }
                    }
                },
            },
        },
    }
}

/// Looks up page number `page_nr`.
pub fn lookup_page(data: &mut Vec<u8>, xref: &mut Vec<ObjectRef>, root: usize, page_nr: usize) -> (r:
    Option<PdfVar>)
    ensures
        spec_page(store_of(old(data)@, old(xref)@), root, page_nr) == (Found {
            object: match r {
                Some(obj) => Some(obj@),
                None => None,
            },
            store: store_of(final(data)@, final(xref)@),
        }),
        r is Some ==> r->0@ is Object,
        old(data)@.is_prefix_of(final(data)@),
        final(xref).len() == old(xref).len(),
{
    let catalog_obj = match lookup_object(data, xref, root, MAX_UNPACK) {
        Some(x) => x,
        None => {
            return None;
        },
    };
    let pages_id: usize = match catalog_obj.get_dict_value("Pages") {
        Some(pages_obj) => match pages_obj.get_indirect_obj_index() {
            Some(x) => x,
            None => {
                return None;
            },
        },
        None => {
            return None;
        },
    };
    let mut page_ids: Vec<usize> = Vec::new();
    let mut visited: Vec<usize> = Vec::new();
    walk_pages(data, xref, &mut page_ids, &mut visited, pages_id, MAX_PAGE_DEPTH);
    if page_nr >= page_ids.len() {
        return None;
    }
    lookup_object(data, xref, page_ids[page_nr], MAX_UNPACK)
}

} // verus!
