//! Cross-reference tables in text form, and the `startxref` that leads to the
//! newest section.

use crate::cursor::{
    decimal_value, digits_end, has_tag, is_digit, is_digit_byte, lemma_digits_end, lemma_line_end,
    lemma_skip_ws, next_line_from, next_line_start, read_uint_ascii, skip_whitespace, skip_ws,
};
use crate::document::ObjectRef;
use crate::tags::{at_startxref, at_xref, tag_startxref, tag_xref};
use vstd::prelude::*;

verus! {

/// How far from the end of the data `startxref` may stand.
pub const STARTXREF_WINDOW: usize = 100;

/// An entry that no section has filled.
pub open spec fn missing_entry() -> ObjectRef {
    ObjectRef { compressed: 3, xref: 0, _version: 0 }
}

/// The table made at least `size` entries long, with missing entries.
pub open spec fn grown(xref: Seq<ObjectRef>, size: int) -> Seq<ObjectRef> {
    if size <= xref.len() {
        xref
    } else {
        xref + Seq::new((size - xref.len()) as nat, |i: int| missing_entry())
    }
}

/// The table after a section gives `entry` for object `i`: the entry is
/// taken where the table has none yet, so that what a newer section said
/// stays.
pub open spec fn merged(xref: Seq<ObjectRef>, i: int, entry: ObjectRef) -> Seq<ObjectRef> {
    if 0 <= i < xref.len() && xref[i].compressed == 3 {
        xref.update(i, entry)
    } else {
        xref
    }
}

/// Whether every entry that the table `before` knows stands unchanged in the
/// table `after`.
pub open spec fn keeps_known(before: Seq<ObjectRef>, after: Seq<ObjectRef>) -> bool {
    &&& before.len() <= after.len()
    &&& forall|j: int|
        0 <= j < before.len() && (#[trigger] before[j]).compressed != 3 ==> after[j] == before[j]
}

/// Growing a table and giving an object an entry keep what the table knows.
pub proof fn lemma_merge_keeps_known(xref: Seq<ObjectRef>, size: int, i: int, entry: ObjectRef)
    ensures
        keeps_known(xref, grown(xref, size)),
        keeps_known(xref, merged(xref, i, entry)),
{
}

/// Keeping what is known goes on from table to table.
pub proof fn lemma_keeps_known_chain(a: Seq<ObjectRef>, b: Seq<ObjectRef>, c: Seq<ObjectRef>)
    requires
        keeps_known(a, b),
        keeps_known(b, c),
    ensures
        keeps_known(a, c),
{
    assert forall|j: int| 0 <= j < a.len() && (#[trigger] a[j]).compressed != 3 implies c[j]
        == a[j] by {
        assert(b[j] == a[j]);
    }
}

/// Makes the table at least `size` entries long.
pub fn grow_table(xref: &mut Vec<ObjectRef>, size: usize)
    ensures
        final(xref)@ == grown(old(xref)@, size as int),
{
    let ghost before = xref@;
    while xref.len() < size
        invariant
            xref.len() >= before.len(),
            xref.len() <= size || xref@ == before,
            xref@ == grown(before, xref.len() as int),
        decreases size - xref.len(),
    {
        xref.push(ObjectRef { compressed: 3, xref: 0, _version: 0 });
        proof {
            assert(xref@ =~= grown(before, xref.len() as int));
        }
    }
    proof {
        assert(xref@ =~= grown(before, size as int));
    }
}

/// Gives object `i` the entry, unless the table has one for it already.
pub fn merge_entry(xref: &mut Vec<ObjectRef>, i: usize, entry: ObjectRef)
    ensures
        final(xref)@ == merged(old(xref)@, i as int, entry),
{
    if i < xref.len() && xref[i].compressed == 3 {
        xref.set(i, entry);
    }
}

/// Where `startxref` stands: the last place, searching back from `p`, that
/// holds the keyword, is not the start of the data and lies within the
/// window before the end.
pub open spec fn startxref_from(data: Seq<u8>, p: int) -> Option<int>
    decreases p,
{
    if p < 1 || p >= data.len() || data.len() - p > STARTXREF_WINDOW {
        None
    } else if has_tag(data, p, tag_startxref()) {
        Some(p)
    } else {
        startxref_from(data, p - 1)
    }
}

/// The offset that follows `startxref`: a decimal number that is not zero.
pub open spec fn spec_start_xref(data: Seq<u8>) -> Option<usize> {
    match startxref_from(data, data.len() - 1) {
        None => None,
        Some(p) => {
            let from = skip_ws(data, p + 9);
            let to = digits_end(data, from);
            if from < to && 0 < decimal_value(data, from, to) <= usize::MAX {
                Some(decimal_value(data, from, to) as usize)
            } else {
                None
            }
        },
    }
}

/// Where the search for the offset ends: behind the digits that follow
/// `startxref`; where the keyword is not found, at the place where the
/// search back from the end of the data gave up.
pub open spec fn spec_start_xref_end(data: Seq<u8>) -> int {
    match startxref_from(data, data.len() - 1) {
        Some(p) => digits_end(data, skip_ws(data, p + 9)),
        None => if data.len() > STARTXREF_WINDOW {
            data.len() - STARTXREF_WINDOW - 1
        } else {
            0
        },
    }
}

/// The first position at or after `pos` that holds no digit.
fn skip_digits(data: &Vec<u8>, pos: usize) -> (r: usize)
    requires
        pos <= data.len(),
    ensures
        r == digits_end(data@, pos as int),
        pos <= r <= data.len(),
{
    let mut it: usize = pos;
    while it < data.len() && is_digit_byte(data[it])
        invariant
            pos <= it <= data.len(),
            digits_end(data@, it as int) == digits_end(data@, pos as int),
        decreases data.len() - it,
    {
        it += 1;
    }
    it
}

/// Finds `startxref` near the end of the data and reads the offset after it:
/// the offset, and the position at which the search ended.
pub fn locate_start_xref(data: &Vec<u8>) -> (r: (Option<usize>, usize))
    ensures
        r.0 == spec_start_xref(data@),
        r.1 == spec_start_xref_end(data@),
        r.1 <= data.len(),
{
    let n: usize = data.len();
    if n == 0 {
        return (None, 0);
    }
    let mut it: usize = n - 1;
    loop
        invariant
            n == data.len(),
            it < n,
            n - it <= STARTXREF_WINDOW + 1,
            startxref_from(data@, it as int) == startxref_from(data@, n - 1),
        decreases it,
    {
        if it < 1 || n - it > STARTXREF_WINDOW {
            return (None, it);
        }
        if at_startxref(data, it) {
            let from: usize = skip_whitespace(data, it + 9);
            proof {
                lemma_skip_ws(data@, it + 9);
                lemma_digits_end(data@, from as int);
            }
            let end: usize = skip_digits(data, from);
            return match read_uint_ascii(data, from) {
                Some((value, count)) => {
                    if value == 0 {
                        (None, end)
                    } else {
                        (Some(value), end)
                    }
                },
                None => (None, end),
            };
        }
        it -= 1;
    }
}

/// The offset that follows `startxref` near the end of the data.
pub fn find_start_xref(data: &Vec<u8>) -> (r: Option<usize>)
    ensures
        r == spec_start_xref(data@),
{
    locate_start_xref(data).0
}

/// The first position at or after `i` that holds no space.
pub open spec fn spaces_end(data: Seq<u8>, i: int) -> int
    decreases data.len() - i,
{
    if 0 <= i < data.len() && data[i] == 32 {
        spaces_end(data, i + 1)
    } else {
        i
    }
}

/// A run of spaces ends at or after its start, and within the data.
pub proof fn lemma_spaces_end(data: Seq<u8>, i: int)
    requires
        0 <= i,
    ensures
        i <= spaces_end(data, i),
        spaces_end(data, i) <= data.len() || spaces_end(data, i) == i,
    decreases data.len() - i,
{
    if 0 <= i < data.len() && data[i] == 32 {
        lemma_spaces_end(data, i + 1);
    }
}

/// The first position at or after `start` that holds no space.
pub fn skip_spaces(data: &Vec<u8>, start: usize) -> (it: usize)
    ensures
        it == spaces_end(data@, start as int),
        start <= it,
        it <= data.len() || it == start,
{
    proof {
        lemma_spaces_end(data@, start as int);
    }
    let mut it: usize = start;
    while it < data.len() && data[it] == 32
        invariant
            start <= it,
            spaces_end(data@, it as int) == spaces_end(data@, start as int),
        decreases data.len() - it,
    {
        it += 1;
    }
    it
}

/// The decimal number at `p`, where one stands and fits, with the position
/// after it.
pub open spec fn number_at(data: Seq<u8>, p: int) -> Option<(usize, int)> {
    let end = digits_end(data, p);
    if p < end && decimal_value(data, p, end) <= usize::MAX {
        Some((decimal_value(data, p, end) as usize, end))
    } else {
        None
    }
}

/// One entry of a table section, which starts at `p`: an offset of ten
/// digits, a generation number and the letter `n`, for an object in use, or
/// `f`, for a free one. The position is that after the letter.
pub open spec fn spec_table_entry(data: Seq<u8>, p: int) -> Option<(ObjectRef, int)> {
    match number_at(data, p) {
        None => None,
        Some((offset, e1)) => if e1 - p != 10 {
            None
        } else {
            match number_at(data, spaces_end(data, e1)) {
                None => None,
                Some((generation, e2)) => {
                    let f = spaces_end(data, e2);
                    if f < 0 || f >= data.len() {
                        None
                    } else if data[f] == 110 {
                        Some((ObjectRef { compressed: 1, xref: offset, _version: generation }, f + 1))
                    } else if data[f] == 102 {
                        Some((ObjectRef { compressed: 0, xref: offset, _version: generation }, f + 1))
                    } else {
                        None
                    }
                },
            }
        },
    }
}

/// Reads a number at `pos`: its value and the position after it.
pub fn read_number_at(data: &Vec<u8>, pos: usize) -> (r: Option<(usize, usize)>)
    ensures
        match r {
            Some((v, end)) => number_at(data@, pos as int) == Some((v, end as int)) && pos < end
                <= data.len(),
            None => number_at(data@, pos as int) is None,
        },
{
    proof {
        lemma_digits_end(data@, pos as int);
    }
    match read_uint_ascii(data, pos) {
        Some((value, count)) => {
            proof {
                if pos > data.len() {
                    assert(digits_end(data@, pos as int) == pos);
                }
            }
            Some((value, pos + count))
        },
        None => None,
    }
}

/// Reads one entry of a table section.
pub fn read_table_entry(data: &Vec<u8>, p: usize) -> (r: Option<(ObjectRef, usize)>)
    ensures
        match r {
            Some((entry, end)) => spec_table_entry(data@, p as int) == Some((entry, end as int))
                && p < end <= data.len(),
            None => spec_table_entry(data@, p as int) is None,
        },
{
    let (offset, e1) = match read_number_at(data, p) {
        Some(x) => x,
        None => {
            return None;
        },
    };
    if e1 - p != 10 {
        return None;
    }
    let g: usize = skip_spaces(data, e1);
    let (generation, e2) = match read_number_at(data, g) {
        Some(x) => x,
        None => {
            return None;
        },
    };
    let f: usize = skip_spaces(data, e2);
    if f >= data.len() {
        return None;
    }
    if data[f] == 110 {
        Some((ObjectRef { compressed: 1, xref: offset, _version: generation }, f + 1))
    } else if data[f] == 102 {
        Some((ObjectRef { compressed: 0, xref: offset, _version: generation }, f + 1))
    } else {
        None
    }
}

/// The entries of one section: `count` entries, one on each of the lines
/// that follow `pos`, for the objects from `index` on. The position is that
/// after the last entry.
pub open spec fn spec_table_rows(
    data: Seq<u8>,
    pos: int,
    xref: Seq<ObjectRef>,
    index: int,
    count: nat,
) -> Option<(int, Seq<ObjectRef>)>
    decreases count,
{
    if count == 0 {
        Some((pos, xref))
    } else {
        match spec_table_entry(data, next_line_start(data, pos)) {
            None => None,
            Some((entry, end)) => spec_table_rows(
                data,
                end,
                merged(xref, index, entry),
                index + 1,
                (count - 1) as nat,
            ),
        }
    }
}

/// The sections of a table, from the first object number of one of them on:
/// each is a line with the first object number and the count of entries,
/// then the entries. The table ends where no digit starts a section. A
/// section whose last object number is above the largest number of the
/// machine does not read. The position is that of the first byte after the
/// table's last line.
pub open spec fn spec_table_sections(data: Seq<u8>, pos: int, xref: Seq<ObjectRef>) -> Option<
    (int, Seq<ObjectRef>),
>
    decreases data.len() - pos,
{
    if pos < 0 || pos >= data.len() || !is_digit(data[pos]) {
        Some((pos, xref))
    } else {
        match number_at(data, pos) {
            None => None,
            Some((index, e1)) => match number_at(data, spaces_end(data, e1)) {
                None => None,
                Some((count, e2)) => if index + count > usize::MAX {
                    None
                } else {
                    match spec_table_rows(
                        data,
                        e2,
                        grown(xref, index + count),
                        index as int,
                        count as nat,
                    ) {
                        None => None,
                        Some((end, filled)) => {
                            let next = next_line_start(data, end);
                            if pos < next <= data.len() {
                                spec_table_sections(data, next, filled)
                            } else {
                                None
                            }
                        },
                    }
                },
            },
        }
    }
}

/// A cross-reference table: the keyword `xref`, then its sections.
pub open spec fn spec_xref_table(data: Seq<u8>, pos: int, xref: Seq<ObjectRef>) -> Option<
    (int, Seq<ObjectRef>),
> {
    if !has_tag(data, pos, tag_xref()) {
        None
    } else {
        let p = skip_ws(data, pos + 4);
        if p >= data.len() || !is_digit(data[p]) {
            None
        } else {
            spec_table_sections(data, p, xref)
        }
    }
}

/// The entries of a section replace no entry that the table knows.
pub proof fn lemma_rows_keep_known(
    data: Seq<u8>,
    pos: int,
    xref: Seq<ObjectRef>,
    index: int,
    count: nat,
)
    ensures
        match spec_table_rows(data, pos, xref, index, count) {
            Some((end, filled)) => keeps_known(xref, filled),
            None => true,
        },
    decreases count,
{
    if count > 0 {
        match spec_table_entry(data, next_line_start(data, pos)) {
            None => {},
            Some((entry, end)) => {
                let next = merged(xref, index, entry);
                lemma_rows_keep_known(data, end, next, index + 1, (count - 1) as nat);
                match spec_table_rows(data, end, next, index + 1, (count - 1) as nat) {
                    Some((e, filled)) => {
                        lemma_merge_keeps_known(xref, 0, index, entry);
                        lemma_keeps_known_chain(xref, next, filled);
                    },
                    None => {},
                }
            },
        }
    }
}

/// A section takes at least one byte of the data for each of its entries: a
/// section that claims more entries than bytes follow it does not read.
pub proof fn lemma_rows_take_bytes(
    data: Seq<u8>,
    pos: int,
    xref: Seq<ObjectRef>,
    index: int,
    count: nat,
)
    requires
        0 <= pos <= data.len(),
    ensures
        match spec_table_rows(data, pos, xref, index, count) {
            Some((end, filled)) => pos + count <= end <= data.len(),
            None => true,
        },
    decreases count,
{
    if count > 0 {
        let q = next_line_start(data, pos);
        lemma_line_end(data, pos);
        match spec_table_entry(data, q) {
            None => {},
            Some((entry, end)) => {
                lemma_digits_end(data, q);
                let e1 = digits_end(data, q);
                lemma_spaces_end(data, e1);
                lemma_digits_end(data, spaces_end(data, e1));
                let e2 = digits_end(data, spaces_end(data, e1));
                lemma_spaces_end(data, e2);
                lemma_rows_take_bytes(data, end, merged(xref, index, entry), index + 1, (count - 1) as nat);
            },
        }
    }
}

/// The sections of a table replace no entry that the table knows.
pub proof fn lemma_sections_keep_known(data: Seq<u8>, pos: int, xref: Seq<ObjectRef>)
    ensures
        match spec_table_sections(data, pos, xref) {
            Some((end, filled)) => keeps_known(xref, filled),
            None => true,
        },
    decreases data.len() - pos,
{
    if !(pos < 0 || pos >= data.len() || !is_digit(data[pos])) {
        match number_at(data, pos) {
            None => {},
            Some((index, e1)) => match number_at(data, spaces_end(data, e1)) {
                None => {},
                Some((count, e2)) => if index + count <= usize::MAX {
                    let wide = grown(xref, index + count);
                    lemma_rows_keep_known(data, e2, wide, index as int, count as nat);
                    match spec_table_rows(data, e2, wide, index as int, count as nat) {
                        None => {},
                        Some((end, filled)) => {
                            lemma_merge_keeps_known(xref, index + count, 0, missing_entry());
                            lemma_keeps_known_chain(xref, wide, filled);
                            let next = next_line_start(data, end);
                            if pos < next <= data.len() {
                                lemma_sections_keep_known(data, next, filled);
                                match spec_table_sections(data, next, filled) {
                                    Some((e, last)) => {
                                        lemma_keeps_known_chain(xref, filled, last);
                                    },
                                    None => {},
                                }
                            }
                        },
                    }
                },
            },
        }
    }
}

/// Reads the `count` entries of a section, on the lines that follow `pos`,
/// into `xref`.
pub(crate) fn read_table_rows(
    data: &Vec<u8>,
    pos: usize,
    xref: &mut Vec<ObjectRef>,
    index: usize,
    count: usize,
) -> (r: Option<usize>)
    requires
        pos <= data.len(),
        index + count <= usize::MAX,
    ensures
        match r {
            Some(end) => spec_table_rows(
                data@,
                pos as int,
                old(xref)@,
                index as int,
                count as nat,
            ) == Some((end as int, final(xref)@)) && end <= data.len(),
            None => spec_table_rows(data@, pos as int, old(xref)@, index as int, count as nat)
                is None,
        },
{
    let n: usize = data.len();
    let mut row: usize = 0;
    let mut at: usize = pos;
    while row < count
        invariant
            n == data.len(),
            row <= count,
            at <= n,
            index + count <= usize::MAX,
            spec_table_rows(data@, at as int, xref@, index + row, (count - row) as nat)
                == spec_table_rows(data@, pos as int, old(xref)@, index as int, count as nat),
        decreases count - row,
    {
        let line: usize = next_line_from(data, at);
        match read_table_entry(data, line) {
            Some((entry, end)) => {
                merge_entry(xref, index + row, entry);
                at = end;
            },
            None => {
                return None;
            },
        }
        row += 1;
    }
    Some(at)
}

/// Reads the cross-reference table at `pos` into `xref`, which may be left
/// with part of the table where the table is malformed.
fn read_xref_table_into(data: &Vec<u8>, pos: usize, xref: &mut Vec<ObjectRef>) -> (r: Option<usize>)
    ensures
        match r {
            Some(end) => spec_xref_table(data@, pos as int, old(xref)@) == Some(
                (end as int, final(xref)@),
            ) && end <= data.len(),
            None => spec_xref_table(data@, pos as int, old(xref)@) is None,
        },
{
    let n: usize = data.len();
    if !at_xref(data, pos) {
        return None;
    }
    let p: usize = skip_whitespace(data, pos + 4);
    if p >= n || !is_digit_byte(data[p]) {
        return None;
    }
    let mut cur: usize = p;
    while cur < n && is_digit_byte(data[cur])
        invariant
            n == data.len(),
            cur <= n,
            spec_xref_table(data@, pos as int, old(xref)@) == spec_table_sections(
                data@,
                p as int,
                old(xref)@,
            ),
            spec_table_sections(data@, cur as int, xref@) == spec_table_sections(
                data@,
                p as int,
                old(xref)@,
            ),
        decreases n - cur,
    {
        let (index, e1) = match read_number_at(data, cur) {
            Some(x) => x,
            None => {
                return None;
            },
        };
        let s: usize = skip_spaces(data, e1);
        let (count, e2) = match read_number_at(data, s) {
            Some(x) => x,
            None => {
                return None;
            },
        };
        if count > usize::MAX - index {
            return None;
        }
        if count > n {
            proof {
                lemma_rows_take_bytes(
                    data@,
                    e2 as int,
                    grown(xref@, index + count),
                    index as int,
                    count as nat,
                );
            }
            return None;
        }
        grow_table(xref, index + count);
        let at: usize = match read_table_rows(data, e2, xref, index, count) {
            Some(x) => x,
            None => {
                return None;
            },
        };
        let next: usize = next_line_from(data, at);
        if next <= cur || next > n {
            return None;
        }
        cur = next;
    }
    Some(cur)
}

/// Copies a table.
pub fn copy_table(xref: &Vec<ObjectRef>) -> (r: Vec<ObjectRef>)
    ensures
        r@ == xref@,
{
    let mut out: Vec<ObjectRef> = Vec::new();
    let mut i: usize = 0;
    while i < xref.len()
        invariant
            i <= xref.len(),
            out@ == xref@.take(i as int),
        decreases xref.len() - i,
    {
        out.push(xref[i]);
        proof {
            assert(xref@.take(i + 1) =~= xref@.take(i as int).push(xref@[i as int]));
        }
        i += 1;
    }
    proof {
        assert(xref@.take(xref.len() as int) =~= xref@);
    }
    out
}

/// Reads the cross-reference table at `pos` into `xref`. Gives the position
/// after the table, or nothing where the table is malformed; `xref` then
/// stays as it was.
pub fn read_xref_table(data: &Vec<u8>, pos: usize, xref: &mut Vec<ObjectRef>) -> (r: Option<usize>)
    ensures
        match r {
            Some(end) => spec_xref_table(data@, pos as int, old(xref)@) == Some(
                (end as int, final(xref)@),
            ) && end <= data.len(),
            None => spec_xref_table(data@, pos as int, old(xref)@) is None && final(xref)@ == old(
                xref,
            )@,
        },
{
    let mut work: Vec<ObjectRef> = copy_table(xref);
    match read_xref_table_into(data, pos, &mut work) {
        Some(end) => {
            *xref = work;
            Some(end)
        },
        None => None,
    }
}

} // verus!
