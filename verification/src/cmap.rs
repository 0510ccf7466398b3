//! Code maps: the `beginbfchar` and `beginbfrange` sections that say which code
//! points the glyph codes of a font stand for.

use crate::cursor::{has_tag, is_digit, lemma_skip_ws, skip_whitespace, skip_ws};
use crate::pdf_object::{hex_number, to_hex};
use crate::tags::{at_beginbfchar, at_beginbfrange, tag_beginbfchar, tag_beginbfrange};
use std::collections::HashMap;
use vstd::prelude::*;
use vstd::slice::slice_subrange;
use vstd::std_specs::hash::obeys_key_model;

verus! {

broadcast use vstd::std_specs::hash::group_hash_axioms;

/// What a font's table says: for a glyph code, the code points that it
/// stands for.
pub type GlyphMap = Map<u32, Seq<u32>>;

/// The table that a hash map of vectors holds.
pub open spec fn glyphs_of(m: Map<u32, Vec<u32>>) -> GlyphMap {
    Map::new(|k: u32| m.contains_key(k), |k: u32| m[k]@)
}

/// A letter or a digit of ASCII.
pub open spec fn is_alnum(b: u8) -> bool {
    is_digit(b) || (65 <= b <= 90) || (97 <= b <= 122)
}

/// The first position at or after `i` that holds no letter or digit.
pub open spec fn alnum_end(data: Seq<u8>, i: int) -> int
    decreases data.len() - i,
{
    if 0 <= i < data.len() && is_alnum(data[i]) {
        alnum_end(data, i + 1)
    } else {
        i
    }
}

/// The run of letters and digits ends at or after its start, and within the data.
pub proof fn lemma_alnum_end(data: Seq<u8>, i: int)
    requires
        0 <= i,
    ensures
        i <= alnum_end(data, i),
        alnum_end(data, i) <= data.len() || alnum_end(data, i) == i,
    decreases data.len() - i,
{
    if 0 <= i < data.len() && is_alnum(data[i]) {
        lemma_alnum_end(data, i + 1);
    }
}

/// A code in angle brackets, whose `<` stands at `pos`: the number that its
/// hexadecimal digits write, and the position after `>`. Where the digits
/// write no number or `>` is missing, nothing, and the position after the
/// letters and digits.
pub open spec fn spec_hex_key(data: Seq<u8>, pos: int) -> (Option<u32>, int) {
    let end = alnum_end(data, pos + 1);
    if pos < 0 || end > data.len() {
        (None, end)
    } else {
        match hex_number(data.subrange(pos + 1, end)) {
            Some(v) => if end < data.len() && data[end] == 62 {
                (Some(v), end + 1)
            } else {
                (None, end)
            },
            None => (None, end),
        }
    }
}

/// What reading a destination comes to: its code points and the position
/// after it, or the position at which it failed.
pub enum HexChars {
    Done { pos: int, codes: Seq<u32> },
    Failed { pos: int },
}

/// Reading groups of four hexadecimal digits from `i` on, up to `>`.
pub open spec fn spec_hex_quads(data: Seq<u8>, i: int, codes: Seq<u32>) -> HexChars
    decreases data.len() - i,
{
    if i < 0 || i + 4 > data.len() {
        HexChars::Failed { pos: i }
    } else {
        match hex_number(data.subrange(i, i + 4)) {
            None => HexChars::Failed { pos: i },
            Some(v) => {
                let q = skip_ws(data, i + 4);
                if q < i + 4 || q > data.len() {
                    HexChars::Failed { pos: i }
                } else if q < data.len() && data[q] == 62 {
                    HexChars::Done { pos: q + 1, codes: codes.push(v) }
                } else {
                    spec_hex_quads(data, q, codes.push(v))
                }
            },
        }
    }
}

/// Reading a destination: after white space, `<`, groups of four
/// hexadecimal digits, each one code point, and `>`.
pub open spec fn spec_hex_chars(data: Seq<u8>, pos: int) -> HexChars {
    let p = skip_ws(data, pos);
    if pos < 0 || p >= data.len() || data[p] != 60 {
        HexChars::Failed { pos: p }
    } else {
        spec_hex_quads(data, p + 1, Seq::empty())
    }
}

/// Where reading part of a code map stands: the position and the table.
pub struct MapStep {
    pub pos: int,
    pub map: GlyphMap,
}

/// Reading the pairs of a `beginbfchar` section from `pos` on: a code and
/// its destination, again and again, until no `<` follows. A pair whose
/// destination does not read adds nothing.
pub open spec fn spec_fchar(data: Seq<u8>, pos: int, map: GlyphMap) -> MapStep
    decreases data.len() - pos,
{
    let p = skip_ws(data, pos);
    if pos < 0 || p < pos || p >= data.len() || data[p] != 60 {
        MapStep { pos: p, map }
    } else {
        match spec_hex_key(data, p) {
            (None, at) => MapStep { pos: at, map },
            (Some(key), after) => match spec_hex_chars(data, after) {
                HexChars::Done { pos: next, codes } => if pos < next <= data.len() {
                    spec_fchar(data, next, map.insert(key, codes))
                } else {
                    MapStep { pos: next, map: map.insert(key, codes) }
                },
                HexChars::Failed { pos: next } => if pos < next <= data.len() {
                    spec_fchar(data, next, map)
                } else {
                    MapStep { pos: next, map }
                },
            },
        }
    }
}

/// The destinations of an array, for the codes from `code` on, up to and
/// past its `]`.
pub open spec fn spec_range_array(data: Seq<u8>, pos: int, code: u32, map: GlyphMap) -> (
    bool,
    MapStep,
)
    decreases data.len() - pos,
{
    let p = skip_ws(data, pos);
    if pos < 0 || p < pos || p >= data.len() {
        (false, MapStep { pos: p, map })
    } else if data[p] == 93 {
        (true, MapStep { pos: p + 1, map })
    } else {
        match spec_hex_chars(data, p) {
            HexChars::Failed { pos: at } => (false, MapStep { pos: at, map }),
            HexChars::Done { pos: next, codes } => if code < u32::MAX && pos < next
                <= data.len() {
                spec_range_array(data, next, (code + 1) as u32, map.insert(code, codes))
            } else {
                (false, MapStep { pos: next, map: map.insert(code, codes) })
            },
        }
    }
}

/// The table after the codes from `low + i` to `high` have been given the
/// code points from `value + i` on, one each, as far as the code points fit
/// in 32 bits. A range whose last code is below its first holds no code.
pub open spec fn spec_range_fill(map: GlyphMap, low: u32, high: u32, value: u32, i: int) -> GlyphMap
    decreases high - low - i + 1,
{
    if i < 0 || low + i > high || value + i > u32::MAX {
        map
    } else {
        spec_range_fill(
            map.insert((low + i) as u32, seq![(value + i) as u32]),
            low,
            high,
            value,
            i + 1,
        )
    }
}

/// Reading the triples of a `beginbfrange` section from `pos` on: the first
/// and the last code of a range, then either one destination of four digits,
/// from which the code points of the range count up, or an array with one
/// destination for each code. Reading stops where no `<` starts a triple, or
/// at the first triple that does not read.
pub open spec fn spec_frange(data: Seq<u8>, pos: int, map: GlyphMap) -> MapStep
    decreases data.len() - pos,
{
    let p = skip_ws(data, pos);
    if pos < 0 || p < pos || p >= data.len() || data[p] != 60 {
        MapStep { pos: p, map }
    } else {
        match spec_hex_key(data, p) {
            (None, at) => MapStep { pos: at, map },
            (Some(low), after) => {
                let p2 = skip_ws(data, after);
                if p2 >= data.len() || data[p2] != 60 {
                    MapStep { pos: p2, map }
                } else {
                    match spec_hex_key(data, p2) {
                        (None, at) => MapStep { pos: at, map },
                        (Some(high), after2) => {
                            let p3 = skip_ws(data, after2);
                            if p3 >= data.len() {
                                MapStep { pos: p3, map }
                            } else if data[p3] == 91 {
                                match spec_range_array(data, p3 + 1, low, map) {
                                    (true, step) => if pos < step.pos <= data.len() {
                                        spec_frange(data, step.pos, step.map)
                                    } else {
                                        step
                                    },
                                    (false, step) => step,
                                }
                            } else if data[p3] == 60 {
                                let p4 = skip_ws(data, p3 + 1);
                                if p4 + 4 > data.len() {
                                    MapStep { pos: p4, map }
                                } else {
                                    match hex_number(data.subrange(p4, p4 + 4)) {
                                        None => MapStep { pos: p4, map },
                                        Some(value) => if p4 + 4 >= data.len() || p4 + 5 <= pos
                                            || data[p4 + 4] != 62 {
                                            MapStep { pos: p4 + 4, map }
                                        } else {
                                            spec_frange(
                                                data,
                                                p4 + 5,
                                                spec_range_fill(map, low, high, value, 0),
                                            )
                                        },
                                    }
                                }
                            } else {
                                MapStep { pos: p3, map }
                            }
                        },
                    }
                }
            },
        }
    }
}

/// Scanning a code map from `i` on for its `beginbfchar` and `beginbfrange`
/// sections, and reading each into the table.
pub open spec fn spec_cmap_scan(data: Seq<u8>, i: int, map: GlyphMap) -> GlyphMap
    decreases data.len() - i,
{
    if i < 0 || i >= data.len() {
        map
    } else if data[i] != 98 {
        spec_cmap_scan(data, i + 1, map)
    } else {
        let s1 = if has_tag(data, i, tag_beginbfchar()) {
            spec_fchar(data, i + 11, map)
        } else {
            MapStep { pos: i, map }
        };
        let s2 = if has_tag(data, s1.pos, tag_beginbfrange()) {
            spec_frange(data, s1.pos + 12, s1.map)
        } else {
            s1
        };
        if i <= s2.pos < data.len() {
            spec_cmap_scan(data, s2.pos + 1, s2.map)
        } else {
            s2.map
        }
    }
}

/// The table that a code map gives.
pub open spec fn spec_cmap(data: Seq<u8>) -> GlyphMap {
    spec_cmap_scan(data, 0, Map::empty())
}

/// Whether a byte is a letter or a digit of ASCII.
pub fn is_alnum_byte(b: u8) -> (r: bool)
    ensures
        r == is_alnum(b),
{
    (48 <= b && b <= 57) || (65 <= b && b <= 90) || (97 <= b && b <= 122)
}

/// Puts an entry into the table.
pub fn put_glyph(codex: &mut HashMap<u32, Vec<u32>>, key: u32, codes: Vec<u32>)
    ensures
        glyphs_of(final(codex)@) == glyphs_of(old(codex)@).insert(key, codes@),
{
    assert(obeys_key_model::<u32>());
    codex.insert(key, codes);
    proof {
        assert(glyphs_of(final(codex)@) =~= glyphs_of(old(codex)@).insert(key, codes@));
    }
}

/// Reads a code in angle brackets, whose `<` stands at `pos`.
pub fn read_hex_key(data: &Vec<u8>, pos: usize) -> (r: (Option<u32>, usize))
    requires
        pos < data.len(),
    ensures
        spec_hex_key(data@, pos as int) == (r.0, r.1 as int),
        pos < r.1 <= data.len(),
        r.0 is Some ==> pos + 2 <= r.1,
{
    let n: usize = data.len();
    let mut end: usize = pos + 1;
    proof {
        lemma_alnum_end(data@, pos + 1);
    }
    while end < n && is_alnum_byte(data[end])
        invariant
            n == data.len(),
            pos < end <= n,
            alnum_end(data@, end as int) == alnum_end(data@, pos + 1),
        decreases n - end,
    {
        end += 1;
    }
    let digits = slice_subrange(data.as_slice(), pos + 1, end);
    match to_hex(digits) {
        Ok(v) => {
            if end < n && data[end] == 62 {
                (Some(v), end + 1)
            } else {
                (None, end)
            }
        },
        Err(_) => (None, end),
    }
}

/// Reads a destination: `<`, groups of four hexadecimal digits, `>`.
pub fn read_hex_chars(data: &Vec<u8>, pos: usize) -> (r: (Option<Vec<u32>>, usize))
    requires
        pos <= data.len(),
    ensures
        match r.0 {
            Some(codes) => spec_hex_chars(data@, pos as int) == (HexChars::Done {
                pos: r.1 as int,
                codes: codes@,
            }) && pos < r.1,
            None => spec_hex_chars(data@, pos as int) == (HexChars::Failed { pos: r.1 as int }),
        },
        pos <= r.1 <= data.len(),
{
    let n: usize = data.len();
    let p: usize = skip_whitespace(data, pos);
    if p >= n || data[p] != 60 {
        return (None, p);
    }
    let mut chars: Vec<u32> = Vec::new();
    let mut i: usize = p + 1;
    loop
        invariant
            n == data.len(),
            pos <= p < i <= n,
            spec_hex_chars(data@, pos as int) == spec_hex_quads(data@, p + 1, Seq::empty()),
            spec_hex_quads(data@, i as int, chars@) == spec_hex_quads(data@, p + 1, Seq::empty()),
        decreases n - i,
    {
        if n - i < 4 {
            return (None, i);
        }
        let quad = slice_subrange(data.as_slice(), i, i + 4);
        match to_hex(quad) {
            Ok(num) => {
                chars.push(num);
            },
            Err(_) => {
                return (None, i);
            },
        }
        let q: usize = skip_whitespace(data, i + 4);
        if q < n && data[q] == 62 {
            return (Some(chars), q + 1);
        }
        i = q;
    }
}

/// The table and position that a step holds.
pub open spec fn step_of(pos: usize, m: Map<u32, Vec<u32>>) -> MapStep {
    MapStep { pos: pos as int, map: glyphs_of(m) }
}

/// Reads the pairs of a `beginbfchar` section into the table and gives the
/// position at which reading stopped.
pub fn read_fchar(data: &Vec<u8>, pos: usize, codex: &mut HashMap<u32, Vec<u32>>) -> (r: usize)
    requires
        pos <= data.len(),
    ensures
        spec_fchar(data@, pos as int, glyphs_of(old(codex)@)) == step_of(r, final(codex)@),
        pos <= r <= data.len(),
{
    let n: usize = data.len();
    let mut cur: usize = pos;
    loop
        invariant
            n == data.len(),
            pos <= cur <= n,
            spec_fchar(data@, cur as int, glyphs_of(codex@)) == spec_fchar(
                data@,
                pos as int,
                glyphs_of(old(codex)@),
            ),
        decreases n - cur,
    {
        let p: usize = skip_whitespace(data, cur);
        if p >= n || data[p] != 60 {
            return p;
        }
        let (key, after) = read_hex_key(data, p);
        let key: u32 = match key {
            Some(k) => k,
            None => {
                return after;
            },
        };
        let (values, next) = read_hex_chars(data, after);
        match values {
            Some(v) => {
                put_glyph(codex, key, v);
            },
            None => {},
        }
        cur = next;
    }
}

/// Reads the destinations of an array for the codes from `code` on.
fn read_range_array(
    data: &Vec<u8>,
    pos: usize,
    code: u32,
    codex: &mut HashMap<u32, Vec<u32>>,
) -> (r: (bool, usize))
    requires
        pos <= data.len(),
    ensures
        spec_range_array(data@, pos as int, code, glyphs_of(old(codex)@)) == (
            r.0,
            step_of(r.1, final(codex)@),
        ),
        pos <= r.1 <= data.len(),
        r.0 ==> pos < r.1,
{
    let n: usize = data.len();
    let mut cur: usize = pos;
    let mut ix: u32 = code;
    loop
        invariant
            n == data.len(),
            pos <= cur <= n,
            spec_range_array(data@, cur as int, ix, glyphs_of(codex@)) == spec_range_array(
                data@,
                pos as int,
                code,
                glyphs_of(old(codex)@),
            ),
        decreases n - cur,
    {
        let p: usize = skip_whitespace(data, cur);
        if p >= n {
            return (false, p);
        }
        if data[p] == 93 {
            return (true, p + 1);
        }
        proof {
            lemma_skip_ws(data@, cur as int);
        }
        let (values, next) = read_hex_chars(data, p);
        match values {
            Some(v) => {
                put_glyph(codex, ix, v);
                if ix == u32::MAX {
                    return (false, next);
                }
                ix += 1;
                cur = next;
            },
            None => {
                return (false, next);
            },
        }
    }
}

/// Gives the codes from `low` to `high` the code points from `value` on.
fn fill_range(codex: &mut HashMap<u32, Vec<u32>>, low: u32, high: u32, value: u32)
    requires
        low <= high,
    ensures
        glyphs_of(final(codex)@) == spec_range_fill(glyphs_of(old(codex)@), low, high, value, 0),
{
    let mut i: u32 = 0;
    loop
        invariant
            low <= high,
            low + i <= high,
            spec_range_fill(glyphs_of(codex@), low, high, value, i as int) == spec_range_fill(
                glyphs_of(old(codex)@),
                low,
                high,
                value,
                0,
            ),
        decreases high - low - i,
    {
        if value > u32::MAX - i {
            return ;
        }
        let mut one: Vec<u32> = Vec::new();
        one.push(value + i);
        proof {
            assert(one@ =~= seq![(value + i) as u32]);
        }
        put_glyph(codex, low + i, one);
        if low + i == high {
            proof {
                assert(spec_range_fill(glyphs_of(codex@), low, high, value, i + 1) == glyphs_of(
                    codex@,
                ));
            }
            return ;
        }
        i += 1;
    }
}

/// Reads the triples of a `beginbfrange` section into the table and gives
/// the position at which reading stopped.
pub fn read_frange(data: &Vec<u8>, pos: usize, codex: &mut HashMap<u32, Vec<u32>>) -> (r: usize)
    requires
        pos <= data.len(),
    ensures
        spec_frange(data@, pos as int, glyphs_of(old(codex)@)) == step_of(r, final(codex)@),
        pos <= r <= data.len(),
{
    let n: usize = data.len();
    let mut cur: usize = pos;
    loop
        invariant
            n == data.len(),
            pos <= cur <= n,
            spec_frange(data@, cur as int, glyphs_of(codex@)) == spec_frange(
                data@,
                pos as int,
                glyphs_of(old(codex)@),
            ),
        decreases n - cur,
    {
        let p: usize = skip_whitespace(data, cur);
        if p >= n || data[p] != 60 {
            return p;
        }
        let (low, after) = read_hex_key(data, p);
        let low: u32 = match low {
            Some(k) => k,
            None => {
                return after;
            },
        };
        let p2: usize = skip_whitespace(data, after);
        if p2 >= n || data[p2] != 60 {
            return p2;
        }
        let (high, after2) = read_hex_key(data, p2);
        let high: u32 = match high {
            Some(k) => k,
            None => {
                return after2;
            },
        };
        let p3: usize = skip_whitespace(data, after2);
        if p3 >= n {
            return p3;
        }
        if data[p3] == 91 {
            let (closed, at) = read_range_array(data, p3 + 1, low, codex);
            if !closed {
                return at;
            }
            cur = at;
        } else if data[p3] == 60 {
            let p4: usize = skip_whitespace(data, p3 + 1);
            if p4 > n || n - p4 < 4 {
                return p4;
            }
            let quad = slice_subrange(data.as_slice(), p4, p4 + 4);
            let value: u32 = match to_hex(quad) {
                Ok(v) => v,
                Err(_) => {
                    return p4;
                },
            };
            if p4 + 4 >= n || data[p4 + 4] != 62 {
                return p4 + 4;
            }
            if low <= high {
                fill_range(codex, low, high, value);
            }
            cur = p4 + 5;
        } else {
            return p3;
        }
    }
}

/// Reads a code map into the table: every `beginbfchar` and `beginbfrange`
/// section of it.
pub fn read_cmap(data: &Vec<u8>, codex: &mut HashMap<u32, Vec<u32>>)
    ensures
        glyphs_of(final(codex)@) == spec_cmap_scan(data@, 0, glyphs_of(old(codex)@)),
{
    let n: usize = data.len();
    let mut i: usize = 0;
    while i < n
        invariant
            n == data.len(),
            i <= n,
            spec_cmap_scan(data@, i as int, glyphs_of(codex@)) == spec_cmap_scan(
                data@,
                0,
                glyphs_of(old(codex)@),
            ),
        decreases n - i,
    {
        if data[i] == 98 {
            let mut at: usize = i;
            if at_beginbfchar(data, at) {
                at = read_fchar(data, at + 11, codex);
            }
            if at_beginbfrange(data, at) {
                at = read_frange(data, at + 12, codex);
            }
            if at >= n {
                return ;
            }
            i = at + 1;
        } else {
            i += 1;
        }
    }
}

} // verus!
