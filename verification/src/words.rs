//! White space at the ends of a text, and texts inside texts.

use vstd::prelude::*;

verus! {

/// A character that Unicode counts as white space.
pub open spec fn is_white(c: char) -> bool {
    let x = c as u32;
    (9 <= x <= 13) || x == 32 || x == 0x85 || x == 0xA0 || x == 0x1680 || (0x2000 <= x <= 0x200A)
        || x == 0x2028 || x == 0x2029 || x == 0x202F || x == 0x205F || x == 0x3000
}

/// Whether a character is white space.
pub fn is_white_char(c: char) -> (r: bool)
    ensures
        r == is_white(c),
{
    let x: u32 = c as u32;
    (9 <= x && x <= 13) || x == 32 || x == 0x85 || x == 0xA0 || x == 0x1680 || (0x2000 <= x && x
        <= 0x200A) || x == 0x2028 || x == 0x2029 || x == 0x202F || x == 0x205F || x == 0x3000
}

/// The first position at or after `i` that holds no white space.
pub open spec fn white_end(s: Seq<char>, i: int) -> int
    decreases s.len() - i,
{
    if 0 <= i < s.len() && is_white(s[i]) {
        white_end(s, i + 1)
    } else {
        i
    }
}

/// The end of the text before the white space that stands before `j`, not
/// going back beyond `from`.
pub open spec fn white_start(s: Seq<char>, j: int, from: int) -> int
    decreases j,
{
    if 0 <= from < j <= s.len() && is_white(s[j - 1]) {
        white_start(s, j - 1, from)
    } else {
        j
    }
}

/// A text without the white space at its start and at its end.
pub open spec fn trimmed(s: Seq<char>) -> Seq<char> {
    let from = white_end(s, 0);
    let to = white_start(s, s.len() as int, from);
    if from <= to <= s.len() {
        s.subrange(from, to)
    } else {
        Seq::empty()
    }
}

/// White space at the start of a text ends within the text.
proof fn lemma_white_end(s: Seq<char>, i: int)
    requires
        0 <= i <= s.len(),
    ensures
        i <= white_end(s, i) <= s.len(),
    decreases s.len() - i,
{
    if i < s.len() && is_white(s[i]) {
        lemma_white_end(s, i + 1);
    }
}

proof fn lemma_white_start(s: Seq<char>, j: int, from: int)
    requires
        0 <= from <= j <= s.len(),
    ensures
        from <= white_start(s, j, from) <= j,
        white_start(s, j, from) > from ==> !is_white(s[white_start(s, j, from) - 1]),
    decreases j,
{
    if from < j && is_white(s[j - 1]) {
        lemma_white_start(s, j - 1, from);
    }
}

proof fn lemma_white_end_stops(s: Seq<char>, i: int)
    requires
        0 <= i <= s.len(),
    ensures
        white_end(s, i) < s.len() ==> !is_white(s[white_end(s, i)]),
    decreases s.len() - i,
{
    if i < s.len() && is_white(s[i]) {
        lemma_white_end_stops(s, i + 1);
    }
}

/// A text without the white space at its ends is a part of the text that
/// neither starts nor ends with white space.
pub proof fn lemma_trimmed(s: Seq<char>)
    ensures
        trimmed(s).len() <= s.len(),
        trimmed(s).len() > 0 ==> !is_white(trimmed(s).first()) && !is_white(trimmed(s).last()),
        trimmed(s) == s.subrange(
            white_end(s, 0),
            white_start(s, s.len() as int, white_end(s, 0)),
        ),
{
    lemma_white_end(s, 0);
    lemma_white_end_stops(s, 0);
    let from = white_end(s, 0);
    lemma_white_start(s, s.len() as int, from);
}

/// Copies the characters in `[from, to)`.
pub fn copy_chars(s: &Vec<char>, from: usize, to: usize) -> (r: Vec<char>)
    requires
        from <= to <= s.len(),
    ensures
        r@ == s@.subrange(from as int, to as int),
{
    let mut out: Vec<char> = Vec::new();
    let mut i: usize = from;
    while i < to
        invariant
            from <= i <= to <= s.len(),
            out@ == s@.subrange(from as int, i as int),
        decreases to - i,
    {
        out.push(s[i]);
        proof {
            assert(out@ =~= s@.subrange(from as int, i + 1));
        }
        i += 1;
    }
    out
}

/// Takes the white space off both ends of a text.
pub fn trim_chars(s: &Vec<char>) -> (r: Vec<char>)
    ensures
        r@ == trimmed(s@),
{
    let n: usize = s.len();
    let mut from: usize = 0;
    proof {
        lemma_white_end(s@, 0);
    }
    while from < n && is_white_char(s[from])
        invariant
            n == s.len(),
            from <= n,
            white_end(s@, from as int) == white_end(s@, 0),
        decreases n - from,
    {
        from += 1;
    }
    let mut to: usize = n;
    while to > from && is_white_char(s[to - 1])
        invariant
            n == s.len(),
            from <= to <= n,
            white_start(s@, to as int, from as int) == white_start(s@, n as int, from as int),
        decreases to,
    {
        to -= 1;
    }
    copy_chars(s, from, to)
}

/// Whether `needle` stands in `hay` from position `k` on.
pub open spec fn found_at(hay: Seq<char>, k: int, needle: Seq<char>) -> bool {
    0 <= k && k + needle.len() <= hay.len() && hay.subrange(k, k + needle.len()) == needle
}

/// Whether `needle` stands somewhere in `hay`.
pub open spec fn holds_text(hay: Seq<char>, needle: Seq<char>) -> bool {
    exists|k: int| found_at(hay, k, needle)
}

/// Compares `needle` with the characters of `hay` from `k` on.
pub fn matches_at(hay: &Vec<char>, k: usize, needle: &Vec<char>) -> (r: bool)
    ensures
        r == found_at(hay@, k as int, needle@),
{
    if needle.len() > hay.len() || k > hay.len() - needle.len() {
        return false;
    }
    let mut i: usize = 0;
    while i < needle.len()
        invariant
            i <= needle.len(),
            k + needle.len() <= hay.len(),
            hay@.subrange(k as int, k + i) == needle@.subrange(0, i as int),
        decreases needle.len() - i,
    {
        if hay[k + i] != needle[i] {
            proof {
                let a = hay@.subrange(k as int, k + needle.len());
                assert(a[i as int] != needle@[i as int]);
            }
            return false;
        }
        proof {
            assert(hay@.subrange(k as int, k + i + 1) =~= hay@.subrange(k as int, k + i).push(
                hay@[k + i],
            ));
            assert(needle@.subrange(0, i + 1) =~= needle@.subrange(0, i as int).push(
                needle@[i as int],
            ));
        }
        i += 1;
    }
    proof {
        assert(needle@.subrange(0, needle.len() as int) =~= needle@);
    }
    true
}

/// Searches `hay` for `needle`.
pub fn contains_chars(hay: &Vec<char>, needle: &Vec<char>) -> (r: bool)
    ensures
        r == holds_text(hay@, needle@),
{
    let mut k: usize = 0;
    while k < hay.len()
        invariant
            k <= hay.len(),
            forall|j: int| 0 <= j < k ==> !found_at(hay@, j, needle@),
        decreases hay.len() - k,
    {
        if matches_at(hay, k, needle) {
            return true;
        }
        k += 1;
    }
    matches_at(hay, k, needle)
}

} // verus!
