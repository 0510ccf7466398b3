//! The probable title among the runs of a page.

use crate::decoding::{chars_of_str, string_from_chars};
use crate::document::Document;
use crate::fixed::{fixed_product, times, UNIT};
use crate::reader::only_grew;
use crate::text_parser::{texts_of, Text, TextModel};
use crate::content::spec_text_from_page;
use crate::streams::names_of_list;
use crate::words::{contains_chars, holds_text, is_white, is_white_char, trim_chars, trimmed};
use vstd::prelude::*;
use vstd::utf8::encode_utf8;

verus! {

/// A letter of the Latin alphabet, without marks.
pub open spec fn is_latin_letter(c: char) -> bool {
    ('A' <= c <= 'Z') || ('a' <= c <= 'z')
}

/// A decimal digit.
pub open spec fn is_decimal_digit(c: char) -> bool {
    '0' <= c <= '9'
}

/// How many of the characters are Latin letters.
pub open spec fn count_letters(s: Seq<char>) -> nat
    decreases s.len(),
{
    if s.len() == 0 {
        0
    } else {
        count_letters(s.drop_last()) + if is_latin_letter(s.last()) {
            1nat
        } else {
            0nat
        }
    }
}

/// How many of the characters are white space.
pub open spec fn count_white(s: Seq<char>) -> nat
    decreases s.len(),
{
    if s.len() == 0 {
        0
    } else {
        count_white(s.drop_last()) + if is_white(s.last()) {
            1nat
        } else {
            0nat
        }
    }
}

/// Whether a text may be a title. It is 16 to 300 bytes long in UTF-8; it
/// holds white space; it has at least 14 other characters, at most 14 for
/// each character of white space; and at least seven in ten of the other
/// characters are Latin letters.
pub open spec fn accepted_title(s: Seq<char>) -> bool {
    let bytes = encode_utf8(s).len();
    let white = count_white(s);
    let others = s.len() - white;
    &&& 16 <= bytes <= 300
    &&& white >= 1
    &&& others >= 14
    &&& others <= 14 * white
    &&& 10 * count_letters(s) >= 7 * others
}

/// Whether a character is a Latin letter.
pub fn is_letter_char(c: char) -> (r: bool)
    ensures
        r == is_latin_letter(c),
{
    ('A' <= c && c <= 'Z') || ('a' <= c && c <= 'z')
}

/// Whether a character is a decimal digit.
pub fn is_digit_char(c: char) -> (r: bool)
    ensures
        r == is_decimal_digit(c),
{
    '0' <= c && c <= '9'
}

/// Decides whether a text may be a title.
pub fn is_accepted_title(title: &str) -> (r: bool)
    ensures
        r == accepted_title(title@),
{
    let bytes: usize = title.as_bytes().len();
    if bytes < 16 || bytes > 300 {
        return false;
    }
    let chars: Vec<char> = chars_of_str(title);
    let mut letters: usize = 0;
    let mut spaces: usize = 0;
    let mut i: usize = 0;
    while i < chars.len()
        invariant
            i <= chars.len(),
            letters == count_letters(chars@.take(i as int)),
            spaces == count_white(chars@.take(i as int)),
            letters + spaces <= i,
        decreases chars.len() - i,
    {
        proof {
            assert(chars@.take(i + 1).drop_last() =~= chars@.take(i as int));
        }
        let t: char = chars[i];
        if is_letter_char(t) {
            letters += 1;
        } else if is_digit_char(t) {
        } else if is_white_char(t) {
            spaces += 1;
        }
        i += 1;
    }
    proof {
        assert(chars@.take(chars.len() as int) =~= chars@);
    }
    let total_chars: usize = chars.len() - spaces;
    if spaces < 1 {
        return false;
    }
    let wide_letters: u128 = letters as u128;
    let wide_total: u128 = total_chars as u128;
    let wide_spaces: u128 = spaces as u128;
    if wide_total > 14 * wide_spaces {
        return false;
    }
    if total_chars < 14 {
        return false;
    }
    10 * wide_letters >= 7 * wide_total
}

/// The notice that marks a run as no title.
pub open spec fn notice() -> Seq<char> {
    "Authorized licensed use limited to"@
}

/// Whether a text, without the white space at its ends, is one of the
/// names of journals.
pub open spec fn is_journal(journals: Seq<Seq<char>>, text: Seq<char>) -> bool {
    journals.contains(trimmed(text))
}

/// Whether a run stays in view as a title: its mean font size is above 5,
/// its text may be a title, is not the name of a journal and does not hold
/// the notice.
pub open spec fn kept(t: TextModel, journals: Seq<Seq<char>>) -> bool {
    &&& t.avg_font_size > 5 * UNIT
    &&& accepted_title(t.chars)
    &&& !is_journal(journals, t.chars)
    &&& !holds_text(t.chars, notice())
}

/// The largest mean font size among the runs that stay in view; zero where
/// none does.
pub open spec fn max_size(runs: Seq<TextModel>, journals: Seq<Seq<char>>) -> i64
    decreases runs.len(),
{
    if runs.len() == 0 {
        0
    } else {
        let m = max_size(runs.drop_last(), journals);
        if kept(runs.last(), journals) && runs.last().avg_font_size > m {
            runs.last().avg_font_size
        } else {
            m
        }
    }
}

/// The size that a run must exceed to survive: nine tenths of the largest
/// size, and at least 13.
pub open spec fn size_floor(largest: i64) -> i64 {
    if fixed_product(900000, largest) > 13 * UNIT {
        fixed_product(900000, largest)
    } else {
        (13 * UNIT) as i64
    }
}

/// Whether a run survives: it stays in view and is large enough.
pub open spec fn survives(t: TextModel, journals: Seq<Seq<char>>, largest: i64) -> bool {
    kept(t, journals) && t.avg_font_size > size_floor(largest)
}

/// The first run that survives.
pub open spec fn first_survivor(
    runs: Seq<TextModel>,
    journals: Seq<Seq<char>>,
    largest: i64,
) -> Option<TextModel>
    decreases runs.len(),
{
    if runs.len() == 0 {
        None
    } else {
        match first_survivor(runs.drop_last(), journals, largest) {
            Some(t) => Some(t),
            None => if survives(runs.last(), journals, largest) {
                Some(runs.last())
            } else {
                None
            },
        }
    }
}

/// The survivor with the most characters; of several with the most, the
/// last.
pub open spec fn longest_survivor(
    runs: Seq<TextModel>,
    journals: Seq<Seq<char>>,
    largest: i64,
) -> Option<TextModel>
    decreases runs.len(),
{
    if runs.len() == 0 {
        None
    } else {
        let before = longest_survivor(runs.drop_last(), journals, largest);
        if survives(runs.last(), journals, largest) && (before is None || runs.last().chars.len()
            >= before->0.chars.len()) {
            Some(runs.last())
        } else {
            before
        }
    }
}

/// The probable title among the runs of a page. Where the largest size in
/// view is below 11, the first survivor; otherwise the longest. The empty
/// text where no run survives.
pub open spec fn spec_title(runs: Seq<TextModel>, journals: Seq<Seq<char>>) -> Seq<char> {
    let largest = max_size(runs, journals);
    let chosen = if largest < 11 * UNIT {
        first_survivor(runs, journals, largest)
    } else {
        longest_survivor(runs, journals, largest)
    };
    match chosen {
        Some(t) => t.chars,
        None => Seq::empty(),
    }
}

/// No run in view is larger than the largest size.
pub proof fn lemma_max_size_bounds(runs: Seq<TextModel>, journals: Seq<Seq<char>>, t: TextModel)
    requires
        runs.contains(t),
        kept(t, journals),
    ensures
        t.avg_font_size <= max_size(runs, journals),
    decreases runs.len(),
{
    if runs.len() > 0 {
        if runs.last() != t {
            let i = choose|i: int| 0 <= i < runs.len() && runs[i] == t;
            assert(runs.drop_last()[i] == t);
            lemma_max_size_bounds(runs.drop_last(), journals, t);
        }
        assert(max_size(runs.drop_last(), journals) <= max_size(runs, journals));
    }
}

/// The largest size is zero or the size of a run in view.
pub proof fn lemma_max_size_attained(runs: Seq<TextModel>, journals: Seq<Seq<char>>)
    ensures
        max_size(runs, journals) >= 0,
        max_size(runs, journals) == 0 || exists|t: TextModel|
            runs.contains(t) && kept(t, journals) && t.avg_font_size == max_size(runs, journals),
    decreases runs.len(),
{
    if runs.len() > 0 {
        lemma_max_size_attained(runs.drop_last(), journals);
        let m = max_size(runs.drop_last(), journals);
        if kept(runs.last(), journals) && runs.last().avg_font_size > m {
            assert(runs.contains(runs.last()));
        } else if m != 0 {
            let t = choose|t: TextModel|
                runs.drop_last().contains(t) && kept(t, journals) && t.avg_font_size == m;
            let i = choose|i: int| 0 <= i < runs.drop_last().len() && runs.drop_last()[i] == t;
            assert(runs[i] == t);
            assert(runs.contains(t));
        }
    }
}

/// Sequences that hold the same runs have the same largest size.
pub proof fn lemma_max_size_of_same_runs(
    a: Seq<TextModel>,
    b: Seq<TextModel>,
    journals: Seq<Seq<char>>,
)
    requires
        forall|t: TextModel| a.contains(t) <==> b.contains(t),
    ensures
        max_size(a, journals) == max_size(b, journals),
{
    lemma_max_size_attained(a, journals);
    lemma_max_size_attained(b, journals);
    if max_size(a, journals) != 0 {
        let t = choose|t: TextModel|
            a.contains(t) && kept(t, journals) && t.avg_font_size == max_size(a, journals);
        lemma_max_size_bounds(b, journals, t);
    }
    if max_size(b, journals) != 0 {
        let t = choose|t: TextModel|
            b.contains(t) && kept(t, journals) && t.avg_font_size == max_size(b, journals);
        lemma_max_size_bounds(a, journals, t);
    }
}

/// The longest survivor is a survivor among the runs, and no survivor among
/// them has more characters. There is one where any run survives.
pub proof fn lemma_longest_survivor(runs: Seq<TextModel>, journals: Seq<Seq<char>>, largest: i64)
    ensures
        match longest_survivor(runs, journals, largest) {
            Some(t) => runs.contains(t) && survives(t, journals, largest) && forall|s: TextModel|
                runs.contains(s) && survives(s, journals, largest) ==> s.chars.len()
                    <= t.chars.len(),
            None => forall|s: TextModel| runs.contains(s) ==> !survives(s, journals, largest),
        },
    decreases runs.len(),
{
    if runs.len() > 0 {
        let front = runs.drop_last();
        lemma_longest_survivor(front, journals, largest);
        assert forall|s: TextModel| runs.contains(s) implies front.contains(s) || s
            == runs.last() by {
            let i = choose|i: int| 0 <= i < runs.len() && runs[i] == s;
            if i < runs.len() - 1 {
                assert(front[i] == s);
            }
        }
        assert(runs.contains(runs.last()));
        match longest_survivor(front, journals, largest) {
            Some(t) => {
                let i = choose|i: int| 0 <= i < front.len() && front[i] == t;
                assert(runs[i] == t);
            },
            None => {},
        }
    }
}

/// The title does not depend on the order of the runs, where the longest
/// survivor is chosen and one survivor has more characters than every
/// survivor with another text: the title is then the text of that run.
pub proof fn lemma_title_ignores_order(
    a: Seq<TextModel>,
    b: Seq<TextModel>,
    journals: Seq<Seq<char>>,
    x: TextModel,
)
    requires
        forall|t: TextModel| a.contains(t) <==> b.contains(t),
        max_size(a, journals) >= 11 * UNIT,
        a.contains(x),
        survives(x, journals, max_size(a, journals)),
        forall|t: TextModel|
            a.contains(t) && survives(t, journals, max_size(a, journals)) && t.chars != x.chars
                ==> t.chars.len() < x.chars.len(),
    ensures
        spec_title(a, journals) == x.chars,
        spec_title(b, journals) == x.chars,
{
    lemma_max_size_of_same_runs(a, b, journals);
    lemma_longest_survivor(a, journals, max_size(a, journals));
    lemma_longest_survivor(b, journals, max_size(a, journals));
}

/// Whether a text, without the white space at its ends, is one of the
/// names of journals.
pub fn contains_journal(journals: &Vec<String>, journal: &str) -> (r: bool)
    ensures
        r == is_journal(names_of_list(journals@), journal@),
{
    let chars: Vec<char> = chars_of_str(journal);
    let modified: String = string_from_chars(&trim_chars(&chars));
    let mut i: usize = 0;
    while i < journals.len()
        invariant
            i <= journals.len(),
            modified@ == trimmed(journal@),
            forall|k: int| 0 <= k < i ==> names_of_list(journals@)[k] != modified@,
        decreases journals.len() - i,
    {
        if journals[i] == modified {
            proof {
                assert(names_of_list(journals@)[i as int] == modified@);
            }
            return true;
        }
        i += 1;
    }
    false
}

/// The names that the lines of a list hold, from position `i` on, where the
/// line that is being read started at `start`: each line, without the white
/// space at its ends, is one name. A line feed ends a line; what follows
/// the last line feed is a line where it is not empty.
pub open spec fn spec_lines(s: Seq<char>, i: int, start: int, names: Seq<Seq<char>>) -> Seq<
    Seq<char>,
>
    decreases s.len() - i,
{
    if i < 0 || start < 0 || start > i {
        names
    } else if i >= s.len() {
        if start < s.len() {
            names.push(trimmed(s.subrange(start, s.len() as int)))
        } else {
            names
        }
    } else if s[i] == '\n' {
        spec_lines(s, i + 1, i + 1, names.push(trimmed(s.subrange(start, i))))
    } else {
        spec_lines(s, i + 1, start, names)
    }
}

/// Reads the names of journals from a list with one name on each line.
pub fn journal_names(text: &str) -> (r: Vec<String>)
    ensures
        names_of_list(r@) == spec_lines(text@, 0, 0, Seq::empty()),
{
    let chars: Vec<char> = chars_of_str(text);
    let n: usize = chars.len();
    let mut names: Vec<String> = Vec::new();
    let mut start: usize = 0;
    let mut i: usize = 0;
    proof {
        assert(names_of_list(names@) =~= Seq::empty());
    }
    while i < n
        invariant
            n == chars.len(),
            chars@ == text@,
            start <= i <= n,
            spec_lines(chars@, i as int, start as int, names_of_list(names@)) == spec_lines(
                chars@,
                0,
                0,
                Seq::empty(),
            ),
        decreases n - i,
    {
        if chars[i] == '\n' {
            let line: Vec<char> = crate::words::copy_chars(&chars, start, i);
            let name: String = string_from_chars(&trim_chars(&line));
            proof {
                assert(names_of_list(names@.push(name)) =~= names_of_list(names@).push(name@));
            }
            names.push(name);
            start = i + 1;
        }
        i += 1;
    }
    if start < n {
        let line: Vec<char> = crate::words::copy_chars(&chars, start, n);
        let name: String = string_from_chars(&trim_chars(&line));
        proof {
            assert(names_of_list(names@.push(name)) =~= names_of_list(names@).push(name@));
        }
        names.push(name);
    }
    names
}

/// Whether a text holds the notice.
pub fn holds_notice(text: &str) -> (r: bool)
    ensures
        r == holds_text(text@, notice()),
{
    let hay: Vec<char> = chars_of_str(text);
    let needle: Vec<char> = chars_of_str("Authorized licensed use limited to");
    contains_chars(&hay, &needle)
}

/// Whether a run stays in view.
fn keeps(t: &Text, journals: &Vec<String>) -> (r: bool)
    ensures
        r == kept(t@, names_of_list(journals@)),
{
    t.avg_font_size > 5 * UNIT && is_accepted_title(t.chars.as_str()) && !contains_journal(
        journals,
        t.chars.as_str(),
    ) && !holds_notice(t.chars.as_str())
}

/// The size that a run must exceed to survive.
fn floor_for(largest: i64) -> (r: i64)
    ensures
        r == size_floor(largest),
{
    let scaled: i64 = times(900000, largest);
    if scaled > 13 * UNIT {
        scaled
    } else {
        13 * UNIT
    }
}

/// Picks the probable title among the runs of a page. A run whose text is
/// one of `journals` is no title.
pub fn select_title(texts: &Vec<Text>, journals: &Vec<String>) -> (r: String)
    ensures
        r@ == spec_title(texts_of(texts@), names_of_list(journals@)),
{
    let ghost runs = texts_of(texts@);
    let ghost names = names_of_list(journals@);
    let n: usize = texts.len();
    let mut max: i64 = 0;
    let mut i: usize = 0;
    while i < n
        invariant
            n == texts.len(),
            i <= n,
            runs == texts_of(texts@),
            names == names_of_list(journals@),
            max == max_size(runs.take(i as int), names),
        decreases n - i,
    {
        proof {
            assert(runs.take(i + 1).drop_last() =~= runs.take(i as int));
            assert(runs.take(i + 1).last() == texts@[i as int]@);
        }
        if keeps(&texts[i], journals) && texts[i].avg_font_size > max {
            max = texts[i].avg_font_size;
        }
        i += 1;
    }
    proof {
        assert(runs.take(n as int) =~= runs);
    }
    let floor: i64 = floor_for(max);
    let mut first: Option<usize> = None;
    let mut longest: Option<usize> = None;
    let mut longest_len: usize = 0;
    let mut k: usize = 0;
    while k < n
        invariant
            n == texts.len(),
            k <= n,
            runs == texts_of(texts@),
            names == names_of_list(journals@),
            floor == size_floor(max),
            match first {
                Some(f) => f < k && first_survivor(runs.take(k as int), names, max) == Some(
                    runs[f as int],
                ),
                None => first_survivor(runs.take(k as int), names, max) is None,
            },
            match longest {
                Some(l) => l < k && longest_survivor(runs.take(k as int), names, max) == Some(
                    runs[l as int],
                ) && longest_len == runs[l as int].chars.len(),
                None => longest_survivor(runs.take(k as int), names, max) is None,
            },
        decreases n - k,
    {
        proof {
            assert(runs.take(k + 1).drop_last() =~= runs.take(k as int));
            assert(runs.take(k + 1).last() == texts@[k as int]@);
            assert(runs[k as int] == texts@[k as int]@);
        }
        if keeps(&texts[k], journals) && texts[k].avg_font_size > floor {
            if first.is_none() {
                first = Some(k);
            }
            let len: usize = texts[k].chars.as_str().unicode_len();
            if longest.is_none() || len >= longest_len {
                longest = Some(k);
                longest_len = len;
            }
        }
        k += 1;
    }
    proof {
        assert(runs.take(n as int) =~= runs);
    }
    let chosen: Option<usize> = if max < 11 * UNIT {
        first
    } else {
        longest
    };
    match chosen {
        Some(c) => texts[c].chars.clone(),
        None => String::new(),
    }
}

/// The title among the runs of a document's first page, or the empty text
/// where the page gives no runs.
pub open spec fn title_of_runs(runs: Option<Seq<TextModel>>, journals: Seq<Seq<char>>) -> Seq<
    char,
> {
    match runs {
        Some(runs) => spec_title(runs, journals),
        None => Seq::empty(),
    }
}

/// The probable title of a document, where the names of journals are no
/// titles.
pub fn get_probable_title_with(pdf: &mut Document, journals: &Vec<String>) -> (r: String)
    ensures
        ({
            let found = spec_text_from_page(old(pdf).store(), old(pdf).trailer.root, 0);
            found.store == final(pdf).store() && r@ == title_of_runs(
                found.runs,
                names_of_list(journals@),
            )
        }),
        only_grew(old(pdf), final(pdf)),
{
    match pdf.get_text_from_page(0) {
        Some(texts) => select_title(&texts, journals),
        None => String::new(),
    }
}

/// The probable title of a document: the title among the runs of its first
/// page.
pub fn get_probable_title(pdf: &mut Document) -> (r: String)
    ensures
        ({
            let found = spec_text_from_page(old(pdf).store(), old(pdf).trailer.root, 0);
            found.store == final(pdf).store() && r@ == title_of_runs(found.runs, Seq::empty())
        }),
        only_grew(old(pdf), final(pdf)),
{
    let journals: Vec<String> = Vec::new();
    proof {
        assert(names_of_list(journals@) =~= Seq::empty());
    }
    get_probable_title_with(pdf, &journals)
}

} // verus!
