//! Which files are documents, and how results are written out: the title that is
//! shown, the lines of the table, the order of the file names.

use crate::metadata::PDFStruct;
use crate::pdf_object::name_is;
use crate::streams::names_of_list;
use vstd::prelude::*;

pub use crate::metadata::split_name;

verus! {

/// Where the last part of a path starts: after the last `/` before `j`, or
/// at the start.
pub open spec fn part_start(path: Seq<char>, j: int) -> int
    decreases j,
{
    if j <= 0 || j > path.len() {
        0
    } else if path[j - 1] == '/' {
        j
    } else {
        part_start(path, j - 1)
    }
}

/// The last part of a path: what follows its last `/`.
pub open spec fn last_part(path: Seq<char>) -> Seq<char> {
    path.subrange(part_start(path, path.len() as int), path.len() as int)
}

/// A path whose file name is its last part wherever it is read: it holds
/// neither `\` nor `:`, it does not start with `//`, which names a server
/// on one platform, and its last part is neither empty nor `.` nor `..`.
pub open spec fn is_plain_path(path: Seq<char>) -> bool {
    &&& !path.contains('\\')
    &&& !path.contains(':')
    &&& !(path.len() >= 2 && path[0] == '/' && path[1] == '/')
    &&& last_part(path).len() > 0
    &&& last_part(path) != seq!['.']
    &&& last_part(path) != seq!['.', '.']
}

/// The place of the last `.` before `j` in a name, or -1 where there is
/// none.
pub open spec fn last_dot(name: Seq<char>, j: int) -> int
    decreases j,
{
    if j <= 0 || j > name.len() {
        -1
    } else if name[j - 1] == '.' {
        j - 1
    } else {
        last_dot(name, j - 1)
    }
}

/// The extension of a file name: what follows its last `.`. A name without
/// a `.`, or with none but a `.` at its start, has no extension.
pub open spec fn name_extension(name: Seq<char>) -> Option<Seq<char>> {
    let dot = last_dot(name, name.len() as int);
    if dot <= 0 {
        None
    } else {
        Some(name.subrange(dot + 1, name.len() as int))
    }
}

/// `std::path::Path::extension`: the extension of the path's file name.
///
/// The file name is the last component of the path, and which component
/// that is depends on the separators of the platform. Two things hold
/// wherever the path is read. A path without any `.` has no extension. And
/// of a plain path, one that every platform cuts at `/` alone, the file
/// name is the last part, whose extension is what follows its last `.`;
/// there is none where the name has no `.`, or none but a `.` at its start.
#[verifier::external_body]
fn extension_of(path: &str) -> (r: Option<String>)
    ensures
        !path@.contains('.') ==> r is None,
        is_plain_path(path@) ==> match r {
            Some(x) => name_extension(last_part(path@)) == Some(x@),
            None => name_extension(last_part(path@)) is None,
        },
{
    match std::path::Path::new(path).extension() {
        Some(x) => match x.to_str() {
            Some(s) => Some(s.to_string()),
            None => None,
        },
        None => None,
    }
}

/// The list after a path with the given extension was looked at: the path
/// is added where the extension is `pdf`.
pub open spec fn with_pdf(
    paths: Seq<Seq<char>>,
    path: Seq<char>,
    extension: Option<Seq<char>>,
) -> Seq<Seq<char>> {
    match extension {
        Some(x) => if x == "pdf"@ {
            paths.push(path)
        } else {
            paths
        },
        None => paths,
    }
}

/// Adds the path to the list where its extension is `pdf`.
pub fn push_if_pdf(path: &str, extension: &Option<String>, pdf_paths: &mut Vec<String>)
    ensures
        names_of_list(final(pdf_paths)@) == with_pdf(
            names_of_list(old(pdf_paths)@),
            path@,
            match extension {
                Some(x) => Some(x@),
                None => None,
            },
        ),
{
    match extension {
        Some(x) => {
            if name_is(x, "pdf") {
                let owned: String = String::from_str(path);
                proof {
                    assert(names_of_list(pdf_paths@.push(owned)) =~= names_of_list(
                        pdf_paths@,
                    ).push(owned@));
                }
                pdf_paths.push(owned);
            }
        },
        None => {},
    }
}

/// Adds the path of a file to the list where the file is a PDF by its name:
/// where the extension of its file name is `pdf`.
///
/// Of a plain path the file name is the last part, so the path is added
/// where `pdf` follows the last `.` of that part, and that `.` is not the
/// first character of the part. Of any other path the platform says what
/// the file name is; a path without any `.` is never added.
pub fn read_file_path(path: &str, pdf_paths: &mut Vec<String>)
    ensures
        is_plain_path(path@) ==> names_of_list(final(pdf_paths)@) == with_pdf(
            names_of_list(old(pdf_paths)@),
            path@,
            name_extension(last_part(path@)),
        ),
        !path@.contains('.') ==> names_of_list(final(pdf_paths)@) == names_of_list(
            old(pdf_paths)@,
        ),
        names_of_list(final(pdf_paths)@) == names_of_list(old(pdf_paths)@) || names_of_list(
            final(pdf_paths)@,
        ) == names_of_list(old(pdf_paths)@).push(path@),
{
    let extension: Option<String> = extension_of(path);
    push_if_pdf(path, &extension, pdf_paths);
}

/// A plain path whose last part is a name, not empty, followed by `.pdf`
/// is added to the list.
pub proof fn lemma_pdf_name_is_listed(paths: Seq<Seq<char>>, path: Seq<char>, stem: Seq<char>)
    requires
        is_plain_path(path),
        stem.len() > 0,
        last_part(path) == stem + seq!['.', 'p', 'd', 'f'],
    ensures
        with_pdf(paths, path, name_extension(last_part(path))) == paths.push(path),
{
    let name = last_part(path);
    let n = name.len() as int;
    reveal_strlit("pdf");
    assert(name[n - 1] == 'f' && name[n - 2] == 'd' && name[n - 3] == 'p' && name[n - 4] == '.');
    assert(last_dot(name, n - 3) == n - 4);
    assert(last_dot(name, n - 2) == n - 4);
    assert(last_dot(name, n - 1) == n - 4);
    assert(last_dot(name, n) == n - 4);
    assert(name.subrange(n - 3, n) =~= "pdf"@);
}

/// The title under which a document is written out where the service gave
/// none: the title of the information dictionary, or else the probable
/// title; none where both are empty.
pub open spec fn spec_shown_title(metadata_title: Seq<char>, assumed_title: Seq<char>) -> Option<
    Seq<char>,
> {
    if metadata_title.len() > 0 {
        Some(metadata_title)
    } else if assumed_title.len() > 0 {
        Some(assumed_title)
    } else {
        None
    }
}

/// Picks the title under which a document is written out.
pub fn shown_title(pdf: &PDFStruct) -> (r: Option<String>)
    ensures
        match r {
            Some(t) => spec_shown_title(pdf.metadata_title@, pdf.assumed_title@) == Some(t@),
            None => spec_shown_title(pdf.metadata_title@, pdf.assumed_title@) is None,
        },
{
    if pdf.metadata_title.as_str().unicode_len() > 0 {
        Some(pdf.metadata_title.clone())
    } else if pdf.assumed_title.as_str().unicode_len() > 0 {
        Some(pdf.assumed_title.clone())
    } else {
        None
    }
}

/// The digits of a number in base ten, as characters.
pub open spec fn decimal_chars(n: nat) -> Seq<char>
    decreases n,
{
    if n < 10 {
        seq![(48 + n) as char]
    } else {
        decimal_chars(n / 10).push((48 + n % 10) as char)
    }
}

/// A year as it is written: in base ten, with `-` before a year below zero.
pub open spec fn year_chars(year: i64) -> Seq<char> {
    if year < 0 {
        seq!['-'] + decimal_chars((-year) as nat)
    } else {
        decimal_chars(year as nat)
    }
}

/// Writes a number in base ten at the end of `out`.
fn push_decimal_chars(out: &mut Vec<char>, n: u64)
    ensures
        final(out)@ == old(out)@ + decimal_chars(n as nat),
    decreases n,
{
    if n >= 10 {
        push_decimal_chars(out, n / 10);
    }
    let d: u8 = (n % 10) as u8;
    out.push((48 + d) as char);
    proof {
        assert(final(out)@ =~= old(out)@ + decimal_chars(n as nat));
    }
}

/// One line of the table of results: the name of the file, the title that
/// the service gave, the title of the information dictionary and the
/// probable title, each title in double quotes, and the year that the
/// service gave. What the service did not give is left empty.
pub open spec fn spec_csv_line(
    filename: Seq<char>,
    api_title: Option<Seq<char>>,
    metadata_title: Seq<char>,
    assumed_title: Seq<char>,
    year: Option<i64>,
) -> Seq<char> {
    filename + seq![',', '"'] + (match api_title {
        Some(t) => t,
        None => Seq::empty(),
    }) + seq!['"', ',', '"'] + metadata_title + seq!['"', ',', '"'] + assumed_title + seq![
        '"',
        ',',
    ] + (match year {
        Some(y) => year_chars(y),
        None => Seq::empty(),
    })
}

/// Adds the characters of a text to a line.
fn push_text(line: &mut Vec<char>, text: &str)
    ensures
        final(line)@ == old(line)@ + text@,
{
    let mut chars: Vec<char> = crate::decoding::chars_of_str(text);
    line.append(&mut chars);
}

/// Builds one line of the table of results.
pub fn csv_line(
    filename: &str,
    api_title: Option<&str>,
    metadata_title: &str,
    assumed_title: &str,
    year: Option<i64>,
) -> (r: String)
    ensures
        r@ == spec_csv_line(
            filename@,
            match api_title {
                Some(t) => Some(t@),
                None => None,
            },
            metadata_title@,
            assumed_title@,
            year,
        ),
{
    let mut line: Vec<char> = Vec::new();
    push_text(&mut line, filename);
    line.push(',');
    line.push('"');
    match api_title {
        Some(t) => {
            push_text(&mut line, t);
        },
        None => {},
    }
    line.push('"');
    line.push(',');
    line.push('"');
    push_text(&mut line, metadata_title);
    line.push('"');
    line.push(',');
    line.push('"');
    push_text(&mut line, assumed_title);
    line.push('"');
    line.push(',');
    match year {
        Some(y) => {
            if y < 0 {
                line.push('-');
                let m: u64 = if y == i64::MIN {
                    0x8000_0000_0000_0000u64
                } else {
                    (-y) as u64
                };
                push_decimal_chars(&mut line, m);
            } else {
                push_decimal_chars(&mut line, y as u64);
            }
        },
        None => {},
    }
    proof {
        assert(line@ =~= spec_csv_line(
            filename@,
            match api_title {
                Some(t) => Some(t@),
                None => None,
            },
            metadata_title@,
            assumed_title@,
            year,
        ));
    }
    crate::decoding::string_from_chars(&line)
}

/// How two names stand in natural order, in which a run of digits counts as
/// a number: below zero where the left name comes first, zero where neither
/// does, above zero where the right name comes first.
pub uninterp spec fn natural_order(left: Seq<char>, right: Seq<char>) -> int;

/// `natord::compare`: how the crate orders the two names.
#[verifier::external_body]
fn natural_compare(left: &str, right: &str) -> (r: i8)
    ensures
        r == natural_order(left@, right@),
{
    match natord::compare(left, right) {
        std::cmp::Ordering::Less => -1,
        std::cmp::Ordering::Equal => 0,
        std::cmp::Ordering::Greater => 1,
    }
}

/// Where a name goes among names that are in order: after the last of them
/// that it does not come before. `j` counts down from the end.
pub open spec fn insert_place(names: Seq<Seq<char>>, order: Seq<usize>, name: Seq<char>, j: int) -> int
    decreases j,
{
    if j <= 0 || j > order.len() {
        0
    } else if order[j - 1] < names.len() && natural_order(name, names[order[j - 1] as int]) < 0 {
        insert_place(names, order, name, j - 1)
    } else {
        j
    }
}

/// The order in which the first `k` names come when they are put one by one
/// where they belong among those before them: the numbers of the names.
pub open spec fn natural_ranks(names: Seq<Seq<char>>, k: nat) -> Seq<usize>
    decreases k,
{
    if k == 0 || k > names.len() {
        Seq::empty()
    } else {
        let before = natural_ranks(names, (k - 1) as nat);
        before.insert(
            insert_place(names, before, names[k - 1], before.len() as int),
            (k - 1) as usize,
        )
    }
}

/// The place of a name lies among the names that are in order.
proof fn lemma_insert_place(names: Seq<Seq<char>>, order: Seq<usize>, name: Seq<char>, j: int)
    requires
        0 <= j <= order.len(),
    ensures
        0 <= insert_place(names, order, name, j) <= j,
    decreases j,
{
    if j > 0 && order[j - 1] < names.len() && natural_order(name, names[order[j - 1] as int]) < 0 {
        lemma_insert_place(names, order, name, j - 1);
    }
}

/// The order holds the number of each of the first `k` names once, and
/// nothing else.
pub proof fn lemma_ranks_hold_each_once(names: Seq<Seq<char>>, k: nat)
    requires
        k <= names.len(),
        k <= usize::MAX,
    ensures
        natural_ranks(names, k).len() == k,
        natural_ranks(names, k).no_duplicates(),
        forall|j: int|
            0 <= j < k ==> 0 <= #[trigger] natural_ranks(names, k)[j] < k,
        forall|i: usize| i < k ==> #[trigger] natural_ranks(names, k).contains(i),
    decreases k,
{
    if k > 0 {
        let before = natural_ranks(names, (k - 1) as nat);
        lemma_ranks_hold_each_once(names, (k - 1) as nat);
        let place = insert_place(names, before, names[k - 1], before.len() as int);
        lemma_insert_place(names, before, names[k - 1], before.len() as int);
        let after = before.insert(place, (k - 1) as usize);
        assert(after == natural_ranks(names, k));
        assert(after.len() == k);
        assert forall|j: int| 0 <= j < k implies 0 <= #[trigger] after[j] < k by {
            if j < place {
                assert(after[j] == before[j]);
            } else if j > place {
                assert(after[j] == before[j - 1]);
            }
        }
        assert forall|a: int, b: int| 0 <= a < k && 0 <= b < k && a != b implies after[a]
            != after[b] by {
            let x = if a < place {
                before[a]
            } else if a == place {
                (k - 1) as usize
            } else {
                before[a - 1]
            };
            let y = if b < place {
                before[b]
            } else if b == place {
                (k - 1) as usize
            } else {
                before[b - 1]
            };
            assert(after[a] == x);
            assert(after[b] == y);
        }
        assert forall|i: usize| i < k implies #[trigger] after.contains(i) by {
            if i == k - 1 {
                assert(after[place] == i);
            } else {
                assert(before.contains(i));
                let j = choose|j: int| 0 <= j < before.len() && before[j] == i;
                if j < place {
                    assert(after[j] == i);
                } else {
                    assert(after[j + 1] == i);
                }
            }
        }
    }
}

/// Puts the names in natural order. Gives the numbers of the names in that
/// order, each number once; names that the order does not tell apart keep
/// their order.
pub fn sort_by_name(names: &Vec<String>) -> (r: Vec<usize>)
    ensures
        r@ == natural_ranks(names_of_list(names@), names.len() as nat),
        r.len() == names.len(),
        r@.no_duplicates(),
        forall|i: usize| i < names.len() ==> #[trigger] r@.contains(i),
        forall|j: int| 0 <= j < r.len() ==> #[trigger] r@[j] < names.len(),
{
    proof {
        lemma_ranks_hold_each_once(names_of_list(names@), names.len() as nat);
    }
    let ghost texts = names_of_list(names@);
    let mut order: Vec<usize> = Vec::new();
    let mut k: usize = 0;
    while k < names.len()
        invariant
            k <= names.len(),
            texts == names_of_list(names@),
            order@ == natural_ranks(texts, k as nat),
            order.len() == k,
            forall|i: int| 0 <= i < order.len() ==> order@[i] < names.len(),
        decreases names.len() - k,
    {
        let mut j: usize = order.len();
        proof {
            lemma_insert_place(texts, order@, texts[k as int], j as int);
        }
        while j > 0 && natural_compare(names[k].as_str(), names[order[j - 1]].as_str()) < 0
            invariant
                j <= order.len(),
                k < names.len(),
                texts == names_of_list(names@),
                forall|i: int| 0 <= i < order.len() ==> order@[i] < names.len(),
                insert_place(texts, order@, texts[k as int], j as int) == insert_place(
                    texts,
                    order@,
                    texts[k as int],
                    order.len() as int,
                ),
            decreases j,
        {
            j -= 1;
        }
        order.insert(j, k);
        k += 1;
    }
    order
}

} // verus!
