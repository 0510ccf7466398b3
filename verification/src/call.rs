//! What is asked of the bibliographic service, and how near its answers are to
//! what was asked.

use crate::decoding::{chars_of_str, string_from_chars};
use crate::metadata::PDFStruct;
use crate::pdf_object::name_is;
use crate::words::{trim_chars, trimmed};
use vstd::prelude::*;
use vstd::utf8::encode_utf8;

verus! {

/// A byte that stands for itself in a query: a letter or digit of ASCII, or
/// one of `-`, `.`, `_` and `~`.
pub open spec fn is_unreserved(b: u8) -> bool {
    (48 <= b <= 57) || (65 <= b <= 90) || (97 <= b <= 122) || b == 45 || b == 46 || b == 95 || b
        == 126
}

/// The hexadecimal digit, in upper case, of a number below 16.
pub open spec fn hex_upper(d: int) -> char {
    if d < 10 {
        (48 + d) as char
    } else {
        (55 + d) as char
    }
}

/// Bytes written for a query: an unreserved byte as it is, any other byte
/// as `%` and its two hexadecimal digits.
pub open spec fn percent_text(bytes: Seq<u8>) -> Seq<char>
    decreases bytes.len(),
{
    if bytes.len() == 0 {
        Seq::empty()
    } else {
        let head = percent_text(bytes.drop_last());
        let b = bytes.last();
        if is_unreserved(b) {
            head.push(b as char)
        } else {
            head.push('%').push(hex_upper(b as int / 16)).push(hex_upper(b as int % 16))
        }
    }
}

/// `urlencoding::encode`: the bytes of the text in UTF-8, each written for a
/// query.
#[verifier::external_body]
fn url_encode(data: &str) -> (r: String)
    ensures
        r@ == percent_text(encode_utf8(data@)),
{
    urlencoding::encode(data).into_owned()
}

/// The address of the service that is asked.
pub open spec fn service() -> Seq<char> {
    "https://api.crossref.org/works?query.bibliographic="@
}

/// What introduces the author in a query.
pub open spec fn author_key() -> Seq<char> {
    "&query.author="@
}

/// The author that is asked for: the first of the list, without the white
/// space at its ends; none where the list is empty or its first name is
/// empty or `N/A`.
pub open spec fn query_author(authors: Seq<Seq<char>>) -> Option<Seq<char>> {
    if authors.len() == 0 {
        None
    } else if trimmed(authors[0]).len() == 0 || trimmed(authors[0]) == "N/A"@ {
        None
    } else {
        Some(trimmed(authors[0]))
    }
}

/// The address that asks for a title, and for an author where one is known.
pub open spec fn spec_request_url(title: Seq<char>, authors: Seq<Seq<char>>) -> Seq<char> {
    let base = service() + percent_text(encode_utf8(trimmed(title)));
    match query_author(authors) {
        Some(author) => base + author_key() + percent_text(encode_utf8(author)),
        None => base,
    }
}

/// A text without the white space at its ends.
pub fn trim_text(text: &str) -> (r: String)
    ensures
        r@ == trimmed(text@),
{
    let chars: Vec<char> = chars_of_str(text);
    string_from_chars(&trim_chars(&chars))
}

/// Builds the address that asks the service for a title.
pub fn request_url(title: &str, authors: &Vec<String>) -> (r: String)
    ensures
        r@ == spec_request_url(title@, crate::streams::names_of_list(authors@)),
{
    let title_query: String = url_encode(trim_text(title).as_str());
    let mut url: String = String::from_str("https://api.crossref.org/works?query.bibliographic=");
    url.append(title_query.as_str());
    if authors.len() == 0 {
        return url;
    }
    let author_raw: String = trim_text(authors[0].as_str());
    if author_raw.as_str().unicode_len() == 0 || name_is(&author_raw, "N/A") {
        return url;
    }
    let author_query: String = url_encode(author_raw.as_str());
    url.append("&query.author=");
    url.append(author_query.as_str());
    proof {
        assert(url@ =~= spec_request_url(title@, crate::streams::names_of_list(authors@)));
    }
    url
}

/// The titles that are asked for: the title of the information dictionary
/// and the probable title, each where it is not empty.
pub open spec fn spec_query_titles(metadata_title: Seq<char>, assumed_title: Seq<char>) -> Seq<
    Seq<char>,
> {
    let first = if metadata_title.len() > 0 {
        seq![metadata_title]
    } else {
        Seq::empty()
    };
    if assumed_title.len() > 0 {
        first.push(assumed_title)
    } else {
        first
    }
}

/// Gives the titles to ask the service for.
pub fn query_titles(pdf_metadata: &PDFStruct) -> (r: Vec<String>)
    ensures
        crate::streams::names_of_list(r@) == spec_query_titles(
            pdf_metadata.metadata_title@,
            pdf_metadata.assumed_title@,
        ),
{
    let mut titles: Vec<String> = Vec::new();
    if pdf_metadata.metadata_title.as_str().unicode_len() > 0 {
        titles.push(pdf_metadata.metadata_title.clone());
    }
    if pdf_metadata.assumed_title.as_str().unicode_len() > 0 {
        titles.push(pdf_metadata.assumed_title.clone());
    }
    proof {
        assert(crate::streams::names_of_list(titles@) =~= spec_query_titles(
            pdf_metadata.metadata_title@,
            pdf_metadata.assumed_title@,
        ));
    }
    titles
}

/// The smaller of two numbers.
pub open spec fn least(a: nat, b: nat) -> nat {
    if a <= b {
        a
    } else {
        b
    }
}

/// The number of characters that must be put in, taken out or replaced to
/// turn one text into the other.
pub open spec fn edit_distance(a: Seq<char>, b: Seq<char>) -> nat
    decreases a.len() + b.len(),
{
    if a.len() == 0 {
        b.len()
    } else if b.len() == 0 {
        a.len()
    } else {
        least(
            least(
                edit_distance(a.drop_last(), b) + 1,
                edit_distance(a, b.drop_last()) + 1,
            ),
            edit_distance(a.drop_last(), b.drop_last()) + if a.last() == b.last() {
                0nat
            } else {
                1nat
            },
        )
    }
}

/// `strsim::levenshtein`: the number of insertions, deletions and
/// substitutions of characters that turn one text into the other.
#[verifier::external_body]
fn levenshtein(a: &str, b: &str) -> (r: usize)
    ensures
        r == edit_distance(a@, b@),
{
    strsim::levenshtein(a, b)
}

/// A text with its letters in lower case, as Unicode maps them.
pub uninterp spec fn lowercase(text: Seq<char>) -> Seq<char>;

/// `str::to_lowercase`: the text with each character replaced by its lower
/// case.
#[verifier::external_body]
fn to_lowercase(text: &str) -> (r: String)
    ensures
        r@ == lowercase(text@),
{
    text.to_lowercase()
}

/// How near a title that was found is to the title that was asked for: the
/// distance between the two, and the length of the longer one in bytes. A
/// length of zero says that one of the titles is empty.
#[derive(Debug, Clone, Copy, PartialEq, Eq, Structural)]
pub struct Similarity {
    pub distance: usize,
    pub length: usize,
}

/// The similarity of two titles that are ready to be compared.
pub open spec fn similarity_of(result: Seq<char>, search: Seq<char>) -> Similarity {
    if result.len() == 0 || search.len() == 0 {
        Similarity { distance: 0, length: 0 }
    } else {
        Similarity {
            distance: edit_distance(result, search) as usize,
            length: (if encode_utf8(result).len() >= encode_utf8(search).len() {
                encode_utf8(result).len()
            } else {
                encode_utf8(search).len()
            }) as usize,
        }
    }
}

/// A title as it is compared: without the white space at its ends and in
/// lower case.
pub open spec fn normalized(title: Seq<char>) -> Seq<char> {
    lowercase(trimmed(title))
}

/// Measures how near two titles that are ready to be compared are.
pub fn measure(result: &str, search: &str) -> (r: Similarity)
    ensures
        r == similarity_of(result@, search@),
{
    if result.unicode_len() == 0 || search.unicode_len() == 0 {
        return Similarity { distance: 0, length: 0 };
    }
    let distance: usize = levenshtein(result, search);
    let a: usize = result.as_bytes().len();
    let b: usize = search.as_bytes().len();
    Similarity {
        distance,
        length: if a >= b {
            a
        } else {
            b
        },
    }
}

/// Compares a title that was found with the title that was asked for.
pub fn compare_results(result_title: &str, search_title: &str) -> (r: Similarity)
    ensures
        r == similarity_of(normalized(result_title@), normalized(search_title@)),
{
    let result: String = to_lowercase(trim_text(result_title).as_str());
    let search: String = to_lowercase(trim_text(search_title).as_str());
    measure(result.as_str(), search.as_str())
}

impl Similarity {
    /// The part of the longer title, in hundredths, that the two titles
    /// share: the confidence that they are one title.
    pub open spec fn percent(&self) -> int {
        if self.length == 0 || self.distance >= self.length {
            0
        } else {
            (100 * (self.length - self.distance)) / (self.length as int)
        }
    }

    /// Whether the confidence is 70 in a hundred or more.
    pub open spec fn close(&self) -> bool {
        self.length > 0 && 10 * self.distance <= 3 * self.length
    }

    /// Whether this similarity gives more confidence than the other.
    pub open spec fn above(&self, other: Similarity) -> bool {
        if self.length == 0 || self.distance >= self.length {
            false
        } else if other.length == 0 || other.distance >= other.length {
            true
        } else {
            (self.length - self.distance) * other.length > (other.length - other.distance)
                * self.length
        }
    }

    /// The confidence in hundredths, rounded down.
    pub fn confidence(&self) -> (r: u8)
        ensures
            r == self.percent(),
            r <= 100,
    {
        if self.length == 0 || self.distance >= self.length {
            return 0;
        }
        let shared: u128 = (self.length - self.distance) as u128;
        let whole: u128 = self.length as u128;
        let q: u128 = (100 * shared) / whole;
        proof {
            assert(q <= 100) by (nonlinear_arith)
                requires
                    q == (100 * shared) / (whole as int),
                    0 < shared <= whole,
            ;
        }
        q as u8
    }

    /// Whether the titles are near enough to count as one.
    pub fn is_close(&self) -> (r: bool)
        ensures
            r == self.close(),
    {
        self.length > 0 && 10 * (self.distance as u128) <= 3 * (self.length as u128)
    }

    /// Whether this similarity gives more confidence than the other.
    pub fn is_above(&self, other: &Similarity) -> (r: bool)
        ensures
            r == self.above(*other),
    {
        if self.length == 0 || self.distance >= self.length {
            return false;
        }
        if other.length == 0 || other.distance >= other.length {
            return true;
        }
        let a: u128 = (self.length - self.distance) as u128;
        let b: u128 = (other.length - other.distance) as u128;
        let m: u128 = self.length as u128;
        let n: u128 = other.length as u128;
        assert(a * n <= 0xFFFF_FFFF_FFFF_FFFF * 0xFFFF_FFFF_FFFF_FFFF) by (nonlinear_arith)
            requires
                a <= 0xFFFF_FFFF_FFFF_FFFF,
                n <= 0xFFFF_FFFF_FFFF_FFFF,
        ;
        assert(b * m <= 0xFFFF_FFFF_FFFF_FFFF * 0xFFFF_FFFF_FFFF_FFFF) by (nonlinear_arith)
            requires
                b <= 0xFFFF_FFFF_FFFF_FFFF,
                m <= 0xFFFF_FFFF_FFFF_FFFF,
        ;
        a * n > b * m
    }
}

/// Being close is having a confidence of at least 70.
pub proof fn lemma_close_is_seventy(s: Similarity)
    ensures
        s.close() <==> s.percent() >= 70,
{
    if s.length > 0 && s.distance < s.length {
        let m = s.length as int;
        let d = s.distance as int;
        assert((100 * (m - d)) / m >= 70 <==> 10 * d <= 3 * m) by (nonlinear_arith)
            requires
                0 <= d < m,
        ;
    } else if s.length > 0 {
        assert(!(10 * s.distance <= 3 * s.length));
    }
}

/// The first of the similarities that none is above; none where the list is
/// empty.
pub open spec fn spec_best(list: Seq<Similarity>) -> Option<int>
    decreases list.len(),
{
    if list.len() == 0 {
        None
    } else {
        match spec_best(list.drop_last()) {
            None => Some(list.len() - 1),
            Some(b) => if list.last().above(list[b]) {
                Some(list.len() - 1)
            } else {
                Some(b)
            },
        }
    }
}

/// Picks the result with the most confidence; of several with the most,
/// the first.
pub fn best_match(list: &Vec<Similarity>) -> (r: Option<usize>)
    ensures
        match r {
            Some(i) => spec_best(list@) == Some(i as int) && i < list.len(),
            None => spec_best(list@) is None,
        },
{
    let mut best: Option<usize> = None;
    let mut i: usize = 0;
    while i < list.len()
        invariant
            i <= list.len(),
            match best {
                Some(b) => spec_best(list@.take(i as int)) == Some(b as int) && b < i,
                None => spec_best(list@.take(i as int)) is None,
            },
        decreases list.len() - i,
    {
        proof {
            assert(list@.take(i + 1).drop_last() =~= list@.take(i as int));
        }
        match best {
            None => {
                best = Some(i);
            },
            Some(b) => {
                if list[i].is_above(&list[b]) {
                    best = Some(i);
                }
            },
        }
        i += 1;
    }
    proof {
        assert(list@.take(list.len() as int) =~= list@);
    }
    best
}

} // verus!
