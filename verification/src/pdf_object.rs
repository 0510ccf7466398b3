//! The values of a document, and what can be asked of them.

use crate::cursor::{is_digit, is_digit_byte};
use crate::decoding::{decode_pdfdoc, decoded_text};
use crate::error::PdfError;
use vstd::prelude::*;

pub use crate::cursor::{cmp_u8, is_delimiter};
pub use crate::reader::parse_object;
pub use crate::tokens::handle_escape;

verus! {

/// A value of the document, as it is held in memory.
#[derive(Debug, PartialEq)]
pub enum PdfVar {
    Boolean(bool),
    /// `signed` tells whether the number was written with `+` or `-`.
    Integer { value: i64, signed: bool },
    /// A number that is no integer, kept as the bytes that write it: an
    /// optional sign, digits and at most one point.
    Real(Vec<u8>),
    /// The codes of a string, not yet mapped to characters.
    StringLiteral(Vec<u32>),
    Name(String),
    Array(Vec<PdfVar>),
    /// Keys and values in the order in which they were written. Where a key
    /// occurs twice, the first entry counts.
    Dictionary(Vec<(String, PdfVar)>),
    Null,
    /// The bytes of a stream: `size` bytes of the data from `start` on.
    Stream { start: usize, size: usize },
    /// A reference to the object with that number.
    IndirectObject(usize),
    /// A whole object: its head, and what stands between the head and
    /// `endobj`. `content[0]` is the head.
    Object { _id: usize, content: Vec<PdfVar> },
    /// The head `N G obj` of the object with number `N`.
    ObjectRef(usize),
}

/// The mathematical value of a `PdfVar`.
pub enum PdfValue {
    Boolean(bool),
    Integer { value: i64, signed: bool },
    Real(Seq<u8>),
    StringLiteral(Seq<u32>),
    Name(Seq<char>),
    Array(Seq<PdfValue>),
    Dictionary(Seq<(Seq<char>, PdfValue)>),
    Null,
    Stream { start: usize, size: usize },
    IndirectObject(usize),
    Object { id: usize, content: Seq<PdfValue> },
    ObjectRef(usize),
}

/// The value that a `PdfVar` holds.
pub open spec fn value_of(v: PdfVar) -> PdfValue
    decreases v,
{
    match v {
        PdfVar::Boolean(b) => PdfValue::Boolean(b),
        PdfVar::Integer { value, signed } => PdfValue::Integer { value, signed },
        PdfVar::Real(text) => PdfValue::Real(text@),
        PdfVar::StringLiteral(codes) => PdfValue::StringLiteral(codes@),
        PdfVar::Name(name) => PdfValue::Name(name@),
        PdfVar::Array(items) => PdfValue::Array(
            Seq::new(
                items.len() as nat,
                |i: int|
                    if 0 <= i < items.len() {
                        value_of(items[i])
                    } else {
                        PdfValue::Null
                    },
            ),
        ),
        PdfVar::Dictionary(entries) => PdfValue::Dictionary(
            Seq::new(
                entries.len() as nat,
                |i: int|
                    if 0 <= i < entries.len() {
                        (entries[i].0@, value_of(entries[i].1))
                    } else {
                        (Seq::empty(), PdfValue::Null)
                    },
            ),
        ),
        PdfVar::Null => PdfValue::Null,
        PdfVar::Stream { start, size } => PdfValue::Stream { start, size },
        PdfVar::IndirectObject(id) => PdfValue::IndirectObject(id),
        PdfVar::Object { _id, content } => PdfValue::Object {
            id: _id,
            content: Seq::new(
                content.len() as nat,
                |i: int|
                    if 0 <= i < content.len() {
                        value_of(content[i])
                    } else {
                        PdfValue::Null
                    },
            ),
        },
        PdfVar::ObjectRef(id) => PdfValue::ObjectRef(id),
    }
}

impl View for PdfVar {
    type V = PdfValue;

    open spec fn view(&self) -> PdfValue {
        value_of(*self)
    }
}

/// The values of a sequence of `PdfVar`s.
pub open spec fn values_of(items: Seq<PdfVar>) -> Seq<PdfValue> {
    Seq::new(items.len(), |i: int| value_of(items[i]))
}

/// The entries of a dictionary as pairs of values.
pub open spec fn entries_of(entries: Seq<(String, PdfVar)>) -> Seq<(Seq<char>, PdfValue)> {
    Seq::new(entries.len(), |i: int| (entries[i].0@, value_of(entries[i].1)))
}

/// The value of an array is the array of the values of its items.
pub proof fn lemma_value_of_array(items: Vec<PdfVar>)
    ensures
        value_of(PdfVar::Array(items)) == PdfValue::Array(values_of(items@)),
{
    assert(value_of(PdfVar::Array(items))->Array_0 =~= values_of(items@));
}

/// The value of an object holds the values of what the object holds.
pub proof fn lemma_value_of_object(id: usize, content: Vec<PdfVar>)
    ensures
        value_of(PdfVar::Object { _id: id, content }) == (PdfValue::Object {
            id,
            content: values_of(content@),
        }),
{
    assert(value_of(PdfVar::Object { _id: id, content })->Object_content =~= values_of(content@));
}

/// The value of a dictionary holds the values of its entries.
pub proof fn lemma_value_of_dictionary(entries: Vec<(String, PdfVar)>)
    ensures
        value_of(PdfVar::Dictionary(entries)) == PdfValue::Dictionary(entries_of(entries@)),
{
    assert(value_of(PdfVar::Dictionary(entries))->Dictionary_0 =~= entries_of(entries@));
}

/// The values of a sequence with one more item.
pub proof fn lemma_values_of_push(items: Seq<PdfVar>, v: PdfVar)
    ensures
        values_of(items.push(v)) == values_of(items).push(value_of(v)),
{
    assert(values_of(items.push(v)) =~= values_of(items).push(value_of(v)));
}

/// The values of a sequence without its last item.
pub proof fn lemma_values_of_drop_last(items: Seq<PdfVar>)
    requires
        items.len() > 0,
    ensures
        values_of(items.drop_last()) == values_of(items).drop_last(),
        values_of(items).last() == value_of(items.last()),
{
    assert(values_of(items.drop_last()) =~= values_of(items).drop_last());
}

/// The value that the first entry with the given key holds.
pub open spec fn entry_lookup(entries: Seq<(Seq<char>, PdfValue)>, key: Seq<char>) -> Option<
    PdfValue,
>
    decreases entries.len(),
{
    if entries.len() == 0 {
        None
    } else if entries[0].0 == key {
        Some(entries[0].1)
    } else {
        entry_lookup(entries.drop_first(), key)
    }
}

/// The value under a key: in a dictionary, or in the dictionary that an
/// object holds right after its head.
pub open spec fn dict_value(v: PdfValue, key: Seq<char>) -> Option<PdfValue> {
    match v {
        PdfValue::Dictionary(entries) => entry_lookup(entries, key),
        PdfValue::Object { id, content } => if content.len() > 1 {
            match content[1] {
                PdfValue::Dictionary(entries) => entry_lookup(entries, key),
                _ => None,
            }
        } else {
            None
        },
        _ => None,
    }
}

/// The number that a reference or an integer gives: the number of the object
/// referred to, or the integer itself. An integer that does not fit gives
/// nothing.
pub open spec fn index_of(v: PdfValue) -> Option<usize> {
    match v {
        PdfValue::IndirectObject(id) => Some(id),
        PdfValue::Integer { value, signed } => if 0 <= value <= usize::MAX {
            Some(value as usize)
        } else {
            None
        },
        _ => None,
    }
}

/// The numbers of an array of references or integers; a single reference or
/// integer counts as an array of one. Nothing where an item gives no number.
pub open spec fn indices_of(v: PdfValue) -> Option<Seq<usize>> {
    match v {
        PdfValue::Array(items) => if forall|i: int|
            0 <= i < items.len() ==> index_of(#[trigger] items[i]) is Some {
            Some(Seq::new(items.len(), |i: int| index_of(items[i])->0))
        } else {
            None
        },
        _ => match index_of(v) {
            Some(x) => Some(seq![x]),
            None => None,
        },
    }
}

/// The names of an array of names; a single name counts as an array of one.
pub open spec fn names_of(v: PdfValue) -> Option<Seq<Seq<char>>> {
    match v {
        PdfValue::Name(name) => Some(seq![name]),
        PdfValue::Array(items) => if forall|i: int|
            0 <= i < items.len() ==> #[trigger] items[i] is Name {
            Some(Seq::new(items.len(), |i: int| items[i]->Name_0))
        } else {
            None
        },
        _ => None,
    }
}

/// The start and the count of the bytes of an object's stream, which is the
/// third part of the object.
pub open spec fn stream_of(v: PdfValue) -> Option<(usize, usize)> {
    match v {
        PdfValue::Object { id, content } => if content.len() > 2 {
            match content[2] {
                PdfValue::Stream { start, size } => Some((start, size)),
                _ => None,
            }
        } else {
            None
        },
        _ => None,
    }
}

/// A hexadecimal digit.
pub open spec fn is_hex_digit(b: u8) -> bool {
    is_digit(b) || (65 <= b <= 70) || (97 <= b <= 102)
}

/// The value of a hexadecimal digit.
pub open spec fn hex_digit_value(b: u8) -> nat {
    if is_digit(b) {
        (b - 48) as nat
    } else if 65 <= b <= 70 {
        (b - 55) as nat
    } else {
        (b - 87) as nat
    }
}

/// The number that hexadecimal digits write, most significant digit first.
pub open spec fn hex_value(digits: Seq<u8>) -> nat
    decreases digits.len(),
{
    if digits.len() == 0 {
        0
    } else {
        hex_value(digits.drop_last()) * 16 + hex_digit_value(digits.last())
    }
}

/// Whether every byte is a hexadecimal digit.
pub open spec fn all_hex(digits: Seq<u8>) -> bool {
    forall|i: int| 0 <= i < digits.len() ==> is_hex_digit(#[trigger] digits[i])
}

/// What `to_hex` gives: the number that the digits write, where all of them
/// are hexadecimal digits and the number fits in 32 bits.
pub open spec fn hex_number(digits: Seq<u8>) -> Option<u32> {
    if all_hex(digits) && hex_value(digits) <= u32::MAX {
        Some(hex_value(digits) as u32)
    } else {
        None
    }
}

/// More digits never write a smaller number.
pub proof fn lemma_hex_value_grows(digits: Seq<u8>, n: int)
    requires
        0 <= n <= digits.len(),
    ensures
        hex_value(digits.take(n)) <= hex_value(digits),
    decreases digits.len() - n,
{
    if n < digits.len() {
        lemma_hex_value_grows(digits.drop_last(), n);
        assert(digits.drop_last().take(n) =~= digits.take(n));
    } else {
        assert(digits.take(n) =~= digits);
    }
}

/// Whether a byte is a hexadecimal digit.
pub fn is_hex_digit_byte(b: u8) -> (r: bool)
    ensures
        r == is_hex_digit(b),
{
    is_digit_byte(b) || (65 <= b && b <= 70) || (97 <= b && b <= 102)
}

/// Reads hexadecimal digits as one number, most significant digit first.
/// Fails where a byte is no hexadecimal digit or the number does not fit in
/// 32 bits.
pub fn to_hex(nums: &[u8]) -> (r: Result<u32, PdfError>)
    ensures
        match r {
            Ok(v) => hex_number(nums@) == Some(v),
            Err(e) => e == PdfError::HexError && hex_number(nums@) is None,
        },
{
    let mut value: u32 = 0;
    let mut i: usize = 0;
    while i < nums.len()
        invariant
            i <= nums.len(),
            value == hex_value(nums@.take(i as int)),
            all_hex(nums@.take(i as int)),
        decreases nums.len() - i,
    {
        proof {
            assert(nums@.take(i + 1).drop_last() =~= nums@.take(i as int));
        }
        let num: u8 = nums[i];
        let v1: u8 = if 65 <= num && num <= 70 {
            num - 55
        } else if 97 <= num && num <= 102 {
            num - 87
        } else if 48 <= num && num <= 57 {
            num - 48
        } else {
            proof {
                assert(!is_hex_digit(nums@[i as int]));
            }
            return Err(PdfError::HexError);
        };
        if value > (u32::MAX - v1 as u32) / 16 {
            proof {
                lemma_hex_value_grows(nums@, i + 1);
            }
            return Err(PdfError::HexError);
        }
        value = value * 16 + v1 as u32;
        proof {
            assert forall|k: int| 0 <= k < i + 1 implies is_hex_digit(
                #[trigger] nums@.take(i + 1)[k],
            ) by {
                if k < i {
                    assert(nums@.take(i as int)[k] == nums@.take(i + 1)[k]);
                }
            }
        }
        i += 1;
    }
    proof {
        assert(nums@.take(nums.len() as int) =~= nums@);
    }
    Ok(value)
}

/// Whether a name is the given key.
pub fn name_is(name: &String, key: &str) -> (r: bool)
    ensures
        r == (name@ == key@),
{
    let k = String::from_str(key);
    *name == k
}

impl PdfVar {
    /// The value under `key`: in a dictionary, or in the dictionary that an
    /// object holds right after its head. Where the key occurs twice, the
    /// first entry counts.
    pub fn get_dict_value(&self, key: &str) -> (r: Option<&PdfVar>)
        ensures
            match r {
                Some(v) => dict_value(self@, key@) == Some(v@),
                None => dict_value(self@, key@) is None,
            },
    {
        match self {
            PdfVar::Dictionary(entries) => {
                proof {
                    lemma_value_of_dictionary(*entries);
                }
                find_entry(entries, key)
            },
            PdfVar::Object { _id, content } => {
                proof {
                    lemma_value_of_object(*_id, *content);
                }
                if content.len() > 1 {
                    match &content[1] {
                        PdfVar::Dictionary(entries) => {
                            proof {
                                lemma_value_of_dictionary(*entries);
                            }
                            find_entry(entries, key)
                        },
                        _ => None,
                    }
                } else {
                    None
                }
            },
            _ => None,
        }
    }

    /// The number of an indirect reference, or the value of an integer.
    pub fn get_indirect_obj_index(&self) -> (r: Option<usize>)
        ensures
            r == index_of(self@),
    {
        match self {
            PdfVar::IndirectObject(value) => Some(*value),
            PdfVar::Integer { value, signed } => {
                if *value < 0 {
                    return None;
                }
                let wide: u64 = *value as u64;
                if wide > usize::MAX as u64 {
                    return None;
                }
                Some(wide as usize)
            },
            _ => None,
        }
    }

    /// The numbers of an array of references or integers. A single reference
    /// or integer gives an array of one.
    pub fn get_usize_array(&self) -> (r: Option<Vec<usize>>)
        ensures
            match r {
                Some(v) => indices_of(self@) == Some(v@),
                None => indices_of(self@) is None,
            },
    {
        match self {
            PdfVar::Array(array) => {
                proof {
                    lemma_value_of_array(*array);
                }
                let mut output: Vec<usize> = Vec::new();
                let mut i: usize = 0;
                while i < array.len()
                    invariant
                        i <= array.len(),
                        output.len() == i,
                        self@ == PdfValue::Array(values_of(array@)),
                        forall|k: int|
                            0 <= k < i ==> index_of(#[trigger] values_of(array@)[k]) == Some(
                                output@[k],
                            ),
                    decreases array.len() - i,
                {
                    match array[i].get_indirect_obj_index() {
                        Some(value) => {
                            output.push(value);
                        },
                        None => {
                            proof {
                                let items = self@->Array_0;
                                assert(items == values_of(array@));
                                assert(items[i as int] == array@[i as int]@);
                                assert(index_of(items[i as int]) is None);
                            }
                            return None;
                        },
                    }
                    i += 1;
                }
                proof {
                    assert(indices_of(self@)->0 =~= output@);
                }
                Some(output)
            },
            _ => {
                match self.get_indirect_obj_index() {
                    Some(value) => {
                        let mut output: Vec<usize> = Vec::new();
                        output.push(value);
                        proof {
                            assert(output@ =~= seq![value]);
                        }
                        Some(output)
                    },
                    None => None,
                }
            },
        }
    }

    /// The number under `key`: see `get_dict_value` and
    /// `get_indirect_obj_index`.
    pub fn get_dict_int(&self, key: &str) -> (r: Option<usize>)
        ensures
            r == match dict_value(self@, key@) {
                Some(v) => index_of(v),
                None => None,
            },
    {
        match self.get_dict_value(key) {
            Some(int_object) => int_object.get_indirect_obj_index(),
            None => None,
        }
    }

    /// The text of a name.
    pub fn get_name(&self) -> (r: Option<String>)
        ensures
            match r {
                Some(s) => self@ == PdfValue::Name(s@),
                None => !(self@ is Name),
            },
    {
        match self {
            PdfVar::Name(name) => Some(name.clone()),
            _ => None,
        }
    }

    /// The names of an array of names. A single name gives an array of one.
    pub fn get_names(&self) -> (r: Option<Vec<String>>)
        ensures
            match r {
                Some(v) => names_of(self@) == Some(Seq::new(v.len() as nat, |i: int| v[i]@)),
                None => names_of(self@) is None,
            },
    {
        match self {
            PdfVar::Name(name) => {
                let mut names: Vec<String> = Vec::new();
                names.push(name.clone());
                proof {
                    assert(Seq::new(names.len() as nat, |i: int| names[i]@) =~= seq![name@]);
                }
                Some(names)
            },
            PdfVar::Array(name_arr) => {
                proof {
                    lemma_value_of_array(*name_arr);
                }
                let mut names: Vec<String> = Vec::new();
                let mut i: usize = 0;
                while i < name_arr.len()
                    invariant
                        i <= name_arr.len(),
                        names.len() == i,
                        self@ == PdfValue::Array(values_of(name_arr@)),
                        forall|k: int|
                            0 <= k < i ==> #[trigger] values_of(name_arr@)[k] == PdfValue::Name(
                                names@[k]@,
                            ),
                    decreases name_arr.len() - i,
                {
                    match &name_arr[i] {
                        PdfVar::Name(name) => {
                            names.push(name.clone());
                        },
                        _ => {
                            proof {
                                let items = self@->Array_0;
                                assert(items == values_of(name_arr@));
                                assert(items[i as int] == name_arr@[i as int]@);
                                assert(!(items[i as int] is Name));
                            }
                            return None;
                        },
                    }
                    i += 1;
                }
                proof {
                    assert(names_of(self@)->0 =~= Seq::new(names.len() as nat, |i: int| names[i]@));
                }
                Some(names)
            },
            _ => None,
        }
    }

    /// Where the bytes of this object's stream lie: their start and their
    /// count.
    pub fn get_stream(&self) -> (r: Option<(usize, usize)>)
        ensures
            r == stream_of(self@),
    {
        match self {
            PdfVar::Object { _id, content } => {
                proof {
                    lemma_value_of_object(*_id, *content);
                }
                if content.len() > 2 {
                    match &content[2] {
                        PdfVar::Stream { start, size } => Some((*start, *size)),
                        _ => None,
                    }
                } else {
                    None
                }
            },
            _ => None,
        }
    }

    /// The text of a string: see `decode_pdfdoc`.
    pub fn get_str(&self) -> (r: Option<String>)
        ensures
            match r {
                Some(s) => self@ is StringLiteral && s@ == decoded_text(self@->StringLiteral_0),
                None => !(self@ is StringLiteral),
            },
    {
        match self {
            PdfVar::StringLiteral(array) => Some(decode_pdfdoc(array)),
            _ => None,
        }
    }
}

/// Finds the first entry with the given key.
fn find_entry<'a>(entries: &'a Vec<(String, PdfVar)>, key: &str) -> (r: Option<&'a PdfVar>)
    ensures
        match r {
            Some(v) => entry_lookup(entries_of(entries@), key@) == Some(v@),
            None => entry_lookup(entries_of(entries@), key@) is None,
        },
{
    let mut i: usize = 0;
    proof {
        assert(entries_of(entries@).skip(0) =~= entries_of(entries@));
    }
    while i < entries.len()
        invariant
            i <= entries.len(),
            entry_lookup(entries_of(entries@), key@) == entry_lookup(
                entries_of(entries@).skip(i as int),
                key@,
            ),
        decreases entries.len() - i,
    {
        proof {
            let rest = entries_of(entries@).skip(i as int);
            assert(rest[0] == entries_of(entries@)[i as int]);
            assert(rest.drop_first() =~= entries_of(entries@).skip(i + 1));
        }
        if name_is(&entries[i].0, key) {
            return Some(&entries[i].1);
        }
        i += 1;
    }
    None
}

} // verus!
