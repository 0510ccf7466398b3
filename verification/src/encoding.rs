//! The table of PDFDocEncoding.

use vstd::prelude::*;

verus! {

/// The characters that PDFDocEncoding gives to the codes 128 to 160, where it
/// departs from Latin-1. Code 159 has none.
pub open spec fn pdfdoc_high_char(code: u32) -> Option<char> {
    if code == 128 {
        Some('\u{2022}')
    } else if code == 129 {
        Some('\u{2020}')
    } else if code == 130 {
        Some('\u{2021}')
    } else if code == 131 {
        Some('\u{2026}')
    } else if code == 132 {
        Some('\u{2014}')
    } else if code == 133 {
        Some('\u{2013}')
    } else if code == 134 {
        Some('\u{0192}')
    } else if code == 135 {
        Some('\u{2044}')
    } else if code == 136 {
        Some('\u{2039}')
    } else if code == 137 {
        Some('\u{203A}')
    } else if code == 138 {
        Some('\u{2212}')
    } else if code == 139 {
        Some('\u{2030}')
    } else if code == 140 {
        Some('\u{201E}')
    } else if code == 141 {
        Some('\u{201C}')
    } else if code == 142 {
        Some('\u{201D}')
    } else if code == 143 {
        Some('\u{2018}')
    } else if code == 144 {
        Some('\u{2019}')
    } else if code == 145 {
        Some('\u{201A}')
    } else if code == 146 {
        Some('\u{2122}')
    } else if code == 147 {
        Some('\u{FB01}')
    } else if code == 148 {
        Some('\u{FB02}')
    } else if code == 149 {
        Some('\u{0141}')
    } else if code == 150 {
        Some('\u{0152}')
    } else if code == 151 {
        Some('\u{0160}')
    } else if code == 152 {
        Some('\u{0178}')
    } else if code == 153 {
        Some('\u{017D}')
    } else if code == 154 {
        Some('\u{0131}')
    } else if code == 155 {
        Some('\u{0142}')
    } else if code == 156 {
        Some('\u{0153}')
    } else if code == 157 {
        Some('\u{0161}')
    } else if code == 158 {
        Some('\u{017E}')
    } else if code == 160 {
        Some('\u{20AC}')
    } else {
        None
    }
}

/// The character that PDFDocEncoding gives to a code. Codes below 32, the
/// codes 127, 159 and 173, and codes from 254 on have none; the printable
/// ASCII range and the codes 161 to 253 keep their Latin-1 meaning.
pub open spec fn pdfdoc_char(code: u32) -> Option<char> {
    if 32 <= code <= 126 {
        Some(code as char)
    } else if 128 <= code <= 160 {
        pdfdoc_high_char(code)
    } else if 161 <= code <= 253 && code != 173 {
        Some(code as char)
    } else {
        None
    }
}

/// Looks up one of the codes 128 to 160.
fn high_char(code: u32) -> (r: Option<char>)
    ensures
        r == pdfdoc_high_char(code),
{
    if code == 128 {
        Some('\u{2022}')
    } else if code == 129 {
        Some('\u{2020}')
    } else if code == 130 {
        Some('\u{2021}')
    } else if code == 131 {
        Some('\u{2026}')
    } else if code == 132 {
        Some('\u{2014}')
    } else if code == 133 {
        Some('\u{2013}')
    } else if code == 134 {
        Some('\u{0192}')
    } else if code == 135 {
        Some('\u{2044}')
    } else if code == 136 {
        Some('\u{2039}')
    } else if code == 137 {
        Some('\u{203A}')
    } else if code == 138 {
        Some('\u{2212}')
    } else if code == 139 {
        Some('\u{2030}')
    } else if code == 140 {
        Some('\u{201E}')
    } else if code == 141 {
        Some('\u{201C}')
    } else if code == 142 {
        Some('\u{201D}')
    } else if code == 143 {
        Some('\u{2018}')
    } else if code == 144 {
        Some('\u{2019}')
    } else if code == 145 {
        Some('\u{201A}')
    } else if code == 146 {
        Some('\u{2122}')
    } else if code == 147 {
        Some('\u{FB01}')
    } else if code == 148 {
        Some('\u{FB02}')
    } else if code == 149 {
        Some('\u{0141}')
    } else if code == 150 {
        Some('\u{0152}')
    } else if code == 151 {
        Some('\u{0160}')
    } else if code == 152 {
        Some('\u{0178}')
    } else if code == 153 {
        Some('\u{017D}')
    } else if code == 154 {
        Some('\u{0131}')
    } else if code == 155 {
        Some('\u{0142}')
    } else if code == 156 {
        Some('\u{0153}')
    } else if code == 157 {
        Some('\u{0161}')
    } else if code == 158 {
        Some('\u{017E}')
    } else if code == 160 {
        Some('\u{20AC}')
    } else {
        None
    }
}

/// Looks a code up in PDFDocEncoding.
pub fn pdfdoc_lookup(code: u32) -> (r: Option<char>)
    ensures
        r == pdfdoc_char(code),
{
    if 32 <= code && code <= 126 {
        let b: u8 = code as u8;
        Some(b as char)
    } else if 128 <= code && code <= 160 {
        high_char(code)
    } else if 161 <= code && code <= 253 && code != 173 {
        let b: u8 = code as u8;
        Some(b as char)
    } else {
        None
    }
}

} // verus!
