//! The fixed words of the format.

use crate::cursor::{has_tag, matches_tag};
use vstd::prelude::*;

verus! {

/// `%PDF`
pub open spec fn tag_pdf() -> Seq<u8> {
    seq![37u8, 80, 68, 70]
}

/// `startxref`
pub open spec fn tag_startxref() -> Seq<u8> {
    seq![115u8, 116, 97, 114, 116, 120, 114, 101, 102]
}

/// `trailer`
pub open spec fn tag_trailer() -> Seq<u8> {
    seq![116u8, 114, 97, 105, 108, 101, 114]
}

/// `xref`
pub open spec fn tag_xref() -> Seq<u8> {
    seq![120u8, 114, 101, 102]
}

/// `endobj`
pub open spec fn tag_endobj() -> Seq<u8> {
    seq![101u8, 110, 100, 111, 98, 106]
}

/// `obj`
pub open spec fn tag_obj() -> Seq<u8> {
    seq![111u8, 98, 106]
}

/// `>>`
pub open spec fn tag_dict_end() -> Seq<u8> {
    seq![62u8, 62]
}

/// `null`
pub open spec fn tag_null() -> Seq<u8> {
    seq![110u8, 117, 108, 108]
}

/// `true`
pub open spec fn tag_true() -> Seq<u8> {
    seq![116u8, 114, 117, 101]
}

/// `false`
pub open spec fn tag_false() -> Seq<u8> {
    seq![102u8, 97, 108, 115, 101]
}

/// `stream`
pub open spec fn tag_stream() -> Seq<u8> {
    seq![115u8, 116, 114, 101, 97, 109]
}

/// `endstream`
pub open spec fn tag_endstream() -> Seq<u8> {
    seq![101u8, 110, 100, 115, 116, 114, 101, 97, 109]
}

/// `beginbfchar`
pub open spec fn tag_beginbfchar() -> Seq<u8> {
    seq![98u8, 101, 103, 105, 110, 98, 102, 99, 104, 97, 114]
}

/// `beginbfrange`
pub open spec fn tag_beginbfrange() -> Seq<u8> {
    seq![98u8, 101, 103, 105, 110, 98, 102, 114, 97, 110, 103, 101]
}

/// `BT`
pub open spec fn tag_bt() -> Seq<u8> {
    seq![66u8, 84]
}

/// `ET`
pub open spec fn tag_et() -> Seq<u8> {
    seq![69u8, 84]
}

/// `cm`
pub open spec fn tag_cm() -> Seq<u8> {
    seq![99u8, 109]
}

/// Whether `%PDF` stands at `pos`.
pub fn at_pdf(data: &Vec<u8>, pos: usize) -> (r: bool)
    ensures
        r == has_tag(data@, pos as int, tag_pdf()),
{
    let t: [u8; 4] = [37, 80, 68, 70];
    assert(t@ =~= tag_pdf());
    matches_tag(data, pos, &t)
}

/// Whether `startxref` stands at `pos`.
pub fn at_startxref(data: &Vec<u8>, pos: usize) -> (r: bool)
    ensures
        r == has_tag(data@, pos as int, tag_startxref()),
{
    let t: [u8; 9] = [115, 116, 97, 114, 116, 120, 114, 101, 102];
    assert(t@ =~= tag_startxref());
    matches_tag(data, pos, &t)
}

/// Whether `trailer` stands at `pos`.
pub fn at_trailer(data: &Vec<u8>, pos: usize) -> (r: bool)
    ensures
        r == has_tag(data@, pos as int, tag_trailer()),
{
    let t: [u8; 7] = [116, 114, 97, 105, 108, 101, 114];
    assert(t@ =~= tag_trailer());
    matches_tag(data, pos, &t)
}

/// Whether `xref` stands at `pos`.
pub fn at_xref(data: &Vec<u8>, pos: usize) -> (r: bool)
    ensures
        r == has_tag(data@, pos as int, tag_xref()),
{
    let t: [u8; 4] = [120, 114, 101, 102];
    assert(t@ =~= tag_xref());
    matches_tag(data, pos, &t)
}

/// Whether `endobj` stands at `pos`.
pub fn at_endobj(data: &Vec<u8>, pos: usize) -> (r: bool)
    ensures
        r == has_tag(data@, pos as int, tag_endobj()),
{
    let t: [u8; 6] = [101, 110, 100, 111, 98, 106];
    assert(t@ =~= tag_endobj());
    matches_tag(data, pos, &t)
}

/// Whether `obj` stands at `pos`.
pub fn at_obj(data: &Vec<u8>, pos: usize) -> (r: bool)
    ensures
        r == has_tag(data@, pos as int, tag_obj()),
{
    let t: [u8; 3] = [111, 98, 106];
    assert(t@ =~= tag_obj());
    matches_tag(data, pos, &t)
}

/// Whether `>>` stands at `pos`.
pub fn at_dict_end(data: &Vec<u8>, pos: usize) -> (r: bool)
    ensures
        r == has_tag(data@, pos as int, tag_dict_end()),
{
    let t: [u8; 2] = [62, 62];
    assert(t@ =~= tag_dict_end());
    matches_tag(data, pos, &t)
}

/// Whether `null` stands at `pos`.
pub fn at_null(data: &Vec<u8>, pos: usize) -> (r: bool)
    ensures
        r == has_tag(data@, pos as int, tag_null()),
{
    let t: [u8; 4] = [110, 117, 108, 108];
    assert(t@ =~= tag_null());
    matches_tag(data, pos, &t)
}

/// Whether `true` stands at `pos`.
pub fn at_true(data: &Vec<u8>, pos: usize) -> (r: bool)
    ensures
        r == has_tag(data@, pos as int, tag_true()),
{
    let t: [u8; 4] = [116, 114, 117, 101];
    assert(t@ =~= tag_true());
    matches_tag(data, pos, &t)
}

/// Whether `false` stands at `pos`.
pub fn at_false(data: &Vec<u8>, pos: usize) -> (r: bool)
    ensures
        r == has_tag(data@, pos as int, tag_false()),
{
    let t: [u8; 5] = [102, 97, 108, 115, 101];
    assert(t@ =~= tag_false());
    matches_tag(data, pos, &t)
}

/// Whether `stream` stands at `pos`.
pub fn at_stream(data: &Vec<u8>, pos: usize) -> (r: bool)
    ensures
        r == has_tag(data@, pos as int, tag_stream()),
{
    let t: [u8; 6] = [115, 116, 114, 101, 97, 109];
    assert(t@ =~= tag_stream());
    matches_tag(data, pos, &t)
}

/// Whether `endstream` stands at `pos`.
pub fn at_endstream(data: &Vec<u8>, pos: usize) -> (r: bool)
    ensures
        r == has_tag(data@, pos as int, tag_endstream()),
{
    let t: [u8; 9] = [101, 110, 100, 115, 116, 114, 101, 97, 109];
    assert(t@ =~= tag_endstream());
    matches_tag(data, pos, &t)
}

/// Whether `beginbfchar` stands at `pos`.
pub fn at_beginbfchar(data: &Vec<u8>, pos: usize) -> (r: bool)
    ensures
        r == has_tag(data@, pos as int, tag_beginbfchar()),
{
    let t: [u8; 11] = [98, 101, 103, 105, 110, 98, 102, 99, 104, 97, 114];
    assert(t@ =~= tag_beginbfchar());
    matches_tag(data, pos, &t)
}

/// Whether `beginbfrange` stands at `pos`.
pub fn at_beginbfrange(data: &Vec<u8>, pos: usize) -> (r: bool)
    ensures
        r == has_tag(data@, pos as int, tag_beginbfrange()),
{
    let t: [u8; 12] = [98, 101, 103, 105, 110, 98, 102, 114, 97, 110, 103, 101];
    assert(t@ =~= tag_beginbfrange());
    matches_tag(data, pos, &t)
}

/// Whether `BT` stands at `pos`.
pub fn at_bt(data: &Vec<u8>, pos: usize) -> (r: bool)
    ensures
        r == has_tag(data@, pos as int, tag_bt()),
{
    let t: [u8; 2] = [66, 84];
    assert(t@ =~= tag_bt());
    matches_tag(data, pos, &t)
}

/// Whether `ET` stands at `pos`.
pub fn at_et(data: &Vec<u8>, pos: usize) -> (r: bool)
    ensures
        r == has_tag(data@, pos as int, tag_et()),
{
    let t: [u8; 2] = [69, 84];
    assert(t@ =~= tag_et());
    matches_tag(data, pos, &t)
}

/// Whether `cm` stands at `pos`.
pub fn at_cm(data: &Vec<u8>, pos: usize) -> (r: bool)
    ensures
        r == has_tag(data@, pos as int, tag_cm()),
{
    let t: [u8; 2] = [99, 109];
    assert(t@ =~= tag_cm());
    matches_tag(data, pos, &t)
}

} // verus!
