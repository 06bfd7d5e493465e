//! The boundary to the `tiny_skia_path` crate, whose numbers and rectangles
//! pass through this library as they are.
//!
//! A `NormalizedF32` is a number from 0 to 1, a `Rect` a rectangle with four
//! finite edges. This library does not compute with either: it keeps them,
//! tells them apart by the bit patterns of their numbers, and hands them to
//! `pdf_writer` to be written.
use vstd::prelude::*;
use crate::pdf::{dict_entries, Entry};

verus! {

/// `tiny_skia_path::NormalizedF32`: a number from 0 to 1.
#[verifier::external_type_specification]
#[verifier::external_body]
pub struct ExNormalizedF32(tiny_skia_path::NormalizedF32);

/// `tiny_skia_path::Rect`: a rectangle with four finite edges.
#[verifier::external_type_specification]
#[verifier::external_body]
pub struct ExRect(tiny_skia_path::Rect);

/// The bit pattern of a number from 0 to 1.
pub uninterp spec fn alpha_bits(alpha: tiny_skia_path::NormalizedF32) -> u32;

/// The bit patterns of the left, top, right and bottom edge of a rectangle.
pub uninterp spec fn rect_bits(rect: tiny_skia_path::Rect) -> Seq<u32>;

/// Calls `NormalizedF32::get` and takes the bit pattern of the number.
#[verifier::external_body]
pub(crate) fn alpha_to_bits(alpha: tiny_skia_path::NormalizedF32) -> (bits: u32)
    ensures
        bits == alpha_bits(alpha),
{
    alpha.get().to_bits()
}

/// Calls `Rect::left`, `top`, `right` and `bottom` and takes the bit
/// patterns of the four numbers.
#[verifier::external_body]
pub(crate) fn rect_to_bits(rect: tiny_skia_path::Rect) -> (bits: Vec<u32>)
    ensures
        bits@ == rect_bits(rect),
        bits@.len() == 4,
{
    vec![rect.left().to_bits(), rect.top().to_bits(), rect.right().to_bits(), rect.bottom().to_bits()]
}

/// The bit pattern of a whole number as an edge of a rectangle holds it.
/// The whole numbers that are sums of a 16-bit number with a sign and one
/// without are all held exactly.
pub uninterp spec fn whole_bits(value: int) -> u32;

/// Calls `Rect::from_xywh` with whole numbers. A rectangle of whole numbers
/// with a width and a height that are not negative always exists; its
/// edges are `x`, `y`, `x + width` and `y + height`.
#[verifier::external_body]
pub(crate) fn rect_from_xywh(x: i16, y: i16, width: u16, height: u16) -> (rect: tiny_skia_path::Rect)
    ensures
        rect_bits(rect) == seq![
            whole_bits(x as int),
            whole_bits(y as int),
            whole_bits(x + width),
            whole_bits(y + height),
        ],
{
    tiny_skia_path::Rect::from_xywh(x.into(), y.into(), width.into(), height.into()).unwrap()
}

/// Calls `Dict::pair` with a number from 0 to 1 as the value: the
/// dictionary has one entry more, the last one.
#[verifier::external_body]
pub(crate) fn dict_pair_alpha(
    dict: &mut pdf_writer::Dict<'_>,
    key: &str,
    alpha: tiny_skia_path::NormalizedF32,
)
    ensures
        dict_entries(*final(dict)) == dict_entries(*old(dict)).push(
            (key@, Entry::Alpha(alpha_bits(alpha))),
        ),
{
    dict.pair(pdf_writer::Name(key.as_bytes()), alpha.get());
}

/// Calls `Dict::pair` with a rectangle as the value: its left, top, right
/// and bottom edge. The dictionary has one entry more, the last one.
#[verifier::external_body]
pub(crate) fn dict_pair_rect(dict: &mut pdf_writer::Dict<'_>, key: &str, rect: tiny_skia_path::Rect)
    ensures
        dict_entries(*final(dict)) == dict_entries(*old(dict)).push(
            (key@, Entry::Rect(rect_bits(rect))),
        ),
{
    dict.pair(
        pdf_writer::Name(key.as_bytes()),
        pdf_writer::Rect::new(rect.left(), rect.top(), rect.right(), rect.bottom()),
    );
}

/// The four bytes of a 32-bit number, the most significant one first.
pub open spec fn u32_bytes(value: u32) -> Seq<u8> {
    seq![
        ((value >> 24) & 0xff) as u8,
        ((value >> 16) & 0xff) as u8,
        ((value >> 8) & 0xff) as u8,
        (value & 0xff) as u8,
    ]
}

/// Appends the four bytes of a 32-bit number, the most significant one first.
pub fn push_u32(bytes: &mut Vec<u8>, value: u32)
    ensures
        final(bytes)@ == old(bytes)@ + u32_bytes(value),
{
    let a = (value >> 24) & 0xff;
    let b = (value >> 16) & 0xff;
    let c = (value >> 8) & 0xff;
    let d = value & 0xff;
    assert(a < 256 && b < 256 && c < 256 && d < 256) by (bit_vector)
        requires
            a == (value >> 24) & 0xff,
            b == (value >> 16) & 0xff,
            c == (value >> 8) & 0xff,
            d == value & 0xff,
    ;
    bytes.push(a as u8);
    bytes.push(b as u8);
    bytes.push(c as u8);
    bytes.push(d as u8);
    assert(bytes@ =~= old(bytes)@ + u32_bytes(value));
}

} // verus!
