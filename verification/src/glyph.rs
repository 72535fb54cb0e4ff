//! Side bearings of the glyphs that the bar draws.
use crate::text::chars_of;
use vstd::prelude::*;
use vstd::string::*;

verus! {

/// The space between a glyph's ink and the right edge of its cell, in
/// ten-thousandths of an em. None for the glyphs whose ink fills their cell.
pub open spec fn bearing_of(code: u32) -> u32 {
    if code == 0xf0079 || (0xf007b <= code && code <= 0xf0082) || code == 0xf008e || code == 0xf0091 {
        500
    } else if code == 0xf00af {
        355
    } else if code == 0xf00dc {
        900
    } else if code == 0xf011c {
        365
    } else if code == 0xf0140 {
        430
    } else if code == 0xf0142 {
        1290
    } else if code == 0xf0210 {
        495
    } else if code == 0xf0241 {
        910
    } else if code == 0xf04c3 {
        90
    } else if code == 0xf050f || code == 0xf10c2 || code == 0xf10c3 {
        913
    } else if code == 0xf057f {
        665
    } else if code == 0xf0589 {
        220
    } else {
        0
    }
}

fn bearing(code: u32) -> (r: u32)
    ensures
        r == bearing_of(code),
{
    if code == 0xf0079 || (0xf007b <= code && code <= 0xf0082) || code == 0xf008e || code == 0xf0091 {
        500
    } else if code == 0xf00af {
        355
    } else if code == 0xf00dc {
        900
    } else if code == 0xf011c {
        365
    } else if code == 0xf0140 {
        430
    } else if code == 0xf0142 {
        1290
    } else if code == 0xf0210 {
        495
    } else if code == 0xf0241 {
        910
    } else if code == 0xf04c3 {
        90
    } else if code == 0xf050f || code == 0xf10c2 || code == 0xf10c3 {
        913
    } else if code == 0xf057f {
        665
    } else if code == 0xf0589 {
        220
    } else {
        0
    }
}

/// The right bearing of a text, which is that of its last character.
pub fn right_bearing(glyph: &str) -> (r: u32)
    ensures
        r == if glyph@.len() == 0 {
            0
        } else {
            bearing_of(glyph@.last() as u32)
        },
{
    let v = chars_of(glyph);
    let n: usize = v.len();
    if n == 0 {
        0
    } else {
        bearing(v[n - 1] as u32)
    }
}

} // verus!
