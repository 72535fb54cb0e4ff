//! Measured quantities that were floating point numbers.
use vstd::prelude::*;
use vstd::string::*;

verus! {

/// A floating point reading, as an integer that is ordered as the readings are
/// and is 0 for nothing, and as it is printed without a fraction.
///
/// The integer is the reading's bit pattern, read as a signed number, with the
/// bits below the sign turned round where the sign is set. What is no number
/// comes before everything.
#[derive(Debug, Clone)]
pub struct Reading {
    pub order: i64,
    pub shown: String,
}

/// The orders of the tens from 10 to 100.
pub const TEN: i64 = 0x4024_0000_0000_0000;

pub const TWENTY: i64 = 0x4034_0000_0000_0000;

pub const THIRTY: i64 = 0x403e_0000_0000_0000;

pub const FORTY: i64 = 0x4044_0000_0000_0000;

pub const FIFTY: i64 = 0x4049_0000_0000_0000;

pub const SIXTY: i64 = 0x404e_0000_0000_0000;

pub const SEVENTY: i64 = 0x4051_8000_0000_0000;

pub const SEVENTY_FIVE: i64 = 0x4052_c000_0000_0000;

pub const EIGHTY: i64 = 0x4054_0000_0000_0000;

pub const EIGHTY_FIVE: i64 = 0x4055_4000_0000_0000;

pub const NINETY: i64 = 0x4056_8000_0000_0000;

pub const HUNDRED: i64 = 0x4059_0000_0000_0000;

/// How many whole tens a reading holds, up to nine.
pub open spec fn tens_of(order: i64) -> int {
    if order < TEN {
        0
    } else if order < TWENTY {
        1
    } else if order < THIRTY {
        2
    } else if order < FORTY {
        3
    } else if order < FIFTY {
        4
    } else if order < SIXTY {
        5
    } else if order < SEVENTY {
        6
    } else if order < EIGHTY {
        7
    } else if order < NINETY {
        8
    } else {
        9
    }
}

pub fn tens(order: i64) -> (r: usize)
    ensures
        r == tens_of(order),
{
    if order < TEN {
        0
    } else if order < TWENTY {
        1
    } else if order < THIRTY {
        2
    } else if order < FORTY {
        3
    } else if order < FIFTY {
        4
    } else if order < SIXTY {
        5
    } else if order < SEVENTY {
        6
    } else if order < EIGHTY {
        7
    } else if order < NINETY {
        8
    } else {
        9
    }
}

} // verus!
