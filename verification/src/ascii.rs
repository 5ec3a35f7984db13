//! The characters that mean something to the calculator, as bytes.

use vstd::prelude::*;

verus! {

pub const DIGIT_ZERO: u8 = 48;

pub const DIGIT_NINE: u8 = 57;

pub const DOT: u8 = 46;

pub const MINUS: u8 = 45;

pub const PLUS: u8 = 43;

pub const STAR: u8 = 42;

pub const SLASH: u8 = 47;

pub const OPEN_PAREN: u8 = 40;

pub const CLOSE_PAREN: u8 = 41;

pub const EQUALS: u8 = 61;

pub const SPACE: u8 = 32;

pub const CARRIAGE_RETURN: u8 = 13;

pub const LINE_FEED: u8 = 10;

pub const LOWER_A: u8 = 97;

pub const LOWER_Z: u8 = 122;

pub const UPPER_A: u8 = 65;

pub const UPPER_Z: u8 = 90;

} // verus!
