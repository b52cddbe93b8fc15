//! ASCII bytes by name.

use vstd::prelude::*;

verus! {

pub const BRACKET_OPEN: u8 = 0x5B;

pub const PAREN_CLOSE: u8 = 0x29;

pub const SPACE: u8 = 0x20;

pub const NEWLINE: u8 = 0x0A;

pub const OPEN: u8 = 0x7B;

pub const CLOSE: u8 = 0x7D;

pub const COLON: u8 = 0x3A;

pub const DOT: u8 = 0x2E;

pub const HASH: u8 = 0x23;

pub const PLUS: u8 = 0x2B;

pub const MINUS: u8 = 0x2D;

pub const LESS: u8 = 0x3C;

pub const GREATER: u8 = 0x3E;

pub const CARET: u8 = 0x5E;

pub const QUESTION: u8 = 0x3F;

pub const ZERO: u8 = 0x30;

pub const NINE: u8 = 0x39;

pub const LOWER_B: u8 = 0x62;

pub const LOWER_E: u8 = 0x65;

pub const LOWER_O: u8 = 0x6F;

pub const LOWER_X: u8 = 0x78;

pub const UPPER_E: u8 = 0x45;

pub const UPPER_T: u8 = 0x54;

pub const UPPER_X: u8 = 0x58;

pub const UPPER_Z: u8 = 0x5A;

} // verus!
