//! Names for the ASCII bytes that the dialect and value grammars mention.

use vstd::prelude::*;

verus! {

pub const TAB: u8 = 0x09;
pub const LINE_FEED: u8 = 0x0a;
pub const CARRIAGE_RETURN: u8 = 0x0d;
pub const DOUBLE_QUOTE: u8 = 0x22;
pub const HASH: u8 = 0x23;
pub const SINGLE_QUOTE: u8 = 0x27;
pub const PLUS: u8 = 0x2b;
pub const COMMA: u8 = 0x2c;
pub const MINUS: u8 = 0x2d;
pub const POINT: u8 = 0x2e;
pub const DIGIT_0: u8 = 0x30;
pub const DIGIT_1: u8 = 0x31;
pub const DIGIT_9: u8 = 0x39;
pub const COLON: u8 = 0x3a;
pub const SEMICOLON: u8 = 0x3b;
pub const UPPER_A: u8 = 0x41;
pub const UPPER_E: u8 = 0x45;
pub const UPPER_Z: u8 = 0x5a;
pub const BACKSLASH: u8 = 0x5c;
pub const LOWER_A: u8 = 0x61;
pub const LOWER_E: u8 = 0x65;
pub const LOWER_F: u8 = 0x66;
pub const LOWER_L: u8 = 0x6c;
pub const LOWER_N: u8 = 0x6e;
pub const LOWER_O: u8 = 0x6f;
pub const LOWER_R: u8 = 0x72;
pub const LOWER_S: u8 = 0x73;
pub const LOWER_T: u8 = 0x74;
pub const LOWER_U: u8 = 0x75;
pub const LOWER_Y: u8 = 0x79;
pub const PIPE: u8 = 0x7c;

} // verus!
