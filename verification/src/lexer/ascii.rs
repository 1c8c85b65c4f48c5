//! The ASCII codes that the lexer tells apart.

use vstd::prelude::*;

verus! {

pub const TAB: u8 = 0x09;
pub const LINE_FEED: u8 = 0x0A;
pub const FORM_FEED: u8 = 0x0C;
pub const CARRIAGE_RETURN: u8 = 0x0D;
pub const SPACE: u8 = 0x20;
pub const BANG: u8 = 0x21;
pub const QUOTE: u8 = 0x22;
pub const HASH: u8 = 0x23;
pub const LPAREN: u8 = 0x28;
pub const RPAREN: u8 = 0x29;
pub const STAR: u8 = 0x2A;
pub const PLUS: u8 = 0x2B;
pub const COMMA: u8 = 0x2C;
pub const MINUS: u8 = 0x2D;
pub const SLASH: u8 = 0x2F;
pub const DIGIT_0: u8 = 0x30;
pub const DIGIT_9: u8 = 0x39;
pub const SEMICOLON: u8 = 0x3B;
pub const EQUALS: u8 = 0x3D;
pub const UPPER_A: u8 = 0x41;
pub const UPPER_Z: u8 = 0x5A;
pub const BACKSLASH: u8 = 0x5C;
pub const UNDERSCORE: u8 = 0x5F;
pub const LOWER_A: u8 = 0x61;
pub const LOWER_N: u8 = 0x6E;
pub const LOWER_T: u8 = 0x74;
pub const LOWER_Z: u8 = 0x7A;
pub const LBRACE: u8 = 0x7B;
pub const RBRACE: u8 = 0x7D;
pub const TILDE: u8 = 0x7E;

} // verus!
