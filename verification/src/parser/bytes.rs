//! The bytes that the scanner tells apart.
use vstd::prelude::*;

verus! {

/// The null byte, which also stands for the end of the buffer.
pub const NUL: u8 = 0x00;

/// Tab.
pub const TAB: u8 = 0x09;

/// Newline.
pub const NEWLINE: u8 = 0x0a;

/// Space.
pub const SPACE: u8 = 0x20;

/// `"`
pub const DOUBLE_QUOTE: u8 = 0x22;

/// `#`
pub const HASH: u8 = 0x23;

/// `'`
pub const SINGLE_QUOTE: u8 = 0x27;

/// `(`
pub const OPENING_PAREN: u8 = 0x28;

/// `)`
pub const CLOSING_PAREN: u8 = 0x29;

/// `*`
pub const ASTERISK: u8 = 0x2a;

/// `+`
pub const PLUS: u8 = 0x2b;

/// `,`
pub const COMMA: u8 = 0x2c;

/// `-`
pub const DASH: u8 = 0x2d;

/// `.`
pub const DOT: u8 = 0x2e;

/// `/`
pub const SLASH: u8 = 0x2f;

/// `0`
pub const DIGIT_0: u8 = 0x30;

/// `9`
pub const DIGIT_9: u8 = 0x39;

/// `:`
pub const COLON: u8 = 0x3a;

/// `;`
pub const SEMICOLON: u8 = 0x3b;

/// `<`
pub const LEFT_ANGLE: u8 = 0x3c;

/// `=`
pub const EQUAL: u8 = 0x3d;

/// `>`
pub const RIGHT_ANGLE: u8 = 0x3e;

/// `A`
pub const UPPER_A: u8 = 0x41;

/// `Z`
pub const UPPER_Z: u8 = 0x5a;

/// `[`
pub const LEFT_SQUARE: u8 = 0x5b;

/// `\`
pub const BACKSLASH: u8 = 0x5c;

/// `]`
pub const RIGHT_SQUARE: u8 = 0x5d;

/// `_`
pub const UNDERSCORE: u8 = 0x5f;

/// `` ` ``
pub const BACKTICK: u8 = 0x60;

/// `a`
pub const LOWER_A: u8 = 0x61;

/// `z`
pub const LOWER_Z: u8 = 0x7a;

} // verus!
