//! The instruction codes of the language. Every other byte is a comment.
use vstd::prelude::*;

verus! {

/// Moves the data pointer one cell to the right.
pub const FWD: u8 = 0x3e;  // '>'

/// Moves the data pointer one cell to the left.
pub const BAK: u8 = 0x3c;  // '<'

/// Adds one to the current cell, modulo 256.
pub const INC: u8 = 0x2b;  // '+'

/// Subtracts one from the current cell, modulo 256.
pub const DEC: u8 = 0x2d;  // '-'

/// Writes the current cell to the output stream.
pub const PUT: u8 = 0x2e;  // '.'

/// Reads one byte of input into the current cell.
pub const INP: u8 = 0x2c;  // ','

/// Loop-open: when the current cell is zero, jumps to the matching loop-close.
pub const LBR: u8 = 0x5b;  // '['

/// Loop-close: when the current cell is non-zero, jumps to the matching loop-open.
pub const RBR: u8 = 0x5d;  // ']'

} // verus!
