//! The control bytes that the engine reacts to or emits.
use vstd::prelude::*;

verus! {

/// Horizontal tab: asks for an autocompletion.
pub const TAB: u8 = 0x09;

/// Backspace.
pub const BS: u8 = 0x08;

/// Delete, which most terminals send for the backspace key.
pub const DEL: u8 = 0x7f;

/// Carriage return: submits the line.
pub const CR: u8 = 0x0d;

/// Line feed.
pub const LF: u8 = 0x0a;

/// Escape: starts an ANSI control sequence.
pub const ESC: u8 = 0x1b;

/// Bell: the signal for a refused edit.
pub const BELL: u8 = 0x07;

/// Second byte of a control sequence introducer (`ESC [`).
pub const CSI: u8 = 0x5b;

/// `true` for the bytes that `u8::is_ascii_control` accepts.
pub open spec fn is_control(b: u8) -> bool {
    b < 0x20 || b == 0x7f
}

/// Same as `u8::is_ascii_control`.
pub fn is_ascii_control(b: u8) -> (r: bool)
    ensures
        r == is_control(b),
{
    b < 0x20 || b == 0x7f
}

} // verus!
