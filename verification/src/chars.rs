//! Character classification used by the transducer.
//!
//! Indentation is scanned over characters that are whitespace but not control
//! characters, so a tab or a carriage return never counts toward a line's
//! indentation, while a plain space or an exotic Unicode space does.

use vstd::prelude::*;

verus! {

/// Whether `c` has the Unicode `White_Space` property.
pub open spec fn spec_whitespace(c: char) -> bool {
    let u: u32 = c as u32;
    u == 0x09 || u == 0x0a || u == 0x0b || u == 0x0c || u == 0x0d || u == 0x20 || u == 0x85
        || u == 0xa0 || u == 0x1680 || (0x2000 <= u && u <= 0x200a) || u == 0x2028 || u == 0x2029
        || u == 0x202f || u == 0x205f || u == 0x3000
}

/// Whether `c` is a control character (the C0 block, delete, or the C1 block).
pub open spec fn spec_control(c: char) -> bool {
    let u: u32 = c as u32;
    u <= 0x1f || (0x7f <= u && u <= 0x9f)
}

/// Whether `c` counts toward a line's indentation: whitespace, but not a
/// control character.
pub open spec fn spec_indent_char(c: char) -> bool {
    spec_whitespace(c) && !spec_control(c)
}

/// Whether `c` has the Unicode `White_Space` property.
pub fn is_whitespace_char(c: char) -> (r: bool)
    ensures
        r == spec_whitespace(c),
{
    let u: u32 = c as u32;
    u == 0x09 || u == 0x0a || u == 0x0b || u == 0x0c || u == 0x0d || u == 0x20 || u == 0x85
        || u == 0xa0 || u == 0x1680 || (0x2000 <= u && u <= 0x200a) || u == 0x2028 || u == 0x2029
        || u == 0x202f || u == 0x205f || u == 0x3000
}

/// Whether `c` is a control character (the C0 block, delete, or the C1 block).
pub fn is_control_char(c: char) -> (r: bool)
    ensures
        r == spec_control(c),
{
    let u: u32 = c as u32;
    u <= 0x1f || (0x7f <= u && u <= 0x9f)
}

/// Whether `c` counts toward a line's indentation.
pub fn is_indent_char(c: char) -> (r: bool)
    ensures
        r == spec_indent_char(c),
{
    is_whitespace_char(c) && !is_control_char(c)
}

} // verus!
