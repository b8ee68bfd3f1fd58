//! The tint of the glass.

use vstd::prelude::*;

verus! {

/// The opacity that is asked for: none at all would switch the effect off.
pub open spec fn shown_alpha(a: u8) -> int {
    if a == 0 {
        1
    } else {
        a as int
    }
}

/// A colour and its opacity as the window system takes them: red in the lowest
/// byte, then green, blue and the opacity.
pub fn gradient_color(r: u8, g: u8, b: u8, a: u8) -> (c: u32)
    ensures
        c == r + g * 0x100 + b * 0x1_0000 + shown_alpha(a) * 0x100_0000,
{
    let a: u32 = if a == 0 {
        1
    } else {
        a as u32
    };
    (r as u32) + (g as u32) * 0x100 + (b as u32) * 0x1_0000 + a * 0x100_0000
}

/// Each part of the colour stands in its own byte: red in the lowest, then green,
/// blue and the opacity, which is never zero and otherwise as wanted.
pub proof fn law_bytes_of_the_tint(r: u8, g: u8, b: u8, a: u8, c: u32)
    requires
        call_ensures(gradient_color, (r, g, b, a), c),
    ensures
        c % 0x100 == r,
        c / 0x100 % 0x100 == g,
        c / 0x1_0000 % 0x100 == b,
        a > 0 ==> c / 0x100_0000 == a,
        a == 0 ==> c / 0x100_0000 == 1,
{
}

} // verus!
