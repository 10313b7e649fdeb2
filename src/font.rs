use vstd::prelude::*;

verus! {

/// Why a font texture could not be built.
#[derive(Debug)]
pub enum Error {
    /// A glyph for this character is not present in the font.
    NoGlyph(char),
    FontError,
}

#[derive(Clone, Copy, Debug, PartialEq, Eq)]
pub enum TextAlignHorizontal {
    Left,
    Right,
    Center,
}

#[derive(Clone, Copy, Debug, PartialEq, Eq)]
pub enum TextAlignVertical {
    Top,
    Bottom,
    Center,
}

/// `r` has exactly one bit set.
pub open spec fn is_power_of_two(r: u32) -> bool {
    r != 0 && r & ((r - 1) as u32) == 0
}

/// The least power of two that is at least `x`; texture sides are rounded
/// up with it.
pub fn get_nearest_po2(x: u32) -> (r: u32)
    requires
        0 < x <= 0x8000_0000,
    ensures
        is_power_of_two(r),
        x <= r,
        r >> 1u32 < x,
{
    let ghost x0 = x;
    let mut x = x;
    x -= 1;
    let ghost y = x;
    x = x | (x >> 1);
    let ghost a = x;
    x = x | (x >> 2);
    let ghost b = x;
    x = x | (x >> 4);
    let ghost c = x;
    x = x | (x >> 8);
    let ghost d = x;
    x = x | (x >> 16);
    let ghost e = x;
    proof {
        assert(e != 0xffff_ffffu32 && (e + 1) as u32 != 0 && (e + 1) as u32 & e == 0 && x0 <= (e
            + 1) as u32 && ((e + 1) as u32) >> 1u32 < x0) by (bit_vector)
            requires
                0 < x0 <= 0x8000_0000u32,
                y == (x0 - 1) as u32,
                a == y | (y >> 1u32),
                b == a | (a >> 2u32),
                c == b | (b >> 4u32),
                d == c | (c >> 8u32),
                e == d | (d >> 16u32),
        ;
    }
    x + 1
}

} // verus!
