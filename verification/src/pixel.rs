//! Packed 0RGB pixels, as a framebuffer stores them.

use vstd::prelude::*;

verus! {

/// The 0RGB word that stands for the three channels: red in bits 16 to 23,
/// green in bits 8 to 15, blue in bits 0 to 7, and the top byte clear.
pub open spec fn packed_rgb(r: u8, g: u8, b: u8) -> int {
    r as int * 0x1_0000 + g as int * 0x100 + b as int
}

/// The red channel of a 0RGB word.
pub open spec fn red(px: u32) -> u8 {
    (px / 0x1_0000 % 0x100) as u8
}

/// The green channel of a 0RGB word.
pub open spec fn green(px: u32) -> u8 {
    (px / 0x100 % 0x100) as u8
}

/// The blue channel of a 0RGB word.
pub open spec fn blue(px: u32) -> u8 {
    (px % 0x100) as u8
}

/// Packs three channels into one 0RGB word.
pub fn from_u8_rgb(r: u8, g: u8, b: u8) -> (px: u32)
    ensures
        px as int == packed_rgb(r, g, b),
        px == ((r as u32) << 16) | ((g as u32) << 8) | (b as u32),
        red(px) == r,
        green(px) == g,
        blue(px) == b,
{
    let (r, g, b) = (r as u32, g as u32, b as u32);
    assert(((r << 16) | (g << 8) | b) == r * 0x1_0000 + g * 0x100 + b) by (bit_vector)
        requires
            r < 0x100,
            g < 0x100,
            b < 0x100,
    ;
    (r << 16) | (g << 8) | b
}

/// The red, green and blue channels of a 0RGB word; its top byte is ignored.
pub fn channels(px: u32) -> (rgb: (u8, u8, u8))
    ensures
        rgb == (red(px), green(px), blue(px)),
{
    assert((px >> 16) & 0xff == px / 0x1_0000 % 0x100) by (bit_vector);
    assert((px >> 8) & 0xff == px / 0x100 % 0x100) by (bit_vector);
    assert(px & 0xff == px % 0x100) by (bit_vector);
    assert((px >> 16) & 0xff < 0x100) by (bit_vector);
    assert((px >> 8) & 0xff < 0x100) by (bit_vector);
    assert(px & 0xff < 0x100) by (bit_vector);
    (((px >> 16) & 0xff) as u8, ((px >> 8) & 0xff) as u8, (px & 0xff) as u8)
}

/// A word whose top byte is clear is the packing of its own channels.
pub proof fn lemma_channels_tell_the_pixel(px: u32)
    requires
        px < 0x100_0000,
    ensures
        px as int == packed_rgb(red(px), green(px), blue(px)),
{
}

} // verus!
