//! An image as plain-text PPM: the line `P3`, the width and the height, the
//! largest channel value 255, then one line of three decimal numbers for each
//! pixel, row by row.

use vstd::prelude::*;
use crate::pixel::{blue, channels, green, red};

verus! {

/// The ASCII digit for `d`, for `d` below ten.
pub open spec fn digit(d: int) -> u8 {
    (0x30 + d) as u8
}

/// The decimal numeral of `n`, in ASCII, without leading zeros.
pub open spec fn decimal(n: nat) -> Seq<u8>
    decreases n,
{
    if n < 10 {
        seq![digit(n as int)]
    } else {
        decimal(n / 10).push(digit((n % 10) as int))
    }
}

/// The three lines that open the file for an image of the given size.
pub open spec fn header(width: nat, height: nat) -> Seq<u8> {
    seq![0x50u8, 0x33, 0x0a] + decimal(width) + seq![0x20u8] + decimal(height) + seq![
        0x0au8,
        0x32,
        0x35,
        0x35,
        0x0a,
    ]
}

/// The line of one pixel: red, green and blue, a blank between them.
pub open spec fn pixel_line(px: u32) -> Seq<u8> {
    decimal(red(px) as nat) + seq![0x20u8] + decimal(green(px) as nat) + seq![0x20u8] + decimal(
        blue(px) as nat,
    ) + seq![0x0au8]
}

/// The lines of the pixels, in their order.
pub open spec fn body(pixels: Seq<u32>) -> Seq<u8>
    decreases pixels.len(),
{
    if pixels.len() == 0 {
        Seq::empty()
    } else {
        body(pixels.drop_last()) + pixel_line(pixels.last())
    }
}

/// The whole file.
pub open spec fn ppm(width: nat, height: nat, pixels: Seq<u32>) -> Seq<u8> {
    header(width, height) + body(pixels)
}

/// Appends the decimal numeral of `n` to `out`.
pub fn push_decimal(out: &mut Vec<u8>, n: usize)
    ensures
        final(out)@ == old(out)@ + decimal(n as nat),
    decreases n,
{
    if n >= 10 {
        push_decimal(out, n / 10);
    }
    out.push(0x30 + (n % 10) as u8);
    assert(out@ =~= old(out)@ + decimal(n as nat));
}

/// Appends the line of one pixel to `out`.
pub fn push_pixel_line(out: &mut Vec<u8>, px: u32)
    ensures
        final(out)@ == old(out)@ + pixel_line(px),
{
    let (r, g, b) = channels(px);
    push_decimal(out, r as usize);
    out.push(0x20);
    push_decimal(out, g as usize);
    out.push(0x20);
    push_decimal(out, b as usize);
    out.push(0x0a);
    assert(out@ =~= old(out)@ + pixel_line(px));
}

/// The plain-text PPM file of an image whose pixels are given row by row as
/// 0RGB words. `None` where the pixels are not as many as the size says.
pub fn encode_ppm(width: usize, height: usize, pixels: &Vec<u32>) -> (text: Option<Vec<u8>>)
    ensures
        text is Some <==> pixels.len() == width * height,
        text matches Some(t) ==> t@ == ppm(width as nat, height as nat, pixels@),
{
    match width.checked_mul(height) {
        Some(n) => {
            if n != pixels.len() {
                return None;
            }
        },
        None => {
            return None;
        },
    }
    let mut out: Vec<u8> = Vec::new();
    out.push(0x50);
    out.push(0x33);
    out.push(0x0a);
    push_decimal(&mut out, width);
    out.push(0x20);
    push_decimal(&mut out, height);
    out.push(0x0a);
    out.push(0x32);
    out.push(0x35);
    out.push(0x35);
    out.push(0x0a);
    assert(out@ =~= header(width as nat, height as nat));
    let mut i: usize = 0;
    while i < pixels.len()
        invariant
            0 <= i <= pixels.len(),
            out@ == header(width as nat, height as nat) + body(pixels@.take(i as int)),
        decreases pixels.len() - i,
    {
        let ghost done = pixels@.take(i as int);
        push_pixel_line(&mut out, pixels[i]);
        i = i + 1;
        proof {
            let now = pixels@.take(i as int);
            assert(now.drop_last() =~= done);
            assert(out@ =~= header(width as nat, height as nat) + body(now));
        }
    }
    assert(pixels@.take(i as int) =~= pixels@);
    Some(out)
}

} // verus!
