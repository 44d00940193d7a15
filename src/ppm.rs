//! The plain-text image format that the renderer writes.
//!
//! An image is a header `P3\n<width> <height>\n255\n` followed by one line
//! `<r> <g> <b>\n` per pixel, in row-major order from the top-left corner,
//! with each channel written in decimal.
use vstd::prelude::*;

verus! {

/// The ASCII code of the digit `d`.
pub open spec fn digit(d: nat) -> u8 {
    (d + 48) as u8
}

/// The decimal digits of `n`, most significant first, without leading zeros.
pub open spec fn decimal(n: nat) -> Seq<u8>
    decreases n,
{
    if n < 10 {
        seq![digit(n)]
    } else {
        decimal(n / 10).push(digit(n % 10))
    }
}

/// The image header for the given dimensions.
pub open spec fn header_bytes(width: nat, height: nat) -> Seq<u8> {
    seq![80u8, 51u8, 10u8] + decimal(width) + seq![32u8] + decimal(height) + seq![
        10u8,
        50u8,
        53u8,
        53u8,
        10u8,
    ]
}

/// The line of one pixel.
pub open spec fn pixel_bytes(r: u8, g: u8, b: u8) -> Seq<u8> {
    decimal(r as nat) + seq![32u8] + decimal(g as nat) + seq![32u8] + decimal(b as nat) + seq![
        10u8,
    ]
}

/// Appends the decimal digits of `n`.
fn push_decimal(out: &mut Vec<u8>, n: u32)
    ensures
        final(out)@ == old(out)@ + decimal(n as nat),
    decreases n,
{
    if n >= 10 {
        push_decimal(out, n / 10);
    }
    out.push((n % 10) as u8 + 48);
    assert(final(out)@ =~= old(out)@ + decimal(n as nat));
}

/// Appends the header of a `width` by `height` image.
pub fn push_header(out: &mut Vec<u8>, width: u32, height: u32)
    ensures
        final(out)@ == old(out)@ + header_bytes(width as nat, height as nat),
{
    out.push(80);
    out.push(51);
    out.push(10);
    push_decimal(out, width);
    out.push(32);
    push_decimal(out, height);
    out.push(10);
    out.push(50);
    out.push(53);
    out.push(53);
    out.push(10);
    assert(final(out)@ =~= old(out)@ + header_bytes(width as nat, height as nat));
}

/// Appends the line of a pixel with the channels `r`, `g`, `b`.
pub fn push_pixel(out: &mut Vec<u8>, r: u8, g: u8, b: u8)
    ensures
        final(out)@ == old(out)@ + pixel_bytes(r, g, b),
{
    push_decimal(out, r as u32);
    out.push(32);
    push_decimal(out, g as u32);
    out.push(32);
    push_decimal(out, b as u32);
    out.push(10);
    assert(final(out)@ =~= old(out)@ + pixel_bytes(r, g, b));
}

} // verus!
