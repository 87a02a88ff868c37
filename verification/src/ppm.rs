//! The plain-text form of an image: a header with the image's size, then the
//! pixels row by row, six to a line, each as three decimal numbers.

use vstd::prelude::*;

verus! {

/// How many pixels stand on one line.
pub const PIXELS_PER_LINE: usize = 6;

/// The decimal digits of `n` as characters, most significant first.
pub open spec fn digits(n: nat) -> Seq<u8>
    decreases n,
{
    if n < 10 {
        seq![(48 + n) as u8]
    } else {
        digits(n / 10).push((48 + n % 10) as u8)
    }
}

/// The header: the letter `P` and the digit three, the width and the height,
/// and the largest channel value, 255.
pub open spec fn header_text(width: nat, height: nat) -> Seq<u8> {
    seq![80u8, 51u8, 10u8] + digits(width) + seq![32u8] + digits(height) + seq![
        10u8,
        50u8,
        53u8,
        53u8,
        10u8,
    ]
}

/// One pixel: its red, green and blue channels, each followed by a space.
pub open spec fn pixel_text(p: (u8, u8, u8)) -> Seq<u8> {
    digits(p.0 as nat) + seq![32u8] + digits(p.1 as nat) + seq![32u8] + digits(p.2 as nat) + seq![
        32u8,
    ]
}

/// The first `k` pixels, with a line feed after every sixth.
pub open spec fn body_text(pixels: Seq<(u8, u8, u8)>, k: nat) -> Seq<u8>
    decreases k,
{
    if k == 0 {
        Seq::<u8>::empty()
    } else {
        body_text(pixels, (k - 1) as nat) + pixel_text(pixels[k - 1]) + (if (k - 1) % 6 == 5 {
            seq![10u8]
        } else {
            Seq::<u8>::empty()
        })
    }
}

/// Whether a line ends after the pixel at place `index`: it does after every
/// sixth pixel.
pub fn ends_line(index: usize) -> (b: bool)
    ensures
        b == (index as int % 6 == 5),
{
    index % PIXELS_PER_LINE == PIXELS_PER_LINE - 1
}

/// Appends the decimal digits of `n`.
pub fn push_number(out: &mut Vec<u8>, n: usize)
    ensures
        final(out)@ == old(out)@ + digits(n as nat),
    decreases n,
{
    if n >= 10 {
        push_number(out, n / 10);
    }
    let digit: u8 = (n % 10) as u8;
    out.push(48 + digit);
    assert(final(out)@ =~= old(out)@ + digits(n as nat));
}

/// Appends one pixel.
pub fn push_pixel(out: &mut Vec<u8>, p: (u8, u8, u8))
    ensures
        final(out)@ == old(out)@ + pixel_text(p),
{
    push_number(out, p.0 as usize);
    out.push(32);
    push_number(out, p.1 as usize);
    out.push(32);
    push_number(out, p.2 as usize);
    out.push(32);
    assert(final(out)@ =~= old(out)@ + pixel_text(p));
}

/// The header of an image of the given size.
pub fn ppm_header(width: usize, height: usize) -> (out: Vec<u8>)
    ensures
        out@ == header_text(width as nat, height as nat),
{
    let mut out: Vec<u8> = Vec::new();
    out.push(80);
    out.push(51);
    out.push(10);
    push_number(&mut out, width);
    out.push(32);
    push_number(&mut out, height);
    out.push(10);
    out.push(50);
    out.push(53);
    out.push(53);
    out.push(10);
    assert(out@ =~= header_text(width as nat, height as nat));
    out
}

/// The pixels of an image, six to a line.
pub fn ppm_body(pixels: &Vec<(u8, u8, u8)>) -> (out: Vec<u8>)
    ensures
        out@ == body_text(pixels@, pixels@.len()),
{
    let mut out: Vec<u8> = Vec::new();
    let mut i: usize = 0;
    while i < pixels.len()
        invariant
            i <= pixels@.len(),
            out@ == body_text(pixels@, i as nat),
        decreases pixels@.len() - i,
    {
        let ghost before = out@;
        push_pixel(&mut out, pixels[i]);
        if ends_line(i) {
            out.push(10);
        }
        assert(out@ =~= before + pixel_text(pixels@[i as int]) + (if i as int % 6 == 5 {
            seq![10u8]
        } else {
            Seq::<u8>::empty()
        }));
        i += 1;
    }
    out
}

} // verus!
