//! The plain-text pixel map in which an image is written out.
//!
//! The text is ASCII, held as bytes: a header of three lines, then one line
//! for each pixel with its three display levels, row by row from the top.
use vstd::prelude::*;
use crate::color::{display_level, Color, Rgb};

verus! {

/// The line feed that ends every line.
pub const NEWLINE: u8 = 10;

/// The space between two numbers of a line.
pub const SPACE: u8 = 32;

/// The ASCII digit zero.
pub const ZERO: u8 = 48;

/// The decimal digits of `n`, most significant first, without leading zeros.
pub open spec fn decimal(n: nat) -> Seq<u8>
    decreases n,
{
    if n < 10 {
        seq![(ZERO + n) as u8]
    } else {
        decimal(n / 10).push((ZERO + n % 10) as u8)
    }
}

/// The text of one pixel: its three display levels, separated by spaces.
pub open spec fn color_text(c: Rgb) -> Seq<u8> {
    decimal(display_level(c.r) as nat) + seq![SPACE] + decimal(display_level(c.g) as nat) + seq![SPACE]
        + decimal(display_level(c.b) as nat)
}

/// The header of an image: the format's name, the width and the height, and
/// the number of levels of a channel, each on a line of its own.
pub open spec fn header_text(width: nat, height: nat) -> Seq<u8> {
    seq![80u8, 51u8, NEWLINE] + decimal(width) + seq![SPACE] + decimal(height) + seq![
        NEWLINE,
        50u8,
        53u8,
        54u8,
        NEWLINE,
    ]
}

/// The lines of the pixels, in order, each ended by a line feed.
pub open spec fn lines_text(pixels: Seq<Color>) -> Seq<u8>
    decreases pixels.len(),
{
    if pixels.len() == 0 {
        Seq::empty()
    } else {
        lines_text(pixels.drop_last()) + color_text(pixels.last()@) + seq![NEWLINE]
    }
}

/// Appends the decimal digits of `n` to `out`.
pub fn push_decimal(out: &mut Vec<u8>, n: u32)
    ensures
        final(out)@ == old(out)@ + decimal(n as nat),
    decreases n,
{
    if n >= 10 {
        push_decimal(out, n / 10);
    }
    out.push(ZERO + (n % 10) as u8);
}

fn push_color(out: &mut Vec<u8>, c: &Color)
    ensures
        final(out)@ == old(out)@ + color_text(c@),
{
    let (r, g, b) = c.quantized();
    push_decimal(out, r as u32);
    out.push(SPACE);
    push_decimal(out, g as u32);
    out.push(SPACE);
    push_decimal(out, b as u32);
    proof {
        let red = decimal(display_level(c@.r) as nat);
        let green = decimal(display_level(c@.g) as nat);
        let blue = decimal(display_level(c@.b) as nat);
        assert(old(out)@.add(red).push(SPACE).add(green).push(SPACE).add(blue) == old(out)@ + (red
            + seq![SPACE] + green + seq![SPACE] + blue));
    }
}

impl Color {
    /// The color as text: its three display levels in decimal, separated by
    /// spaces.
    pub fn to_text(&self) -> (text: Vec<u8>)
        ensures
            text@ == color_text(self@),
    {
        let mut text: Vec<u8> = Vec::new();
        push_color(&mut text, self);
        text
    }
}

/// The header of an image of the given width and height.
pub fn header(width: u32, height: u32) -> (text: Vec<u8>)
    ensures
        text@ == header_text(width as nat, height as nat),
{
    let mut text: Vec<u8> = Vec::new();
    text.push(80u8);
    text.push(51u8);
    text.push(NEWLINE);
    push_decimal(&mut text, width);
    text.push(SPACE);
    push_decimal(&mut text, height);
    text.push(NEWLINE);
    text.push(50u8);
    text.push(53u8);
    text.push(54u8);
    text.push(NEWLINE);
    proof {
        let w = decimal(width as nat);
        let h = decimal(height as nat);
        let start = seq![80u8, 51u8, NEWLINE];
        assert(text@ == start.add(w).push(SPACE).add(h).push(NEWLINE).push(50u8).push(53u8).push(54u8).push(
            NEWLINE,
        ));
        assert(start.add(w).push(SPACE).add(h).push(NEWLINE).push(50u8).push(53u8).push(54u8).push(NEWLINE)
            == start + w + seq![SPACE] + h + seq![NEWLINE, 50u8, 53u8, 54u8, NEWLINE]);
    }
    text
}

/// The whole image as text: the header, then the line of each pixel.
pub fn image_text(width: u32, height: u32, pixels: &Vec<Color>) -> (text: Vec<u8>)
    ensures
        text@ == header_text(width as nat, height as nat) + lines_text(pixels@),
{
    let mut text: Vec<u8> = header(width, height);
    let mut i: usize = 0;
    while i < pixels.len()
        invariant
            i <= pixels.len(),
            text@ == header_text(width as nat, height as nat) + lines_text(pixels@.take(i as int)),
        decreases pixels.len() - i,
    {
        push_color(&mut text, &pixels[i]);
        text.push(NEWLINE);
        proof {
            let done = pixels@.take(i as int);
            let next = pixels@.take(i + 1);
            assert(next.drop_last() == done);
            assert((header_text(width as nat, height as nat) + lines_text(done) + color_text(
                pixels@[i as int]@,
            )).push(NEWLINE) == header_text(width as nat, height as nat) + (lines_text(done) + color_text(
                pixels@[i as int]@,
            ) + seq![NEWLINE]));
        }
        i = i + 1;
    }
    assert(pixels@.take(pixels.len() as int) == pixels@);
    text
}

} // verus!
