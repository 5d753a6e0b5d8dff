//! Pixels: sixteen-bit colours and the bytes that stand for them in the
//! stream.

use vstd::prelude::*;
use crate::ring::MAX_STORAGE;
use crate::stream::repeated;

verus! {

/// The largest value of the red channel.
pub const MAX_RED: u16 = 31;

/// Full red: `rgb(MAX_RED, 0, 0)`.
pub const RED: u16 = 0xF800;

/// A colour packed into sixteen bits: red in the upper five, green in the
/// six below, blue in the lower five.
pub open spec fn rgb565(r: u16, g: u16, b: u16) -> u16 {
    (r << 11) | (g << 5) | b
}

/// Packs a colour. A channel that is too large for its bits spills into
/// the bits above it, or is cut off at the top.
pub fn rgb(r: u16, g: u16, b: u16) -> (colour: u16)
    ensures
        colour == rgb565(r, g, b),
{
    (r << 11) | (g << 5) | b
}

/// A colour whose channels fit their bits gives each channel back.
pub proof fn rgb565_channels(r: u16, g: u16, b: u16)
    requires
        r < 32,
        g < 64,
        b < 32,
    ensures
        rgb565(r, g, b) >> 11 == r,
        (rgb565(r, g, b) >> 5) & 0x3f == g,
        rgb565(r, g, b) & 0x1f == b,
        rgb565(MAX_RED, 0, 0) == RED,
{
    assert((((r << 11) | (g << 5) | b) >> 11) == r) by (bit_vector)
        requires
            r < 32,
            g < 64,
            b < 32,
    ;
    assert(((((r << 11) | (g << 5) | b) >> 5) & 0x3f) == g) by (bit_vector)
        requires
            r < 32,
            g < 64,
            b < 32,
    ;
    assert((((r << 11) | (g << 5) | b) & 0x1f) == b) by (bit_vector)
        requires
            r < 32,
            g < 64,
            b < 32,
    ;
    assert((31u16 << 11) | (0u16 << 5) | 0u16 == 0xF800u16) by (bit_vector);
}

/// The order in which the two bytes of a pixel go into the stream.
#[derive(Clone, Copy, Debug, PartialEq, Eq, Structural)]
pub enum ByteOrder {
    /// Upper byte first.
    BigEndian,
    /// Lower byte first.
    LittleEndian,
}

/// The upper byte of a colour.
pub open spec fn upper(colour: u16) -> u8 {
    (colour >> 8) as u8
}

/// The lower byte of a colour.
pub open spec fn lower(colour: u16) -> u8 {
    (colour & 0xff) as u8
}

/// The two bytes of a pixel in the given order.
pub open spec fn pixel_seq(colour: u16, order: ByteOrder) -> Seq<u8> {
    match order {
        ByteOrder::BigEndian => seq![upper(colour), lower(colour)],
        ByteOrder::LittleEndian => seq![lower(colour), upper(colour)],
    }
}

/// Computes `pixel_seq`.
pub fn pixel_bytes(colour: u16, order: ByteOrder) -> (bytes: [u8; 2])
    ensures
        bytes@ == pixel_seq(colour, order),
{
    let hi: u8 = (colour >> 8) as u8;
    let lo: u8 = (colour & 0xff) as u8;
    let bytes = match order {
        ByteOrder::BigEndian => [hi, lo],
        ByteOrder::LittleEndian => [lo, hi],
    };
    proof {
        assert(bytes@ =~= pixel_seq(colour, order));
    }
    bytes
}

/// The bytes of `pixels` pixels of one colour.
pub fn solid(colour: u16, order: ByteOrder, pixels: usize) -> (bytes: Vec<u8>)
    requires
        2 * pixels <= MAX_STORAGE,
    ensures
        bytes@ == repeated(pixel_seq(colour, order), (2 * pixels) as nat),
{
    let pixel = pixel_bytes(colour, order);
    let mut bytes: Vec<u8> = Vec::new();
    let mut i: usize = 0;
    proof {
        assert(bytes@ =~= repeated(pixel_seq(colour, order), 0));
    }
    while i < pixels
        invariant
            i <= pixels,
            pixel@ == pixel_seq(colour, order),
            pixel@.len() == 2,
            bytes@ == repeated(pixel_seq(colour, order), (2 * i) as nat),
        decreases pixels - i,
    {
        bytes.push(pixel[0]);
        bytes.push(pixel[1]);
        proof {
            assert(bytes@ =~= repeated(pixel_seq(colour, order), (2 * (i + 1)) as nat));
        }
        i += 1;
    }
    bytes
}

} // verus!
