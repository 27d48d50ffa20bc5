//! Pixels packed as `0xAARRGGBB` words: packing channel bytes into a word,
//! and unpacking a buffer of words into red, green and blue bytes.
use vstd::prelude::*;

verus! {

/// The red, green and blue bytes of a pixel.
pub open spec fn channels(c: u32) -> (u8, u8, u8) {
    (((c & 0x00ff0000u32) >> 16u32) as u8, ((c & 0x0000ff00u32) >> 8u32) as u8, (c & 0x000000ffu32) as u8)
}

/// The opaque pixel with the given red, green and blue bytes.
pub open spec fn packed(red: u8, green: u8, blue: u8) -> u32 {
    (0xff00_0000u32 | ((red as u32) << 16u32)) | ((green as u32) << 8u32) | (blue as u32)
}

/// Packs an opaque pixel from its red, green and blue bytes.
pub fn pack_color(red: u8, green: u8, blue: u8) -> (c: u32)
    ensures
        c == packed(red, green, blue),
{
    let alpha: u32 = 255;
    let mut c: u32 = 0;
    c = c | alpha << 24u32;
    c = c | (red as u32) << 16u32;
    c = c | (green as u32) << 8u32;
    c = c | (blue as u32);
    assert(c == packed(red, green, blue)) by (bit_vector)
        requires
            c == ((((0u32 | (255u32 << 24u32)) | ((red as u32) << 16u32)) | ((green as u32) << 8u32)) | (blue as u32)),
    ;
    c
}

/// The red, green and blue bytes of a pixel.
pub fn rgb_of(color: u32) -> (r: (u8, u8, u8))
    ensures
        r == channels(color),
{
    let red = ((color & 0x00ff0000) >> 16) as u8;
    let green = ((color & 0x0000ff00) >> 8) as u8;
    let blue = (color & 0x000000ff) as u8;
    (red, green, blue)
}

/// The red, green and blue bytes of the first `count` pixels of `buffer`,
/// pixel after pixel.
pub fn rgb_bytes(buffer: &Vec<u32>, count: usize) -> (bytes: Vec<u8>)
    requires
        count <= buffer@.len(),
        3 * count <= usize::MAX,
    ensures
        bytes@.len() == 3 * count,
        forall|i: int|
            0 <= i < count ==> {
                let (r, g, b) = channels(#[trigger] buffer@[i]);
                &&& bytes@[3 * i] == r
                &&& bytes@[3 * i + 1] == g
                &&& bytes@[3 * i + 2] == b
            },
{
    let mut bytes: Vec<u8> = Vec::new();
    let mut i: usize = 0;
    while i < count
        invariant
            i <= count,
            count <= buffer@.len(),
            bytes@.len() == 3 * i,
            forall|j: int|
                0 <= j < i ==> {
                    let (r, g, b) = channels(#[trigger] buffer@[j]);
                    &&& bytes@[3 * j] == r
                    &&& bytes@[3 * j + 1] == g
                    &&& bytes@[3 * j + 2] == b
                },
        decreases count - i,
    {
        let (r, g, b) = rgb_of(buffer[i]);
        bytes.push(r);
        bytes.push(g);
        bytes.push(b);
        i = i + 1;
    }
    bytes
}

/// Unpacking a packed pixel gives back its red, green and blue bytes.
pub proof fn lemma_channels_of_packed(red: u8, green: u8, blue: u8)
    ensures
        channels(packed(red, green, blue)) == (red, green, blue),
{
    let c = packed(red, green, blue);
    assert(((c & 0x00ff0000u32) >> 16u32) as u8 == red && ((c & 0x0000ff00u32) >> 8u32) as u8 == green && (c
        & 0x000000ffu32) as u8 == blue) by (bit_vector)
        requires
            c == (0xff00_0000u32 | ((red as u32) << 16u32)) | ((green as u32) << 8u32) | (blue as u32),
    ;
}

} // verus!
