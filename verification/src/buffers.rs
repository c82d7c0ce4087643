//! Byte buffers of fixed content: raw test frames, blank message buffers, frame sizes.
use vstd::prelude::*;

verus! {

/// Declares `std::io::Error`, the error type of the frame generator's result.
#[verifier::external_type_specification]
#[verifier::external_body]
pub struct ExIoError(std::io::Error);

/// The width in pixels of the generated test frame.
pub const TEST_FRAME_WIDTH: usize = 1280;

/// The height in pixels of the generated test frame.
pub const TEST_FRAME_HEIGHT: usize = 720;

/// Byte `i` of the test frame: pixels in the left half of their row are 0 (red channel
/// layout aside), those in the right half 255.
pub open spec fn test_frame_byte(i: int) -> u8 {
    if (i / 3) % 1280 < 640 {
        0
    } else {
        255
    }
}

/// A raw RGB24 frame of 1280 x 720 pixels (three bytes each) whose left half is 0 and
/// right half 255, row by row.
pub fn generate_raw_rgb_frame() -> (r: Result<Vec<u8>, std::io::Error>)
    ensures
        r matches Ok(v) && v@.len() == 1280 * 720 * 3 && forall|i: int|
            0 <= i < v@.len() ==> #[trigger] v@[i] == test_frame_byte(i),
{
    let width: usize = 1280;
    let height: usize = 720;
    let bytes_per_pixel: usize = 3;
    let frame_size = width * height * bytes_per_pixel;
    let mut frame_data: Vec<u8> = Vec::new();
    let mut i: usize = 0;
    while i < frame_size
        invariant
            frame_size == 1280 * 720 * 3,
            width == 1280,
            bytes_per_pixel == 3,
            i <= frame_size,
            frame_data@.len() == i,
            forall|j: int| 0 <= j < i ==> #[trigger] frame_data@[j] == test_frame_byte(j),
        decreases frame_size - i,
    {
        let b: u8 = if (i / bytes_per_pixel) % width < width / 2 {
            0
        } else {
            255
        };
        frame_data.push(b);
        i += 1;
    }
    Ok(frame_data)
}

/// A buffer of `len` spaces, with room for one more byte (the terminating zero of the
/// C string that carries a shader or program log).
pub fn whitespace_bytes(len: usize) -> (r: Vec<u8>)
    requires
        len < usize::MAX,
    ensures
        r@.len() == len,
        forall|i: int| 0 <= i < len ==> #[trigger] r@[i] == 32u8,
{
    let mut buffer: Vec<u8> = Vec::with_capacity(len + 1);
    let mut i: usize = 0;
    while i < len
        invariant
            i <= len,
            buffer@.len() == i,
            forall|j: int| 0 <= j < i ==> #[trigger] buffer@[j] == 32u8,
        decreases len - i,
    {
        buffer.push(32u8);
        i += 1;
    }
    buffer
}

/// The size in bytes of a frame of `width` x `height` pixels of `channels` bytes each.
pub fn frame_bytes(width: usize, height: usize, channels: usize) -> (r: usize)
    requires
        width * height <= usize::MAX,
        width * height * channels <= usize::MAX,
    ensures
        r == width * height * channels,
{
    width * height * channels
}

} // verus!
