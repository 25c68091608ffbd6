//! The pixel format model: width, height, channel layout and bit depth of a
//! raw image buffer, the byte stride of a pixel, and reading and writing of
//! single pixels in the 8-bit formats.

use vstd::prelude::*;

verus! {

/// Channel layout of a raw image buffer: three samples per pixel (red, green,
/// blue) or four (red, green, blue, alpha).
#[derive(Clone, Copy, PartialEq, Eq, Structural, Debug)]
pub enum ColorType {
    Rgb,
    Rgba,
}

/// Bits per channel. Only 8-bit pixels can be read or written one at a time;
/// 16-bit formats take part in stride arithmetic and verbatim copies only.
#[derive(Clone, Copy, PartialEq, Eq, Structural, Debug)]
pub enum BitDepth {
    Eight,
    Sixteen,
}

/// Width, height, channel layout and bit depth of a raw image buffer.
#[derive(Clone, Copy, PartialEq, Eq, Structural, Debug)]
pub struct ImageFormat {
    pub width: u32,
    pub height: u32,
    pub color_type: ColorType,
    pub bit_depth: BitDepth,
}

/// One pixel, always carried as four 8-bit channels. Reading an RGB pixel
/// synthesizes an opaque alpha of 255; writing to RGB drops the alpha.
#[derive(Clone, Copy, PartialEq, Eq, Structural, Debug)]
pub struct Pixel(pub u8, pub u8, pub u8, pub u8);

/// Bytes per pixel of a format: 3, 4, 6 or 8.
pub open spec fn stride_of(f: ImageFormat) -> nat {
    let channels: nat = match f.color_type {
        ColorType::Rgb => 3,
        ColorType::Rgba => 4,
    };
    let bytes_per_channel: nat = match f.bit_depth {
        BitDepth::Eight => 1,
        BitDepth::Sixteen => 2,
    };
    channels * bytes_per_channel
}

/// The pixel value that a window of `stride_of(f)` bytes holds in an 8-bit
/// format `f`.
pub open spec fn spec_decode_pixel(window: Seq<u8>, f: ImageFormat) -> Pixel
    recommends
        f.bit_depth is Eight,
        window.len() >= stride_of(f),
{
    match f.color_type {
        ColorType::Rgb => Pixel(window[0], window[1], window[2], 255),
        ColorType::Rgba => Pixel(window[0], window[1], window[2], window[3]),
    }
}

/// The bytes that a pixel occupies when written in an 8-bit format `f`.
pub open spec fn spec_encode_pixel(p: Pixel, f: ImageFormat) -> Seq<u8>
    recommends
        f.bit_depth is Eight,
{
    match f.color_type {
        ColorType::Rgb => seq![p.0, p.1, p.2],
        ColorType::Rgba => seq![p.0, p.1, p.2, p.3],
    }
}

/// Calculate the amount of bytes per pixel of the given image format.
pub fn calc_pixel_stride(format: &ImageFormat) -> (r: usize)
    ensures
        r == stride_of(*format),
{
    match (format.bit_depth, format.color_type) {
        (BitDepth::Eight, ColorType::Rgb) => 3,
        (BitDepth::Eight, ColorType::Rgba) => 4,
        (BitDepth::Sixteen, ColorType::Rgb) => 6,
        (BitDepth::Sixteen, ColorType::Rgba) => 8,
    }
}

/// Interprets the bytes at `offset` in `data` as one pixel of the given
/// 8-bit image format.
pub fn bytes_to_pixel(data: &Vec<u8>, offset: usize, format: &ImageFormat) -> (p: Pixel)
    requires
        format.bit_depth is Eight,
        offset + stride_of(*format) <= data.len(),
    ensures
        p == spec_decode_pixel(data@.subrange(offset as int, offset + stride_of(*format)), *format),
{
    match format.color_type {
        ColorType::Rgb => {
            proof {
                assert(stride_of(*format) == 3);
            }
            Pixel(data[offset], data[offset + 1], data[offset + 2], 255)
        }
        ColorType::Rgba => {
            proof {
                assert(stride_of(*format) == 4);
            }
            Pixel(data[offset], data[offset + 1], data[offset + 2], data[offset + 3])
        }
    }
}

/// Writes the byte representation of a pixel in the given 8-bit image format
/// into `data` at `offset`; bytes outside the written window keep their value.
pub fn pixel_to_bytes(pixel: Pixel, format: &ImageFormat, data: &mut Vec<u8>, offset: usize)
    requires
        format.bit_depth is Eight,
        offset + stride_of(*format) <= old(data).len(),
    ensures
        final(data)@.len() == old(data)@.len(),
        final(data)@.subrange(offset as int, offset + stride_of(*format))
            == spec_encode_pixel(pixel, *format),
        forall|j: int|
            0 <= j < final(data)@.len() && !(offset <= j < offset + stride_of(*format))
                ==> final(data)@[j] == old(data)@[j],
{
    match format.color_type {
        ColorType::Rgb => {
            proof {
                assert(stride_of(*format) == 3);
            }
            data[offset] = pixel.0;
            data[offset + 1] = pixel.1;
            data[offset + 2] = pixel.2;
            assert(data@.subrange(offset as int, offset + stride_of(*format))
                =~= spec_encode_pixel(pixel, *format));
        }
        ColorType::Rgba => {
            proof {
                assert(stride_of(*format) == 4);
            }
            data[offset] = pixel.0;
            data[offset + 1] = pixel.1;
            data[offset + 2] = pixel.2;
            data[offset + 3] = pixel.3;
            assert(data@.subrange(offset as int, offset + stride_of(*format))
                =~= spec_encode_pixel(pixel, *format));
        }
    }
}

/// Law: for the 8-bit RGBA format, reading a pixel back out of the bytes it
/// was written to returns the original pixel value.
pub proof fn lemma_pixel_round_trip(p: Pixel, f: ImageFormat)
    requires
        f.bit_depth is Eight,
        f.color_type is Rgba,
    ensures
        spec_decode_pixel(spec_encode_pixel(p, f), f) == p,
{
}

/// Law: converting an 8-bit RGB pixel window into the 8-bit RGBA format keeps
/// all three color samples and synthesizes an opaque alpha; no data is lost.
pub proof fn lemma_rgb_to_rgba_keeps_data(window: Seq<u8>, src: ImageFormat, dst: ImageFormat)
    requires
        src.bit_depth is Eight,
        src.color_type is Rgb,
        dst.bit_depth is Eight,
        dst.color_type is Rgba,
        window.len() >= stride_of(src),
    ensures
        spec_encode_pixel(spec_decode_pixel(window, src), dst)
            == seq![window[0], window[1], window[2], 255u8],
{
}

/// Law: converting an 8-bit RGBA pixel window into the 8-bit RGB format keeps
/// the three color samples unchanged and drops exactly the alpha sample.
pub proof fn lemma_rgba_to_rgb_drops_alpha_only(window: Seq<u8>, src: ImageFormat, dst: ImageFormat)
    requires
        src.bit_depth is Eight,
        src.color_type is Rgba,
        dst.bit_depth is Eight,
        dst.color_type is Rgb,
        window.len() >= stride_of(src),
    ensures
        spec_encode_pixel(spec_decode_pixel(window, src), dst)
            == seq![window[0], window[1], window[2]],
{
}

} // verus!
