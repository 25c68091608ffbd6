//! The image codec boundary: decoding and encoding of PNG byte streams held
//! in memory. The engine sees only well-formed raw images; what the outside
//! codec returns is pinned to names that are functions of the bytes, and
//! everything else — format support, buffer shape — is checked here.

use vstd::prelude::*;

use std::io::Cursor;

use crate::image::RawImage;
use crate::pixel::{stride_of, BitDepth, ColorType, ImageFormat};
use vstd::string::StringExecFns;

verus! {

/// Why a byte stream yields no usable raw image.
#[derive(Debug, Clone, PartialEq, Eq)]
pub enum DecodeFailure {
    /// The byte stream does not parse as a PNG image, or its decoded
    /// buffer does not have the size its own header promises.
    Malformed(String),
    /// The image parses but its color type or bit depth is not supported.
    UnsupportedFormat,
    /// The image is an animated PNG, which is not supported.
    Animated,
}

/// The wire code of a channel layout: 2 for RGB, 6 for RGBA.
pub open spec fn color_code(c: ColorType) -> u8 {
    match c {
        ColorType::Rgb => 2,
        ColorType::Rgba => 6,
    }
}

/// The wire code of a bit depth: its bits per sample.
pub open spec fn depth_code(d: BitDepth) -> u8 {
    match d {
        BitDepth::Eight => 8,
        BitDepth::Sixteen => 16,
    }
}

/// What decoding a PNG byte stream returns, as a function of the bytes
/// alone: the raw sample buffer of one frame, the width and height, the
/// color type and bit depth codes of the header, and whether the stream is
/// an animated PNG; or nothing when the stream does not parse.
pub uninterp spec fn png_decoded(bytes: Seq<u8>) -> Option<(Seq<u8>, u32, u32, u8, u8, bool)>;

/// What encoding a raw buffer of the given format as PNG returns, as a
/// function of buffer and format alone; or nothing when the dimensions are
/// zero or the buffer length does not match the format.
pub uninterp spec fn png_encoded(
    data: Seq<u8>,
    width: u32,
    height: u32,
    channels: u8,
    depth: u8,
) -> Option<Seq<u8>>;

/// The bytes one pixel occupies for a pair of wire codes the library
/// supports.
pub open spec fn code_stride(c: u8, d: u8) -> nat {
    (if c == 2 {
        3nat
    } else {
        4nat
    }) * (if d == 8 {
        1nat
    } else {
        2nat
    })
}

/// The decoded values a byte stream maps to match this image and animation
/// flag.
pub open spec fn decoded_parts(bytes: Seq<u8>, img: RawImage, animated: bool) -> bool {
    png_decoded(bytes) == Some(
        (
            img.data@,
            img.format.width,
            img.format.height,
            color_code(img.format.color_type),
            depth_code(img.format.bit_depth),
            animated,
        ),
    )
}

/// A byte stream decodes to this image, and is not animated.
pub open spec fn decodes_to(bytes: Seq<u8>, img: RawImage) -> bool {
    decoded_parts(bytes, img, false)
}

/// A byte stream yields no usable image: it does not parse, it is an
/// animated PNG, its color type or bit depth is unsupported, or its buffer
/// does not have the size its header promises.
pub open spec fn no_usable_image(bytes: Seq<u8>) -> bool {
    match png_decoded(bytes) {
        None => true,
        Some(t) => {
            ||| t.5
            ||| !(t.3 == 2 || t.3 == 6)
            ||| !(t.4 == 8 || t.4 == 16)
            ||| t.0.len() != t.1 as nat * t.2 as nat * code_stride(t.3, t.4)
        },
    }
}

/// Relies on png::Decoder and png::Reader of the png crate: they parse one
/// frame of a PNG byte stream into a raw row-major sample buffer, reporting
/// the frame's width and height and the header's color type and bit depth
/// by their wire codes, and whether the stream is an animated PNG; a stream
/// that does not parse is rejected with an error. The result depends on the
/// bytes alone and is named `png_decoded`.
#[verifier::external_body]
fn png_decode_raw(bytes: &Vec<u8>) -> (r: Result<(Vec<u8>, u32, u32, u8, u8, bool), String>)
    ensures
        match r {
            Ok(p) => png_decoded(bytes@) == Some((p.0@, p.1, p.2, p.3, p.4, p.5)),
            Err(_) => png_decoded(bytes@) is None,
        },
{
    let mut rd = png::Decoder::new(Cursor::new(bytes)).read_info().map_err(|e| e.to_string())?;
    let mut data = vec![0u8; rd.output_buffer_size()];
    let info = rd.next_frame(&mut data).map_err(|e| e.to_string())?;
    data.truncate(info.buffer_size());
    let animated = rd.info().is_animated();
    Ok((data, info.width, info.height, info.color_type as u8, info.bit_depth as u8, animated))
}

/// Relies on png::Encoder and png::Writer of the png crate: they serialize
/// a raw sample buffer into a PNG byte stream, rejecting zero-sized
/// dimensions and a buffer whose length does not match the header with an
/// error. The result depends on the buffer and format alone and is named
/// `png_encoded`.
#[verifier::external_body]
fn png_encode(image: &RawImage) -> (r: Result<Vec<u8>, String>)
    ensures
        match r {
            Ok(v) => png_encoded(
                image.data@,
                image.format.width,
                image.format.height,
                color_code(image.format.color_type),
                depth_code(image.format.bit_depth),
            ) == Some(v@),
            Err(_) => png_encoded(
                image.data@,
                image.format.width,
                image.format.height,
                color_code(image.format.color_type),
                depth_code(image.format.bit_depth),
            ) is None,
        },
{
    let mut out: Vec<u8> = Vec::new();
    let mut enc = png::Encoder::new(&mut out, image.format.width, image.format.height);
    enc.set_color(match image.format.color_type {
        ColorType::Rgb => png::ColorType::Rgb,
        ColorType::Rgba => png::ColorType::Rgba,
    });
    enc.set_depth(match image.format.bit_depth {
        BitDepth::Eight => png::BitDepth::Eight,
        BitDepth::Sixteen => png::BitDepth::Sixteen,
    });
    let mut wr = enc.write_header().map_err(|e| e.to_string())?;
    wr.write_image_data(&image.data).map_err(|e| e.to_string())?;
    wr.finish().map_err(|e| e.to_string())?;
    Ok(out)
}

/// Decodes a PNG byte stream into a well-formed raw image. A stream that
/// does not parse, is an animated PNG, has a color type or bit depth the
/// library does not support, or whose decoded buffer does not match its
/// header is rejected; every other stream decodes.
pub fn decode_image(bytes: &Vec<u8>) -> (r: Result<RawImage, DecodeFailure>)
    ensures
        r is Ok <==> !no_usable_image(bytes@),
        match r {
            Ok(img) => img.wf() && decodes_to(bytes@, img),
            Err(e) => e is Animated <==> (png_decoded(bytes@) is Some && (png_decoded(
                bytes@,
            )->0).5),
        },
{
    let (data, width, height, color, depth, animated) = match png_decode_raw(bytes) {
        Ok(p) => p,
        Err(message) => {
            return Err(DecodeFailure::Malformed(message));
        }
    };
    if animated {
        return Err(DecodeFailure::Animated);
    }
    let color_type: ColorType = if color == 2 {
        ColorType::Rgb
    } else if color == 6 {
        ColorType::Rgba
    } else {
        return Err(DecodeFailure::UnsupportedFormat);
    };
    let bit_depth: BitDepth = if depth == 8 {
        BitDepth::Eight
    } else if depth == 16 {
        BitDepth::Sixteen
    } else {
        return Err(DecodeFailure::UnsupportedFormat);
    };
    let format = ImageFormat { width, height, color_type, bit_depth };
    let stride: usize = crate::pixel::calc_pixel_stride(&format);
    proof {
        assert(stride <= 8);
        assert((width as int) * (height as int) <= u128::MAX && (width as int) * (height as int)
            * (stride as int) <= u128::MAX) by (nonlinear_arith)
            requires
                width <= u32::MAX,
                height <= u32::MAX,
                stride <= 8,
        ;
    }
    let expected: u128 = (width as u128) * (height as u128) * (stride as u128);
    if (data.len() as u128) != expected {
        return Err(DecodeFailure::Malformed(String::from_str("unexpected buffer size")));
    }
    let img = RawImage { data, format };
    proof {
        assert(code_stride(color, depth) == stride_of(img.format));
        assert(img.wf());
        assert(decodes_to(bytes@, img));
    }
    Ok(img)
}

/// Encodes a raw image as a PNG byte stream. Succeeds exactly when the
/// outside encoder accepts the image's dimensions and buffer.
pub fn encode_image(image: &RawImage) -> (r: Result<Vec<u8>, String>)
    ensures
        match r {
            Ok(v) => png_encoded(
                image.data@,
                image.format.width,
                image.format.height,
                color_code(image.format.color_type),
                depth_code(image.format.bit_depth),
            ) == Some(v@),
            Err(_) => png_encoded(
                image.data@,
                image.format.width,
                image.format.height,
                color_code(image.format.color_type),
                depth_code(image.format.bit_depth),
            ) is None,
        },
{
    png_encode(image)
}

} // verus!
