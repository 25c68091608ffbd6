//! Mask derivation: a boolean per-pixel inclusion mask taken from the alpha
//! channel of a set's mask-source layer, and its rendering as a black-and-
//! white image for debugging.

use vstd::prelude::*;

use crate::image::{px_count_of, spec_pixel_at, RawImage};
use crate::pixel::{
    bytes_to_pixel, calc_pixel_stride, pixel_to_bytes, spec_decode_pixel, spec_encode_pixel,
    stride_of, BitDepth, ColorType, ImageFormat, Pixel,
};

verus! {

/// The inclusion mask of an 8-bit RGBA image: one entry per pixel, true
/// exactly where the pixel's alpha sample is not zero.
pub open spec fn spec_mask_of(data: Seq<u8>, f: ImageFormat) -> Seq<bool> {
    Seq::new(px_count_of(f), |i: int| spec_pixel_at(data, f, i).3 != 0)
}

/// Derives the per-pixel inclusion mask of an image from its alpha channel:
/// `mask[i]` is true exactly when pixel `i` has a non-zero alpha sample,
/// independent of every other pixel.
pub fn create_mask_from_alpha_channel(image: &RawImage) -> (mask: Vec<bool>)
    requires
        image.wf(),
        image.format.color_type is Rgba,
        image.format.bit_depth is Eight,
    ensures
        mask@ == spec_mask_of(image.data@, image.format),
        mask@.len() == px_count_of(image.format),
{
    let f: ImageFormat = image.format;
    let stride: usize = calc_pixel_stride(&f);
    let len: usize = image.data.len();
    let num_pixels: usize = len / stride;
    let ghost px: nat = px_count_of(f);

    proof {
        assert(num_pixels == px) by (nonlinear_arith)
            requires
                len == px * stride,
                stride > 0,
                num_pixels == len as int / stride as int,
        ;
    }

    let mut mask: Vec<bool> = Vec::new();
    for i in 0..num_pixels
        invariant
            image.wf(),
            f == image.format,
            f.bit_depth is Eight,
            stride == stride_of(f),
            len == image.data@.len(),
            len == px * stride,
            num_pixels == px,
            mask@.len() == i,
            forall|k: int| 0 <= k < i ==> mask@[k] == (spec_pixel_at(image.data@, f, k).3 != 0),
    {
        proof {
            assert(i * stride + stride <= len) by (nonlinear_arith)
                requires
                    i < px,
                    len == px * stride,
                    stride > 0,
            ;
        }
        let pixel: Pixel = bytes_to_pixel(&image.data, i * stride, &f);
        mask.push(pixel.3 != 0);
    }
    proof {
        assert(mask@ =~= spec_mask_of(image.data@, f));
    }
    mask
}

/// The pixel a mask entry is rendered as: opaque white where the mask is
/// true, opaque black where it is false.
pub open spec fn mask_pixel(b: bool) -> Pixel {
    if b {
        Pixel(255, 255, 255, 255)
    } else {
        Pixel(0, 0, 0, 255)
    }
}

/// The rendered bytes of a mask: four samples per entry, opaque white where
/// the mask is true, opaque black where it is false.
pub open spec fn mask_render_data(m: Seq<bool>) -> Seq<u8> {
    Seq::new(
        4 * m.len(),
        |i: int|
            if i % 4 == 3 {
                255u8
            } else if m[i / 4] {
                255u8
            } else {
                0u8
            },
    )
}

/// Renders a mask as an 8-bit RGBA image of the given size: opaque white
/// where the mask is true, opaque black elsewhere.
pub fn mask_to_image(mask: &Vec<bool>, width: u32, height: u32) -> (img: RawImage)
    requires
        mask@.len() == width as nat * height as nat,
        width as nat * height as nat * 4 <= usize::MAX,
    ensures
        img.wf(),
        img.format == (ImageFormat {
            width,
            height,
            color_type: ColorType::Rgba,
            bit_depth: BitDepth::Eight,
        }),
        forall|i: int|
            0 <= i < mask@.len() ==> spec_pixel_at(img.data@, img.format, i) == mask_pixel(
                mask@[i],
            ),
        img.data@ == mask_render_data(mask@),
{
    let f = ImageFormat { width, height, color_type: ColorType::Rgba, bit_depth: BitDepth::Eight };
    let num_pixels: usize = mask.len();
    proof {
        assert(px_count_of(f) == num_pixels);
        assert(num_pixels * 4 <= usize::MAX);
    }
    let total: usize = num_pixels * 4;
    let mut data: Vec<u8> = Vec::new();
    let mut written: usize = 0;
    while written < num_pixels
        invariant
            num_pixels == mask@.len(),
            total == num_pixels * 4,
            written <= num_pixels,
            data@.len() == written * 4,
            f.color_type is Rgba,
            f.bit_depth is Eight,
            forall|k: int|
                0 <= k < written ==> data@.subrange(4 * k, 4 * k + 4) == spec_encode_pixel(
                    mask_pixel(mask@[k]),
                    f,
                ),
        decreases num_pixels - written,
    {
        let p: Pixel = if mask[written] {
            Pixel(255, 255, 255, 255)
        } else {
            Pixel(0, 0, 0, 255)
        };
        let ghost before: Seq<u8> = data@;
        data.push(p.0);
        data.push(p.1);
        data.push(p.2);
        data.push(p.3);
        proof {
            assert(p == mask_pixel(mask@[written as int]));
            assert forall|k: int| 0 <= k < written + 1 implies data@.subrange(4 * k, 4 * k + 4)
                == spec_encode_pixel(mask_pixel(mask@[k]), f) by {
                if k < written {
                    assert(data@.subrange(4 * k, 4 * k + 4) =~= before.subrange(
                        4 * k,
                        4 * k + 4,
                    ));
                } else {
                    assert(data@.subrange(4 * k, 4 * k + 4) =~= spec_encode_pixel(p, f));
                }
            }
        }
        written = written + 1;
    }
    let img = RawImage { data, format: f };
    proof {
        assert(img.wf());
        assert forall|i: int| 0 <= i < mask@.len() implies spec_pixel_at(img.data@, f, i)
            == mask_pixel(mask@[i]) by {
            assert(img.data@.subrange(i * 4, i * 4 + 4) == spec_encode_pixel(
                mask_pixel(mask@[i]),
                f,
            ));
        }
        assert forall|i: int| 0 <= i < img.data@.len() implies img.data@[i]
            == mask_render_data(mask@)[i] by {
            vstd::arithmetic::div_mod::lemma_fundamental_div_mod(i, 4);
            let k = i / 4;
            vstd::arithmetic::div_mod::lemma_div_pos_is_pos(i, 4);
            assert(k < mask@.len()) by (nonlinear_arith)
                requires
                    0 <= i < 4 * mask@.len(),
                    k == i / 4,
            ;
            assert(img.data@.subrange(4 * k, 4 * k + 4) == spec_encode_pixel(
                mask_pixel(mask@[k]),
                f,
            ));
            assert(img.data@[i] == img.data@.subrange(4 * k, 4 * k + 4)[i - 4 * k]);
        }
        assert(img.data@ =~= mask_render_data(mask@));
    }
    img
}

} // verus!
