//! Raw images: a flat byte buffer together with its pixel format, and the two
//! copy operations of the compositor — a verbatim copy and a mask-gated,
//! format-converting copy.

use vstd::prelude::*;

use crate::pixel::{
    bytes_to_pixel, calc_pixel_stride, pixel_to_bytes, spec_decode_pixel, spec_encode_pixel,
    stride_of, ImageFormat, Pixel,
};

verus! {

/// Number of pixels an image of format `f` holds.
pub open spec fn px_count_of(f: ImageFormat) -> nat {
    f.width as nat * f.height as nat
}

/// A decoded image: a flat byte buffer in row-major order plus its format.
pub struct RawImage {
    pub data: Vec<u8>,
    pub format: ImageFormat,
}

impl RawImage {
    /// The buffer length matches the pixel count and stride of the format;
    /// every boundary crossing checks or preserves this.
    pub open spec fn wf(self) -> bool {
        self.data@.len() == px_count_of(self.format) * stride_of(self.format)
    }
}

/// The pixel at row-major index `i` of an 8-bit image buffer.
pub open spec fn spec_pixel_at(data: Seq<u8>, f: ImageFormat, i: int) -> Pixel
    recommends
        f.bit_depth is Eight,
        0 <= i < px_count_of(f),
        data.len() == px_count_of(f) * stride_of(f),
{
    spec_decode_pixel(
        data.subrange(i * stride_of(f), i * stride_of(f) + stride_of(f)),
        f,
    )
}

/// The byte at position `j` after copying `src` over `dst`, re-packing each
/// pixel from format `sf` to format `df`, at the pixel positions where `mask`
/// is true; all other bytes keep the value they have in `dst`.
pub open spec fn spec_copied_byte(
    dst: Seq<u8>,
    src: Seq<u8>,
    sf: ImageFormat,
    df: ImageFormat,
    mask: Seq<bool>,
    j: int,
) -> u8 {
    let i = j / (stride_of(df) as int);
    if mask[i] {
        spec_encode_pixel(spec_pixel_at(src, sf, i), df)[j % (stride_of(df) as int)]
    } else {
        dst[j]
    }
}

/// The whole destination buffer after a mask-gated, format-converting copy.
pub open spec fn spec_masked_copy(
    dst: Seq<u8>,
    src: Seq<u8>,
    sf: ImageFormat,
    df: ImageFormat,
    mask: Seq<bool>,
) -> Seq<u8> {
    Seq::new(dst.len(), |j: int| spec_copied_byte(dst, src, sf, df, mask, j))
}

/// A mask that admits every one of `n` pixels.
pub open spec fn full_mask(n: nat) -> Seq<bool> {
    Seq::new(n, |i: int| true)
}

/// Byte position `j` lies in pixel `i` of a buffer with pixel stride `sd`.
proof fn lemma_pixel_byte_index(i: int, sd: int, j: int)
    requires
        sd > 0,
        0 <= i,
        i * sd <= j < i * sd + sd,
    ensures
        j / sd == i,
        j % sd == j - i * sd,
{
    vstd::arithmetic::div_mod::lemma_fundamental_div_mod_converse(j, sd, i, j - i * sd);
}

/// Copies `source_image` into `dest_image`, but only at the pixel positions
/// where `mask` holds; each copied pixel is re-packed from the source format
/// into the destination format. Bytes of unmasked pixels are untouched.
pub fn copy_image_masked(source_image: &RawImage, dest_image: &mut RawImage, mask: &Vec<bool>)
    requires
        source_image.wf(),
        old(dest_image).wf(),
        source_image.format.width == old(dest_image).format.width,
        source_image.format.height == old(dest_image).format.height,
        source_image.format.bit_depth is Eight,
        old(dest_image).format.bit_depth is Eight,
        mask@.len() == px_count_of(old(dest_image).format),
    ensures
        final(dest_image).format == old(dest_image).format,
        final(dest_image).wf(),
        final(dest_image).data@ == spec_masked_copy(
            old(dest_image).data@,
            source_image.data@,
            source_image.format,
            old(dest_image).format,
            mask@,
        ),
{
    let sf: ImageFormat = source_image.format;
    let df: ImageFormat = dest_image.format;
    let ss: usize = calc_pixel_stride(&sf);
    let sd: usize = calc_pixel_stride(&df);
    let src_len: usize = source_image.data.len();
    let dst_len: usize = dest_image.data.len();
    let num_pixels: usize = dst_len / sd;
    let ghost px: nat = px_count_of(df);

    proof {
        assert(num_pixels == px) by (nonlinear_arith)
            requires
                dst_len == px * sd,
                sd > 0,
                num_pixels == dst_len / sd,
        ;
        assert(src_len == px * ss) by {
            assert(px_count_of(sf) == px);
        }
    }

    let ghost target: Seq<u8> = spec_masked_copy(
        old(dest_image).data@,
        source_image.data@,
        sf,
        df,
        mask@,
    );

    for i in 0..num_pixels
        invariant
            source_image.wf(),
            dest_image.format == df,
            dest_image.data@.len() == dst_len,
            sf == source_image.format,
            sf.bit_depth is Eight,
            df.bit_depth is Eight,
            ss == stride_of(sf),
            sd == stride_of(df),
            sd > 0,
            ss > 0,
            num_pixels == px,
            src_len == source_image.data@.len(),
            src_len == px * ss,
            dst_len == px * sd,
            mask@.len() == px,
            target == spec_masked_copy(old(dest_image).data@, source_image.data@, sf, df, mask@),
            target.len() == dst_len,
            forall|j: int| 0 <= j < i * sd ==> dest_image.data@[j] == target[j],
            forall|j: int| i * sd <= j < dst_len ==> dest_image.data@[j] == old(dest_image).data@[j],
    {
        proof {
            assert(i * sd + sd <= dst_len && i * ss + ss <= src_len) by (nonlinear_arith)
                requires
                    i < px,
                    dst_len == px * sd,
                    src_len == px * ss,
                    sd > 0,
                    ss > 0,
            ;
        }
        if mask[i] {
            let p: Pixel = bytes_to_pixel(&source_image.data, i * ss, &sf);
            pixel_to_bytes(p, &df, &mut dest_image.data, i * sd);
            proof {
                assert(p == spec_pixel_at(source_image.data@, sf, i as int));
                assert forall|j: int| i * sd <= j < i * sd + sd implies dest_image.data@[j]
                    == target[j] by {
                    lemma_pixel_byte_index(i as int, sd as int, j);
                    assert(dest_image.data@[j]
                        == dest_image.data@.subrange(i * sd, i * sd + sd as int)[j - i * sd]);
                }
            }
        } else {
            proof {
                assert forall|j: int| i * sd <= j < i * sd + sd implies dest_image.data@[j]
                    == target[j] by {
                    lemma_pixel_byte_index(i as int, sd as int, j);
                }
            }
        }
        proof {
            assert((i + 1) * sd == i * sd + sd) by (nonlinear_arith);
        }
    }
    proof {
        assert(px * sd == dst_len);
        assert(dest_image.data@ =~= target);
    }
}

/// Copies `source_image` into `dest_image` whole. When the two formats are
/// identical the bytes are copied verbatim (any bit depth); otherwise every
/// pixel is re-packed from the source format into the destination format,
/// which is only possible for 8-bit formats.
pub fn copy_image(source_image: &RawImage, dest_image: &mut RawImage)
    requires
        source_image.wf(),
        old(dest_image).wf(),
        source_image.format.width == old(dest_image).format.width,
        source_image.format.height == old(dest_image).format.height,
        source_image.format == old(dest_image).format || (source_image.format.bit_depth is Eight
            && old(dest_image).format.bit_depth is Eight),
    ensures
        final(dest_image).format == old(dest_image).format,
        final(dest_image).wf(),
        source_image.format == old(dest_image).format ==> final(dest_image).data@
            == source_image.data@,
        source_image.format != old(dest_image).format ==> final(dest_image).data@
            == spec_masked_copy(
            old(dest_image).data@,
            source_image.data@,
            source_image.format,
            old(dest_image).format,
            full_mask(px_count_of(old(dest_image).format)),
        ),
{
    if source_image.format == dest_image.format {
        let len: usize = source_image.data.len();
        let mut copied: Vec<u8> = Vec::new();
        for j in 0..len
            invariant
                len == source_image.data@.len(),
                copied@ =~= source_image.data@.subrange(0, j as int),
        {
            copied.push(source_image.data[j]);
            proof {
                assert(copied@ =~= source_image.data@.subrange(0, j + 1));
            }
        }
        proof {
            assert(copied@ =~= source_image.data@);
        }
        dest_image.data = copied;
    } else {
        let ghost px: nat = px_count_of(old(dest_image).format);
        let num_pixels: usize = {
            let sd: usize = calc_pixel_stride(&dest_image.format);
            let dl: usize = dest_image.data.len();
            let n: usize = dl / sd;
            proof {
                assert(n == px) by (nonlinear_arith)
                    requires
                        dl == px * sd,
                        sd > 0,
                        n == dl as int / sd as int,
                ;
            }
            n
        };
        let mut mask: Vec<bool> = Vec::new();
        for i in 0..num_pixels
            invariant
                mask@.len() == i,
                forall|k: int| 0 <= k < i ==> mask@[k] == true,
        {
            mask.push(true);
        }
        proof {
            assert(mask@ =~= full_mask(px));
        }
        copy_image_masked(source_image, dest_image, &mask);
    }
}

/// Law: when two masks are disjoint, the order in which their two source
/// layers are overlaid onto a destination buffer does not matter.
pub proof fn lemma_masked_copy_commutes(
    dst: Seq<u8>,
    src1: Seq<u8>,
    f1: ImageFormat,
    src2: Seq<u8>,
    f2: ImageFormat,
    df: ImageFormat,
    m1: Seq<bool>,
    m2: Seq<bool>,
)
    requires
        forall|i: int| 0 <= i < m1.len() ==> !(m1[i] && m2[i]),
        m1.len() == m2.len(),
        dst.len() == m1.len() * stride_of(df),
    ensures
        spec_masked_copy(spec_masked_copy(dst, src1, f1, df, m1), src2, f2, df, m2)
            == spec_masked_copy(spec_masked_copy(dst, src2, f2, df, m2), src1, f1, df, m1),
{
    let a = spec_masked_copy(spec_masked_copy(dst, src1, f1, df, m1), src2, f2, df, m2);
    let b = spec_masked_copy(spec_masked_copy(dst, src2, f2, df, m2), src1, f1, df, m1);
    assert forall|j: int| 0 <= j < dst.len() implies a[j] == b[j] by {
        let sd = stride_of(df) as int;
        let i = j / sd;
        vstd::arithmetic::div_mod::lemma_div_pos_is_pos(j, sd);
        assert(i < m1.len()) by (nonlinear_arith)
            requires
                sd > 0,
                0 <= j < m1.len() * sd,
                i == j / sd,
        ;
    }
    assert(a =~= b);
}

/// Law: where both masks admit a pixel, the layer overlaid later wins: the
/// pixel's bytes come from the source of the second copy.
pub proof fn lemma_masked_copy_later_wins(
    dst: Seq<u8>,
    src1: Seq<u8>,
    f1: ImageFormat,
    src2: Seq<u8>,
    f2: ImageFormat,
    df: ImageFormat,
    m1: Seq<bool>,
    m2: Seq<bool>,
    i: int,
)
    requires
        0 <= i,
        m1[i],
        m2[i],
        (i + 1) * stride_of(df) <= dst.len(),
    ensures
        forall|j: int|
            i * stride_of(df) <= j < (i + 1) * stride_of(df)
                ==> spec_masked_copy(spec_masked_copy(dst, src1, f1, df, m1), src2, f2, df, m2)[j]
                == spec_encode_pixel(spec_pixel_at(src2, f2, i), df)[j - i * stride_of(df)],
{
    let sd = stride_of(df) as int;
    assert forall|j: int| i * sd <= j < (i + 1) * sd implies spec_masked_copy(
        spec_masked_copy(dst, src1, f1, df, m1),
        src2,
        f2,
        df,
        m2,
    )[j] == spec_encode_pixel(spec_pixel_at(src2, f2, i), df)[j - i * sd] by {
        assert((i + 1) * sd == i * sd + sd) by (nonlinear_arith);
        lemma_pixel_byte_index(i, sd, j);
    }
}

} // verus!
