//! The compositing engine: derives one inclusion mask per texture set from
//! its mask-source layer, then builds one output image per output suffix by
//! copying the first contributing set's layer verbatim and overlaying every
//! later set's layer where that set's mask is true.

use vstd::prelude::*;

use crate::codec::{
    color_code, decode_image, decodes_to, depth_code, encode_image, no_usable_image, png_decoded,
    png_encoded, DecodeFailure,
};
use crate::image::{
    copy_image, copy_image_masked, full_mask, px_count_of, spec_masked_copy, RawImage,
};
use crate::filenames::{make_mask_file_name, make_output_file_name};
use crate::mask::{create_mask_from_alpha_channel, mask_render_data, mask_to_image, spec_mask_of};
use crate::text::spec_decimal;
use crate::pixel::{calc_pixel_stride, stride_of, BitDepth, ColorType, ImageFormat};

verus! {

/// The configuration of one combining run, read once and immutable.
pub struct ProcessConfig {
    pub keep_mask_alpha: bool,
    pub suffixes: Vec<String>,
    pub output_masks: bool,
    pub output_texture_name: String,
}

/// One layer file of a texture set: its path (for error reports) and its
/// raw, still encoded file contents.
pub struct LoadedLayer {
    pub path: String,
    pub data: Vec<u8>,
}

/// A texture set whose layer files have been read into memory, index-aligned
/// with the suffix list.
pub struct LoadedTextureSet {
    pub name: String,
    pub textures: Vec<Option<LoadedLayer>>,
}

/// A warning of a combining run; the run goes on after each of these.
#[derive(Debug, Clone, PartialEq, Eq)]
pub enum CombineWarning {
    /// The set's mask-source layer is missing; the whole set was dropped.
    SetSkipped { name: String },
    /// An alpha channel was discarded outside the sanctioned mask-source
    /// case because the output image of its suffix has no alpha channel.
    AlphaDiscarded { path: String },
    /// A debug mask image could not be encoded and was skipped.
    MaskEncodeFailed { name: String, message: String },
}

/// A fatal error of a combining run.
#[derive(Debug, Clone, PartialEq, Eq)]
pub enum CombineError {
    /// The suffix list is empty.
    NoSuffixes,
    /// A layer file could not be decoded.
    DecodeFailed { path: String, failure: DecodeFailure },
    /// A mask-source layer has no alpha channel.
    MissingAlphaChannel { path: String },
    /// A mask-source layer is zero-sized.
    ZeroSized { path: String },
    /// An image does not share the resolution its run requires.
    ResolutionMismatch {
        path: String,
        width: u32,
        height: u32,
        expected_width: u32,
        expected_height: u32,
    },
    /// A mask-source layer is not 8 bits per sample, so its pixels cannot
    /// be read one by one.
    UnsupportedMaskDepth { path: String },
    /// A layer does not share the bit depth of its suffix's output image.
    BitDepthMismatch { path: String, depth: BitDepth, expected: BitDepth },
    /// A layer would have to be re-packed pixel by pixel, which only 8-bit
    /// formats support.
    UnsupportedPixelConversion { path: String },
    /// A set's mask does not have one entry per pixel of the output image.
    MaskSizeMismatch { path: String },
    /// An output image could not be encoded.
    EncodeFailed { name: String, message: String },
}

/// An output file of a run: its file name and its encoded contents.
pub struct OutputFile {
    pub name: String,
    pub data: Vec<u8>,
}

/// Everything a combining run produces: one optional output file per
/// suffix, the debug mask dumps, and the warnings, in the order they arose.
pub struct CombineOutput {
    pub files: Vec<Option<OutputFile>>,
    pub masks: Vec<OutputFile>,
    pub warnings: Vec<CombineWarning>,
}

/// A decoded byte stream yields a usable image: it parses, is not
/// animated, its format is supported, and its buffer matches its header.
pub open spec fn dec_ok(b: Seq<u8>) -> bool {
    !no_usable_image(b)
}

/// The raw sample buffer a byte stream decodes to.
pub open spec fn dec_data(b: Seq<u8>) -> Seq<u8> {
    (png_decoded(b)->0).0
}

/// The width a byte stream decodes to.
pub open spec fn dec_w(b: Seq<u8>) -> u32 {
    (png_decoded(b)->0).1
}

/// The height a byte stream decodes to.
pub open spec fn dec_h(b: Seq<u8>) -> u32 {
    (png_decoded(b)->0).2
}

/// The color type code a byte stream decodes to: 2 for RGB, 6 for RGBA.
pub open spec fn dec_c(b: Seq<u8>) -> u8 {
    (png_decoded(b)->0).3
}

/// The bits per sample a byte stream decodes to: 8 or 16.
pub open spec fn dec_d(b: Seq<u8>) -> u8 {
    (png_decoded(b)->0).4
}

/// The channel layout of a samples-per-pixel code.
pub open spec fn ct_of_code(c: u8) -> ColorType {
    if c == 2 {
        ColorType::Rgb
    } else {
        ColorType::Rgba
    }
}

/// The bit depth of a bits-per-sample code.
pub open spec fn bd_of_code(d: u8) -> BitDepth {
    if d == 8 {
        BitDepth::Eight
    } else {
        BitDepth::Sixteen
    }
}

/// The image format a byte stream decodes to.
pub open spec fn dec_format(b: Seq<u8>) -> ImageFormat {
    ImageFormat {
        width: dec_w(b),
        height: dec_h(b),
        color_type: ct_of_code(dec_c(b)),
        bit_depth: bd_of_code(dec_d(b)),
    }
}

/// The layer of set `s` at suffix position `i`.
pub open spec fn layer_of(s: LoadedTextureSet, i: int) -> LoadedLayer
    recommends
        0 <= i < s.textures@.len(),
        s.textures@[i] is Some,
{
    s.textures@[i]->0
}

/// Whether the set at `valid[j]` contributes a layer at suffix position `s`.
pub open spec fn contributes(sets: Seq<LoadedTextureSet>, valid: Seq<usize>, s: int, j: int) -> bool {
    sets[valid[j] as int].textures@[s] is Some
}

/// The byte contents of the contributing layer of `valid[j]` at position `s`.
pub open spec fn layer_bytes(sets: Seq<LoadedTextureSet>, valid: Seq<usize>, s: int, j: int) -> Seq<
    u8,
> {
    layer_of(sets[valid[j] as int], s).data@
}

/// The path of the contributing layer of `valid[j]` at position `s`.
pub open spec fn layer_path(sets: Seq<LoadedTextureSet>, valid: Seq<usize>, s: int, j: int) -> String {
    layer_of(sets[valid[j] as int], s).path
}

/// The format of the output image of suffix position `s`, fixed by the
/// first contributing layer: its size and depth, and its channel layout
/// except that the mask-source suffix drops alpha unless it is kept.
pub open spec fn out_format_of(first_bytes: Seq<u8>, s: int, keep_mask_alpha: bool) -> ImageFormat {
    let f = dec_format(first_bytes);
    if s == 0 && !keep_mask_alpha {
        ImageFormat { color_type: ColorType::Rgb, ..f }
    } else {
        f
    }
}

/// An all-zero buffer of the size an image of format `f` occupies.
pub open spec fn zero_buffer(f: ImageFormat) -> Seq<u8> {
    Seq::new(px_count_of(f) * stride_of(f), |i: int| 0u8)
}

/// The data of the output image after the first contributing layer was
/// copied in whole: verbatim when the formats agree, re-packed pixel by
/// pixel otherwise.
pub open spec fn first_copy_data(b: Seq<u8>, of: ImageFormat) -> Seq<u8> {
    if dec_format(b) == of {
        dec_data(b)
    } else {
        spec_masked_copy(zero_buffer(of), dec_data(b), dec_format(b), of, full_mask(px_count_of(of)))
    }
}

/// The output image of suffix position `s` after the first `j` entries of
/// `valid` have been processed: none until a set contributes, then the
/// first contributor copied in whole, then each later contributor overlaid
/// where its own mask is true.
pub open spec fn composite_after(
    sets: Seq<LoadedTextureSet>,
    valid: Seq<usize>,
    masks: Seq<Seq<bool>>,
    s: int,
    keep_mask_alpha: bool,
    j: int,
) -> Option<(Seq<u8>, ImageFormat)>
    decreases j,
{
    if j <= 0 {
        None
    } else {
        let prev = composite_after(sets, valid, masks, s, keep_mask_alpha, j - 1);
        if !contributes(sets, valid, s, j - 1) {
            prev
        } else {
            let b = layer_bytes(sets, valid, s, j - 1);
            match prev {
                None => {
                    let of = out_format_of(b, s, keep_mask_alpha);
                    Some((first_copy_data(b, of), of))
                }
                Some(p) => Some(
                    (spec_masked_copy(p.0, dec_data(b), dec_format(b), p.1, masks[j - 1]), p.1),
                ),
            }
        }
    }
}

/// Whether the contributing layer of `valid[j]` at position `s` passes the
/// compositing validation: it decodes, and — unless it is the first
/// contributor, which fixes the output format — it matches the output
/// image's resolution and bit depth, carries one mask entry per output
/// pixel, and is 8-bit so its pixels can be re-packed.
pub open spec fn contrib_pass(
    sets: Seq<LoadedTextureSet>,
    valid: Seq<usize>,
    masks: Seq<Seq<bool>>,
    s: int,
    keep_mask_alpha: bool,
    j: int,
) -> bool
    recommends
        contributes(sets, valid, s, j),
{
    let b = layer_bytes(sets, valid, s, j);
    let prev = composite_after(sets, valid, masks, s, keep_mask_alpha, j);
    match prev {
        None => dec_ok(b) && (out_format_of(b, s, keep_mask_alpha) == dec_format(b) || dec_d(b)
            == 8),
        Some(p) => {
            &&& dec_ok(b)
            &&& dec_w(b) == p.1.width && dec_h(b) == p.1.height
            &&& bd_of_code(dec_d(b)) == p.1.bit_depth
            &&& masks[j].len() == px_count_of(p.1)
            &&& dec_d(b) == 8
        }
    }
}

/// Whether overlaying the contributing layer of `valid[j]` warns: its alpha
/// channel is dropped outside the sanctioned mask-source case.
pub open spec fn contrib_warns(
    sets: Seq<LoadedTextureSet>,
    valid: Seq<usize>,
    masks: Seq<Seq<bool>>,
    s: int,
    keep_mask_alpha: bool,
    j: int,
) -> bool {
    let b = layer_bytes(sets, valid, s, j);
    let prev = composite_after(sets, valid, masks, s, keep_mask_alpha, j);
    match prev {
        None => false,
        Some(p) => dec_c(b) == 6 && p.1.color_type is Rgb && !(s == 0 && !keep_mask_alpha),
    }
}

/// The warnings of suffix position `s` after the first `j` entries of
/// `valid` have been processed, in order.
pub open spec fn suffix_warns_after(
    sets: Seq<LoadedTextureSet>,
    valid: Seq<usize>,
    masks: Seq<Seq<bool>>,
    s: int,
    keep_mask_alpha: bool,
    j: int,
) -> Seq<CombineWarning>
    decreases j,
{
    if j <= 0 {
        Seq::empty()
    } else {
        let prev = suffix_warns_after(sets, valid, masks, s, keep_mask_alpha, j - 1);
        if contributes(sets, valid, s, j - 1) && contrib_warns(
            sets,
            valid,
            masks,
            s,
            keep_mask_alpha,
            j - 1,
        ) {
            prev.push(
                CombineWarning::AlphaDiscarded { path: layer_path(sets, valid, s, j - 1) },
            )
        } else {
            prev
        }
    }
}

/// What the error returned for the contributing layer of `valid[j]` must
/// be, in the order the validations run.
pub open spec fn contrib_err_matches(
    e: CombineError,
    sets: Seq<LoadedTextureSet>,
    valid: Seq<usize>,
    masks: Seq<Seq<bool>>,
    s: int,
    keep_mask_alpha: bool,
    j: int,
) -> bool {
    let b = layer_bytes(sets, valid, s, j);
    let p = layer_path(sets, valid, s, j);
    let prev = composite_after(sets, valid, masks, s, keep_mask_alpha, j);
    if !dec_ok(b) {
        match e {
            CombineError::DecodeFailed { path, .. } => path == p,
            _ => false,
        }
    } else {
        match prev {
            None => e == (CombineError::UnsupportedPixelConversion { path: p }),
            Some(pr) => {
                if dec_w(b) != pr.1.width || dec_h(b) != pr.1.height {
                    e == (CombineError::ResolutionMismatch {
                        path: p,
                        width: dec_w(b),
                        height: dec_h(b),
                        expected_width: pr.1.width,
                        expected_height: pr.1.height,
                    })
                } else if bd_of_code(dec_d(b)) != pr.1.bit_depth {
                    e == (CombineError::BitDepthMismatch {
                        path: p,
                        depth: bd_of_code(dec_d(b)),
                        expected: pr.1.bit_depth,
                    })
                } else if masks[j].len() != px_count_of(pr.1) {
                    e == (CombineError::MaskSizeMismatch { path: p })
                } else {
                    e == (CombineError::UnsupportedPixelConversion { path: p })
                }
            }
        }
    }
}

/// The views of a list of masks.
pub open spec fn mask_views(masks: Seq<Vec<bool>>) -> Seq<Seq<bool>> {
    masks.map_values(|m: Vec<bool>| m@)
}

/// The working resolution of a run: the size of the first valid set's
/// mask-source layer.
pub open spec fn working_w(sets: Seq<LoadedTextureSet>, valid: Seq<usize>) -> u32
    recommends
        valid.len() > 0,
{
    dec_w(layer_bytes(sets, valid, 0, 0))
}

/// The working resolution of a run: the height counterpart of `working_w`.
pub open spec fn working_h(sets: Seq<LoadedTextureSet>, valid: Seq<usize>) -> u32
    recommends
        valid.len() > 0,
{
    dec_h(layer_bytes(sets, valid, 0, 0))
}

/// The mask-source layer of the set at `valid[j]` passes every mask-stage
/// check: it decodes, has an alpha channel, is 8-bit, is not zero-sized,
/// and shares the working resolution.
pub open spec fn mask_pass(sets: Seq<LoadedTextureSet>, valid: Seq<usize>, j: int) -> bool {
    let b = layer_bytes(sets, valid, 0, j);
    &&& dec_ok(b)
    &&& dec_c(b) == 6
    &&& dec_w(b) > 0 && dec_h(b) > 0
    &&& dec_w(b) == working_w(sets, valid) && dec_h(b) == working_h(sets, valid)
    &&& dec_d(b) == 8
}

/// The inclusion mask of the set at `valid[j]`, taken from the alpha
/// channel of its mask-source layer.
pub open spec fn set_mask(sets: Seq<LoadedTextureSet>, valid: Seq<usize>, j: int) -> Seq<bool> {
    let b = layer_bytes(sets, valid, 0, j);
    spec_mask_of(dec_data(b), dec_format(b))
}

/// The masks of all valid sets, in order.
pub open spec fn spec_masks(sets: Seq<LoadedTextureSet>, valid: Seq<usize>) -> Seq<Seq<bool>> {
    Seq::new(valid.len(), |j: int| set_mask(sets, valid, j))
}

/// What the error returned for the mask-source layer of `valid[j]` must be,
/// in the order the checks run.
pub open spec fn mask_err_matches(
    e: CombineError,
    sets: Seq<LoadedTextureSet>,
    valid: Seq<usize>,
    j: int,
) -> bool {
    let b = layer_bytes(sets, valid, 0, j);
    let p = layer_path(sets, valid, 0, j);
    if !dec_ok(b) {
        match e {
            CombineError::DecodeFailed { path, .. } => path == p,
            _ => false,
        }
    } else if dec_c(b) != 6 {
        e == (CombineError::MissingAlphaChannel { path: p })
    } else if dec_w(b) == 0 || dec_h(b) == 0 {
        e == (CombineError::ZeroSized { path: p })
    } else if j > 0 && (dec_w(b) != working_w(sets, valid) || dec_h(b) != working_h(sets, valid)) {
        e == (CombineError::ResolutionMismatch {
            path: p,
            width: dec_w(b),
            height: dec_h(b),
            expected_width: working_w(sets, valid),
            expected_height: working_h(sets, valid),
        })
    } else {
        e == (CombineError::UnsupportedMaskDepth { path: p })
    }
}

/// Derives the inclusion mask of every valid set from the alpha channel of
/// its mask-source layer, establishing the working resolution from the
/// first set and holding every later set to it. Fails on the first set
/// whose mask source does not decode, lacks an alpha channel, is zero-
/// sized, differs in resolution, or is not 8-bit.
pub fn build_masks(sets: &Vec<LoadedTextureSet>, valid: &Vec<usize>) -> (r: Result<
    (Vec<Vec<bool>>, u32, u32),
    CombineError,
>)
    requires
        forall|j: int|
            0 <= j < valid@.len() ==> (#[trigger] valid@[j]) < sets@.len()
                && sets@[valid@[j] as int].textures@.len() >= 1
                && sets@[valid@[j] as int].textures@[0] is Some,
    ensures
        match r {
            Ok(p) => {
                &&& p.0@.len() == valid@.len()
                &&& forall|j: int| 0 <= j < valid@.len() ==> mask_pass(sets@, valid@, j)
                &&& mask_views(p.0@) == spec_masks(sets@, valid@)
                &&& valid@.len() > 0 ==> p.1 == working_w(sets@, valid@) && p.2 == working_h(
                    sets@,
                    valid@,
                ) && p.1 > 0 && p.2 > 0 && (p.1 as nat * p.2 as nat * 4 <= usize::MAX)
                &&& forall|j: int|
                    0 <= j < valid@.len() ==> (#[trigger] p.0@[j])@.len() == p.1 as nat
                        * p.2 as nat
            },
            Err(e) => exists|j: int|
                0 <= j < valid@.len() && (forall|jj: int|
                    0 <= jj < j ==> mask_pass(sets@, valid@, jj)) && !mask_pass(sets@, valid@, j)
                    && #[trigger] mask_err_matches(e, sets@, valid@, j),
        },
{
    let mut masks: Vec<Vec<bool>> = Vec::new();
    let mut w0: u32 = 0;
    let mut h0: u32 = 0;
    let mut j: usize = 0;
    while j < valid.len()
        invariant
            forall|jj: int|
                0 <= jj < valid@.len() ==> (#[trigger] valid@[jj]) < sets@.len()
                    && sets@[valid@[jj] as int].textures@.len() >= 1
                    && sets@[valid@[jj] as int].textures@[0] is Some,
            j <= valid@.len(),
            masks@.len() == j,
            forall|jj: int| 0 <= jj < j ==> mask_pass(sets@, valid@, jj),
            forall|jj: int| 0 <= jj < j ==> (#[trigger] masks@[jj])@ == set_mask(sets@, valid@, jj),
            j > 0 ==> w0 == working_w(sets@, valid@) && h0 == working_h(sets@, valid@) && w0 > 0
                && h0 > 0 && (w0 as nat * h0 as nat * 4 <= usize::MAX),
            forall|jj: int|
                0 <= jj < j ==> (#[trigger] masks@[jj])@.len() == w0 as nat * h0 as nat,
        decreases valid@.len() - j,
    {
        let vj: usize = valid[j];
        let layer: &LoadedLayer = sets[vj].textures[0].as_ref().unwrap();
        let ghost b: Seq<u8> = layer_bytes(sets@, valid@, 0, j as int);
        proof {
            assert(layer_of(sets@[vj as int], 0) == *layer);
            assert(b == layer.data@);
            assert(layer_path(sets@, valid@, 0, j as int) == layer.path);
        }
        let img: RawImage = match decode_image(&layer.data) {
            Ok(i) => i,
            Err(failure) => {
                let err = CombineError::DecodeFailed { path: layer.path.clone(), failure };
                proof {
                    assert(!dec_ok(b));
                    assert(!mask_pass(sets@, valid@, j as int));
                    assert(mask_err_matches(err, sets@, valid@, j as int));
                }
                return Err(err);
            }
        };
        proof {
            assert(decodes_to(b, img));
            assert(dec_data(b) == img.data@);
            assert(dec_c(b) == color_code(img.format.color_type));
            assert(dec_d(b) == depth_code(img.format.bit_depth));
            assert(dec_format(b) == img.format);
        }
        if !(matches!(img.format.color_type, ColorType::Rgba)) {
            let err = CombineError::MissingAlphaChannel { path: layer.path.clone() };
            proof {
                assert(dec_c(b) != 6);
                assert(!mask_pass(sets@, valid@, j as int));
                assert(mask_err_matches(err, sets@, valid@, j as int));
            }
            return Err(err);
        }
        if img.format.width == 0 || img.format.height == 0 {
            let err = CombineError::ZeroSized { path: layer.path.clone() };
            proof {
                assert(!mask_pass(sets@, valid@, j as int));
                assert(mask_err_matches(err, sets@, valid@, j as int));
            }
            return Err(err);
        }
        if j == 0 {
            w0 = img.format.width;
            h0 = img.format.height;
        } else if img.format.width != w0 || img.format.height != h0 {
            let err = CombineError::ResolutionMismatch {
                path: layer.path.clone(),
                width: img.format.width,
                height: img.format.height,
                expected_width: w0,
                expected_height: h0,
            };
            proof {
                assert(!mask_pass(sets@, valid@, j as int));
                assert(mask_err_matches(err, sets@, valid@, j as int));
            }
            return Err(err);
        }
        if !(matches!(img.format.bit_depth, BitDepth::Eight)) {
            let err = CombineError::UnsupportedMaskDepth { path: layer.path.clone() };
            proof {
                assert(dec_d(b) != 8);
                assert(!mask_pass(sets@, valid@, j as int));
                assert(mask_err_matches(err, sets@, valid@, j as int));
            }
            return Err(err);
        }
        let mask: Vec<bool> = create_mask_from_alpha_channel(&img);
        let img_len: usize = img.data.len();
        proof {
            assert(mask@ == set_mask(sets@, valid@, j as int));
            assert(mask_pass(sets@, valid@, j as int));
            assert(mask@.len() == px_count_of(img.format));
            assert(img_len == px_count_of(img.format) * stride_of(img.format));
            assert(stride_of(img.format) == 4);
        }
        masks.push(mask);
        j = j + 1;
    }
    proof {
        assert(mask_views(masks@) =~= spec_masks(sets@, valid@));
    }
    Ok((masks, w0, h0))
}

/// Builds the output image of one suffix position: the first contributing
/// set's layer is copied in whole, fixing the output format and the
/// background; every later contributing layer is validated against that
/// format and overlaid only where its own set's mask is true. Fails on the
/// first layer that does not decode or does not fit the output format, and
/// warns where an alpha channel is discarded outside the mask-source case.
pub fn composite_suffix(
    sets: &Vec<LoadedTextureSet>,
    valid: &Vec<usize>,
    masks: &Vec<Vec<bool>>,
    s: usize,
    keep_mask_alpha: bool,
) -> (r: Result<(Option<RawImage>, Vec<CombineWarning>), CombineError>)
    requires
        forall|j: int|
            0 <= j < valid@.len() ==> (#[trigger] valid@[j]) < sets@.len() && (s as int)
                < sets@[valid@[j] as int].textures@.len(),
        masks@.len() == valid@.len(),
    ensures
        match r {
            Ok(p) => {
                &&& forall|j: int|
                    0 <= j < valid@.len() && contributes(sets@, valid@, s as int, j)
                        ==> contrib_pass(sets@, valid@, mask_views(masks@), s as int, keep_mask_alpha, j)
                &&& match p.0 {
                    Some(o) => o.wf() && composite_after(
                        sets@,
                        valid@,
                        mask_views(masks@),
                        s as int,
                        keep_mask_alpha,
                        valid@.len() as int,
                    ) == Some((o.data@, o.format)),
                    None => composite_after(
                        sets@,
                        valid@,
                        mask_views(masks@),
                        s as int,
                        keep_mask_alpha,
                        valid@.len() as int,
                    ) is None,
                }
                &&& p.1@ == suffix_warns_after(
                    sets@,
                    valid@,
                    mask_views(masks@),
                    s as int,
                    keep_mask_alpha,
                    valid@.len() as int,
                )
            },
            Err(e) => exists|j: int|
                0 <= j < valid@.len() && #[trigger] contributes(sets@, valid@, s as int, j) && (
                forall|jj: int|
                    0 <= jj < j && contributes(sets@, valid@, s as int, jj) ==> contrib_pass(
                        sets@,
                        valid@,
                        mask_views(masks@),
                        s as int,
                        keep_mask_alpha,
                        jj,
                    )) && !contrib_pass(sets@, valid@, mask_views(masks@), s as int, keep_mask_alpha, j)
                && contrib_err_matches(e, sets@, valid@, mask_views(masks@), s as int, keep_mask_alpha, j),
        },
{
    let ghost gs: int = s as int;
    let ghost dmasks: Seq<Seq<bool>> = mask_views(masks@);
    let mut output: Option<RawImage> = None;
    let mut warnings: Vec<CombineWarning> = Vec::new();
    let mut j: usize = 0;
    while j < valid.len()
        invariant
            forall|jj: int|
                0 <= jj < valid@.len() ==> (#[trigger] valid@[jj]) < sets@.len() && gs
                    < sets@[valid@[jj] as int].textures@.len(),
            masks@.len() == valid@.len(),
            gs == s as int,
            dmasks == mask_views(masks@),
            j <= valid@.len(),
            match output {
                Some(o) => o.wf() && composite_after(
                    sets@,
                    valid@,
                    dmasks,
                    gs,
                    keep_mask_alpha,
                    j as int,
                ) == Some((o.data@, o.format)),
                None => composite_after(sets@, valid@, dmasks, gs, keep_mask_alpha, j as int)
                    is None,
            },
            warnings@ == suffix_warns_after(sets@, valid@, dmasks, gs, keep_mask_alpha, j as int),
            forall|jj: int|
                0 <= jj < j && contributes(sets@, valid@, gs, jj) ==> contrib_pass(
                    sets@,
                    valid@,
                    dmasks,
                    gs,
                    keep_mask_alpha,
                    jj,
                ),
        decreases valid@.len() - j,
    {
        let vj: usize = valid[j];
        let layer: &LoadedLayer = match &sets[vj].textures[s] {
            Some(l) => l,
            None => {
                proof {
                    assert(!contributes(sets@, valid@, gs, j as int));
                }
                j = j + 1;
                continue;
            }
        };
        let ghost b: Seq<u8> = layer_bytes(sets@, valid@, gs, j as int);
        proof {
            assert(layer_of(sets@[vj as int], gs) == *layer);
            assert(b == layer.data@);
        }
        let img: RawImage = match decode_image(&layer.data) {
            Ok(i) => i,
            Err(failure) => {
                proof {
                    assert(!dec_ok(b));
                    assert(!contrib_pass(sets@, valid@, mask_views(masks@), gs, keep_mask_alpha, j as int));
                }
                return Err(
                    CombineError::DecodeFailed { path: layer.path.clone(), failure },
                );
            }
        };
        proof {
            assert(decodes_to(b, img));
            assert(dec_ok(b));
            assert(dec_data(b) == img.data@);
            assert(dec_w(b) == img.format.width);
            assert(dec_h(b) == img.format.height);
            assert(dec_c(b) == color_code(img.format.color_type));
            assert(dec_d(b) == depth_code(img.format.bit_depth));
            assert(ct_of_code(color_code(img.format.color_type)) == img.format.color_type);
            assert(bd_of_code(depth_code(img.format.bit_depth)) == img.format.bit_depth);
            assert(dec_format(b) == img.format);
        }
        let lf: ImageFormat = img.format;
        output = match output {
            None => {
                let of: ImageFormat = if s == 0 && !keep_mask_alpha {
                    ImageFormat {
                        width: lf.width,
                        height: lf.height,
                        color_type: ColorType::Rgb,
                        bit_depth: lf.bit_depth,
                    }
                } else {
                    lf
                };
                proof {
                    assert(of == out_format_of(b, gs, keep_mask_alpha));
                }
                if !(of == lf) && !(matches!(lf.bit_depth, BitDepth::Eight)) {
                    proof {
                        assert(!contrib_pass(
                            sets@,
                            valid@,
                            dmasks,
                            gs,
                            keep_mask_alpha,
                            j as int,
                        ));
                    }
                    return Err(
                        CombineError::UnsupportedPixelConversion { path: layer.path.clone() },
                    );
                }
                let stride_l: usize = calc_pixel_stride(&lf);
                let stride_o: usize = calc_pixel_stride(&of);
                let data_len: usize = img.data.len();
                let px: usize = data_len / stride_l;
                let ghost pxg: nat = px_count_of(lf);
                proof {
                    assert(px == pxg) by (nonlinear_arith)
                        requires
                            data_len == pxg * stride_l,
                            stride_l > 0,
                            px == data_len as int / stride_l as int,
                    ;
                    assert(px_count_of(of) == pxg);
                    assert(stride_o <= stride_l);
                    assert(px * stride_o <= data_len) by (nonlinear_arith)
                        requires
                            data_len == pxg * stride_l,
                            px == pxg,
                            stride_o <= stride_l,
                    ;
                }
                let size: usize = px * stride_o;
                let mut out = RawImage { data: vec![0u8; size], format: of };
                proof {
                    assert(out.wf());
                    assert(out.data@ =~= zero_buffer(of));
                }
                copy_image(&img, &mut out);
                proof {
                    assert(out.data@ == first_copy_data(b, of));
                    assert(composite_after(sets@, valid@, dmasks, gs, keep_mask_alpha, j + 1)
                        == Some((out.data@, out.format)));
                    assert(contrib_pass(sets@, valid@, dmasks, gs, keep_mask_alpha, j as int));
                }
                Some(out)
            }
            Some(mut o) => {
                if lf.width != o.format.width || lf.height != o.format.height {
                    proof {
                        assert(!contrib_pass(
                            sets@,
                            valid@,
                            dmasks,
                            gs,
                            keep_mask_alpha,
                            j as int,
                        ));
                    }
                    return Err(
                        CombineError::ResolutionMismatch {
                            path: layer.path.clone(),
                            width: lf.width,
                            height: lf.height,
                            expected_width: o.format.width,
                            expected_height: o.format.height,
                        },
                    );
                }
                if lf.bit_depth != o.format.bit_depth {
                    proof {
                        assert(!contrib_pass(
                            sets@,
                            valid@,
                            dmasks,
                            gs,
                            keep_mask_alpha,
                            j as int,
                        ));
                    }
                    return Err(
                        CombineError::BitDepthMismatch {
                            path: layer.path.clone(),
                            depth: lf.bit_depth,
                            expected: o.format.bit_depth,
                        },
                    );
                }
                let stride_o: usize = calc_pixel_stride(&o.format);
                let out_len: usize = o.data.len();
                let px_out: usize = out_len / stride_o;
                let ghost pxg: nat = px_count_of(o.format);
                proof {
                    assert(px_out == pxg) by (nonlinear_arith)
                        requires
                            out_len == pxg * stride_o,
                            stride_o > 0,
                            px_out == out_len as int / stride_o as int,
                    ;
                }
                let mask: &Vec<bool> = &masks[j];
                if mask.len() != px_out {
                    proof {
                        assert(!contrib_pass(
                            sets@,
                            valid@,
                            dmasks,
                            gs,
                            keep_mask_alpha,
                            j as int,
                        ));
                    }
                    return Err(CombineError::MaskSizeMismatch { path: layer.path.clone() });
                }
                if !(matches!(lf.bit_depth, BitDepth::Eight)) {
                    proof {
                        assert(!contrib_pass(
                            sets@,
                            valid@,
                            dmasks,
                            gs,
                            keep_mask_alpha,
                            j as int,
                        ));
                    }
                    return Err(
                        CombineError::UnsupportedPixelConversion { path: layer.path.clone() },
                    );
                }
                if matches!(lf.color_type, ColorType::Rgba) && matches!(
                    o.format.color_type,
                    ColorType::Rgb,
                ) && !(s == 0 && !keep_mask_alpha) {
                    warnings.push(CombineWarning::AlphaDiscarded { path: layer.path.clone() });
                    proof {
                        assert(contrib_warns(sets@, valid@, dmasks, gs, keep_mask_alpha, j as int));
                    }
                } else {
                    proof {
                        assert(!contrib_warns(
                            sets@,
                            valid@,
                            dmasks,
                            gs,
                            keep_mask_alpha,
                            j as int,
                        ));
                    }
                }
                copy_image_masked(&img, &mut o, mask);
                proof {
                    assert(contrib_pass(sets@, valid@, mask_views(masks@), gs, keep_mask_alpha, j as int));
                    assert(composite_after(sets@, valid@, dmasks, gs, keep_mask_alpha, j + 1)
                        == Some((o.data@, o.format)));
                }
                Some(o)
            }
        };
        j = j + 1;
    }
    Ok((output, warnings))
}

/// The positions of the valid sets among the first `n` input sets: those
/// whose mask-source layer is present, in input order.
pub open spec fn spec_valid_indices(sets: Seq<LoadedTextureSet>, n: int) -> Seq<usize>
    decreases n,
{
    if n <= 0 {
        Seq::empty()
    } else if sets[n - 1].textures@[0] is Some {
        spec_valid_indices(sets, n - 1).push((n - 1) as usize)
    } else {
        spec_valid_indices(sets, n - 1)
    }
}

/// The skip warnings of the first `n` input sets: one per set whose
/// mask-source layer is missing, in input order.
pub open spec fn skip_warns(sets: Seq<LoadedTextureSet>, n: int) -> Seq<CombineWarning>
    decreases n,
{
    if n <= 0 {
        Seq::empty()
    } else if sets[n - 1].textures@[0] is Some {
        skip_warns(sets, n - 1)
    } else {
        skip_warns(sets, n - 1).push(CombineWarning::SetSkipped { name: sets[n - 1].name })
    }
}

/// The PNG encoding of the rendered image of one mask.
pub open spec fn mask_png(m: Seq<bool>, w0: u32, h0: u32) -> Option<Seq<u8>> {
    png_encoded(mask_render_data(m), w0, h0, 6, 8)
}

/// The file name a debug dump of mask `k` is written under.
pub open spec fn mask_dump_name(k: int) -> Seq<char> {
    "mask"@ + spec_decimal(k as nat) + ".png"@
}

/// The debug mask files of the first `k` masks: the name and contents of
/// each mask whose rendering encodes, in order.
pub open spec fn dump_files(masks: Seq<Seq<bool>>, w0: u32, h0: u32, k: int) -> Seq<
    (Seq<char>, Seq<u8>),
>
    decreases k,
{
    if k <= 0 {
        Seq::empty()
    } else {
        let prev = dump_files(masks, w0, h0, k - 1);
        match mask_png(masks[k - 1], w0, h0) {
            Some(bytes) => prev.push((mask_dump_name(k - 1), bytes)),
            None => prev,
        }
    }
}

/// The names of the debug masks among the first `k` whose rendering does
/// not encode, in order.
pub open spec fn dump_fail_names(masks: Seq<Seq<bool>>, w0: u32, h0: u32, k: int) -> Seq<Seq<char>>
    decreases k,
{
    if k <= 0 {
        Seq::empty()
    } else {
        let prev = dump_fail_names(masks, w0, h0, k - 1);
        if mask_png(masks[k - 1], w0, h0) is None {
            prev.push(mask_dump_name(k - 1))
        } else {
            prev
        }
    }
}

/// Every contributing layer of suffix position `s` passes validation.
pub open spec fn suffix_ok(
    sets: Seq<LoadedTextureSet>,
    valid: Seq<usize>,
    dmasks: Seq<Seq<bool>>,
    keep_mask_alpha: bool,
    s: int,
) -> bool {
    forall|j: int|
        0 <= j < valid.len() && contributes(sets, valid, s, j) ==> contrib_pass(
            sets,
            valid,
            dmasks,
            s,
            keep_mask_alpha,
            j,
        )
}

/// The composited output of suffix position `s`, over all valid sets.
pub open spec fn suffix_composite(
    sets: Seq<LoadedTextureSet>,
    valid: Seq<usize>,
    dmasks: Seq<Seq<bool>>,
    keep_mask_alpha: bool,
    s: int,
) -> Option<(Seq<u8>, ImageFormat)> {
    composite_after(sets, valid, dmasks, s, keep_mask_alpha, valid.len() as int)
}

/// The PNG encoding of a composited image.
pub open spec fn composite_png(p: (Seq<u8>, ImageFormat)) -> Option<Seq<u8>> {
    png_encoded(p.0, p.1.width, p.1.height, color_code(p.1.color_type), depth_code(p.1.bit_depth))
}

/// The output of suffix position `s` encodes, or there is none.
pub open spec fn suffix_encode_ok(
    sets: Seq<LoadedTextureSet>,
    valid: Seq<usize>,
    dmasks: Seq<Seq<bool>>,
    keep_mask_alpha: bool,
    s: int,
) -> bool {
    match suffix_composite(sets, valid, dmasks, keep_mask_alpha, s) {
        Some(p) => composite_png(p) is Some,
        None => true,
    }
}

/// The warnings of the compositing stage up to (not through) suffix
/// position `s`, in order.
pub open spec fn warns_through(
    sets: Seq<LoadedTextureSet>,
    valid: Seq<usize>,
    dmasks: Seq<Seq<bool>>,
    keep_mask_alpha: bool,
    s: int,
) -> Seq<CombineWarning>
    decreases s,
{
    if s <= 0 {
        Seq::empty()
    } else {
        warns_through(sets, valid, dmasks, keep_mask_alpha, s - 1) + suffix_warns_after(
            sets,
            valid,
            dmasks,
            s - 1,
            keep_mask_alpha,
            valid.len() as int,
        )
    }
}

/// The file name the output of one suffix is written under.
pub open spec fn output_name_of(base: Seq<char>, sfx: Seq<char>) -> Seq<char> {
    base + sfx + ".png"@
}

/// What the error returned while compositing suffix position `s` must be:
/// either one contributing layer failed validation — every contributor
/// before it having passed — or every one passed and the finished output
/// image did not encode.
pub open spec fn suffix_fail_matches(
    e: CombineError,
    sets: Seq<LoadedTextureSet>,
    valid: Seq<usize>,
    dmasks: Seq<Seq<bool>>,
    keep_mask_alpha: bool,
    base: Seq<char>,
    sfx: Seq<char>,
    s: int,
) -> bool {
    ||| exists|j: int|
        0 <= j < valid.len() && #[trigger] contributes(sets, valid, s, j) && (forall|jj: int|
            0 <= jj < j && contributes(sets, valid, s, jj) ==> contrib_pass(
                sets,
                valid,
                dmasks,
                s,
                keep_mask_alpha,
                jj,
            )) && !contrib_pass(sets, valid, dmasks, s, keep_mask_alpha, j) && contrib_err_matches(
            e,
            sets,
            valid,
            dmasks,
            s,
            keep_mask_alpha,
            j,
        )
    ||| (suffix_ok(sets, valid, dmasks, keep_mask_alpha, s) && match suffix_composite(
        sets,
        valid,
        dmasks,
        keep_mask_alpha,
        s,
    ) {
        Some(p) => composite_png(p) is None && match e {
            CombineError::EncodeFailed { name, .. } => name@ == output_name_of(base, sfx),
            _ => false,
        },
        None => false,
    })
}

/// Combines the texture sets into one output image per suffix, in suffix
/// order. Sets whose mask-source layer is missing are dropped with a
/// warning; the rest fix the working resolution and contribute their masks.
/// Each suffix's output copies the first contributing layer in whole and
/// overlays every later one where its set's mask is true; a suffix with no
/// contributor produces no file. When asked to, the run also renders every
/// mask as a black-and-white image, skipping (with a warning) any that do
/// not encode. Fails on an empty suffix list and on the first layer that
/// does not decode or does not fit, naming the offending file.
pub fn combine_texture_sets(input_sets: &Vec<LoadedTextureSet>, config: &ProcessConfig) -> (r:
    Result<CombineOutput, CombineError>)
    requires
        forall|k: int|
            0 <= k < input_sets@.len() ==> (#[trigger] input_sets@[k]).textures@.len()
                == config.suffixes@.len(),
    ensures
        config.suffixes@.len() == 0 ==> r == Result::<
            CombineOutput,
            CombineError,
        >::Err(CombineError::NoSuffixes),
        ({
            let n = input_sets@.len() as int;
            let ns = config.suffixes@.len() as int;
            let valid = spec_valid_indices(input_sets@, n);
            let dmasks = spec_masks(input_sets@, valid);
            let w0 = working_w(input_sets@, valid);
            let h0 = working_h(input_sets@, valid);
            let keep = config.keep_mask_alpha;
            match r {
                Ok(out) => {
                    &&& ns > 0
                    &&& forall|j: int| 0 <= j < valid.len() ==> mask_pass(input_sets@, valid, j)
                    &&& forall|s: int|
                        0 <= s < ns ==> #[trigger] suffix_ok(input_sets@, valid, dmasks, keep, s)
                    &&& forall|s: int|
                        0 <= s < ns ==> #[trigger] suffix_encode_ok(input_sets@, valid, dmasks, keep, s)
                    &&& out.files@.len() == ns
                    &&& forall|s: int|
                        0 <= s < ns ==> match (
                            #[trigger] out.files@[s],
                            suffix_composite(input_sets@, valid, dmasks, keep, s),
                        ) {
                            (Some(of), Some(p)) => of.name@ == output_name_of(
                                config.output_texture_name@,
                                config.suffixes@[s]@,
                            ) && composite_png(p) == Some(of.data@),
                            (None, None) => true,
                            _ => false,
                        }
                    &&& (config.output_masks ==> ({
                        let df = dump_files(dmasks, w0, h0, valid.len() as int);
                        out.masks@.len() == df.len() && forall|i: int|
                            0 <= i < df.len() ==> (#[trigger] out.masks@[i]).name@ == df[i].0
                                && out.masks@[i].data@ == df[i].1
                    }))
                    &&& (!config.output_masks ==> out.masks@.len() == 0)
                    &&& ({
                        let sk = skip_warns(input_sets@, n);
                        let dn = if config.output_masks {
                            dump_fail_names(dmasks, w0, h0, valid.len() as int)
                        } else {
                            Seq::<Seq<char>>::empty()
                        };
                        let cw = warns_through(input_sets@, valid, dmasks, keep, ns);
                        &&& out.warnings@.len() == sk.len() + dn.len() + cw.len()
                        &&& out.warnings@.subrange(0, sk.len() as int) == sk
                        &&& forall|i: int|
                            0 <= i < dn.len() ==> match #[trigger] out.warnings@[sk.len() + i] {
                                CombineWarning::MaskEncodeFailed { name, .. } => name@ == dn[i],
                                _ => false,
                            }
                        &&& out.warnings@.subrange(
                            (sk.len() + dn.len()) as int,
                            out.warnings@.len() as int,
                        ) == cw
                    })
                },
                Err(e) => {
                    ||| (e == CombineError::NoSuffixes && ns == 0)
                    ||| (ns > 0 && exists|j: int|
                        0 <= j < valid.len() && (forall|jj: int|
                            0 <= jj < j ==> mask_pass(input_sets@, valid, jj)) && !mask_pass(
                            input_sets@,
                            valid,
                            j,
                        ) && #[trigger] mask_err_matches(e, input_sets@, valid, j))
                    ||| (ns > 0 && (forall|j: int|
                        0 <= j < valid.len() ==> mask_pass(input_sets@, valid, j)) && exists|s: int|
                        0 <= s < ns && (forall|ss: int|
                            0 <= ss < s ==> #[trigger] suffix_ok(input_sets@, valid, dmasks, keep, ss))
                            && (forall|ss: int|
                            0 <= ss < s ==> #[trigger] suffix_encode_ok(input_sets@, valid, dmasks, keep, ss))
                            && #[trigger] suffix_fail_matches(
                            e,
                            input_sets@,
                            valid,
                            dmasks,
                            keep,
                            config.output_texture_name@,
                            config.suffixes@[s]@,
                            s,
                        ))
                },
            }
        }),
{
    let n: usize = input_sets.len();
    let ns: usize = config.suffixes.len();
    if ns == 0 {
        return Err(CombineError::NoSuffixes);
    }
    let ghost gvalid: Seq<usize> = spec_valid_indices(input_sets@, n as int);

    let mut valid: Vec<usize> = Vec::new();
    let mut warnings: Vec<CombineWarning> = Vec::new();
    let mut k: usize = 0;
    while k < n
        invariant
            n == input_sets@.len(),
            ns == config.suffixes@.len(),
            ns >= 1,
            forall|kk: int|
                0 <= kk < input_sets@.len() ==> (#[trigger] input_sets@[kk]).textures@.len() == ns,
            k <= n,
            valid@ == spec_valid_indices(input_sets@, k as int),
            warnings@ == skip_warns(input_sets@, k as int),
            forall|jj: int|
                0 <= jj < valid@.len() ==> (#[trigger] valid@[jj]) < k
                    && input_sets@[valid@[jj] as int].textures@[0] is Some,
        decreases n - k,
    {
        if input_sets[k].textures[0].is_some() {
            valid.push(k);
        } else {
            warnings.push(CombineWarning::SetSkipped { name: input_sets[k].name.clone() });
        }
        k = k + 1;
    }
    proof {
        assert(valid@ == gvalid);
    }
    let ghost sk: Seq<CombineWarning> = skip_warns(input_sets@, n as int);
    let sk_len: usize = warnings.len();

    let (masks, w0, h0) = match build_masks(input_sets, &valid) {
        Ok(t) => t,
        Err(e) => {
            return Err(e);
        }
    };
    let ghost dmasks: Seq<Seq<bool>> = spec_masks(input_sets@, gvalid);
    proof {
        assert(mask_views(masks@) == dmasks);
    }

    let mut mask_files: Vec<OutputFile> = Vec::new();
    let ghost gdn: Seq<Seq<char>> = if config.output_masks {
        dump_fail_names(dmasks, w0, h0, gvalid.len() as int)
    } else {
        Seq::<Seq<char>>::empty()
    };
    if config.output_masks {
        let mut k2: usize = 0;
        while k2 < masks.len()
            invariant
                masks@.len() == valid@.len(),
                valid@ == gvalid,
                gvalid == spec_valid_indices(input_sets@, input_sets@.len() as int),
                dmasks == mask_views(masks@),
                dmasks == spec_masks(input_sets@, gvalid),
                sk == skip_warns(input_sets@, input_sets@.len() as int),
                sk_len == sk.len(),
                gvalid.len() > 0 ==> w0 == working_w(input_sets@, gvalid) && h0 == working_h(
                    input_sets@,
                    gvalid,
                ) && (w0 as nat * h0 as nat * 4 <= usize::MAX),
                forall|j: int|
                    0 <= j < valid@.len() ==> (#[trigger] masks@[j])@.len() == w0 as nat
                        * h0 as nat,
                k2 <= masks@.len(),
                mask_files@.len() == dump_files(dmasks, w0, h0, k2 as int).len(),
                forall|i: int|
                    0 <= i < mask_files@.len() ==> (#[trigger] mask_files@[i]).name@ == dump_files(
                        dmasks,
                        w0,
                        h0,
                        k2 as int,
                    )[i].0 && mask_files@[i].data@ == dump_files(dmasks, w0, h0, k2 as int)[i].1,
                warnings@.len() == sk.len() + dump_fail_names(dmasks, w0, h0, k2 as int).len(),
                warnings@.subrange(0, sk.len() as int) == sk,
                forall|i: int|
                    0 <= i < dump_fail_names(dmasks, w0, h0, k2 as int).len() ==> match #[trigger] warnings@[sk.len() + i] {
                        CombineWarning::MaskEncodeFailed { name, .. } => name@ == dump_fail_names(
                            dmasks,
                            w0,
                            h0,
                            k2 as int,
                        )[i],
                        _ => false,
                    },
            decreases masks@.len() - k2,
        {
            let ghost pre_files: Seq<OutputFile> = mask_files@;
            let ghost pre_warns: Seq<CombineWarning> = warnings@;
            let img: RawImage = mask_to_image(&masks[k2], w0, h0);
            proof {
                assert(img.data@ == mask_render_data(dmasks[k2 as int]));
            }
            let name: String = make_mask_file_name(k2 as u64);
            proof {
                assert(name@ == mask_dump_name(k2 as int));
            }
            match encode_image(&img) {
                Ok(bytes) => {
                    proof {
                        assert(mask_png(dmasks[k2 as int], w0, h0) == Some(bytes@));
                    }
                    mask_files.push(OutputFile { name, data: bytes });
                    proof {
                        assert(dump_files(dmasks, w0, h0, k2 + 1) == dump_files(
                            dmasks,
                            w0,
                            h0,
                            k2 as int,
                        ).push((mask_dump_name(k2 as int), mask_png(dmasks[k2 as int], w0, h0)->0)));
                        assert(warnings@.subrange(0, sk.len() as int) == sk);
                    }
                }
                Err(message) => {
                    proof {
                        assert(mask_png(dmasks[k2 as int], w0, h0) is None);
                    }
                    warnings.push(CombineWarning::MaskEncodeFailed { name, message });
                    proof {
                        assert(warnings@.subrange(0, sk.len() as int) =~= pre_warns.subrange(
                            0,
                            sk.len() as int,
                        ));
                        assert(dump_fail_names(dmasks, w0, h0, k2 + 1) == dump_fail_names(
                            dmasks,
                            w0,
                            h0,
                            k2 as int,
                        ).push(mask_dump_name(k2 as int)));
                    }
                }
            }
            k2 = k2 + 1;
        }
    }
    let dn_len: usize = warnings.len() - sk_len;

    let mut files: Vec<Option<OutputFile>> = Vec::new();
    let mut s: usize = 0;
    while s < ns
        invariant
            n == input_sets@.len(),
            ns == config.suffixes@.len(),
            ns >= 1,
            forall|kk: int|
                0 <= kk < input_sets@.len() ==> (#[trigger] input_sets@[kk]).textures@.len() == ns,
            valid@ == gvalid,
            gvalid == spec_valid_indices(input_sets@, input_sets@.len() as int),
            masks@.len() == valid@.len(),
            dmasks == mask_views(masks@),
            dmasks == spec_masks(input_sets@, gvalid),
            forall|jj: int|
                0 <= jj < valid@.len() ==> (#[trigger] valid@[jj]) < input_sets@.len()
                    && input_sets@[valid@[jj] as int].textures@[0] is Some,
            forall|j: int| 0 <= j < gvalid.len() ==> mask_pass(input_sets@, gvalid, j),
            sk == skip_warns(input_sets@, input_sets@.len() as int),
            sk_len == sk.len(),
            dn_len == gdn.len(),
            gdn == (if config.output_masks {
                dump_fail_names(dmasks, w0, h0, gvalid.len() as int)
            } else {
                Seq::<Seq<char>>::empty()
            }),
            s <= ns,
            files@.len() == s,
            forall|ss: int|
                0 <= ss < s ==> #[trigger] suffix_ok(
                    input_sets@,
                    gvalid,
                    dmasks,
                    config.keep_mask_alpha,
                    ss,
                ),
            forall|ss: int|
                0 <= ss < s ==> #[trigger] suffix_encode_ok(
                    input_sets@,
                    gvalid,
                    dmasks,
                    config.keep_mask_alpha,
                    ss,
                ),
            forall|ss: int|
                0 <= ss < s ==> match (
                    #[trigger] files@[ss],
                    suffix_composite(input_sets@, gvalid, dmasks, config.keep_mask_alpha, ss),
                ) {
                    (Some(of), Some(p)) => of.name@ == output_name_of(
                        config.output_texture_name@,
                        config.suffixes@[ss]@,
                    ) && composite_png(p) == Some(of.data@),
                    (None, None) => true,
                    _ => false,
                },
            warnings@.len() == sk.len() + gdn.len() + warns_through(
                input_sets@,
                gvalid,
                dmasks,
                config.keep_mask_alpha,
                s as int,
            ).len(),
            warnings@.subrange(0, sk.len() as int) == sk,
            forall|i: int|
                0 <= i < gdn.len() ==> match #[trigger] warnings@[sk.len() + i] {
                    CombineWarning::MaskEncodeFailed { name, .. } => name@ == gdn[i],
                    _ => false,
                },
            warnings@.subrange((sk.len() + gdn.len()) as int, warnings@.len() as int) == warns_through(
                input_sets@,
                gvalid,
                dmasks,
                config.keep_mask_alpha,
                s as int,
            ),
        decreases ns - s,
    {
        let ghost pre_warns: Seq<CombineWarning> = warnings@;
        let (out_opt, mut sfx_warns) = match composite_suffix(
            input_sets,
            &valid,
            &masks,
            s,
            config.keep_mask_alpha,
        ) {
            Ok(t) => t,
            Err(e) => {
                proof {
                    assert(suffix_fail_matches(
                        e,
                        input_sets@,
                        gvalid,
                        dmasks,
                        config.keep_mask_alpha,
                        config.output_texture_name@,
                        config.suffixes@[s as int]@,
                        s as int,
                    ));
                }
                return Err(e);
            }
        };
        warnings.append(&mut sfx_warns);
        proof {
            assert(warnings@ == pre_warns + suffix_warns_after(
                input_sets@,
                gvalid,
                dmasks,
                s as int,
                config.keep_mask_alpha,
                gvalid.len() as int,
            ));
            assert(warnings@.subrange(0, sk.len() as int) =~= pre_warns.subrange(
                0,
                sk.len() as int,
            ));
            assert(warns_through(input_sets@, gvalid, dmasks, config.keep_mask_alpha, s + 1)
                == warns_through(input_sets@, gvalid, dmasks, config.keep_mask_alpha, s as int)
                + suffix_warns_after(
                input_sets@,
                gvalid,
                dmasks,
                s as int,
                config.keep_mask_alpha,
                gvalid.len() as int,
            ));
            assert(warnings@.subrange((sk.len() + gdn.len()) as int, warnings@.len() as int)
                =~= warns_through(
                input_sets@,
                gvalid,
                dmasks,
                config.keep_mask_alpha,
                s + 1,
            ));
        }
        match out_opt {
            Some(img) => {
                let name: String = make_output_file_name(
                    config.output_texture_name.as_str(),
                    config.suffixes[s].as_str(),
                );
                proof {
                    assert(name@ == output_name_of(
                        config.output_texture_name@,
                        config.suffixes@[s as int]@,
                    ));
                }
                match encode_image(&img) {
                    Ok(bytes) => {
                        proof {
                            assert(suffix_ok(
                                input_sets@,
                                gvalid,
                                dmasks,
                                config.keep_mask_alpha,
                                s as int,
                            ));
                            assert(suffix_encode_ok(
                                input_sets@,
                                gvalid,
                                dmasks,
                                config.keep_mask_alpha,
                                s as int,
                            ));
                        }
                        files.push(Some(OutputFile { name, data: bytes }));
                    }
                    Err(message) => {
                        let err = CombineError::EncodeFailed { name, message };
                        proof {
                            assert(suffix_fail_matches(
                                err,
                                input_sets@,
                                gvalid,
                                dmasks,
                                config.keep_mask_alpha,
                                config.output_texture_name@,
                                config.suffixes@[s as int]@,
                                s as int,
                            ));
                        }
                        return Err(err);
                    }
                }
            }
            None => {
                proof {
                    assert(suffix_ok(input_sets@, gvalid, dmasks, config.keep_mask_alpha, s as int));
                    assert(suffix_encode_ok(
                        input_sets@,
                        gvalid,
                        dmasks,
                        config.keep_mask_alpha,
                        s as int,
                    ));
                }
                files.push(None);
            }
        }
        proof {
            assert(suffix_ok(input_sets@, gvalid, dmasks, config.keep_mask_alpha, s as int));
            assert(suffix_encode_ok(input_sets@, gvalid, dmasks, config.keep_mask_alpha, s as int));
        }
        s = s + 1;
    }
    Ok(CombineOutput { files, masks: mask_files, warnings })
}

} // verus!
