use texture_stacker::image::{copy_image, copy_image_masked, RawImage};
use texture_stacker::pixel::{
    bytes_to_pixel, calc_pixel_stride, pixel_to_bytes, BitDepth, ColorType, ImageFormat, Pixel,
};

fn fmt(width: u32, height: u32, color_type: ColorType, bit_depth: BitDepth) -> ImageFormat {
    ImageFormat { width, height, color_type, bit_depth }
}

#[test]
fn stride_of_each_supported_format() {
    assert_eq!(calc_pixel_stride(&fmt(1, 1, ColorType::Rgb, BitDepth::Eight)), 3);
    assert_eq!(calc_pixel_stride(&fmt(1, 1, ColorType::Rgba, BitDepth::Eight)), 4);
    assert_eq!(calc_pixel_stride(&fmt(1, 1, ColorType::Rgb, BitDepth::Sixteen)), 6);
    assert_eq!(calc_pixel_stride(&fmt(1, 1, ColorType::Rgba, BitDepth::Sixteen)), 8);
}

#[test]
fn rgba_pixel_round_trip_is_identity() {
    let f = fmt(1, 1, ColorType::Rgba, BitDepth::Eight);
    let p = Pixel(12, 34, 56, 78);
    let mut buf: Vec<u8> = vec![0; 4];
    pixel_to_bytes(p, &f, &mut buf, 0);
    assert_eq!(buf, vec![12, 34, 56, 78]);
    let q = bytes_to_pixel(&buf, 0, &f);
    assert_eq!(q, p);
}

#[test]
fn rgb_read_synthesizes_opaque_alpha() {
    let f = fmt(1, 1, ColorType::Rgb, BitDepth::Eight);
    let buf: Vec<u8> = vec![10, 20, 30];
    let p = bytes_to_pixel(&buf, 0, &f);
    assert_eq!(p, Pixel(10, 20, 30, 255));
}

#[test]
fn rgb_write_drops_alpha() {
    let f = fmt(1, 1, ColorType::Rgb, BitDepth::Eight);
    let p = Pixel(1, 2, 3, 99);
    let mut buf: Vec<u8> = vec![0; 3];
    pixel_to_bytes(p, &f, &mut buf, 0);
    assert_eq!(buf, vec![1, 2, 3]);
}

#[test]
fn pixel_write_leaves_other_bytes_alone() {
    let f = fmt(2, 1, ColorType::Rgba, BitDepth::Eight);
    let mut buf: Vec<u8> = vec![9; 8];
    pixel_to_bytes(Pixel(1, 2, 3, 4), &f, &mut buf, 4);
    assert_eq!(buf, vec![9, 9, 9, 9, 1, 2, 3, 4]);
}

#[test]
fn copy_image_same_format_is_verbatim() {
    let f = fmt(2, 1, ColorType::Rgba, BitDepth::Eight);
    let src = RawImage { data: vec![1, 2, 3, 4, 5, 6, 7, 8], format: f };
    let mut dst = RawImage { data: vec![0; 8], format: f };
    copy_image(&src, &mut dst);
    assert_eq!(dst.data, vec![1, 2, 3, 4, 5, 6, 7, 8]);
}

#[test]
fn copy_image_rgb_into_rgba_keeps_samples_and_adds_alpha() {
    let fs = fmt(2, 1, ColorType::Rgb, BitDepth::Eight);
    let fd = fmt(2, 1, ColorType::Rgba, BitDepth::Eight);
    let src = RawImage { data: vec![1, 2, 3, 4, 5, 6], format: fs };
    let mut dst = RawImage { data: vec![0; 8], format: fd };
    copy_image(&src, &mut dst);
    assert_eq!(dst.data, vec![1, 2, 3, 255, 4, 5, 6, 255]);
}

#[test]
fn copy_image_rgba_into_rgb_drops_alpha_only() {
    let fs = fmt(2, 1, ColorType::Rgba, BitDepth::Eight);
    let fd = fmt(2, 1, ColorType::Rgb, BitDepth::Eight);
    let src = RawImage { data: vec![1, 2, 3, 200, 4, 5, 6, 0], format: fs };
    let mut dst = RawImage { data: vec![0; 6], format: fd };
    copy_image(&src, &mut dst);
    assert_eq!(dst.data, vec![1, 2, 3, 4, 5, 6]);
}

#[test]
fn masked_copy_writes_only_masked_pixels() {
    let f = fmt(2, 2, ColorType::Rgba, BitDepth::Eight);
    let src = RawImage { data: (1..=16).collect(), format: f };
    let mut dst = RawImage { data: vec![0; 16], format: f };
    let mask = vec![false, true, false, true];
    copy_image_masked(&src, &mut dst, &mask);
    assert_eq!(
        dst.data,
        vec![0, 0, 0, 0, 5, 6, 7, 8, 0, 0, 0, 0, 13, 14, 15, 16]
    );
}

#[test]
fn disjoint_masked_copies_commute() {
    let f = fmt(2, 2, ColorType::Rgba, BitDepth::Eight);
    let a = RawImage { data: vec![1; 16], format: f };
    let b = RawImage { data: vec![2; 16], format: f };
    let mask_a = vec![true, false, true, false];
    let mask_b = vec![false, true, false, false];

    let mut d1 = RawImage { data: vec![0; 16], format: f };
    copy_image_masked(&a, &mut d1, &mask_a);
    copy_image_masked(&b, &mut d1, &mask_b);

    let mut d2 = RawImage { data: vec![0; 16], format: f };
    copy_image_masked(&b, &mut d2, &mask_b);
    copy_image_masked(&a, &mut d2, &mask_a);

    assert_eq!(d1.data, d2.data);
}

#[test]
fn overlapping_masked_copies_resolve_to_the_later_layer() {
    let f = fmt(1, 1, ColorType::Rgba, BitDepth::Eight);
    let a = RawImage { data: vec![1, 1, 1, 1], format: f };
    let b = RawImage { data: vec![2, 2, 2, 2], format: f };
    let mask = vec![true];
    let mut d = RawImage { data: vec![0; 4], format: f };
    copy_image_masked(&a, &mut d, &mask);
    copy_image_masked(&b, &mut d, &mask);
    assert_eq!(d.data, vec![2, 2, 2, 2]);
}
