use texture_stacker::codec::{decode_image, encode_image, DecodeFailure};
use texture_stacker::engine::{
    combine_texture_sets, CombineError, CombineWarning, LoadedLayer, LoadedTextureSet,
    ProcessConfig,
};
use texture_stacker::image::RawImage;
use texture_stacker::pixel::{BitDepth, ColorType, ImageFormat};

fn png_bytes(w: u32, h: u32, color: png::ColorType, depth: png::BitDepth, data: &[u8]) -> Vec<u8> {
    let mut out: Vec<u8> = Vec::new();
    {
        let mut enc = png::Encoder::new(&mut out, w, h);
        enc.set_color(color);
        enc.set_depth(depth);
        let mut writer = enc.write_header().unwrap();
        writer.write_image_data(data).unwrap();
    }
    out
}

fn decode(bytes: &[u8]) -> (Vec<u8>, png::OutputInfo) {
    let decoder = png::Decoder::new(std::io::Cursor::new(bytes));
    let mut reader = decoder.read_info().unwrap();
    let mut buf = vec![0u8; reader.output_buffer_size()];
    let info = reader.next_frame(&mut buf).unwrap();
    buf.truncate(info.buffer_size());
    (buf, info)
}

fn layer(path: &str, bytes: Vec<u8>) -> Option<LoadedLayer> {
    Some(LoadedLayer { path: path.to_string(), data: bytes })
}

fn texture_set(name: &str, textures: Vec<Option<LoadedLayer>>) -> LoadedTextureSet {
    LoadedTextureSet { name: name.to_string(), textures }
}

fn config(suffixes: &[&str], keep_mask_alpha: bool, output_masks: bool) -> ProcessConfig {
    ProcessConfig {
        keep_mask_alpha,
        suffixes: suffixes.iter().map(|s| s.to_string()).collect(),
        output_masks,
        output_texture_name: "Output".to_string(),
    }
}

/// 2x2 RGBA data with one flat color and the given per-pixel alphas.
fn rgba_2x2(r: u8, g: u8, b: u8, alphas: [u8; 4]) -> Vec<u8> {
    let mut data = Vec::new();
    for a in alphas {
        data.extend_from_slice(&[r, g, b, a]);
    }
    data
}

#[test]
fn codec_round_trip_preserves_data_and_format() {
    let format = ImageFormat {
        width: 2,
        height: 2,
        color_type: ColorType::Rgba,
        bit_depth: BitDepth::Eight,
    };
    let image = RawImage { data: (1..=16).collect(), format };
    let bytes = encode_image(&image).unwrap();
    let back = decode_image(&bytes).unwrap();
    assert_eq!(back.data, (1..=16).collect::<Vec<u8>>());
    assert_eq!(back.format, format);
}

#[test]
fn decode_rejects_garbage() {
    let r = decode_image(&vec![1, 2, 3, 4]);
    assert!(matches!(r, Err(DecodeFailure::Malformed(_))));
}

#[test]
fn decode_rejects_grayscale() {
    let bytes = png_bytes(1, 1, png::ColorType::Grayscale, png::BitDepth::Eight, &[7]);
    let r = decode_image(&bytes);
    assert!(matches!(r, Err(DecodeFailure::UnsupportedFormat)));
}

#[test]
fn scenario_two_sets_masked_combination() {
    // "Body": fully opaque mask source; "Doors": transparent at pixel 0.
    let body = rgba_2x2(10, 20, 30, [255, 255, 255, 255]);
    let doors = rgba_2x2(200, 210, 220, [0, 255, 255, 255]);
    let sets = vec![
        texture_set("Body", vec![layer(
            "Body_D.png",
            png_bytes(2, 2, png::ColorType::Rgba, png::BitDepth::Eight, &body),
        )]),
        texture_set("Doors", vec![layer(
            "Doors_D.png",
            png_bytes(2, 2, png::ColorType::Rgba, png::BitDepth::Eight, &doors),
        )]),
    ];
    let out = combine_texture_sets(&sets, &config(&["_D"], false, false)).unwrap();
    assert_eq!(out.files.len(), 1);
    let file = out.files[0].as_ref().unwrap();
    assert_eq!(file.name, "Output_D.png");
    let (data, info) = decode(&file.data);
    assert_eq!(info.color_type, png::ColorType::Rgb);
    assert_eq!((info.width, info.height), (2, 2));
    // Pixel 0 keeps Body's colors; Doors wins everywhere its mask is true.
    assert_eq!(
        data,
        vec![10, 20, 30, 200, 210, 220, 200, 210, 220, 200, 210, 220]
    );
    assert!(out.warnings.is_empty());
}

#[test]
fn scenario_set_without_mask_source_is_skipped_with_one_warning() {
    let body = rgba_2x2(1, 2, 3, [255, 255, 255, 255]);
    let sets = vec![
        texture_set("Body", vec![layer(
            "Body_D.png",
            png_bytes(2, 2, png::ColorType::Rgba, png::BitDepth::Eight, &body),
        )]),
        texture_set("Loose", vec![None]),
    ];
    let out = combine_texture_sets(&sets, &config(&["_D"], false, false)).unwrap();
    assert_eq!(out.files.len(), 1);
    let file = out.files[0].as_ref().unwrap();
    let (data, _info) = decode(&file.data);
    // Only Body contributes anywhere.
    assert_eq!(data, vec![1, 2, 3, 1, 2, 3, 1, 2, 3, 1, 2, 3]);
    assert_eq!(
        out.warnings,
        vec![CombineWarning::SetSkipped { name: "Loose".to_string() }]
    );
}

#[test]
fn scenario_suffix_without_second_contribution() {
    let a_mask = rgba_2x2(5, 5, 5, [255, 255, 255, 255]);
    let a_normal = rgba_2x2(100, 101, 102, [255, 255, 255, 255]);
    let b_mask = rgba_2x2(50, 51, 52, [255, 0, 0, 0]);
    let sets = vec![
        texture_set("A", vec![
            layer("A_D.png", png_bytes(2, 2, png::ColorType::Rgba, png::BitDepth::Eight, &a_mask)),
            layer(
                "A_N.png",
                png_bytes(2, 2, png::ColorType::Rgba, png::BitDepth::Eight, &a_normal),
            ),
        ]),
        texture_set("B", vec![
            layer("B_D.png", png_bytes(2, 2, png::ColorType::Rgba, png::BitDepth::Eight, &b_mask)),
            None,
        ]),
    ];
    let out = combine_texture_sets(&sets, &config(&["_D", "_N"], false, false)).unwrap();
    assert_eq!(out.files.len(), 2);

    // "_D" is masked-composited from both sets: B wins only at pixel 0.
    let (d_data, d_info) = decode(&out.files[0].as_ref().unwrap().data);
    assert_eq!(d_info.color_type, png::ColorType::Rgb);
    assert_eq!(d_data, vec![50, 51, 52, 5, 5, 5, 5, 5, 5, 5, 5, 5]);

    // "_N" holds only A's contribution, copied in whole.
    let n_file = out.files[1].as_ref().unwrap();
    assert_eq!(n_file.name, "Output_N.png");
    let (n_data, n_info) = decode(&n_file.data);
    assert_eq!(n_info.color_type, png::ColorType::Rgba);
    assert_eq!(n_data, a_normal);
}

#[test]
fn scenario_mismatched_mask_resolutions_fail_before_any_output() {
    let small = rgba_2x2(1, 1, 1, [255, 255, 255, 255]);
    let big: Vec<u8> = vec![9; 3 * 3 * 4];
    let sets = vec![
        texture_set("A", vec![layer(
            "A_D.png",
            png_bytes(2, 2, png::ColorType::Rgba, png::BitDepth::Eight, &small),
        )]),
        texture_set("B", vec![layer(
            "B_D.png",
            png_bytes(3, 3, png::ColorType::Rgba, png::BitDepth::Eight, &big),
        )]),
    ];
    let r = combine_texture_sets(&sets, &config(&["_D"], false, false));
    match r {
        Err(CombineError::ResolutionMismatch {
            path,
            width,
            height,
            expected_width,
            expected_height,
        }) => {
            assert_eq!(path, "B_D.png");
            assert_eq!((width, height), (3, 3));
            assert_eq!((expected_width, expected_height), (2, 2));
        }
        other => panic!("unexpected result: {:?}", other.map(|_| ())),
    }
}

#[test]
fn empty_suffix_list_is_refused() {
    let sets: Vec<LoadedTextureSet> = Vec::new();
    let r = combine_texture_sets(&sets, &config(&[], false, false));
    assert!(matches!(r, Err(CombineError::NoSuffixes)));
}

#[test]
fn mask_source_without_alpha_channel_is_fatal() {
    let rgb: Vec<u8> = vec![1; 12];
    let sets = vec![texture_set("A", vec![layer(
        "A_D.png",
        png_bytes(2, 2, png::ColorType::Rgb, png::BitDepth::Eight, &rgb),
    )])];
    let r = combine_texture_sets(&sets, &config(&["_D"], false, false));
    match r {
        Err(CombineError::MissingAlphaChannel { path }) => assert_eq!(path, "A_D.png"),
        other => panic!("unexpected result: {:?}", other.map(|_| ())),
    }
}

#[test]
fn sixteen_bit_mask_source_is_fatal() {
    let rgba16: Vec<u8> = vec![0xff; 2 * 2 * 8];
    let sets = vec![texture_set("A", vec![layer(
        "A_D.png",
        png_bytes(2, 2, png::ColorType::Rgba, png::BitDepth::Sixteen, &rgba16),
    )])];
    let r = combine_texture_sets(&sets, &config(&["_D"], false, false));
    match r {
        Err(CombineError::UnsupportedMaskDepth { path }) => assert_eq!(path, "A_D.png"),
        other => panic!("unexpected result: {:?}", other.map(|_| ())),
    }
}

#[test]
fn undecodable_layer_is_fatal_and_names_the_file() {
    let sets = vec![texture_set("A", vec![layer("A_D.png", vec![0, 1, 2])])];
    let r = combine_texture_sets(&sets, &config(&["_D"], false, false));
    match r {
        Err(CombineError::DecodeFailed { path, .. }) => assert_eq!(path, "A_D.png"),
        other => panic!("unexpected result: {:?}", other.map(|_| ())),
    }
}

#[test]
fn bit_depth_mismatch_between_layers_of_one_suffix_is_fatal() {
    let mask = rgba_2x2(1, 1, 1, [255, 255, 255, 255]);
    let n8: Vec<u8> = vec![7; 12];
    let n16: Vec<u8> = vec![8; 24];
    let sets = vec![
        texture_set("A", vec![
            layer("A_D.png", png_bytes(2, 2, png::ColorType::Rgba, png::BitDepth::Eight, &mask)),
            layer("A_N.png", png_bytes(2, 2, png::ColorType::Rgb, png::BitDepth::Sixteen, &n16)),
        ]),
        texture_set("B", vec![
            layer("B_D.png", png_bytes(2, 2, png::ColorType::Rgba, png::BitDepth::Eight, &mask)),
            layer("B_N.png", png_bytes(2, 2, png::ColorType::Rgb, png::BitDepth::Eight, &n8)),
        ]),
    ];
    let r = combine_texture_sets(&sets, &config(&["_D", "_N"], false, false));
    match r {
        Err(CombineError::BitDepthMismatch { path, depth, expected }) => {
            assert_eq!(path, "B_N.png");
            assert_eq!(depth, BitDepth::Eight);
            assert_eq!(expected, BitDepth::Sixteen);
        }
        other => panic!("unexpected result: {:?}", other.map(|_| ())),
    }
}

#[test]
fn sixteen_bit_overlay_cannot_be_repacked() {
    let mask = rgba_2x2(1, 1, 1, [255, 255, 255, 255]);
    let n16: Vec<u8> = vec![8; 24];
    let sets = vec![
        texture_set("A", vec![
            layer("A_D.png", png_bytes(2, 2, png::ColorType::Rgba, png::BitDepth::Eight, &mask)),
            layer("A_N.png", png_bytes(2, 2, png::ColorType::Rgb, png::BitDepth::Sixteen, &n16)),
        ]),
        texture_set("B", vec![
            layer("B_D.png", png_bytes(2, 2, png::ColorType::Rgba, png::BitDepth::Eight, &mask)),
            layer("B_N.png", png_bytes(2, 2, png::ColorType::Rgb, png::BitDepth::Sixteen, &n16)),
        ]),
    ];
    let r = combine_texture_sets(&sets, &config(&["_D", "_N"], false, false));
    match r {
        Err(CombineError::UnsupportedPixelConversion { path }) => assert_eq!(path, "B_N.png"),
        other => panic!("unexpected result: {:?}", other.map(|_| ())),
    }
}

#[test]
fn single_sixteen_bit_layer_passes_through_verbatim() {
    let mask = rgba_2x2(1, 1, 1, [255, 255, 255, 255]);
    let n16: Vec<u8> = (0..24).collect();
    let sets = vec![texture_set("A", vec![
        layer("A_D.png", png_bytes(2, 2, png::ColorType::Rgba, png::BitDepth::Eight, &mask)),
        layer("A_N.png", png_bytes(2, 2, png::ColorType::Rgb, png::BitDepth::Sixteen, &n16)),
    ])];
    let out = combine_texture_sets(&sets, &config(&["_D", "_N"], false, false)).unwrap();
    let (n_data, n_info) = decode(&out.files[1].as_ref().unwrap().data);
    assert_eq!(n_info.bit_depth, png::BitDepth::Sixteen);
    assert_eq!(n_data, n16);
}

#[test]
fn mask_of_wrong_size_for_a_suffix_is_fatal() {
    let mask = rgba_2x2(1, 1, 1, [255, 255, 255, 255]);
    let n3: Vec<u8> = vec![7; 9];
    let sets = vec![
        texture_set("A", vec![
            layer("A_D.png", png_bytes(2, 2, png::ColorType::Rgba, png::BitDepth::Eight, &mask)),
            layer("A_N.png", png_bytes(3, 1, png::ColorType::Rgb, png::BitDepth::Eight, &n3)),
        ]),
        texture_set("B", vec![
            layer("B_D.png", png_bytes(2, 2, png::ColorType::Rgba, png::BitDepth::Eight, &mask)),
            layer("B_N.png", png_bytes(3, 1, png::ColorType::Rgb, png::BitDepth::Eight, &n3)),
        ]),
    ];
    let r = combine_texture_sets(&sets, &config(&["_D", "_N"], false, false));
    match r {
        Err(CombineError::MaskSizeMismatch { path }) => assert_eq!(path, "B_N.png"),
        other => panic!("unexpected result: {:?}", other.map(|_| ())),
    }
}

#[test]
fn unexpected_alpha_channel_is_dropped_with_a_warning() {
    let mask = rgba_2x2(1, 1, 1, [255, 255, 255, 255]);
    let n_rgb: Vec<u8> = vec![7; 12];
    let n_rgba = rgba_2x2(90, 91, 92, [10, 10, 10, 10]);
    let sets = vec![
        texture_set("A", vec![
            layer("A_D.png", png_bytes(2, 2, png::ColorType::Rgba, png::BitDepth::Eight, &mask)),
            layer("A_N.png", png_bytes(2, 2, png::ColorType::Rgb, png::BitDepth::Eight, &n_rgb)),
        ]),
        texture_set("B", vec![
            layer("B_D.png", png_bytes(2, 2, png::ColorType::Rgba, png::BitDepth::Eight, &mask)),
            layer("B_N.png", png_bytes(2, 2, png::ColorType::Rgba, png::BitDepth::Eight, &n_rgba)),
        ]),
    ];
    let out = combine_texture_sets(&sets, &config(&["_D", "_N"], false, false)).unwrap();
    assert_eq!(
        out.warnings,
        vec![CombineWarning::AlphaDiscarded { path: "B_N.png".to_string() }]
    );
    let (n_data, n_info) = decode(&out.files[1].as_ref().unwrap().data);
    assert_eq!(n_info.color_type, png::ColorType::Rgb);
    // B's colors everywhere (its mask is fully true), alpha gone.
    assert_eq!(n_data, vec![90, 91, 92, 90, 91, 92, 90, 91, 92, 90, 91, 92]);
}

#[test]
fn keep_mask_alpha_keeps_the_alpha_channel_of_the_mask_suffix() {
    let body = rgba_2x2(10, 20, 30, [0, 255, 0, 255]);
    let sets = vec![texture_set("Body", vec![layer(
        "Body_D.png",
        png_bytes(2, 2, png::ColorType::Rgba, png::BitDepth::Eight, &body),
    )])];
    let out = combine_texture_sets(&sets, &config(&["_D"], true, false)).unwrap();
    let (data, info) = decode(&out.files[0].as_ref().unwrap().data);
    assert_eq!(info.color_type, png::ColorType::Rgba);
    assert_eq!(data, body);
}

#[test]
fn rgb_layer_promoted_into_rgba_output_loses_no_data() {
    let mask = rgba_2x2(1, 1, 1, [255, 255, 255, 255]);
    let n_rgba = rgba_2x2(5, 6, 7, [200, 200, 200, 200]);
    let n_rgb: Vec<u8> = vec![60, 61, 62, 63, 64, 65, 66, 67, 68, 69, 70, 71];
    let sets = vec![
        texture_set("A", vec![
            layer("A_D.png", png_bytes(2, 2, png::ColorType::Rgba, png::BitDepth::Eight, &mask)),
            layer("A_N.png", png_bytes(2, 2, png::ColorType::Rgba, png::BitDepth::Eight, &n_rgba)),
        ]),
        texture_set("B", vec![
            layer("B_D.png", png_bytes(2, 2, png::ColorType::Rgba, png::BitDepth::Eight, &mask)),
            layer("B_N.png", png_bytes(2, 2, png::ColorType::Rgb, png::BitDepth::Eight, &n_rgb)),
        ]),
    ];
    let out = combine_texture_sets(&sets, &config(&["_D", "_N"], false, false)).unwrap();
    assert!(out.warnings.is_empty());
    let (n_data, n_info) = decode(&out.files[1].as_ref().unwrap().data);
    assert_eq!(n_info.color_type, png::ColorType::Rgba);
    // B wins everywhere; its RGB samples survive and alpha is opaque.
    assert_eq!(
        n_data,
        vec![60, 61, 62, 255, 63, 64, 65, 255, 66, 67, 68, 255, 69, 70, 71, 255]
    );
}

#[test]
fn debug_masks_are_rendered_black_and_white() {
    let body = rgba_2x2(9, 9, 9, [255, 0, 255, 0]);
    let sets = vec![texture_set("Body", vec![layer(
        "Body_D.png",
        png_bytes(2, 2, png::ColorType::Rgba, png::BitDepth::Eight, &body),
    )])];
    let out = combine_texture_sets(&sets, &config(&["_D"], false, true)).unwrap();
    assert_eq!(out.masks.len(), 1);
    assert_eq!(out.masks[0].name, "mask0.png");
    let (data, info) = decode(&out.masks[0].data);
    assert_eq!(info.color_type, png::ColorType::Rgba);
    assert_eq!(
        data,
        vec![
            255, 255, 255, 255, //
            0, 0, 0, 255, //
            255, 255, 255, 255, //
            0, 0, 0, 255,
        ]
    );
}

#[test]
fn no_input_sets_yield_empty_outputs() {
    let sets: Vec<LoadedTextureSet> = Vec::new();
    let out = combine_texture_sets(&sets, &config(&["_D", "_N"], false, true)).unwrap();
    assert_eq!(out.files.len(), 2);
    assert!(out.files.iter().all(|f| f.is_none()));
    assert!(out.masks.is_empty());
    assert!(out.warnings.is_empty());
}

#[test]
fn animated_png_is_rejected() {
    let mut bytes: Vec<u8> = Vec::new();
    {
        let mut enc = png::Encoder::new(&mut bytes, 2, 2);
        enc.set_color(png::ColorType::Rgba);
        enc.set_depth(png::BitDepth::Eight);
        enc.set_animated(1, 0).unwrap();
        let mut writer = enc.write_header().unwrap();
        writer.write_image_data(&[9; 16]).unwrap();
    }
    let r = decode_image(&bytes);
    assert!(matches!(r, Err(DecodeFailure::Animated)));
}

#[test]
fn suffix_with_no_contribution_produces_no_file() {
    let body = rgba_2x2(1, 2, 3, [255, 255, 255, 255]);
    let sets = vec![texture_set("Body", vec![
        layer("Body_D.png", png_bytes(2, 2, png::ColorType::Rgba, png::BitDepth::Eight, &body)),
        None,
    ])];
    let out = combine_texture_sets(&sets, &config(&["_D", "_N"], false, false)).unwrap();
    assert_eq!(out.files.len(), 2);
    assert!(out.files[0].is_some());
    assert!(out.files[1].is_none());
}
