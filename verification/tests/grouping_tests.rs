use texture_stacker::filenames::{
    base_from_filename, is_png_file, make_mask_file_name, make_output_file_name,
    suffix_from_filename,
};
use texture_stacker::grouping::{collect_and_group_files_by_name, gather_texture_sets_from_directory};
use texture_stacker::mask::create_mask_from_alpha_channel;
use texture_stacker::image::RawImage;
use texture_stacker::pixel::{BitDepth, ColorType, ImageFormat};
use texture_stacker::text::{remove_duplicates, str_eq, str_lt, u64_to_string};

fn strings(items: &[&str]) -> Vec<String> {
    items.iter().map(|s| s.to_string()).collect()
}

#[test]
fn suffix_is_taken_from_the_last_underscore_of_the_stem() {
    assert_eq!(suffix_from_filename("dir/Body_D.png"), Some("_D".to_string()));
    assert_eq!(suffix_from_filename("A_b_N.png"), Some("_N".to_string()));
    assert_eq!(suffix_from_filename("plain.png"), None);
    assert_eq!(suffix_from_filename("under_score"), Some("_score".to_string()));
    assert_eq!(suffix_from_filename("_D.png"), Some("_D".to_string()));
}

#[test]
fn base_is_the_stem_up_to_the_last_underscore() {
    assert_eq!(base_from_filename("dir/Body_D.png"), Some("Body".to_string()));
    assert_eq!(base_from_filename("A_b_N.png"), Some("A_b".to_string()));
    assert_eq!(base_from_filename("plain.png"), None);
    assert_eq!(base_from_filename("_D.png"), Some("".to_string()));
}

#[test]
fn png_extension_is_matched_exactly() {
    assert!(is_png_file("a_D.png"));
    assert!(is_png_file("some/dir/a_D.png"));
    assert!(!is_png_file("a_D.PNG"));
    assert!(!is_png_file("a_D.jpg"));
    assert!(!is_png_file("a_D"));
    assert!(!is_png_file(".png"));
}

#[test]
fn output_and_mask_file_names() {
    assert_eq!(make_output_file_name("Combined", "_D"), "Combined_D.png");
    assert_eq!(make_mask_file_name(0), "mask0.png");
    assert_eq!(make_mask_file_name(12), "mask12.png");
    assert_eq!(u64_to_string(0), "0");
    assert_eq!(u64_to_string(907), "907");
}

#[test]
fn string_order_and_equality() {
    assert!(str_lt("Alpha", "Beta"));
    assert!(!str_lt("Beta", "Alpha"));
    assert!(str_lt("Alp", "Alpha"));
    assert!(!str_lt("Alpha", "Alpha"));
    assert!(str_eq("same", "same"));
    assert!(!str_eq("same", "sane"));
}

#[test]
fn groups_come_back_in_sorted_base_name_order() {
    let files = strings(&["z_D.png", "a_D.png", "m_D.png", "a_N.png", "notes.txt"]);
    let groups = collect_and_group_files_by_name(&files);
    let names: Vec<&str> = groups.iter().map(|g| g.name.as_str()).collect();
    assert_eq!(names, vec!["a", "m", "z"]);
    assert_eq!(groups[0].members, strings(&["a_D.png", "a_N.png"]));
}

#[test]
fn gather_aligns_layers_with_the_suffix_list() {
    let files = strings(&["Body_D.png", "Body_N.png", "Doors_D.png", "skip.png"]);
    let suffixes = strings(&["_D", "_N"]);
    let sets = gather_texture_sets_from_directory(&files, &suffixes);
    assert_eq!(sets.len(), 2);
    assert_eq!(sets[0].name, "Body");
    assert_eq!(sets[0].textures, vec![Some("Body_D.png".to_string()), Some("Body_N.png".to_string())]);
    assert_eq!(sets[1].name, "Doors");
    assert_eq!(sets[1].textures, vec![Some("Doors_D.png".to_string()), None]);
}

#[test]
fn gather_is_independent_of_listing_order() {
    let listing_one = strings(&["b_D.png", "a_N.png", "a_D.png", "c_X.png", "b_N.png"]);
    let listing_two = strings(&["b_N.png", "c_X.png", "a_D.png", "a_N.png", "b_D.png"]);
    let suffixes = strings(&["_D", "_N"]);
    let one = gather_texture_sets_from_directory(&listing_one, &suffixes);
    let two = gather_texture_sets_from_directory(&listing_two, &suffixes);
    assert_eq!(one.len(), two.len());
    for (s1, s2) in one.iter().zip(two.iter()) {
        assert_eq!(s1.name, s2.name);
        assert_eq!(s1.textures, s2.textures);
    }
}

#[test]
fn gather_picks_the_lexicographically_first_match() {
    let files = strings(&["x/Body_D.png", "a/Body_D.png", "m/Body_D.png"]);
    let suffixes = strings(&["_D"]);
    let sets = gather_texture_sets_from_directory(&files, &suffixes);
    assert_eq!(sets.len(), 1);
    assert_eq!(sets[0].textures, vec![Some("a/Body_D.png".to_string())]);
}

#[test]
fn remove_duplicates_keeps_first_occurrences_in_order() {
    let input = strings(&["_D", "_N", "_D", "_E", "_N"]);
    let output = remove_duplicates(input);
    assert_eq!(output, strings(&["_D", "_N", "_E"]));
}

#[test]
fn mask_is_pointwise_alpha_not_zero() {
    let format = ImageFormat {
        width: 2,
        height: 2,
        color_type: ColorType::Rgba,
        bit_depth: BitDepth::Eight,
    };
    let data = vec![
        9, 9, 9, 0, //
        9, 9, 9, 1, //
        9, 9, 9, 255, //
        9, 9, 9, 0,
    ];
    let image = RawImage { data, format };
    let mask = create_mask_from_alpha_channel(&image);
    assert_eq!(mask, vec![false, true, true, false]);
}
