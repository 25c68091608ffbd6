use texture_stacker::config::{Config, ConfigFile};
use texture_stacker::{enable_virtual_terminal_processing, TextureStacker};

#[test]
fn stock_options() {
    let t = TextureStacker::new();
    assert!(!t.keep_mask_alpha);
    assert!(!t.output_masks);
    assert_eq!(t.suffixes, vec!["_D", "_N", "_E", "_M"]);
    assert_eq!(t.output_texture_name, "Output");
}

#[test]
fn loading_a_config_file_applies_its_fields() {
    let mut t = TextureStacker::new();
    t.keep_mask_alpha = true;
    let conf = ConfigFile {
        suffixes: vec!["_D".to_string(), "_X".to_string()],
        output_masks: true,
        keep_mask_alpha: false,
        output_texture_name: Some("Merged".to_string()),
        input_directory: None,
    };
    t.load_config_file(conf);
    assert!(t.output_masks);
    assert_eq!(t.suffixes, vec!["_D", "_X"]);
    assert_eq!(t.output_texture_name, "Merged");
    // The alpha option is not part of the file application here.
    assert!(t.keep_mask_alpha);
}

#[test]
fn loading_without_an_output_name_keeps_the_old_one() {
    let mut t = TextureStacker::new();
    let conf = ConfigFile {
        suffixes: vec!["_D".to_string()],
        output_masks: false,
        keep_mask_alpha: false,
        output_texture_name: None,
        input_directory: None,
    };
    t.load_config_file(conf);
    assert_eq!(t.output_texture_name, "Output");
}

#[test]
fn stock_config_values() {
    let c = Config::default();
    assert_eq!(c.suffixes, vec!["_D", "_N", "_E", "_M"]);
    assert_eq!(c.output_texture_name, "T_Combined");
    assert_eq!(c.input_directory, "");
    assert!(c.output_directory.is_none());
}

#[test]
fn config_file_resolution_fills_stock_values() {
    let file = ConfigFile {
        suffixes: vec!["_D".to_string()],
        output_masks: true,
        keep_mask_alpha: true,
        output_texture_name: None,
        input_directory: Some("in".to_string()),
    };
    let c = file.into_config();
    assert_eq!(c.suffixes, vec!["_D"]);
    assert!(c.output_masks);
    assert!(c.keep_mask_alpha);
    assert_eq!(c.output_texture_name, "T_Combined");
    assert_eq!(c.input_directory, "in");
}

#[test]
fn config_round_trips_through_the_file_shape() {
    let mut c = Config::default();
    c.output_masks = true;
    c.input_directory = "somewhere".to_string();
    let file = ConfigFile::from_config(c.clone());
    assert_eq!(file.output_texture_name.as_deref(), Some("T_Combined"));
    let back = file.into_config();
    assert_eq!(back.suffixes, c.suffixes);
    assert_eq!(back.output_masks, c.output_masks);
    assert_eq!(back.input_directory, c.input_directory);
}

#[test]
fn terminal_processing_reports_available() {
    assert!(enable_virtual_terminal_processing());
}
