//! The configuration surface: the settings a run consumes, and the shape
//! they take in the configuration file. The core performs no parsing or
//! persistence itself; a frontend hands these values in.

use vstd::prelude::*;

use vstd::string::StringExecFns;

verus! {

/// The settings of the tool, fully resolved.
#[derive(Debug, Clone)]
pub struct Config {
    pub keep_mask_alpha: bool,
    pub output_masks: bool,
    pub suffixes: Vec<String>,
    pub output_texture_name: String,
    pub input_directory: String,
    pub output_directory: Option<String>,
}

impl Default for Config {
    /// The stock settings: the four usual layer suffixes, no debug masks,
    /// alpha dropped from the mask-source output.
    fn default() -> (r: Config)
        ensures
            r.keep_mask_alpha == false,
            r.output_masks == false,
            r.suffixes@.len() == 4,
            r.suffixes@[0]@ == "_D"@,
            r.suffixes@[1]@ == "_N"@,
            r.suffixes@[2]@ == "_E"@,
            r.suffixes@[3]@ == "_M"@,
            r.output_texture_name@ == "T_Combined"@,
            r.input_directory@ == Seq::<char>::empty(),
            r.output_directory is None,
    {
        let mut suffixes: Vec<String> = Vec::new();
        suffixes.push(String::from_str("_D"));
        suffixes.push(String::from_str("_N"));
        suffixes.push(String::from_str("_E"));
        suffixes.push(String::from_str("_M"));
        Config {
            keep_mask_alpha: false,
            output_masks: false,
            suffixes,
            output_texture_name: String::from_str("T_Combined"),
            input_directory: String::new(),
            output_directory: None,
        }
    }
}

/// The settings as they stand in the configuration file: every field
/// optional or defaulted, resolved into a `Config` before a run.
#[derive(Debug, Clone)]
pub struct ConfigFile {
    pub suffixes: Vec<String>,
    pub output_masks: bool,
    pub keep_mask_alpha: bool,
    pub output_texture_name: Option<String>,
    pub input_directory: Option<String>,
}

impl Default for ConfigFile {
    /// The stock file contents: the four usual layer suffixes and nothing
    /// else set.
    fn default() -> (r: ConfigFile)
        ensures
            r.keep_mask_alpha == false,
            r.output_masks == false,
            r.suffixes@.len() == 4,
            r.suffixes@[0]@ == "_D"@,
            r.suffixes@[1]@ == "_N"@,
            r.suffixes@[2]@ == "_E"@,
            r.suffixes@[3]@ == "_M"@,
            r.output_texture_name is None,
            r.input_directory is None,
    {
        let mut suffixes: Vec<String> = Vec::new();
        suffixes.push(String::from_str("_D"));
        suffixes.push(String::from_str("_N"));
        suffixes.push(String::from_str("_E"));
        suffixes.push(String::from_str("_M"));
        ConfigFile {
            suffixes,
            output_masks: false,
            keep_mask_alpha: false,
            output_texture_name: None,
            input_directory: None,
        }
    }
}

impl ConfigFile {
    /// Resolves the file contents into full settings: fields the file left
    /// unset keep their stock value.
    pub fn into_config(self) -> (r: Config)
        ensures
            r.suffixes == self.suffixes,
            r.output_masks == self.output_masks,
            r.keep_mask_alpha == self.keep_mask_alpha,
            match self.output_texture_name {
                Some(name) => r.output_texture_name == name,
                None => r.output_texture_name@ == "T_Combined"@,
            },
            match self.input_directory {
                Some(dir) => r.input_directory == dir,
                None => r.input_directory@ == Seq::<char>::empty(),
            },
            r.output_directory is None,
    {
        let mut config = Config::default();
        config.suffixes = self.suffixes;
        config.output_masks = self.output_masks;
        config.keep_mask_alpha = self.keep_mask_alpha;
        match self.output_texture_name {
            Some(name) => {
                config.output_texture_name = name;
            }
            None => {}
        }
        match self.input_directory {
            Some(dir) => {
                config.input_directory = dir;
            }
            None => {}
        }
        config
    }

    /// Writes full settings back into the file shape, every optional field
    /// set.
    pub fn from_config(config: Config) -> (r: ConfigFile)
        ensures
            r.suffixes == config.suffixes,
            r.output_masks == config.output_masks,
            r.keep_mask_alpha == config.keep_mask_alpha,
            r.output_texture_name == Some(config.output_texture_name),
            r.input_directory == Some(config.input_directory),
    {
        ConfigFile {
            suffixes: config.suffixes,
            output_masks: config.output_masks,
            keep_mask_alpha: config.keep_mask_alpha,
            output_texture_name: Some(config.output_texture_name),
            input_directory: Some(config.input_directory),
        }
    }
}

} // verus!
