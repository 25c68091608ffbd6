//! Combines sets of same-sized texture layers into merged output textures,
//! using the alpha channel of one designated layer per set as a per-pixel
//! stencil that decides which set's colors win in the merged image.
//!
//! Raw files are grouped into named texture sets by the base name of their
//! stem and aligned with a configured, ordered suffix list. Each valid set
//! derives an inclusion mask from its mask-source layer (position 0 of the
//! suffix list); the compositor then builds one output image per suffix by
//! copying the first contributing layer in whole and overlaying every later
//! layer where its set's mask is true.

use vstd::prelude::*;

pub mod codec;
pub mod config;
pub mod engine;
pub mod filenames;
pub mod grouping;
pub mod image;
pub mod mask;
pub mod pixel;
pub mod text;

use crate::config::ConfigFile;
use vstd::string::StringExecFns;

verus! {

/// The tool's entry surface: the options of one combining run, with the
/// stock values filled in.
pub struct TextureStacker {
    pub keep_mask_alpha: bool,
    pub output_masks: bool,
    pub suffixes: Vec<String>,
    pub output_texture_name: String,
}

impl TextureStacker {
    /// The stock options: the four usual layer suffixes, no debug masks,
    /// alpha dropped from the mask-source output.
    pub fn new() -> (r: Self)
        ensures
            r.keep_mask_alpha == false,
            r.output_masks == false,
            r.suffixes@.len() == 4,
            r.suffixes@[0]@ == "_D"@,
            r.suffixes@[1]@ == "_N"@,
            r.suffixes@[2]@ == "_E"@,
            r.suffixes@[3]@ == "_M"@,
            r.output_texture_name@ == "Output"@,
    {
        let mut suffixes: Vec<String> = Vec::new();
        suffixes.push(String::from_str("_D"));
        suffixes.push(String::from_str("_N"));
        suffixes.push(String::from_str("_E"));
        suffixes.push(String::from_str("_M"));
        TextureStacker {
            keep_mask_alpha: false,
            output_masks: false,
            suffixes,
            output_texture_name: String::from_str("Output"),
        }
    }

    /// Applies a loaded configuration file to the options: the debug flag
    /// and the suffix list are taken over as they stand, the output name
    /// only where the file sets one; the alpha option is left alone.
    pub fn load_config_file(&mut self, conf: ConfigFile)
        ensures
            final(self).output_masks == conf.output_masks,
            final(self).suffixes == conf.suffixes,
            match conf.output_texture_name {
                Some(name) => final(self).output_texture_name == name,
                None => final(self).output_texture_name == old(self).output_texture_name,
            },
            final(self).keep_mask_alpha == old(self).keep_mask_alpha,
    {
        self.output_masks = conf.output_masks;
        self.suffixes = conf.suffixes;
        match conf.output_texture_name {
            Some(name) => {
                self.output_texture_name = name;
            }
            None => {}
        }
    }
}

/// Switches the terminal into processing ANSI escape sequences, reporting
/// whether it accepts them. On this build target the terminal does so as it
/// is, so there is nothing to switch on.
pub fn enable_virtual_terminal_processing() -> (r: bool)
    ensures
        r == true,
{
    true
}

} // verus!
