//! The user's configuration.

use vstd::prelude::*;

verus! {

/// The two fonts of a terminal, each named by the path of its file. An
/// empty name stands for the default font.
#[derive(Clone, Debug, PartialEq, Eq)]
pub struct Config {
    pub font: String,
    pub font_bold: String,
}

impl Default for Config {
    /// The configuration that names no font.
    fn default() -> (config: Config)
        ensures
            config.font@ == Seq::<char>::empty(),
            config.font_bold@ == Seq::<char>::empty(),
    {
        Config { font: String::new(), font_bold: String::new() }
    }
}

} // verus!
