//! Explicit configuration value handed into the operations that need it;
//! no component reads ambient process state directly.

use vstd::prelude::*;

verus! {

/// Whether output may be colorized when the configuration does not say.
pub fn default_use_color() -> (b: bool)
    ensures
        b == true,
{
    true
}

/// Tool configuration: where build sources are downloaded to, whether to
/// colorize output, and an optional editor override.
pub struct Config {
    pub download_dir: String,
    pub use_color: bool,
    pub editor: Option<String>,
}

impl Config {
    /// A configuration for a given download directory, with every other
    /// setting at its default.
    pub fn new(download_dir: String) -> (c: Config)
        ensures
            c.download_dir@ == download_dir@,
            c.use_color == true,
            c.editor is None,
    {
        Config { download_dir, use_color: default_use_color(), editor: Option::None }
    }
}

} // verus!
