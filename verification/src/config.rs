//! Settings that outlive a run.
use vstd::prelude::*;
use vstd::string::*;

verus! {

/// The settings.
#[derive(Debug, PartialEq)]
pub struct Config {
    /// The key of the theme.
    pub theme: String,
}

impl Default for Config {
    fn default() -> (r: Config)
        ensures
            r.theme@ == "standard"@,
    {
        Config { theme: "standard".to_owned() }
    }
}

} // verus!
