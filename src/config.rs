use vstd::prelude::*;

verus! {

/// The picker's settings.
pub struct Config {
    /// Whether plugin panes are listed.
    pub show_plugins: bool,
}

impl Config {
    /// Reads the settings from the value given for `show_plugins`, if any:
    /// the flag is on only when that value is `true`.
    pub fn from_setting(show_plugins: Option<String>) -> (r: Config)
        ensures
            r.show_plugins == match show_plugins {
                Some(v) => v@ == "true"@,
                None => false,
            },
    {
        let show = match show_plugins {
            Some(v) => v == String::from_str("true"),
            None => false,
        };
        Config { show_plugins: show }
    }
}

impl Default for Config {
    fn default() -> (r: Config)
        ensures
            !r.show_plugins,
    {
        Config { show_plugins: false }
    }
}

} // verus!
