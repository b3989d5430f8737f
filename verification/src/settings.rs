//! Runtime settings of the indexer.  Loading them from a configuration file
//! is the surrounding program's job; the library only holds the values and
//! offers the built-in defaults.

use vstd::prelude::*;

verus! {

/// The settings block: log level, database path and media root.
pub struct Settings {
    pub log_level: String,
    pub db_path: String,
    pub media_path: String,
}

impl Settings {
    /// The default settings, used when no configuration file can be read.
    pub fn new_default() -> (settings: Settings)
        ensures
            settings.log_level@ == "info"@,
            settings.db_path@ == "./deaftone.sqlite"@,
            settings.media_path@ == "./music"@,
    {
        Settings {
            log_level: String::from_str("info"),
            db_path: String::from_str("./deaftone.sqlite"),
            media_path: String::from_str("./music"),
        }
    }
}

} // verus!
