//! The first-generation scanner handle, kept for its public surface: it
//! holds the settings a scan runs with.  The scanning logic itself lives in
//! [`crate::scan`].

use vstd::prelude::*;
use crate::settings::Settings;

verus! {

/// A scanner configured with the settings block.
pub struct Scanner {
    pub settings: Settings,
}

impl Scanner {
    /// Wraps the settings; construction cannot fail.
    pub fn new(settings: Settings) -> (r: Result<Scanner, ()>)
        ensures
            (match r {
                Ok(scanner) => scanner.settings == settings,
                Err(_) => false,
            }),
    {
        Ok(Scanner { settings })
    }
}

} // verus!
