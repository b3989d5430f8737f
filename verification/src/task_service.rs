//! The first-generation task request set, kept for its public surface: a
//! scan request and the shutdown signal, without a scan mode.  The current
//! scheduler lives in [`crate::task`].

use vstd::prelude::*;

verus! {

/// A request to the first-generation task loop.
#[derive(Clone, Copy, Debug, PartialEq, Eq, Structural)]
pub enum TaskType {
    ScanLibrary,
    Shutdown,
}

} // verus!
