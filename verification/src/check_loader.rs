//! Discovery of checks to register. Where checks come from is the host
//! process's concern; the loader is the seam it plugs into.

use vstd::prelude::*;

verus! {

/// Produces the checks to register with the scheduler. Configuration
/// sources are owned by the host process, so the loader holds no state.
pub struct CheckLoader {}

impl CheckLoader {
    /// Creates a loader with no configured sources.
    pub fn new() -> CheckLoader {
        CheckLoader {}
    }

    /// Loads checks from the configured sources; with no sources
    /// configured there is nothing to load.
    pub fn load_checks(&self) {
    }
}

} // verus!
