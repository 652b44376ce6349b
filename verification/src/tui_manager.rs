//! The drawing helper of the terminal interface (its drawing is done by the program).
use vstd::prelude::*;

verus! {

/// The drawing helper.
pub struct TuiManager;

impl TuiManager {
    /// The drawing helper.
    pub fn new() -> (r: Self)
        ensures
            r == TuiManager,
    {
        TuiManager
    }
}

} // verus!
