//! The command-line switches of the surrounding process, as plain data.

use vstd::prelude::*;

verus! {

/// Whether verbose diagnostics were asked for.
#[derive(Clone, Copy, Debug, PartialEq, Eq, Structural)]
pub struct Args {
    pub debug: bool,
}

impl Default for Args {
    /// Diagnostics are off unless asked for.
    fn default() -> (r: Self)
        ensures
            !r.debug,
    {
        Args { debug: false }
    }
}

} // verus!
