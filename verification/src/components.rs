//! Colour values templates inject into rendered pages.

use vstd::prelude::*;

verus! {

/// The colours a page's stylesheet varies at serve time.
pub struct DynamicColours {
    pub error_background: &'static str,
}

impl Default for DynamicColours {
    /// The stock palette.
    fn default() -> (r: Self)
        ensures
            r.error_background@ == "#e56849"@,
    {
        DynamicColours { error_background: "#e56849" }
    }
}

} // verus!
