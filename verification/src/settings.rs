//! Defaults of the persisted configuration.

use vstd::prelude::*;

verus! {

/// Team sizes counted toward the W/L tally by default: all of 1 to 4.
pub fn default_team_sizes() -> (v: Vec<u8>)
    ensures
        v@ == seq![1u8, 2u8, 3u8, 4u8],
{
    vec![1, 2, 3, 4]
}

/// The overlay theme used until the user picks one.
pub fn default_theme() -> (s: String)
    ensures
        s@ == "circle"@,
{
    "circle".to_owned()
}

/// The UI language used until the user picks one: follow the browser.
pub fn default_language() -> (s: String)
    ensures
        s@ == "auto"@,
{
    "auto".to_owned()
}

} // verus!
