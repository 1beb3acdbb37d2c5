//! Defaults of the house geometry file and where it lives.
use vstd::prelude::*;

use crate::text::owned;

verus! {

/// Orientation of a window whose geometry names none.
pub fn default_vertical() -> (r: String)
    ensures
        r@ == "vertical"@,
{
    owned("vertical")
}

/// Pipe run of a connection whose geometry names none.
pub fn default_pipe() -> (r: String)
    ensures
        r@ == "none"@,
{
    owned("none")
}

/// Flags that hold unless the geometry says otherwise.
pub fn default_true() -> (r: bool)
    ensures
        r,
{
    true
}

/// Path of the canonical geometry file, relative to the working directory.
pub fn thermal_geometry_path() -> (r: String)
    ensures
        r@ == "data/canonical/thermal_geometry.json"@,
{
    owned("data/canonical/thermal_geometry.json")
}

/// Calls `String::leak`, which keeps the text alive for the rest of the program. Claimed:
/// the returned text is the string's text.
#[verifier::external_body]
pub fn leak(s: String) -> (r: &'static str)
    ensures
        r@ == s@,
{
    s.leak()
}

} // verus!
