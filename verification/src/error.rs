use vstd::prelude::*;

verus! {

/// Errors reported while reading and processing GeoJSON.
#[derive(Debug, Clone, PartialEq, Eq)]
pub enum GeozeroError {
    /// The input is no valid GeoJSON, or a geometry cannot be processed.
    Geometry(String),
    /// The input could not be read.
    IoError(String),
}

/// The error of a position that holds fewer than two values.
pub open spec fn is_short_position_error(e: GeozeroError) -> bool {
    e matches GeozeroError::Geometry(m) && m@ == "A position must contain two or more elements"@
}

/// The error with which a walk ends at a position of fewer than two values.
pub fn short_position() -> (r: GeozeroError)
    ensures
        is_short_position_error(r),
{
    GeozeroError::Geometry(String::from_str("A position must contain two or more elements"))
}

} // verus!
