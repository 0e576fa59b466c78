use vstd::prelude::*;

verus! {

/// An axis of the three-dimensional space the points live in.
#[derive(Debug, Clone, Copy, PartialEq, Eq, Structural)]
pub enum Axis {
    X,
    Y,
    Z,
}

/// Why a transformation of points could not be carried out.
#[derive(Debug, Clone, Copy, PartialEq, Eq, Structural)]
pub enum TransformationError {
    /// The rotation's axis or angle cannot be resolved.
    InvalidRotation,
}

impl TransformationError {
    pub fn message(&self) -> (r: String)
        ensures
            r@ == "Invalid rotation axis or angle"@,
    {
        match self {
            TransformationError::InvalidRotation => String::from_str("Invalid rotation axis or angle"),
        }
    }
}

} // verus!
