//! The failures that the library reports.

use vstd::prelude::*;

verus! {

/// Why a grid could not be built or a visibility query could not be answered.
#[derive(Clone, Copy, Debug, PartialEq, Eq, Structural)]
pub enum VisibilityError {
    /// A requested grid side is zero, the grid asked for is beyond what can
    /// be held, or the number of cells does not match the sides.
    InvalidDimensions,
    /// The image bytes could not be decoded into a usable raster.
    ImageLoadError,
    /// A coordinate lies outside the grid.
    OutOfBoundsCoordinate,
}

impl VisibilityError {
    /// A short description for a person to read.
    pub fn message(&self) -> (text: String)
        ensures
            text@ == match *self {
                VisibilityError::InvalidDimensions => "invalid grid dimensions"@,
                VisibilityError::ImageLoadError => "image could not be loaded"@,
                VisibilityError::OutOfBoundsCoordinate => "coordinate outside the grid"@,
            },
    {
        match self {
            VisibilityError::InvalidDimensions => String::from_str("invalid grid dimensions"),
            VisibilityError::ImageLoadError => String::from_str("image could not be loaded"),
            VisibilityError::OutOfBoundsCoordinate => String::from_str("coordinate outside the grid"),
        }
    }
}

} // verus!
