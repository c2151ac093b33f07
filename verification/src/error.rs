//! Why a square could not be painted.

use vstd::prelude::*;

verus! {

/// The ways in which painting a square fails.
#[derive(Clone, Copy, Debug, PartialEq, Eq, Structural)]
pub enum PaintError {
    /// The column is one of the two that mirror another: only columns 0, 1
    /// and 2 are painted directly.
    InvalidInput,
    /// No colour was given and the picture has no default colour.
    MissingColor,
}

impl PaintError {
    /// The text of `message`.
    pub open spec fn text(self) -> Seq<char> {
        match self {
            PaintError::InvalidInput => "mirroring wont work this way"@,
            PaintError::MissingColor => "no color provided and no default_color set"@,
        }
    }

    /// A short description of the failure.
    pub fn message(&self) -> (s: &'static str)
        ensures
            s@ == self.text(),
    {
        match self {
            PaintError::InvalidInput => "mirroring wont work this way",
            PaintError::MissingColor => "no color provided and no default_color set",
        }
    }
}

} // verus!
