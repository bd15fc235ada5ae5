//! Error kinds of the analysis core. I/O, CSV and serialization failures
//! belong to the surrounding adapter layers, not to this library.

use vstd::prelude::*;

verus! {

#[derive(Debug, Clone)]
pub enum NcaError {
    ParseError(String),
    CalculationError(String),
    InvalidDosing(String),
    InsufficientData(String),
    MathError(String),
}

impl NcaError {
    /// The human-readable text carried by the error.
    pub fn message(&self) -> (r: String)
        ensures
            r@ == self.message_spec(),
    {
        match self {
            NcaError::ParseError(m) => m.clone(),
            NcaError::CalculationError(m) => m.clone(),
            NcaError::InvalidDosing(m) => m.clone(),
            NcaError::InsufficientData(m) => m.clone(),
            NcaError::MathError(m) => m.clone(),
        }
    }

    pub open spec fn message_spec(&self) -> Seq<char> {
        match self {
            NcaError::ParseError(m) => m@,
            NcaError::CalculationError(m) => m@,
            NcaError::InvalidDosing(m) => m@,
            NcaError::InsufficientData(m) => m@,
            NcaError::MathError(m) => m@,
        }
    }
}

} // verus!
