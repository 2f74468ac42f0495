//! Failures the engine reports.

use vstd::prelude::*;

verus! {

/// Why an operation of the engine was refused.
#[derive(Debug, Clone, Copy, PartialEq, Eq, Structural)]
pub enum EngineError {
    /// The shapes of the operands do not fit the operation.
    ShapeMismatch,
    /// A layer size or a population size was not positive.
    InvalidConfiguration,
}

impl EngineError {
    /// The failure in words.
    pub fn message(&self) -> (text: String)
        ensures
            text@ == match self {
                EngineError::ShapeMismatch => "the shapes of the operands do not match"@,
                EngineError::InvalidConfiguration => "layer and population sizes must be positive"@,
            },
    {
        match self {
            EngineError::ShapeMismatch => "the shapes of the operands do not match".to_owned(),
            EngineError::InvalidConfiguration => "layer and population sizes must be positive".to_owned(),
        }
    }
}

} // verus!
