//! The engine's error type.

use vstd::prelude::*;

verus! {

/// Error raised when a formula cannot be parsed or when an evaluation
/// references a component that the supplied values do not cover. The
/// payload is a descriptive message.
#[derive(Debug)]
pub struct FormulaError(pub String);

impl FormulaError {
    /// The descriptive message carried by this error.
    pub fn message(&self) -> &String {
        &self.0
    }
}

} // verus!
