use vstd::prelude::*;

verus! {

/// Failure of a planning or extraction call.
///
/// `InvalidInput` names a caller-correctable violation of a precondition;
/// `Calculation` names an internal numeric failure (non-convergence,
/// degenerate population, inconsistent interpolation bounds).
#[derive(Debug, Clone)]
pub enum MusError {
    InvalidInput(String),
    Calculation(String),
}

impl MusError {
    /// The human-readable description carried by the error.
    pub fn message(&self) -> (r: String)
        ensures
            (match self {
                MusError::InvalidInput(m) => r@ == m@,
                MusError::Calculation(m) => r@ == m@,
            }),
    {
        match self {
            MusError::InvalidInput(m) => m.clone(),
            MusError::Calculation(m) => m.clone(),
        }
    }
}

} // verus!
