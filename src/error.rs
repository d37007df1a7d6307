//! Error kinds of the pool math.

use vstd::prelude::*;

verus! {

/// Ways a weighted-pool computation can be rejected.
#[derive(Clone, Copy, Debug, PartialEq, Eq, Structural)]
pub enum WeightedMathError {
    ZeroInvariant,
    MaxInRatio,
    MaxOutRatio,
    MinInvariantRatio,
    MaxInvariantRatio,
}

/// Ways a stable-pool computation can fail to converge.
#[derive(Clone, Copy, Debug, PartialEq, Eq, Structural)]
pub enum StableMathError {
    InvariantDidntConverge,
    GetBalanceDidntConverge,
}

impl WeightedMathError {
    /// A short description of the error.
    pub fn message(&self) -> (r: &'static str) {
        match self {
            WeightedMathError::ZeroInvariant => "Zero invariant",
            WeightedMathError::MaxInRatio => "MaxInRatio",
            WeightedMathError::MaxOutRatio => "MaxOutRatio",
            WeightedMathError::MinInvariantRatio => "MinInvariantRatio",
            WeightedMathError::MaxInvariantRatio => "MaxInvariantRatio",
        }
    }
}

impl StableMathError {
    /// A short description of the error.
    pub fn message(&self) -> (r: &'static str) {
        match self {
            StableMathError::InvariantDidntConverge => "Invariant didnt converge",
            StableMathError::GetBalanceDidntConverge => "Get balance didnt converge",
        }
    }
}

} // verus!
