use vstd::prelude::*;

verus! {

/// Failures reported by the filtering primitives.
#[derive(Clone, Copy, Debug, PartialEq, Eq, Structural)]
pub enum DspError {
    /// `PFB::new` was given fewer taps than arms, or zero arms.
    InsufficientTaps,
    /// Direct arm access at an index at or past the number of arms.
    IndexOutOfRange,
    /// `dot` was given slices of different lengths.
    LengthMismatch,
}

} // verus!
