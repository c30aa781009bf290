use vstd::prelude::*;

verus! {

/// The evaluator of tapping speed. Its scoring works on floating-point
/// distances and timings from start to end and is not part of this library.
pub struct SpeedEvaluator;

} // verus!
