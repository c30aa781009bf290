use vstd::prelude::*;

verus! {

/// The evaluator of aim of jumps that snap between objects. Its scoring works on floating-point
/// distances and timings from start to end and is not part of this library.
pub struct SnapAimEvaluator;

} // verus!
