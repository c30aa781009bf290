use vstd::prelude::*;

verus! {

/// The evaluator of how hard objects are to read. Its scoring works on floating-point
/// distances and timings from start to end and is not part of this library.
pub struct ReadingEvaluator;

} // verus!
