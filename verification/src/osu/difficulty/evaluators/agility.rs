use vstd::prelude::*;

verus! {

/// The evaluator of how fast the cursor has to travel between objects. Its scoring works on floating-point
/// distances and timings from start to end and is not part of this library.
pub struct AgilityEvaluator;

} // verus!
