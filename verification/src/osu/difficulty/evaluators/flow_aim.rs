use vstd::prelude::*;

verus! {

/// The evaluator of aim along a flowing path. Its scoring works on floating-point
/// distances and timings from start to end and is not part of this library.
pub struct FlowAimEvaluator;

} // verus!
