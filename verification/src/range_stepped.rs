//! The expansion-time counterpart of a stepped integer range
//! `(start..end).step_by(step)`, where the step may be any integer element
//! rather than a host `usize`.

use vstd::prelude::*;

use crate::context::Context;
use crate::ir::Element;
use crate::iterable::SteppedRangeExpand;

verus! {

/// Stage the range `start..end` walked `step` values at a time; the context
/// is threaded through for uniformity with every other expansion call but is
/// not consulted.
pub fn expand(_context: &mut Context, start: Element, end: Element, step: Element) -> (r:
    SteppedRangeExpand)
    ensures
        r == (SteppedRangeExpand { start, end, step, inclusive: false }),
        *final(_context) == *old(_context),
{
    SteppedRangeExpand { start, end, step, inclusive: false }
}

} // verus!
