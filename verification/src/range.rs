//! The expansion-time counterpart of an exclusive integer range
//! `start..end`.

use vstd::prelude::*;

use crate::context::Context;
use crate::ir::Element;
use crate::iterable::RangeExpand;

verus! {

/// Stage the range `start..end`; the context is threaded through for
/// uniformity with every other expansion call but is not consulted.
pub fn expand(_context: &mut Context, start: Element, end: Element) -> (r: RangeExpand)
    ensures
        r == (RangeExpand { start, end, inclusive: false }),
        *final(_context) == *old(_context),
{
    RangeExpand { start, end, inclusive: false }
}

} // verus!
