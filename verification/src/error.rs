//! Authoring-time failures.  Every failure here is fatal and fail-fast: it
//! means the kernel author wrote something the staging layer cannot lower,
//! and the whole expansion of the enclosing kernel function is abandoned.

use vstd::prelude::*;

verus! {

/// Why an expansion call could not stage the construct it was given.
#[derive(Clone, Copy, PartialEq, Eq, Structural, Debug)]
pub enum ExpandError {
    /// A range was unrolled whose start, end, or step is not a compile-time
    /// integer constant.
    ConstantBoundRequired,
    /// A compile-time sequence was indexed with a value that is not a
    /// compile-time integer constant.
    ConstantIndexRequired,
    /// A compile-time sequence was indexed outside its length.
    IndexOutOfRange,
    /// A compile-time sequence was asked for a device-execution-time value;
    /// sequences have no representation at device-execution time.
    RuntimeSequence,
}

impl ExpandError {
    /// A short description of the failure.
    pub fn message(&self) -> (m: &'static str)
        ensures
            m@ == self.spec_message(),
    {
        match self {
            ExpandError::ConstantBoundRequired => "only constant bounds and step can be unrolled",
            ExpandError::ConstantIndexRequired => "only constant indices are supported",
            ExpandError::IndexOutOfRange => "sequence index out of range",
            ExpandError::RuntimeSequence => "sequences do not exist at device-execution time",
        }
    }

    /// The description `message` returns.
    pub open spec fn spec_message(self) -> Seq<char> {
        match self {
            ExpandError::ConstantBoundRequired => "only constant bounds and step can be unrolled"@,
            ExpandError::ConstantIndexRequired => "only constant indices are supported"@,
            ExpandError::IndexOutOfRange => "sequence index out of range"@,
            ExpandError::RuntimeSequence => "sequences do not exist at device-execution time"@,
        }
    }
}

} // verus!
