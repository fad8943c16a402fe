//! The scope-tree intermediate representation: value references, branch
//! nodes, and sealed scopes.

use vstd::prelude::*;

verus! {

/// Layout description of an IR value, used when declaring fresh local
/// variables.
#[derive(Clone, Copy, PartialEq, Eq, Structural, Debug)]
pub struct Shape {
    /// Identifies the element layout; the staging layer only threads it
    /// through, it never interprets it.
    pub code: u64,
}

/// A scalar whose value is fully known while the IR is being built.
#[derive(Clone, Copy, PartialEq, Eq, Structural, Debug)]
pub enum Constant {
    /// A compile-time-known integer.
    Int(i64),
    /// A compile-time-known boolean.
    Bool(bool),
}

/// A reference to an IR value: either a compile-time-known constant or a
/// runtime-allocated variable slot.
#[derive(Clone, Copy, PartialEq, Eq, Structural, Debug)]
pub enum Element {
    /// A constant known during expansion.
    Comptime {
        /// The constant's value.
        value: Constant,
        /// The constant's element layout.
        shape: Shape,
    },
    /// A variable slot allocated for device execution.
    Runtime {
        /// The slot's identity, unique within one expansion context.
        id: usize,
        /// The slot's element layout.
        shape: Shape,
    },
}

impl Element {
    /// The element's layout.
    pub fn shape(&self) -> (s: Shape)
        ensures
            s == self.spec_shape(),
    {
        match self {
            Element::Comptime { shape, .. } => *shape,
            Element::Runtime { shape, .. } => *shape,
        }
    }

    /// The element's layout, at the specification level.
    pub open spec fn spec_shape(self) -> Shape {
        match self {
            Element::Comptime { shape, .. } => shape,
            Element::Runtime { shape, .. } => shape,
        }
    }

    /// Does this element resolve to a compile-time constant, and if so to
    /// which one?
    pub fn as_const(&self) -> (c: Option<Constant>)
        ensures
            c == self.spec_as_const(),
    {
        match self {
            Element::Comptime { value, .. } => Some(*value),
            Element::Runtime { .. } => None,
        }
    }

    /// The constant this element resolves to, if any.
    pub open spec fn spec_as_const(self) -> Option<Constant> {
        match self {
            Element::Comptime { value, .. } => Some(value),
            Element::Runtime { .. } => None,
        }
    }

    /// The integer constant this element resolves to, if any.
    pub open spec fn spec_const_int(self) -> Option<i64> {
        match self {
            Element::Comptime { value: Constant::Int(v), .. } => Some(v),
            _ => None,
        }
    }

    /// The boolean constant this element resolves to, if any.
    pub open spec fn spec_const_bool(self) -> Option<bool> {
        match self {
            Element::Comptime { value: Constant::Bool(b), .. } => Some(b),
            _ => None,
        }
    }
}

/// A sealed scope: the ordered instruction list and the locally declared
/// variables of one block of kernel code.
#[derive(PartialEq, Eq, Debug)]
pub struct Scope {
    /// Registered instructions, in program order.
    pub instructions: Vec<Instruction>,
    /// Variables declared locally in this scope.
    pub vars: Vec<Element>,
}

/// A branch IR node; its scope fields are sealed subtrees owned exclusively
/// by the node.
#[derive(PartialEq, Eq, Debug)]
pub enum Branch {
    /// A conditional with no else arm.
    If {
        /// The runtime condition.
        cond: Element,
        /// The body of the conditional.
        scope: Scope,
    },
    /// A two-armed conditional.
    IfElse {
        /// The runtime condition.
        cond: Element,
        /// The arm taken when the condition holds.
        scope_if: Scope,
        /// The arm taken otherwise.
        scope_else: Scope,
    },
    /// An unconditional loop.
    Loop {
        /// The loop body.
        scope: Scope,
    },
    /// A loop over an integer range.
    RangeLoop {
        /// The loop variable.
        i: Element,
        /// The lower bound.
        start: Element,
        /// The upper bound.
        end: Element,
        /// The step, when one was given.
        step: Option<Element>,
        /// Whether the upper bound itself is iterated.
        inclusive: bool,
        /// The loop body.
        scope: Scope,
    },
    /// A marker telling the code generator to leave the enclosing loop.
    Break,
    /// A marker telling the code generator to leave the kernel function.
    Return,
}

/// One entry of a scope's instruction list: a plain statement or a branch
/// node.
#[derive(PartialEq, Eq, Debug)]
pub enum Instruction {
    /// Copy the source value into the destination slot.
    Assign {
        /// The value being copied.
        src: Element,
        /// The slot written to.
        dst: Element,
    },
    /// A structured control-flow node.
    Branch(Branch),
}

} // verus!
