//! Staging layer that lowers authored kernel control flow (loops,
//! conditionals, growable compile-time sequences) into a scope-tree
//! intermediate representation for a downstream device-code generator.

pub mod body;
pub mod branch;
pub mod context;
pub mod error;
pub mod ir;
pub mod iterable;
pub mod range;
pub mod range_stepped;
pub mod sequence;

pub use branch::IfElseExpand;
pub use branch::IfElseExprExpand;
pub use branch::break_expand;
pub use branch::for_expand;
pub use branch::if_else_expand;
pub use branch::if_else_expr_expand;
pub use branch::if_expand;
pub use branch::loop_expand;
pub use branch::return_expand;
pub use context::Context;
pub use error::ExpandError;
pub use ir::Branch;
pub use ir::Constant;
pub use ir::Element;
pub use ir::Instruction;
pub use ir::Scope;
pub use ir::Shape;
pub use iterable::Iterable;
pub use iterable::RangeExpand;
pub use iterable::SteppedRangeExpand;
pub use iterable::range_values;
pub use sequence::Sequence;
pub use sequence::SequenceExpand;
