//! The compile-time sequence: a growable, ordered container of kernel values
//! that exists only while the IR is being built and is fully consumed by
//! expansion.
//!
//! The sequence comes in two representations.  The plain [`Sequence`] owns
//! its values and is iterated once by consuming it.  The expansion-time
//! [`SequenceExpand`] is a handle into storage owned by the expansion
//! context: copying the handle does not duplicate the sequence — every copy
//! observes the same pushes.

use vstd::prelude::*;

use crate::body::body_chain;
use crate::body::loop_body_callable;
use crate::body::loop_body_disciplined;
use crate::context::Context;
use crate::error::ExpandError;
use crate::ir::Branch;
use crate::ir::Constant;
use crate::ir::Element;
use crate::ir::Scope;
use crate::ir::Shape;
use crate::iterable::Iterable;
use crate::iterable::comptime_int;
use crate::iterable::run_items;

verus! {

/// Looking a value up at a sequence position: the index must resolve to a
/// compile-time integer constant that lies inside the sequence.
pub open spec fn sequence_index(values: Seq<Element>, index: Element) -> Result<
    Element,
    ExpandError,
> {
    match index.spec_const_int() {
        Some(i) => if 0 <= i < values.len() {
            Ok(values[i as int])
        } else {
            Err(ExpandError::IndexOutOfRange)
        },
        None => Err(ExpandError::ConstantIndexRequired),
    }
}

/// A sequence holds exactly what was pushed, in insertion order: after three
/// pushes into a fresh sequence, position 1 holds the second value, the whole
/// content is the three values in order (which is what draining yields), and
/// position 3 is out of range.
pub proof fn lemma_three_pushes(v1: Element, v2: Element, v3: Element, shape: Shape)
    ensures
        ({
            let s = Seq::<Element>::empty().push(v1).push(v2).push(v3);
            &&& s == seq![v1, v2, v3]
            &&& sequence_index(s, comptime_int(1, shape)) == Ok::<Element, ExpandError>(v2)
            &&& sequence_index(s, comptime_int(3, shape)) == Err::<Element, ExpandError>(
                ExpandError::IndexOutOfRange,
            )
        }),
{
    assert(Seq::<Element>::empty().push(v1).push(v2).push(v3) =~= seq![v1, v2, v3]);
}

/// Look `index` up in a slice of values; shared by both sequence
/// representations.
fn index_values(values: &Vec<Element>, index: Element) -> (r: Result<Element, ExpandError>)
    ensures
        r == sequence_index(values@, index),
{
    match index.as_const() {
        Some(Constant::Int(i)) => {
            if 0 <= i && (i as u64) < (values.len() as u64) {
                Ok(values[i as usize])
            } else {
                Err(ExpandError::IndexOutOfRange)
            }
        },
        _ => Err(ExpandError::ConstantIndexRequired),
    }
}

/// A compile-time sequence in its plain form: values owned by value,
/// consumed once by iteration.
#[derive(Clone, PartialEq, Eq, Debug)]
pub struct Sequence {
    /// The values, in insertion order.
    pub values: Vec<Element>,
}

impl Sequence {
    /// A new empty sequence.
    pub fn new() -> (s: Sequence)
        ensures
            s.values@ == Seq::<Element>::empty(),
    {
        Sequence { values: Vec::new() }
    }

    /// How many values the sequence holds.
    pub fn len(&self) -> (n: usize)
        ensures
            n == self.values@.len(),
    {
        self.values.len()
    }

    /// Append a value at the end; the length grows by exactly one.
    pub fn push(&mut self, value: Element)
        ensures
            final(self).values@ == old(self).values@.push(value),
    {
        self.values.push(value);
    }

    /// The value at position `index`.  Fails unless `index` resolves to a
    /// compile-time integer constant inside the sequence.
    pub fn index(&self, index: Element) -> (r: Result<Element, ExpandError>)
        ensures
            r == sequence_index(self.values@, index),
    {
        index_values(&self.values, index)
    }

    /// Consume the sequence, yielding its values in insertion order.
    pub fn drain(self) -> (vs: Vec<Element>)
        ensures
            vs == self.values,
    {
        self.values
    }

    /// A sequence has no representation at device-execution time, so asking
    /// for a runtime value handle always fails.
    pub fn runtime(self) -> (r: Result<Element, ExpandError>)
        ensures
            r == Err::<Element, ExpandError>(ExpandError::RuntimeSequence),
    {
        Err(ExpandError::RuntimeSequence)
    }
}

impl Default for Sequence {
    /// An empty sequence.
    fn default() -> (s: Sequence)
        ensures
            s.values@ == Seq::<Element>::empty(),
    {
        Sequence::new()
    }
}

/// The expansion-time form of a sequence: a handle into storage owned by the
/// expansion context.  Copying the handle shares the storage.
#[derive(Clone, Copy, PartialEq, Eq, Structural, Debug)]
pub struct SequenceExpand {
    /// Position of the backing storage in the context's sequence table.
    pub handle: usize,
}

impl SequenceExpand {
    /// Does this handle point at storage of the given context?
    pub open spec fn valid_handle(self, ctx: Context) -> bool {
        self.handle < ctx.seqs@.len()
    }

    /// The values behind the handle, in insertion order.
    pub open spec fn contents(self, ctx: Context) -> Seq<Element> {
        ctx.seqs@[self.handle as int]@
    }

    /// A new empty sequence whose storage lives in the context.
    pub fn new(ctx: &mut Context) -> (s: SequenceExpand)
        requires
            old(ctx).wf(),
        ensures
            final(ctx).wf(),
            Context::body_step(*old(ctx), *final(ctx)),
            s.handle == old(ctx).seqs@.len(),
            s.valid_handle(*final(ctx)),
            s.contents(*final(ctx)) == Seq::<Element>::empty(),
            final(ctx).scopes == old(ctx).scopes,
            final(ctx).locals == old(ctx).locals,
            final(ctx).seqs@.len() == old(ctx).seqs@.len() + 1,
            forall|k: int|
                0 <= k < old(ctx).seqs@.len() ==> final(ctx).seqs@[k] == old(ctx).seqs@[k],
    {
        let h = ctx.seqs.len();
        ctx.seqs.push(Vec::new());
        proof {
            old(ctx).lemma_body_step_reflexive();
        }
        SequenceExpand { handle: h }
    }

    /// Append a value to the shared storage; every copy of the handle sees
    /// it.
    pub fn push(&self, ctx: &mut Context, value: Element)
        requires
            old(ctx).wf(),
            self.valid_handle(*old(ctx)),
        ensures
            final(ctx).wf(),
            Context::body_step(*old(ctx), *final(ctx)),
            self.contents(*final(ctx)) == self.contents(*old(ctx)).push(value),
            final(ctx).scopes == old(ctx).scopes,
            final(ctx).locals == old(ctx).locals,
            final(ctx).seqs@.len() == old(ctx).seqs@.len(),
            forall|k: int|
                0 <= k < old(ctx).seqs@.len() && k != self.handle ==> final(ctx).seqs@[k] == old(
                    ctx,
                ).seqs@[k],
    {
        let i = self.handle;
        ctx.seqs[i].push(value);
        proof {
            old(ctx).lemma_body_step_reflexive();
        }
    }

    /// The value at position `index`.  Fails unless `index` resolves to a
    /// compile-time integer constant inside the sequence.
    pub fn index(&self, ctx: &Context, index: Element) -> (r: Result<Element, ExpandError>)
        requires
            self.valid_handle(*ctx),
        ensures
            r == sequence_index(self.contents(*ctx), index),
    {
        let i = self.handle;
        index_values(&ctx.seqs[i], index)
    }

    /// Take the values out of the shared storage, in insertion order, leaving
    /// it empty: a sequence is one-shot once iterated.
    pub fn drain(&self, ctx: &mut Context) -> (vs: Vec<Element>)
        requires
            old(ctx).wf(),
            self.valid_handle(*old(ctx)),
        ensures
            final(ctx).wf(),
            Context::body_step(*old(ctx), *final(ctx)),
            vs@ == self.contents(*old(ctx)),
            self.contents(*final(ctx)) == Seq::<Element>::empty(),
            final(ctx).scopes == old(ctx).scopes,
            final(ctx).locals == old(ctx).locals,
            final(ctx).seqs@.len() == old(ctx).seqs@.len(),
            forall|k: int|
                0 <= k < old(ctx).seqs@.len() && k != self.handle ==> final(ctx).seqs@[k] == old(
                    ctx,
                ).seqs@[k],
    {
        let i = self.handle;
        let mut tmp: Vec<Element> = Vec::new();
        core::mem::swap(&mut ctx.seqs[i], &mut tmp);
        proof {
            old(ctx).lemma_body_step_reflexive();
        }
        tmp
    }
}

impl Iterable for SequenceExpand {
    open spec fn valid(self, pre: Context) -> bool {
        self.valid_handle(pre)
    }

    open spec fn unroll_plan(self, pre: Context) -> Result<Seq<Element>, ExpandError> {
        Ok(self.contents(pre))
    }

    open spec fn consumes(self, pre: Context, mid: Context) -> bool {
        &&& mid.scopes == pre.scopes
        &&& mid.locals == pre.locals
        &&& mid.seqs@.len() == pre.seqs@.len()
        &&& mid.seqs@[self.handle as int]@ == Seq::<Element>::empty()
        &&& forall|k: int|
            0 <= k < pre.seqs@.len() && k != self.handle ==> mid.seqs@[k] == pre.seqs@[k]
    }

    /// A sequence's length is always known while building the IR, so there is
    /// no dynamic form: both strategies inline the body.
    open spec fn inlines_dynamic(self) -> bool {
        true
    }

    /// Never consulted: a sequence expansion mints no loop variable.
    open spec fn var_shape(self) -> Shape {
        Shape { code: 0 }
    }

    /// Never emitted: a sequence expansion registers no loop node.
    open spec fn loop_node(self, i: Element, scope: Scope) -> Branch {
        Branch::Loop { scope }
    }

    fn expand<F: FnMut(Context, Element) -> Context>(self, ctx: &mut Context, body: F) {
        let r = self.expand_unroll(ctx, body);
    }

    fn expand_unroll<F: FnMut(Context, Element) -> Context>(
        self,
        ctx: &mut Context,
        body: F,
    ) -> (r: Result<(), ExpandError>) {
        let items = self.drain(ctx);
        let ghost mid = *ctx;
        proof {
            assert forall|c: Context, e: Element| c.wf() && c.extends(mid) implies call_requires(
                body,
                (c, e),
            ) by {
                c.lemma_extends_transitive(mid, *old(ctx));
            }
        }
        run_items(ctx, items, body);
        proof {
            assert(self.consumes(*old(ctx), mid));
            Context::lemma_body_step_transitive(*old(ctx), mid, *ctx);
        }
        Ok(())
    }
}

} // verus!
