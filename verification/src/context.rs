//! The expansion context: the staging-time handle threaded through every
//! lowering call.
//!
//! A context owns a stack of scopes under construction (the bottom entry is
//! the kernel function's root scope, each higher entry a child of the one
//! below it), a log of every runtime variable slot allocated so far, and the
//! backing storage of every compile-time sequence created during this
//! expansion.

use vstd::prelude::*;

use crate::ir::Branch;
use crate::ir::Element;
use crate::ir::Instruction;
use crate::ir::Scope;
use crate::ir::Shape;

verus! {

/// The staging-time handle threaded through every expansion call.
pub struct Context {
    /// Scopes under construction; the last entry is the current scope.
    pub scopes: Vec<Scope>,
    /// The layout of every runtime variable slot allocated so far; a slot's
    /// identity is its position in this log.
    pub locals: Vec<Shape>,
    /// Backing storage of the compile-time sequences created during this
    /// expansion; a sequence handle is a position in this table.
    pub seqs: Vec<Vec<Element>>,
}

impl Context {
    /// A context is well formed while the root scope is still on the stack.
    pub open spec fn wf(self) -> bool {
        self.scopes@.len() >= 1
    }

    /// The scope currently being built.
    pub open spec fn cur(self) -> Scope {
        self.scopes@.last()
    }

    /// The instruction list of the current scope.
    pub open spec fn cur_instructions(self) -> Seq<Instruction> {
        self.cur().instructions@
    }

    /// `self` is a later stage of the same expansion as `base`: variable
    /// slots are only ever added, never reused, and sequence handles stay
    /// valid.
    pub open spec fn extends(self, base: Context) -> bool {
        &&& self.locals@.len() >= base.locals@.len()
        &&& self.locals@.take(base.locals@.len() as int) == base.locals@
        &&& self.seqs@.len() >= base.seqs@.len()
    }

    /// `extends` is reflexive.
    pub proof fn lemma_extends_reflexive(self)
        ensures
            self.extends(self),
    {
        assert(self.locals@.take(self.locals@.len() as int) =~= self.locals@);
    }

    /// `extends` is transitive.
    pub proof fn lemma_extends_transitive(self, mid: Context, base: Context)
        requires
            self.extends(mid),
            mid.extends(base),
        ensures
            self.extends(base),
    {
        assert(self.locals@.take(base.locals@.len() as int) =~= mid.locals@.take(
            base.locals@.len() as int,
        ));
    }

    /// Leaving a context alone is a body step.
    pub proof fn lemma_body_step_reflexive(self)
        ensures
            Context::body_step(self, self),
    {
        self.lemma_extends_reflexive();
        assert(self.cur().instructions@.is_prefix_of(self.cur().instructions@));
        assert(self.cur().vars@.is_prefix_of(self.cur().vars@));
    }

    /// What a loop or branch body may do to the context handed to it: grow
    /// the current scope, allocate variables and sequences, and change
    /// sequence contents, but never disturb the enclosing scopes.
    pub open spec fn body_step(pre: Context, post: Context) -> bool {
        &&& post.scopes@.len() == pre.scopes@.len()
        &&& forall|k: int|
            0 <= k < pre.scopes@.len() - 1 ==> post.scopes@[k] == pre.scopes@[k]
        &&& pre.cur().instructions@.is_prefix_of(post.cur().instructions@)
        &&& pre.cur().vars@.is_prefix_of(post.cur().vars@)
        &&& post.extends(pre)
    }

    /// Everything the caller of an expansion call keeps of its context: the
    /// enclosing scopes are untouched and the current scope has only grown.
    /// `body_step` composes.
    pub proof fn lemma_body_step_transitive(pre: Context, mid: Context, post: Context)
        requires
            Context::body_step(pre, mid),
            Context::body_step(mid, post),
        ensures
            Context::body_step(pre, post),
    {
        post.lemma_extends_transitive(mid, pre);
    }

    /// A fresh context over an empty root scope.
    pub fn new() -> (ctx: Context)
        ensures
            ctx.wf(),
            ctx.scopes@.len() == 1,
            ctx.cur().instructions@ == Seq::<Instruction>::empty(),
            ctx.cur().vars@ == Seq::<Element>::empty(),
            ctx.locals@ == Seq::<Shape>::empty(),
            ctx.seqs@ == Seq::<Vec<Element>>::empty(),
    {
        let mut scopes: Vec<Scope> = Vec::new();
        scopes.push(Scope { instructions: Vec::new(), vars: Vec::new() });
        Context { scopes, locals: Vec::new(), seqs: Vec::new() }
    }

    /// Enter a fresh empty scope nested under the current one.  The caller
    /// builds the child's body, then takes it back with [`Context::seal`].
    pub fn child(&mut self)
        requires
            old(self).wf(),
        ensures
            final(self).wf(),
            final(self).scopes@ == old(self).scopes@.push(final(self).cur()),
            final(self).cur().instructions@ == Seq::<Instruction>::empty(),
            final(self).cur().vars@ == Seq::<Element>::empty(),
            final(self).locals == old(self).locals,
            final(self).seqs == old(self).seqs,
    {
        self.scopes.push(Scope { instructions: Vec::new(), vars: Vec::new() });
    }

    /// Seal the current scope: take it off the stack as a finished subtree,
    /// ready to be attached to the branch node that owns it.
    pub fn seal(&mut self) -> (scope: Scope)
        requires
            old(self).wf(),
            old(self).scopes@.len() >= 2,
        ensures
            final(self).wf(),
            scope == old(self).cur(),
            final(self).scopes@ == old(self).scopes@.drop_last(),
            final(self).locals == old(self).locals,
            final(self).seqs == old(self).seqs,
    {
        self.scopes.pop().unwrap()
    }

    /// Finish the whole expansion: seal the root scope of a context whose
    /// children have all been sealed, yielding the kernel function's scope
    /// tree.
    pub fn finish(self) -> (scope: Scope)
        requires
            self.wf(),
            self.scopes@.len() == 1,
        ensures
            scope == self.cur(),
    {
        let mut scopes = self.scopes;
        scopes.pop().unwrap()
    }

    /// Append a finished branch node to the current scope's instruction
    /// list.
    pub fn register(&mut self, branch: Branch)
        requires
            old(self).wf(),
        ensures
            final(self).wf(),
            Context::registered(*old(self), *final(self), branch),
    {
        let i = self.scopes.len() - 1;
        self.scopes[i].instructions.push(Instruction::Branch(branch));
    }

    /// `mid` is `pre` after a fresh empty child scope was entered.
    pub open spec fn entered_child(pre: Context, mid: Context) -> bool {
        &&& mid.scopes@.len() == pre.scopes@.len() + 1
        &&& forall|k: int| 0 <= k < pre.scopes@.len() ==> mid.scopes@[k] == pre.scopes@[k]
        &&& mid.cur().instructions@ == Seq::<Instruction>::empty()
        &&& mid.cur().vars@ == Seq::<Element>::empty()
        &&& mid.locals == pre.locals
        &&& mid.seqs == pre.seqs
    }

    /// `post` is `pre` after a child subtree was built and sealed away from
    /// the stack: the stack looks as it did, only the allocations made while
    /// building the subtree (`d` is the builder's last state) are kept.
    pub open spec fn child_sealed(pre: Context, d: Context, post: Context) -> bool {
        &&& post.scopes@.len() == pre.scopes@.len()
        &&& forall|k: int| 0 <= k < pre.scopes@.len() ==> post.scopes@[k] == pre.scopes@[k]
        &&& post.locals == d.locals
        &&& post.seqs == d.seqs
    }

    /// `post` is `pre` with the sealed subtree of builder state `d` attached
    /// under `node`, which is appended to `pre`'s current scope; the
    /// allocations the builder made are kept.
    pub open spec fn emitted_into(pre: Context, d: Context, post: Context, node: Branch) -> bool {
        &&& post.scopes@.len() == pre.scopes@.len()
        &&& forall|k: int|
            0 <= k < pre.scopes@.len() - 1 ==> post.scopes@[k] == pre.scopes@[k]
        &&& post.cur().instructions@ == pre.cur().instructions@.push(Instruction::Branch(node))
        &&& post.cur().vars == pre.cur().vars
        &&& post.locals == d.locals
        &&& post.seqs == d.seqs
    }

    /// `post` is `pre` with exactly `branch` appended to the current scope.
    pub open spec fn registered(pre: Context, post: Context, branch: Branch) -> bool {
        &&& post.scopes@.len() == pre.scopes@.len()
        &&& forall|k: int|
            0 <= k < pre.scopes@.len() - 1 ==> post.scopes@[k] == pre.scopes@[k]
        &&& post.cur().instructions@ == pre.cur().instructions@.push(Instruction::Branch(branch))
        &&& post.cur().vars == pre.cur().vars
        &&& post.locals == pre.locals
        &&& post.seqs == pre.seqs
    }

    /// Allocate a fresh runtime variable slot of the given shape and declare
    /// it in the current scope.
    pub fn create_local(&mut self, shape: Shape) -> (e: Element)
        requires
            old(self).wf(),
        ensures
            final(self).wf(),
            e == (Element::Runtime { id: old(self).locals@.len() as usize, shape }),
            final(self).scopes@.len() == old(self).scopes@.len(),
            forall|k: int|
                0 <= k < old(self).scopes@.len() - 1 ==> final(self).scopes@[k]
                    == old(self).scopes@[k],
            final(self).cur().instructions == old(self).cur().instructions,
            final(self).cur().vars@ == old(self).cur().vars@.push(e),
            final(self).locals@ == old(self).locals@.push(shape),
            final(self).seqs == old(self).seqs,
    {
        let e = Element::Runtime { id: self.locals.len(), shape };
        self.locals.push(shape);
        let i = self.scopes.len() - 1;
        self.scopes[i].vars.push(e);
        e
    }

    /// Allocate a fresh runtime variable slot of the given shape without
    /// declaring it; used for loop variables, which the loop node itself
    /// introduces.
    pub fn create_local_undeclared(&mut self, shape: Shape) -> (e: Element)
        requires
            old(self).wf(),
        ensures
            final(self).wf(),
            e == (Element::Runtime { id: old(self).locals@.len() as usize, shape }),
            final(self).scopes == old(self).scopes,
            final(self).locals@ == old(self).locals@.push(shape),
            final(self).seqs == old(self).seqs,
    {
        let e = Element::Runtime { id: self.locals.len(), shape };
        self.locals.push(shape);
        e
    }
}

} // verus!
