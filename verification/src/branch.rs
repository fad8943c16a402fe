//! Lowering of conditionals, loops, and control transfers.
//!
//! Every function here queries whether its condition (or bounds) resolves to
//! a compile-time constant and specializes accordingly: constant conditionals
//! are resolved on the spot and leave no IR behind, runtime conditionals emit
//! a branch node carrying the sealed scopes of their arms.

use vstd::prelude::*;

use crate::body::loop_body_callable;
use crate::body::loop_body_disciplined;
use crate::body::body_chain;
use crate::body::stmt_body_callable;
use crate::body::stmt_body_disciplined;
use crate::body::value_body_callable;
use crate::body::value_body_disciplined;
use crate::context::Context;
use crate::error::ExpandError;
use crate::ir::Branch;
use crate::ir::Constant;
use crate::ir::Element;
use crate::ir::Instruction;
use crate::ir::Scope;
use crate::iterable::Iterable;
use crate::iterable::dynamic_loop_var;
use crate::iterable::dynamic_setup;

verus! {

/// A condition element either resolves to a boolean constant or is a runtime
/// value; a conditional over a compile-time integer is not stageable.
pub open spec fn valid_condition(cond: Element) -> bool {
    cond.spec_as_const() matches Some(c) ==> c matches Constant::Bool(_)
}

/// The output slot an expression-form conditional allocates once the then
/// arm, whose builder ended in state `d`, returned `ret`.
pub open spec fn expr_out(d: Context, ret: Element) -> Element {
    Element::Runtime { id: d.locals@.len() as usize, shape: ret.spec_shape() }
}

/// The handle an expression-form conditional returns for a runtime
/// condition: the then arm sealed with a trailing assignment of its value
/// `ret` into the shared output slot.
pub open spec fn expr_then_handle(
    h: IfElseExprExpand,
    cond: Element,
    d: Context,
    ret: Element,
) -> bool {
    let out = expr_out(d, ret);
    match h {
        IfElseExprExpand::Runtime { cond: hcond, out: hout, scope_then } => {
            &&& hcond == cond
            &&& hout == out
            &&& scope_then.instructions@ == d.cur().instructions@.push(
                Instruction::Assign { src: ret, dst: out },
            )
            &&& scope_then.vars == d.cur().vars
            &&& ends_with_assign_into(scope_then, out)
        },
        _ => false,
    }
}

/// The caller's context once the then arm of an expression-form conditional
/// is sealed: nothing registered yet, the output slot declared in the current
/// scope, the arm's allocations kept.
pub open spec fn expr_then_state(
    pre: Context,
    post: Context,
    d: Context,
    ret: Element,
) -> bool {
    let out = expr_out(d, ret);
    &&& post.scopes@.len() == pre.scopes@.len()
    &&& forall|k: int| 0 <= k < pre.scopes@.len() - 1 ==> post.scopes@[k] == pre.scopes@[k]
    &&& post.cur().instructions == pre.cur().instructions
    &&& post.cur().vars@ == pre.cur().vars@.push(out)
    &&& post.locals@ == d.locals@.push(ret.spec_shape())
    &&& post.seqs == d.seqs
}

/// The caller's context once `or_else` finished a runtime expression-form
/// conditional: exactly one `IfElse` node appended whose then arm is the
/// sealed `scope_then` and whose else arm is the else builder's scope (ending
/// in state `d` with value `eret`) sealed with a trailing assignment into the
/// shared output slot.
pub open spec fn expr_else_emitted(
    pre: Context,
    post: Context,
    cond: Element,
    out: Element,
    scope_then: Scope,
    d: Context,
    eret: Element,
) -> bool {
    &&& post.cur().instructions@.len() == pre.cur().instructions@.len() + 1
    &&& post.cur().instructions@.drop_last() == pre.cur().instructions@
    &&& match post.cur().instructions@.last() {
        Instruction::Branch(Branch::IfElse { cond: ncond, scope_if, scope_else }) => {
            &&& ncond == cond
            &&& scope_if == scope_then
            &&& scope_else.instructions@ == d.cur().instructions@.push(
                Instruction::Assign { src: eret, dst: out },
            )
            &&& scope_else.vars == d.cur().vars
            &&& ends_with_assign_into(scope_else, out)
        },
        _ => false,
    }
    &&& post.scopes@.len() == pre.scopes@.len()
    &&& forall|k: int| 0 <= k < pre.scopes@.len() - 1 ==> post.scopes@[k] == pre.scopes@[k]
    &&& post.cur().vars == pre.cur().vars
    &&& post.locals == d.locals
    &&& post.seqs == d.seqs
}

/// A scope whose last instruction assigns into `out`.
pub open spec fn ends_with_assign_into(s: Scope, out: Element) -> bool {
    &&& s.instructions@.len() >= 1
    &&& s.instructions@.last() matches Instruction::Assign { src: _, dst } && dst == out
}

/// Lower a statement-form `if`.  A constant-true condition runs the block
/// directly in the caller's scope and emits nothing; a constant-false
/// condition does nothing at all; a runtime condition builds the block in a
/// child scope and emits one `If` node owning it.
pub fn if_expand<F: FnOnce(Context) -> Context>(ctx: &mut Context, cond: Element, block: F)
    requires
        old(ctx).wf(),
        valid_condition(cond),
        stmt_body_callable(block, *old(ctx)),
        stmt_body_disciplined(block),
    ensures
        final(ctx).wf(),
        Context::body_step(*old(ctx), *final(ctx)),
        cond.spec_const_bool() == Some(true) ==> call_ensures(block, (*old(ctx),), *final(ctx)),
        cond.spec_const_bool() == Some(false) ==> *final(ctx) == *old(ctx),
        cond.spec_as_const() is None ==> exists|mid: Context, d: Context|
            {
                &&& Context::entered_child(*old(ctx), mid)
                &&& #[trigger] call_ensures(block, (mid,), d)
                &&& Context::emitted_into(
                    *old(ctx),
                    d,
                    *final(ctx),
                    Branch::If { cond, scope: d.cur() },
                )
            },
{
    match cond.as_const() {
        Some(Constant::Bool(true)) => {
            let mut cur = Context::new();
            core::mem::swap(ctx, &mut cur);
            proof {
                cur.lemma_extends_reflexive();
            }
            cur = block(cur);
            *ctx = cur;
        },
        Some(Constant::Bool(false)) => {
            proof {
                old(ctx).lemma_body_step_reflexive();
            }
        },
        Some(Constant::Int(_)) => {
            // ruled out by `valid_condition`: a condition never resolves to
            // a compile-time integer
            proof {
                assert(false);
            }
        },
        None => {
            ctx.child();
            let mut cur = Context::new();
            core::mem::swap(ctx, &mut cur);
            let ghost mid = cur;
            proof {
                cur.lemma_extends_reflexive();
                assert(cur.extends(*old(ctx)));
            }
            cur = block(cur);
            let ghost d = cur;
            *ctx = cur;
            proof {
                assert(Context::body_step(mid, d));
            }
            let scope = ctx.seal();
            ctx.register(Branch::If { cond, scope });
            proof {
                assert(Context::entered_child(*old(ctx), mid));
                assert(Context::emitted_into(
                    *old(ctx),
                    d,
                    *ctx,
                    Branch::If { cond, scope: d.cur() },
                ));
                d.lemma_extends_transitive(mid, *old(ctx));
                assert(Context::body_step(*old(ctx), *ctx));
            }
        },
    }
}

/// What `if_else_expand` hands back, waiting for the else arm: either the
/// conditional was already resolved at compile time, or the then arm sits in
/// a sealed scope waiting for its `IfElse` node.
#[derive(PartialEq, Eq, Debug)]
pub enum IfElseExpand {
    /// The condition was constant true; the then block already ran.
    ComptimeThen,
    /// The condition was constant false; the else block is still owed.
    ComptimeElse,
    /// The condition is a runtime value; the then arm is built and sealed.
    Runtime {
        /// The runtime condition.
        cond: Element,
        /// The sealed then arm.
        scope_then: Scope,
    },
}

/// Lower the first half of a statement-form `if`/`else`: evaluate the then
/// arm as the condition demands and hand back what `or_else` needs.
pub fn if_else_expand<F: FnOnce(Context) -> Context>(
    ctx: &mut Context,
    cond: Element,
    then_block: F,
) -> (h: IfElseExpand)
    requires
        old(ctx).wf(),
        valid_condition(cond),
        stmt_body_callable(then_block, *old(ctx)),
        stmt_body_disciplined(then_block),
    ensures
        final(ctx).wf(),
        Context::body_step(*old(ctx), *final(ctx)),
        cond.spec_const_bool() == Some(true) ==> h == IfElseExpand::ComptimeThen && call_ensures(
            then_block,
            (*old(ctx),),
            *final(ctx),
        ),
        cond.spec_const_bool() == Some(false) ==> h == IfElseExpand::ComptimeElse && *final(ctx)
            == *old(ctx),
        cond.spec_as_const() is None ==> exists|mid: Context, d: Context|
            {
                &&& Context::entered_child(*old(ctx), mid)
                &&& #[trigger] call_ensures(then_block, (mid,), d)
                &&& h == (IfElseExpand::Runtime { cond, scope_then: d.cur() })
                &&& Context::child_sealed(*old(ctx), d, *final(ctx))
            },
{
    match cond.as_const() {
        Some(Constant::Bool(true)) => {
            let mut cur = Context::new();
            core::mem::swap(ctx, &mut cur);
            proof {
                cur.lemma_extends_reflexive();
            }
            cur = then_block(cur);
            *ctx = cur;
            IfElseExpand::ComptimeThen
        },
        Some(Constant::Bool(false)) => {
            proof {
                old(ctx).lemma_body_step_reflexive();
            }
            IfElseExpand::ComptimeElse
        },
        Some(Constant::Int(_)) => {
            // ruled out by `valid_condition`: a condition never resolves to
            // a compile-time integer
            proof {
                assert(false);
            }
            IfElseExpand::ComptimeElse
        },
        None => {
            ctx.child();
            let mut cur = Context::new();
            core::mem::swap(ctx, &mut cur);
            let ghost mid = cur;
            proof {
                cur.lemma_extends_reflexive();
                assert(cur.extends(*old(ctx)));
            }
            cur = then_block(cur);
            let ghost d = cur;
            *ctx = cur;
            proof {
                assert(Context::body_step(mid, d));
            }
            let scope_then = ctx.seal();
            proof {
                assert(Context::entered_child(*old(ctx), mid));
                assert(Context::child_sealed(*old(ctx), d, *ctx));
                d.lemma_extends_transitive(mid, *old(ctx));
                assert(Context::body_step(*old(ctx), *ctx));
            }
            IfElseExpand::Runtime { cond, scope_then }
        },
    }
}

impl IfElseExpand {
    /// Lower the second half of a statement-form `if`/`else`.  After a
    /// constant-true condition nothing happens; after a constant-false one
    /// the else block runs directly in the caller's scope; a runtime
    /// condition builds the else arm in a child scope and emits one `IfElse`
    /// node owning both arms.
    pub fn or_else<F: FnOnce(Context) -> Context>(self, ctx: &mut Context, else_block: F)
        requires
            old(ctx).wf(),
            stmt_body_callable(else_block, *old(ctx)),
            stmt_body_disciplined(else_block),
        ensures
            final(ctx).wf(),
            Context::body_step(*old(ctx), *final(ctx)),
            self matches IfElseExpand::ComptimeThen ==> *final(ctx) == *old(ctx),
            self matches IfElseExpand::ComptimeElse ==> call_ensures(
                else_block,
                (*old(ctx),),
                *final(ctx),
            ),
            self matches IfElseExpand::Runtime { cond, scope_then } ==> exists|
                mid: Context,
                d: Context,
            |
                {
                    &&& Context::entered_child(*old(ctx), mid)
                    &&& #[trigger] call_ensures(else_block, (mid,), d)
                    &&& Context::emitted_into(
                        *old(ctx),
                        d,
                        *final(ctx),
                        Branch::IfElse { cond, scope_if: scope_then, scope_else: d.cur() },
                    )
                },
    {
        match self {
            IfElseExpand::ComptimeThen => {
                proof {
                    old(ctx).lemma_body_step_reflexive();
                }
            },
            IfElseExpand::ComptimeElse => {
                let mut cur = Context::new();
                core::mem::swap(ctx, &mut cur);
                proof {
                    cur.lemma_extends_reflexive();
                }
                cur = else_block(cur);
                *ctx = cur;
            },
            IfElseExpand::Runtime { cond, scope_then } => {
                ctx.child();
                let mut cur = Context::new();
                core::mem::swap(ctx, &mut cur);
                let ghost mid = cur;
                proof {
                    cur.lemma_extends_reflexive();
                    assert(cur.extends(*old(ctx)));
                }
                cur = else_block(cur);
                let ghost d = cur;
                *ctx = cur;
                proof {
                    assert(Context::body_step(mid, d));
                }
                let scope_else = ctx.seal();
                ctx.register(
                    Branch::IfElse { cond, scope_if: scope_then, scope_else },
                );
                proof {
                    assert(Context::entered_child(*old(ctx), mid));
                    d.lemma_extends_transitive(mid, *old(ctx));
                    assert(Context::body_step(*old(ctx), *ctx));
                }
            },
        }
    }
}

/// What `if_else_expr_expand` hands back for an expression-form conditional.
#[derive(PartialEq, Eq, Debug)]
pub enum IfElseExprExpand {
    /// The condition was constant true; here is the then arm's value.
    ComptimeThen(Element),
    /// The condition was constant false; the else arm will supply the value.
    ComptimeElse,
    /// The condition is a runtime value; the then arm is sealed and already
    /// assigns into the shared output slot.
    Runtime {
        /// The runtime condition.
        cond: Element,
        /// The output slot both arms write, declared in the caller's scope.
        out: Element,
        /// The sealed then arm.
        scope_then: Scope,
    },
}

/// Lower the first half of an expression-form `if`/`else`, whose arms yield a
/// value.  A constant-true condition runs the then block in the caller's
/// scope and its value is the whole expression's value; a constant-false one
/// defers entirely to `or_else`; a runtime condition builds the then arm in a
/// child scope, allocates one output slot in the caller's scope, and makes
/// the arm assign its value into that slot.
pub fn if_else_expr_expand<F: FnOnce(Context) -> (Context, Element)>(
    ctx: &mut Context,
    cond: Element,
    then_block: F,
) -> (h: IfElseExprExpand)
    requires
        old(ctx).wf(),
        valid_condition(cond),
        value_body_callable(then_block, *old(ctx)),
        value_body_disciplined(then_block),
    ensures
        final(ctx).wf(),
        Context::body_step(*old(ctx), *final(ctx)),
        cond.spec_const_bool() == Some(true) ==> (h matches IfElseExprExpand::ComptimeThen(ret)
            && call_ensures(then_block, (*old(ctx),), (*final(ctx), ret))),
        cond.spec_const_bool() == Some(false) ==> h == IfElseExprExpand::ComptimeElse
            && *final(ctx) == *old(ctx),
        cond.spec_as_const() is None ==> exists|mid: Context, d: Context, ret: Element|
            {
                &&& Context::entered_child(*old(ctx), mid)
                &&& #[trigger] call_ensures(then_block, (mid,), (d, ret))
                &&& expr_then_handle(h, cond, d, ret)
                &&& expr_then_state(*old(ctx), *final(ctx), d, ret)
            },
{
    match cond.as_const() {
        Some(Constant::Bool(true)) => {
            let mut cur = Context::new();
            core::mem::swap(ctx, &mut cur);
            proof {
                cur.lemma_extends_reflexive();
            }
            let pair = then_block(cur);
            let ret = pair.1;
            *ctx = pair.0;
            IfElseExprExpand::ComptimeThen(ret)
        },
        Some(Constant::Bool(false)) => {
            proof {
                old(ctx).lemma_body_step_reflexive();
            }
            IfElseExprExpand::ComptimeElse
        },
        Some(Constant::Int(_)) => {
            // ruled out by `valid_condition`: a condition never resolves to
            // a compile-time integer
            proof {
                assert(false);
            }
            IfElseExprExpand::ComptimeElse
        },
        None => {
            ctx.child();
            let mut cur = Context::new();
            core::mem::swap(ctx, &mut cur);
            let ghost mid = cur;
            proof {
                cur.lemma_extends_reflexive();
                assert(cur.extends(*old(ctx)));
            }
            let pair = then_block(cur);
            let ret = pair.1;
            let ghost d = pair.0;
            *ctx = pair.0;
            proof {
                assert(Context::body_step(mid, d));
            }
            let mut scope_then = ctx.seal();
            let out = ctx.create_local(ret.shape());
            scope_then.instructions.push(Instruction::Assign { src: ret, dst: out });
            proof {
                assert(Context::entered_child(*old(ctx), mid));
                d.lemma_extends_transitive(mid, *old(ctx));
                assert((*ctx).locals@.take(old(ctx).locals@.len() as int) =~= d.locals@.take(
                    old(ctx).locals@.len() as int,
                ));
                assert(Context::body_step(*old(ctx), *ctx));
            }
            IfElseExprExpand::Runtime { cond, out, scope_then }
        },
    }
}

impl IfElseExprExpand {
    /// Lower the second half of an expression-form `if`/`else` and return the
    /// whole expression's value.  After a constant-true condition the then
    /// value is returned untouched; after a constant-false one the else block
    /// runs in the caller's scope and its value is returned; a runtime
    /// condition builds the else arm in a child scope, makes it assign into
    /// the shared output slot, emits one `IfElse` node owning both arms, and
    /// returns the slot.
    pub fn or_else<F: FnOnce(Context) -> (Context, Element)>(
        self,
        ctx: &mut Context,
        else_block: F,
    ) -> (res: Element)
        requires
            old(ctx).wf(),
            value_body_callable(else_block, *old(ctx)),
            value_body_disciplined(else_block),
        ensures
            final(ctx).wf(),
            Context::body_step(*old(ctx), *final(ctx)),
            self matches IfElseExprExpand::ComptimeThen(ret) ==> res == ret
                && *final(ctx) == *old(ctx),
            self matches IfElseExprExpand::ComptimeElse ==> call_ensures(
                else_block,
                (*old(ctx),),
                (*final(ctx), res),
            ),
            self matches IfElseExprExpand::Runtime { cond, out, scope_then } ==> res == out
                && exists|mid: Context, d: Context, eret: Element|
                {
                    &&& Context::entered_child(*old(ctx), mid)
                    &&& #[trigger] call_ensures(else_block, (mid,), (d, eret))
                    &&& expr_else_emitted(
                        *old(ctx),
                        *final(ctx),
                        cond,
                        out,
                        scope_then,
                        d,
                        eret,
                    )
                },
    {
        match self {
            IfElseExprExpand::ComptimeThen(ret) => {
                proof {
                    old(ctx).lemma_body_step_reflexive();
                }
                ret
            },
            IfElseExprExpand::ComptimeElse => {
                let mut cur = Context::new();
                core::mem::swap(ctx, &mut cur);
                proof {
                    cur.lemma_extends_reflexive();
                }
                let pair = else_block(cur);
                *ctx = pair.0;
                pair.1
            },
            IfElseExprExpand::Runtime { cond, out, scope_then } => {
                ctx.child();
                let mut cur = Context::new();
                core::mem::swap(ctx, &mut cur);
                let ghost mid = cur;
                proof {
                    cur.lemma_extends_reflexive();
                    assert(cur.extends(*old(ctx)));
                }
                let pair = else_block(cur);
                let eret = pair.1;
                let ghost d = pair.0;
                *ctx = pair.0;
                proof {
                    assert(Context::body_step(mid, d));
                }
                let mut scope_else = ctx.seal();
                scope_else.instructions.push(Instruction::Assign { src: eret, dst: out });
                ctx.register(
                    Branch::IfElse { cond, scope_if: scope_then, scope_else },
                );
                proof {
                    assert(Context::entered_child(*old(ctx), mid));
                    d.lemma_extends_transitive(mid, *old(ctx));
                    assert(Context::body_step(*old(ctx), *ctx));
                }
                out
            },
        }
    }
}

/// Lower an unconditional loop: build the body once in a child scope and emit
/// one `Loop` node owning it.  The body callback is `FnMut`, not `FnOnce`: a
/// lowering call invokes it once, but re-expansion of the enclosing kernel
/// must be able to invoke it again.
pub fn loop_expand<F: FnMut(Context) -> Context>(ctx: &mut Context, mut block: F)
    requires
        old(ctx).wf(),
        stmt_body_callable(block, *old(ctx)),
        stmt_body_disciplined(block),
    ensures
        final(ctx).wf(),
        Context::body_step(*old(ctx), *final(ctx)),
        exists|mid: Context, d: Context|
            {
                &&& Context::entered_child(*old(ctx), mid)
                &&& #[trigger] call_ensures(block, (mid,), d)
                &&& Context::emitted_into(
                    *old(ctx),
                    d,
                    *final(ctx),
                    Branch::Loop { scope: d.cur() },
                )
            },
{
    ctx.child();
    let mut cur = Context::new();
    core::mem::swap(ctx, &mut cur);
    let ghost mid = cur;
    proof {
        cur.lemma_extends_reflexive();
        assert(cur.extends(*old(ctx)));
    }
    cur = block(cur);
    let ghost d = cur;
    *ctx = cur;
    proof {
        assert(Context::body_step(mid, d));
    }
    let scope = ctx.seal();
    ctx.register(Branch::Loop { scope });
    proof {
        assert(Context::entered_child(*old(ctx), mid));
        assert(Context::emitted_into(*old(ctx), d, *ctx, Branch::Loop { scope: d.cur() }));
        d.lemma_extends_transitive(mid, *old(ctx));
        assert(Context::body_step(*old(ctx), *ctx));
    }
}

/// Leave a `Break` marker in the current scope for the code generator; no
/// control transfer happens during expansion.
pub fn break_expand(ctx: &mut Context)
    requires
        old(ctx).wf(),
    ensures
        final(ctx).wf(),
        Context::body_step(*old(ctx), *final(ctx)),
        Context::registered(*old(ctx), *final(ctx), Branch::Break),
{
    ctx.register(Branch::Break);
    proof {
        old(ctx).lemma_extends_reflexive();
    }
}

/// Leave a `Return` marker in the current scope for the code generator; no
/// control transfer happens during expansion.
pub fn return_expand(ctx: &mut Context)
    requires
        old(ctx).wf(),
    ensures
        final(ctx).wf(),
        Context::body_step(*old(ctx), *final(ctx)),
        Context::registered(*old(ctx), *final(ctx), Branch::Return),
{
    ctx.register(Branch::Return);
    proof {
        old(ctx).lemma_extends_reflexive();
    }
}

/// The single entry point for every authored loop: dispatch to the
/// iterable's unrolled strategy when the flag asks for it, else to the
/// dynamic one.
pub fn for_expand<It: Iterable, F: FnMut(Context, Element) -> Context>(
    ctx: &mut Context,
    range: It,
    unroll: bool,
    body: F,
) -> (r: Result<(), ExpandError>)
    requires
        old(ctx).wf(),
        range.valid(*old(ctx)),
        loop_body_callable(body, *old(ctx)),
        loop_body_disciplined(body),
    ensures
        final(ctx).wf(),
        Context::body_step(*old(ctx), *final(ctx)),
        unroll ==> {
            &&& r is Ok <==> range.unroll_plan(*old(ctx)) is Ok
            &&& r matches Err(e) ==> range.unroll_plan(*old(ctx)) == Err::<
                Seq<Element>,
                ExpandError,
            >(e) && *final(ctx) == *old(ctx)
            &&& r is Ok ==> exists|mid: Context|
                #[trigger] range.consumes(*old(ctx), mid) && body_chain(
                    body,
                    mid,
                    range.unroll_plan(*old(ctx))->Ok_0,
                    *final(ctx),
                )
        },
        !unroll ==> {
            &&& r is Ok
            &&& range.inlines_dynamic() ==> {
                &&& range.unroll_plan(*old(ctx)) is Ok
                &&& exists|mid: Context|
                    #[trigger] range.consumes(*old(ctx), mid) && body_chain(
                        body,
                        mid,
                        range.unroll_plan(*old(ctx))->Ok_0,
                        *final(ctx),
                    )
            }
            &&& !range.inlines_dynamic() ==> exists|mid: Context, d: Context|
                {
                    &&& dynamic_setup(*old(ctx), mid, range.var_shape())
                    &&& #[trigger] call_ensures(
                        body,
                        (mid, dynamic_loop_var(*old(ctx), range.var_shape())),
                        d,
                    )
                    &&& Context::emitted_into(
                        *old(ctx),
                        d,
                        *final(ctx),
                        range.loop_node(
                            dynamic_loop_var(*old(ctx), range.var_shape()),
                            d.cur(),
                        ),
                    )
                }
        },
{
    if unroll {
        range.expand_unroll(ctx, body)
    } else {
        range.expand(ctx, body);
        Ok(())
    }
}

} // verus!
