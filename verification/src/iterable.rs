//! The capability implemented by everything that can drive a for loop at
//! expansion time, and its range-based implementations.
//!
//! An [`Iterable`] offers two lowering strategies.  `expand` builds a single
//! reusable body template inside a child scope and emits one loop node;
//! `expand_unroll` invokes the body once per iteration directly in the
//! caller's scope, so the loop disappears from the emitted tree.

use vstd::prelude::*;

use crate::body::body_chain;
use crate::body::body_chain_through;
use crate::body::lemma_body_chain_step;
use crate::body::loop_body_callable;
use crate::body::loop_body_disciplined;
use crate::context::Context;
use crate::error::ExpandError;
use crate::ir::Branch;
use crate::ir::Constant;
use crate::ir::Element;
use crate::ir::Instruction;
use crate::ir::Scope;
use crate::ir::Shape;

verus! {

/// Is `i` still inside the range ending at `end`?
pub open spec fn in_range(i: int, end: int, inclusive: bool) -> bool {
    if inclusive {
        i <= end
    } else {
        i < end
    }
}

/// How many integers are left before the range ends; used to show the walk
/// terminates.
pub open spec fn remaining(start: int, end: int) -> int {
    if end + 1 - start >= 0 {
        end + 1 - start
    } else {
        0
    }
}

/// The integers an unrolled range walks: `start`, `start + step`,
/// `start + 2 * step`, and so on while still inside the range, in increasing
/// order.
pub open spec fn stepped_values(start: int, end: int, step: int, inclusive: bool) -> Seq<int>
    decreases remaining(start, end), when step >= 1
{
    if in_range(start, end, inclusive) {
        seq![start] + stepped_values(start + step, end, step, inclusive)
    } else {
        Seq::<int>::empty()
    }
}

/// A compile-time integer element of the given shape.
pub open spec fn comptime_int(v: int, shape: Shape) -> Element {
    Element::Comptime { value: Constant::Int(v as i64), shape }
}

/// The elements an unrolled range hands to its body, in order.
pub open spec fn unroll_items(
    start: int,
    end: int,
    step: int,
    inclusive: bool,
    shape: Shape,
) -> Seq<Element> {
    stepped_values(start, end, step, inclusive).map(|k: int, v: int| comptime_int(v, shape))
}

/// The values of an unrolled range are exactly the arithmetic progression
/// `start + k * step` for every `k` that stays inside the range: each
/// position holds the corresponding progression member (so the walk is in
/// increasing order), and every progression member inside the range is
/// reached.
pub proof fn lemma_stepped_values(start: int, end: int, step: int, inclusive: bool)
    requires
        step >= 1,
    ensures
        forall|k: int|
            0 <= k < stepped_values(start, end, step, inclusive).len() ==> {
                &&& #[trigger] stepped_values(start, end, step, inclusive)[k] == start + k * step
                &&& in_range(start + k * step, end, inclusive)
            },
        forall|k: int|
            k >= 0 && in_range(start + #[trigger] (k * step), end, inclusive) ==> k
                < stepped_values(start, end, step, inclusive).len(),
        forall|k: int|
            0 <= k < stepped_values(start, end, step, inclusive).len() - 1
                ==> #[trigger] stepped_values(start, end, step, inclusive)[k] < stepped_values(
                start,
                end,
                step,
                inclusive,
            )[k + 1],
    decreases remaining(start, end),
{
    let vals = stepped_values(start, end, step, inclusive);
    if in_range(start, end, inclusive) {
        lemma_stepped_values(start + step, end, step, inclusive);
        let rest = stepped_values(start + step, end, step, inclusive);
        assert forall|k: int| 0 <= k < vals.len() implies {
            &&& #[trigger] vals[k] == start + k * step
            &&& in_range(start + k * step, end, inclusive)
        } by {
            if k == 0 {
                assert(vals[0] == start);
            } else {
                assert(vals[k] == rest[k - 1]);
                assert(rest[k - 1] == (start + step) + (k - 1) * step);
                assert((start + step) + (k - 1) * step == start + k * step) by (nonlinear_arith);
            }
        }
        assert forall|k: int|
            k >= 0 && in_range(start + #[trigger] (k * step), end, inclusive) implies k
            < vals.len() by {
            if k >= 1 {
                assert(start + k * step == (start + step) + (k - 1) * step) by (nonlinear_arith);
                assert(k - 1 < rest.len());
            }
        }
        assert forall|k: int| 0 <= k < vals.len() - 1 implies #[trigger] vals[k] < vals[k
            + 1] by {
            assert(vals[k] == start + k * step);
            assert(vals[k + 1] == start + (k + 1) * step);
            assert(start + (k + 1) * step == start + k * step + step) by (nonlinear_arith);
        }
    } else {
        assert forall|k: int|
            k >= 0 && in_range(start + #[trigger] (k * step), end, inclusive) implies k
            < vals.len() by {
            assert(k * step >= 0) by (nonlinear_arith)
                requires
                    k >= 0,
                    step >= 1,
            ;
        }
    }
}

/// One unfolding of [`unroll_items`]: inside the range the first element is
/// the start value and the rest is the tail progression; outside it there is
/// nothing to walk.
pub proof fn lemma_unroll_items_unfold(
    start: int,
    end: int,
    step: int,
    inclusive: bool,
    shape: Shape,
)
    requires
        step >= 1,
    ensures
        in_range(start, end, inclusive) ==> unroll_items(start, end, step, inclusive, shape)
            == seq![comptime_int(start, shape)] + unroll_items(
            start + step,
            end,
            step,
            inclusive,
            shape,
        ),
        !in_range(start, end, inclusive) ==> unroll_items(start, end, step, inclusive, shape)
            == Seq::<Element>::empty(),
{
    if in_range(start, end, inclusive) {
        assert(unroll_items(start, end, step, inclusive, shape) =~= seq![
            comptime_int(start, shape),
        ] + unroll_items(start + step, end, step, inclusive, shape));
    } else {
        assert(unroll_items(start, end, step, inclusive, shape) =~= Seq::<Element>::empty());
    }
}

/// `mid` is `pre` after a fresh child scope was entered and the loop variable
/// of the given shape was allocated in it, ready for the body template to be
/// built.
pub open spec fn dynamic_setup(pre: Context, mid: Context, shape: Shape) -> bool {
    &&& mid.scopes@.len() == pre.scopes@.len() + 1
    &&& forall|k: int| 0 <= k < pre.scopes@.len() ==> mid.scopes@[k] == pre.scopes@[k]
    &&& mid.cur().instructions@ == Seq::<Instruction>::empty()
    &&& mid.cur().vars@ == Seq::<Element>::empty()
    &&& mid.locals@ == pre.locals@.push(shape)
    &&& mid.seqs == pre.seqs
}

/// The loop variable `expand` mints for the body template built over `pre`.
pub open spec fn dynamic_loop_var(pre: Context, shape: Shape) -> Element {
    Element::Runtime { id: pre.locals@.len() as usize, shape }
}

/// Something a for loop can iterate over at expansion time: ranges, stepped
/// ranges, and compile-time sequences.
pub trait Iterable: Sized {
    /// The iterable's own well-formedness over the context it is used in.
    spec fn valid(self, pre: Context) -> bool;

    /// The elements an unrolled expansion hands to the body, in order, or
    /// why unrolling must fail.
    spec fn unroll_plan(self, pre: Context) -> Result<Seq<Element>, ExpandError>;

    /// How consuming the iterable itself changes the context (draining a
    /// sequence's storage; ranges change nothing).
    spec fn consumes(self, pre: Context, mid: Context) -> bool;

    /// Does `expand` inline the body like unrolling does?  True exactly for
    /// iterables whose length is always known while building the IR.
    spec fn inlines_dynamic(self) -> bool;

    /// The shape of the loop variable a dynamic expansion mints.
    spec fn var_shape(self) -> Shape;

    /// The loop node a dynamic expansion emits, given the loop variable and
    /// the sealed body template.
    spec fn loop_node(self, i: Element, scope: Scope) -> Branch;

    /// Expand a runtime loop without unrolling: invoke the body exactly once
    /// to build a reusable template and emit a single loop node — unless the
    /// iterable's length is compile-time knowledge, in which case the body is
    /// inlined exactly as `expand_unroll` would.
    fn expand<F: FnMut(Context, Element) -> Context>(self, ctx: &mut Context, body: F)
        requires
            old(ctx).wf(),
            self.valid(*old(ctx)),
            loop_body_callable(body, *old(ctx)),
            loop_body_disciplined(body),
        ensures
            final(ctx).wf(),
            Context::body_step(*old(ctx), *final(ctx)),
            self.inlines_dynamic() ==> {
                &&& self.unroll_plan(*old(ctx)) is Ok
                &&& exists|mid: Context|
                    #[trigger] self.consumes(*old(ctx), mid) && body_chain(
                        body,
                        mid,
                        self.unroll_plan(*old(ctx))->Ok_0,
                        *final(ctx),
                    )
            },
            !self.inlines_dynamic() ==> exists|mid: Context, d: Context|
                {
                    &&& dynamic_setup(*old(ctx), mid, self.var_shape())
                    &&& #[trigger] call_ensures(
                        body,
                        (mid, dynamic_loop_var(*old(ctx), self.var_shape())),
                        d,
                    )
                    &&& Context::emitted_into(
                        *old(ctx),
                        d,
                        *final(ctx),
                        self.loop_node(dynamic_loop_var(*old(ctx), self.var_shape()), d.cur()),
                    )
                },
    ;

    /// Expand an unrolled loop: invoke the body once per iteration, directly
    /// in the caller's scope, emitting no IR node at all.  Fails, leaving the
    /// context untouched, where the iteration count is not compile-time
    /// knowledge.
    fn expand_unroll<F: FnMut(Context, Element) -> Context>(
        self,
        ctx: &mut Context,
        body: F,
    ) -> (r: Result<(), ExpandError>)
        requires
            old(ctx).wf(),
            self.valid(*old(ctx)),
            loop_body_callable(body, *old(ctx)),
            loop_body_disciplined(body),
        ensures
            final(ctx).wf(),
            Context::body_step(*old(ctx), *final(ctx)),
            r is Ok <==> self.unroll_plan(*old(ctx)) is Ok,
            r matches Err(e) ==> self.unroll_plan(*old(ctx)) == Err::<Seq<Element>, ExpandError>(e)
                && *final(ctx) == *old(ctx),
            r is Ok ==> exists|mid: Context|
                #[trigger] self.consumes(*old(ctx), mid) && body_chain(
                    body,
                    mid,
                    self.unroll_plan(*old(ctx))->Ok_0,
                    *final(ctx),
                ),
    ;
}

/// An integer range `start..end`, optionally inclusive of `end`.
pub struct RangeExpand {
    /// The lower bound.
    pub start: Element,
    /// The upper bound.
    pub end: Element,
    /// Whether the upper bound itself is iterated.
    pub inclusive: bool,
}

impl RangeExpand {
    /// A range from `start` to `end`.
    pub fn new(start: Element, end: Element, inclusive: bool) -> (r: RangeExpand)
        ensures
            r == (RangeExpand { start, end, inclusive }),
    {
        RangeExpand { start, end, inclusive }
    }

    /// The same range walked `step` values at a time.
    pub fn step_by(self, step: Element) -> (r: SteppedRangeExpand)
        ensures
            r == (SteppedRangeExpand {
                start: self.start,
                end: self.end,
                step,
                inclusive: self.inclusive,
            }),
    {
        SteppedRangeExpand { start: self.start, end: self.end, step, inclusive: self.inclusive }
    }
}

/// An integer range walked `step` values at a time.
pub struct SteppedRangeExpand {
    /// The lower bound.
    pub start: Element,
    /// The upper bound.
    pub end: Element,
    /// How far each iteration advances.
    pub step: Element,
    /// Whether the upper bound itself is iterated.
    pub inclusive: bool,
}

impl Iterable for RangeExpand {
    open spec fn valid(self, pre: Context) -> bool {
        &&& !(self.start.spec_as_const() matches Some(Constant::Bool(_)))
        &&& !(self.end.spec_as_const() matches Some(Constant::Bool(_)))
    }

    open spec fn unroll_plan(self, pre: Context) -> Result<Seq<Element>, ExpandError> {
        match (self.start.spec_const_int(), self.end.spec_const_int()) {
            (Some(a), Some(b)) => Ok(
                unroll_items(a as int, b as int, 1, self.inclusive, self.start.spec_shape()),
            ),
            _ => Err(ExpandError::ConstantBoundRequired),
        }
    }

    open spec fn consumes(self, pre: Context, mid: Context) -> bool {
        mid == pre
    }

    open spec fn inlines_dynamic(self) -> bool {
        false
    }

    open spec fn var_shape(self) -> Shape {
        self.start.spec_shape()
    }

    open spec fn loop_node(self, i: Element, scope: Scope) -> Branch {
        Branch::RangeLoop {
            i,
            start: self.start,
            end: self.end,
            step: None,
            inclusive: self.inclusive,
            scope,
        }
    }

    fn expand<F: FnMut(Context, Element) -> Context>(self, ctx: &mut Context, body: F) {
        expand_dynamic(ctx, self.start, self.end, None, self.inclusive, self.start.shape(), body);
    }

    fn expand_unroll<F: FnMut(Context, Element) -> Context>(
        self,
        ctx: &mut Context,
        body: F,
    ) -> (r: Result<(), ExpandError>) {
        let shape = self.start.shape();
        let a = match self.start.as_const() {
            Some(Constant::Int(a)) => a,
            _ => {
                proof {
                    old(ctx).lemma_body_step_reflexive();
                }
                return Err(ExpandError::ConstantBoundRequired);
            },
        };
        let b = match self.end.as_const() {
            Some(Constant::Int(b)) => b,
            _ => {
                proof {
                    old(ctx).lemma_body_step_reflexive();
                }
                return Err(ExpandError::ConstantBoundRequired);
            },
        };
        run_unrolled(ctx, a, b, 1, self.inclusive, shape, body);
        proof {
            assert(self.consumes(*old(ctx), *old(ctx)));
        }
        Ok(())
    }
}

impl Iterable for SteppedRangeExpand {
    open spec fn valid(self, pre: Context) -> bool {
        &&& !(self.start.spec_as_const() matches Some(Constant::Bool(_)))
        &&& !(self.end.spec_as_const() matches Some(Constant::Bool(_)))
        &&& !(self.step.spec_as_const() matches Some(Constant::Bool(_)))
        &&& (self.step.spec_const_int() matches Some(s) ==> s >= 1)
    }

    open spec fn unroll_plan(self, pre: Context) -> Result<Seq<Element>, ExpandError> {
        match (self.start.spec_const_int(), self.end.spec_const_int(), self.step.spec_const_int()) {
            (Some(a), Some(b), Some(s)) => Ok(
                unroll_items(a as int, b as int, s as int, self.inclusive, self.start.spec_shape()),
            ),
            _ => Err(ExpandError::ConstantBoundRequired),
        }
    }

    open spec fn consumes(self, pre: Context, mid: Context) -> bool {
        mid == pre
    }

    open spec fn inlines_dynamic(self) -> bool {
        false
    }

    open spec fn var_shape(self) -> Shape {
        self.start.spec_shape()
    }

    open spec fn loop_node(self, i: Element, scope: Scope) -> Branch {
        Branch::RangeLoop {
            i,
            start: self.start,
            end: self.end,
            step: Some(self.step),
            inclusive: self.inclusive,
            scope,
        }
    }

    fn expand<F: FnMut(Context, Element) -> Context>(self, ctx: &mut Context, body: F) {
        expand_dynamic(
            ctx,
            self.start,
            self.end,
            Some(self.step),
            self.inclusive,
            self.start.shape(),
            body,
        );
    }

    fn expand_unroll<F: FnMut(Context, Element) -> Context>(
        self,
        ctx: &mut Context,
        body: F,
    ) -> (r: Result<(), ExpandError>) {
        let shape = self.start.shape();
        let a = match self.start.as_const() {
            Some(Constant::Int(a)) => a,
            _ => {
                proof {
                    old(ctx).lemma_body_step_reflexive();
                }
                return Err(ExpandError::ConstantBoundRequired);
            },
        };
        let b = match self.end.as_const() {
            Some(Constant::Int(b)) => b,
            _ => {
                proof {
                    old(ctx).lemma_body_step_reflexive();
                }
                return Err(ExpandError::ConstantBoundRequired);
            },
        };
        let s = match self.step.as_const() {
            Some(Constant::Int(s)) => s,
            _ => {
                proof {
                    old(ctx).lemma_body_step_reflexive();
                }
                return Err(ExpandError::ConstantBoundRequired);
            },
        };
        run_unrolled(ctx, a, b, s, self.inclusive, shape, body);
        proof {
            assert(self.consumes(*old(ctx), *old(ctx)));
        }
        Ok(())
    }
}

/// A sequence of host integers, viewed mathematically.
pub open spec fn ints_of(vs: Seq<i64>) -> Seq<int> {
    vs.map_values(|v: i64| v as int)
}

/// The values a constant range walks, as host integers: `start`,
/// `start + step`, and so on while still inside the range, in increasing
/// order.
pub fn range_values(start: i64, end: i64, step: i64, inclusive: bool) -> (vs: Vec<i64>)
    requires
        step >= 1,
    ensures
        ints_of(vs@) == stepped_values(start as int, end as int, step as int, inclusive),
{
    let ghost vals = stepped_values(start as int, end as int, step as int, inclusive);
    let mut vs: Vec<i64> = Vec::new();
    let mut i = start;
    proof {
        assert(ints_of(vs@) + vals =~= vals);
    }
    loop
        invariant_except_break
            step >= 1,
            vals == ints_of(vs@) + stepped_values(i as int, end as int, step as int, inclusive),
        ensures
            ints_of(vs@) == vals,
        decreases remaining(i as int, end as int),
    {
        if !in_rng(i, end, inclusive) {
            proof {
                assert(ints_of(vs@) =~= vals);
            }
            break;
        }
        let ghost prev = vs@;
        vs.push(i);
        proof {
            assert(ints_of(vs@) =~= ints_of(prev).push(i as int));
        }
        match i.checked_add(step) {
            Some(next) => {
                i = next;
                proof {
                    assert(vals =~= ints_of(vs@) + stepped_values(
                        i as int,
                        end as int,
                        step as int,
                        inclusive,
                    ));
                }
            },
            None => {
                proof {
                    assert(i as int + step as int > end as int);
                    assert(stepped_values(
                        i as int + step as int,
                        end as int,
                        step as int,
                        inclusive,
                    ) =~= Seq::<int>::empty());
                    assert(stepped_values(i as int, end as int, step as int, inclusive) =~= seq![
                        i as int,
                    ]);
                    assert(ints_of(vs@) =~= vals);
                }
                break;
            },
        }
    }
    vs
}

/// Invoke the body once per element of `items`, in order, directly in the
/// caller's scope; no IR node is emitted.
pub(crate) fn run_items<F: FnMut(Context, Element) -> Context>(
    ctx: &mut Context,
    items: Vec<Element>,
    mut body: F,
)
    requires
        old(ctx).wf(),
        loop_body_callable(body, *old(ctx)),
        loop_body_disciplined(body),
    ensures
        final(ctx).wf(),
        Context::body_step(*old(ctx), *final(ctx)),
        body_chain(body, *old(ctx), items@, *final(ctx)),
{
    let ghost body0 = body;
    let mut cur = Context::new();
    core::mem::swap(ctx, &mut cur);
    let ghost start_ctx = cur;
    let ghost mut mids = seq![cur];
    let mut j: usize = 0;
    proof {
        start_ctx.lemma_extends_reflexive();
        assert(items@.take(0int) =~= Seq::<Element>::empty());
        assert(body_chain_through(body, start_ctx, items@.take(0int), cur, mids));
    }
    while j < items.len()
        invariant
            body == body0,
            j <= items@.len(),
            cur.wf(),
            start_ctx.wf(),
            cur.extends(start_ctx),
            loop_body_callable(body, start_ctx),
            loop_body_disciplined(body),
            body_chain_through(body, start_ctx, items@.take(j as int), cur, mids),
        decreases items@.len() - j,
    {
        let e = items[j];
        let ghost prev = cur;
        let ghost taken = items@.take(j as int);
        cur = body(cur, e);
        proof {
            mids = mids.push(cur);
            cur.lemma_extends_transitive(prev, start_ctx);
            let taken2 = items@.take(j + 1int);
            assert(taken2.drop_last() =~= taken);
            assert(taken2.last() == e);
            assert(body_chain_through(body, start_ctx, taken2, cur, mids)) by {
                assert(mids.last() == cur);
                assert(mids.first() == start_ctx);
                assert forall|k: int| 0 <= k < taken2.len() implies call_ensures(
                    body,
                    (mids[k], taken2[k]),
                    #[trigger] mids[k + 1],
                ) by {
                    if k < taken2.len() - 1 {
                        assert(mids[k] == mids.drop_last()[k]);
                        assert(mids[k + 1] == mids.drop_last()[k + 1]);
                        assert(taken2[k] == taken[k]);
                    } else {
                        assert(mids[k] == prev);
                        assert(taken2[k] == e);
                        assert(mids[k + 1] == cur);
                    }
                }
            }
        }
        j += 1;
    }
    proof {
        assert(items@.take(items@.len() as int) =~= items@);
        assert(body_chain_through(body, start_ctx, items@, cur, mids));
        lemma_body_chain_step(body, start_ctx, items@, cur);
    }
    *ctx = cur;
}

/// Is `i` still inside the range ending at `end`?
fn in_rng(i: i64, end: i64, inclusive: bool) -> (r: bool)
    ensures
        r == in_range(i as int, end as int, inclusive),
{
    if inclusive {
        i <= end
    } else {
        i < end
    }
}

/// Walk the constant range, invoking the body once per value in increasing
/// order, directly in the caller's scope; no IR node is emitted.
fn run_unrolled<F: FnMut(Context, Element) -> Context>(
    ctx: &mut Context,
    a: i64,
    b: i64,
    s: i64,
    inclusive: bool,
    shape: Shape,
    mut body: F,
)
    requires
        s >= 1,
        old(ctx).wf(),
        loop_body_callable(body, *old(ctx)),
        loop_body_disciplined(body),
    ensures
        final(ctx).wf(),
        Context::body_step(*old(ctx), *final(ctx)),
        body_chain(
            body,
            *old(ctx),
            unroll_items(a as int, b as int, s as int, inclusive, shape),
            *final(ctx),
        ),
{
    let ghost items = unroll_items(a as int, b as int, s as int, inclusive, shape);
    let mut cur = Context::new();
    core::mem::swap(ctx, &mut cur);
    let ghost start_ctx = cur;
    let ghost body0 = body;
    let ghost mut taken = Seq::<Element>::empty();
    let ghost mut mids = seq![cur];
    let mut i = a;
    proof {
        start_ctx.lemma_extends_reflexive();
        assert(items =~= taken + unroll_items(a as int, b as int, s as int, inclusive, shape));
        assert(body_chain_through(body, start_ctx, taken, cur, mids));
    }
    loop
        invariant_except_break
            s >= 1,
            body == body0,
            cur.wf(),
            start_ctx.wf(),
            cur.extends(start_ctx),
            loop_body_callable(body, start_ctx),
            loop_body_disciplined(body),
            items == taken + unroll_items(i as int, b as int, s as int, inclusive, shape),
            body_chain_through(body, start_ctx, taken, cur, mids),
        ensures
            body == body0,
            cur.wf(),
            body_chain(body, start_ctx, items, cur),
        decreases remaining(i as int, b as int),
    {
        if !in_rng(i, b, inclusive) {
            proof {
                lemma_unroll_items_unfold(i as int, b as int, s as int, inclusive, shape);
                assert(items =~= taken);
                assert(body_chain_through(body, start_ctx, items, cur, mids));
            }
            break;
        }
        let e = Element::Comptime { value: Constant::Int(i), shape };
        proof {
            lemma_unroll_items_unfold(i as int, b as int, s as int, inclusive, shape);
            assert(e == comptime_int(i as int, shape));
        }
        let ghost prev = cur;
        cur = body(cur, e);
        proof {
            taken = taken.push(e);
            mids = mids.push(cur);
            cur.lemma_extends_transitive(prev, start_ctx);
            assert(body_chain_through(body, start_ctx, taken, cur, mids)) by {
                assert(mids.last() == cur);
                assert(mids.first() == start_ctx);
                assert forall|k: int| 0 <= k < taken.len() implies call_ensures(
                    body,
                    (mids[k], taken[k]),
                    #[trigger] mids[k + 1],
                ) by {
                    if k < taken.len() - 1 {
                        assert(mids[k] == mids.drop_last()[k]);
                        assert(mids[k + 1] == mids.drop_last()[k + 1]);
                        assert(taken[k] == taken.drop_last()[k]);
                    } else {
                        assert(mids[k] == prev);
                        assert(taken[k] == e);
                        assert(mids[k + 1] == cur);
                    }
                }
            }
        }
        match i.checked_add(s) {
            Some(next) => {
                i = next;
                proof {
                    assert(items =~= taken + unroll_items(
                        i as int,
                        b as int,
                        s as int,
                        inclusive,
                        shape,
                    ));
                }
            },
            None => {
                proof {
                    lemma_unroll_items_unfold(
                        i as int + s as int,
                        b as int,
                        s as int,
                        inclusive,
                        shape,
                    );
                    assert(items =~= taken);
                    assert(body_chain_through(body, start_ctx, items, cur, mids));
                }
                break;
            },
        }
    }
    proof {
        lemma_body_chain_step(body, start_ctx, items, cur);
    }
    *ctx = cur;
}

/// Build the single-invocation body template in a fresh child scope and emit
/// one `RangeLoop` node carrying the bounds verbatim.
fn expand_dynamic<F: FnMut(Context, Element) -> Context>(
    ctx: &mut Context,
    start: Element,
    end: Element,
    step: Option<Element>,
    inclusive: bool,
    shape: Shape,
    mut body: F,
)
    requires
        old(ctx).wf(),
        loop_body_callable(body, *old(ctx)),
        loop_body_disciplined(body),
    ensures
        final(ctx).wf(),
        Context::body_step(*old(ctx), *final(ctx)),
        exists|mid: Context, d: Context|
            {
                &&& dynamic_setup(*old(ctx), mid, shape)
                &&& #[trigger] call_ensures(body, (mid, dynamic_loop_var(*old(ctx), shape)), d)
                &&& Context::emitted_into(
                    *old(ctx),
                    d,
                    *final(ctx),
                    Branch::RangeLoop {
                        i: dynamic_loop_var(*old(ctx), shape),
                        start,
                        end,
                        step,
                        inclusive,
                        scope: d.cur(),
                    },
                )
            },
{
    ctx.child();
    let i = ctx.create_local_undeclared(shape);
    let mut cur = Context::new();
    core::mem::swap(ctx, &mut cur);
    let ghost mid = cur;
    proof {
        assert(mid.locals@.take(old(ctx).locals@.len() as int) =~= old(ctx).locals@);
        assert(mid.extends(*old(ctx)));
    }
    cur = body(cur, i);
    let ghost d = cur;
    *ctx = cur;
    let scope = ctx.seal();
    ctx.register(
        Branch::RangeLoop { i, start, end, step, inclusive, scope },
    );
    proof {
        assert(dynamic_setup(*old(ctx), mid, shape));
        assert(Context::emitted_into(
            *old(ctx),
            d,
            *ctx,
            Branch::RangeLoop {
                i: dynamic_loop_var(*old(ctx), shape),
                start,
                end,
                step,
                inclusive,
                scope: d.cur(),
            },
        ));
        assert(Context::body_step(mid, d));
        d.lemma_extends_transitive(mid, *old(ctx));
        assert(Context::body_step(*old(ctx), *ctx));
    }
}

} // verus!
