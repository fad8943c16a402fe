//! Contracts shared by every loop- and branch-body callback.
//!
//! A body callback receives the context it must build into by value and hands
//! it back when it is done; unrolled loops invoke one callback once per
//! iteration, so loop bodies are `FnMut` and must tolerate repeat invocation.
//! The predicates here say when a callback may be invoked and what it is
//! allowed to do to the context: grow the current scope and allocate fresh
//! variables and sequences, but never disturb the enclosing scopes.

use vstd::prelude::*;

use crate::context::Context;
use crate::ir::Element;

verus! {

/// The callback of a statement-form body (an `if` arm or a loop body without
/// a loop variable) may be invoked on any well-formed later stage of the
/// expansion it was written for.
pub open spec fn stmt_body_callable<F: FnOnce(Context) -> Context>(
    body: F,
    base: Context,
) -> bool {
    forall|c: Context| c.wf() && c.extends(base) ==> #[trigger] call_requires(body, (c,))
}

/// Whatever a statement-form body returns is a well-formed context it built
/// only by growing the one it was given.
pub open spec fn stmt_body_disciplined<F: FnOnce(Context) -> Context>(body: F) -> bool {
    forall|c: Context, d: Context|
        #[trigger] call_ensures(body, (c,), d) ==> d.wf() && Context::body_step(c, d)
}

/// The callback of a for-loop body additionally receives the per-iteration
/// loop variable.
pub open spec fn loop_body_callable<F: FnOnce(Context, Element) -> Context>(
    body: F,
    base: Context,
) -> bool {
    forall|c: Context, e: Element|
        c.wf() && c.extends(base) ==> #[trigger] call_requires(body, (c, e))
}

/// Whatever a for-loop body returns is a well-formed context it built only by
/// growing the one it was given.
pub open spec fn loop_body_disciplined<F: FnOnce(Context, Element) -> Context>(body: F) -> bool {
    forall|c: Context, e: Element, d: Context|
        #[trigger] call_ensures(body, (c, e), d) ==> d.wf() && Context::body_step(c, d)
}

/// The callback of an expression-form branch arm returns the arm's value
/// along with the context.
pub open spec fn value_body_callable<F: FnOnce(Context) -> (Context, Element)>(
    body: F,
    base: Context,
) -> bool {
    forall|c: Context| c.wf() && c.extends(base) ==> #[trigger] call_requires(body, (c,))
}

/// Whatever an expression-form arm returns is a well-formed context it built
/// only by growing the one it was given.
pub open spec fn value_body_disciplined<F: FnOnce(Context) -> (Context, Element)>(
    body: F,
) -> bool {
    forall|c: Context, d: Context, e: Element|
        #[trigger] call_ensures(body, (c,), (d, e)) ==> d.wf() && Context::body_step(c, d)
}

/// `body` was invoked once per element of `items`, in order, threading the
/// context from `start` to `end`, with nothing else happening in between.
pub open spec fn body_chain<F: FnOnce(Context, Element) -> Context>(
    body: F,
    start: Context,
    items: Seq<Element>,
    end: Context,
) -> bool {
    exists|mids: Seq<Context>| body_chain_through(body, start, items, end, mids)
}

/// The intermediate contexts `mids` witness that `body` maps `start` to `end`
/// through `items`.
pub open spec fn body_chain_through<F: FnOnce(Context, Element) -> Context>(
    body: F,
    start: Context,
    items: Seq<Element>,
    end: Context,
    mids: Seq<Context>,
) -> bool {
    &&& mids.len() == items.len() + 1
    &&& mids.first() == start
    &&& mids.last() == end
    &&& forall|k: int|
        0 <= k < items.len() ==> call_ensures(body, (mids[k], items[k]), #[trigger] mids[k + 1])
}

/// A disciplined chain only ever grows the expansion: `end` extends `start`,
/// the enclosing scopes are untouched, and the current scope keeps what it
/// had.
pub proof fn lemma_body_chain_step<F: FnOnce(Context, Element) -> Context>(
    body: F,
    start: Context,
    items: Seq<Element>,
    end: Context,
)
    requires
        loop_body_disciplined(body),
        start.wf(),
        body_chain(body, start, items, end),
    ensures
        end.wf(),
        Context::body_step(start, end),
    decreases items.len(),
{
    start.lemma_extends_reflexive();
    let mids = choose|mids: Seq<Context>|
        body_chain_through(body, start, items, end, mids);
    if items.len() == 0 {
        assert(end == start);
    } else {
        let m1 = mids[1];
        assert(call_ensures(body, (mids[0], items[0]), mids[0int + 1]));
        let rest = mids.drop_first();
        assert(body_chain_through(body, m1, items.drop_first(), end, rest)) by {
            assert(rest.len() == items.drop_first().len() + 1);
            assert(rest.first() == m1);
            assert(rest.last() == end);
            assert forall|k: int| 0 <= k < items.drop_first().len() implies call_ensures(
                body,
                (rest[k], items.drop_first()[k]),
                #[trigger] rest[k + 1],
            ) by {
                assert(rest[k] == mids[k + 1]);
                assert(rest[k + 1] == mids[k + 1 + 1]);
                assert(items.drop_first()[k] == items[k + 1]);
                assert(call_ensures(body, (mids[k + 1], items[k + 1]), mids[k + 1 + 1]));
            }
        }
        assert(body_chain(body, m1, items.drop_first(), end));
        lemma_body_chain_step(body, m1, items.drop_first(), end);
        Context::lemma_body_step_transitive(start, m1, end);
    }
}

} // verus!
