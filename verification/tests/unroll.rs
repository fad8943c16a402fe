use cubecl_expand::Branch;
use cubecl_expand::Constant;
use cubecl_expand::Context;
use cubecl_expand::Element;
use cubecl_expand::ExpandError;
use cubecl_expand::Instruction;
use cubecl_expand::RangeExpand;
use cubecl_expand::Shape;
use cubecl_expand::for_expand;
use cubecl_expand::range;
use cubecl_expand::range_stepped;

fn cint(v: i64) -> Element {
    Element::Comptime {
        value: Constant::Int(v),
        shape: Shape { code: 1 },
    }
}

fn var(id: usize) -> Element {
    Element::Runtime {
        id,
        shape: Shape { code: 1 },
    }
}

fn collect_ints(seen: &mut Vec<i64>, e: Element) {
    match e {
        Element::Comptime {
            value: Constant::Int(v),
            ..
        } => seen.push(v),
        other => panic!("expected a comptime integer, got {:?}", other),
    }
}

#[test]
fn unroll_inclusive_range_walks_each_value() {
    let mut ctx = Context::new();
    let rng = RangeExpand::new(cint(0), cint(3), true);
    let mut seen: Vec<i64> = Vec::new();
    let r = for_expand(&mut ctx, rng, true, |c: Context, e: Element| {
        collect_ints(&mut seen, e);
        c
    });
    assert!(r.is_ok());
    assert_eq!(seen, vec![0, 1, 2, 3]);
    assert!(ctx.scopes.last().unwrap().instructions.is_empty());
    assert_eq!(ctx.scopes.len(), 1);
}

#[test]
fn unroll_stepped_range_walks_multiples() {
    let mut ctx = Context::new();
    let rng = RangeExpand::new(cint(0), cint(10), false).step_by(cint(3));
    let mut seen: Vec<i64> = Vec::new();
    let r = for_expand(&mut ctx, rng, true, |c: Context, e: Element| {
        collect_ints(&mut seen, e);
        c
    });
    assert!(r.is_ok());
    assert_eq!(seen, vec![0, 3, 6, 9]);
    assert!(ctx.scopes.last().unwrap().instructions.is_empty());
}

#[test]
fn unroll_exclusive_range_stops_before_end() {
    let mut ctx = Context::new();
    let rng = range::expand(&mut ctx, cint(2), cint(9)).step_by(cint(2));
    let mut seen: Vec<i64> = Vec::new();
    let r = for_expand(&mut ctx, rng, true, |c: Context, e: Element| {
        collect_ints(&mut seen, e);
        c
    });
    assert!(r.is_ok());
    assert_eq!(seen, vec![2, 4, 6, 8]);
}

#[test]
fn unroll_empty_range_never_invokes_body() {
    let mut ctx = Context::new();
    let rng = RangeExpand::new(cint(5), cint(5), false);
    let r = for_expand(&mut ctx, rng, true, |_c: Context, _e: Element| -> Context {
        panic!("body must not run for an empty range");
    });
    assert!(r.is_ok());
    assert!(ctx.scopes.last().unwrap().instructions.is_empty());
}

#[test]
fn unroll_with_runtime_bound_is_fatal() {
    let mut ctx = Context::new();
    let rng = RangeExpand::new(cint(0), var(0), false);
    let r = for_expand(&mut ctx, rng, true, |_c: Context, _e: Element| -> Context {
        panic!("body must not run when unrolling fails");
    });
    assert_eq!(r, Err(ExpandError::ConstantBoundRequired));
    assert!(ctx.scopes.last().unwrap().instructions.is_empty());
    assert_eq!(ctx.locals.len(), 0);
}

#[test]
fn unroll_with_runtime_step_is_fatal() {
    let mut ctx = Context::new();
    let rng = range_stepped::expand(&mut ctx, cint(0), cint(10), var(3));
    let r = for_expand(&mut ctx, rng, true, |_c: Context, _e: Element| -> Context {
        panic!("body must not run when unrolling fails");
    });
    assert_eq!(r, Err(ExpandError::ConstantBoundRequired));
}

#[test]
fn dynamic_range_emits_one_range_loop() {
    let mut ctx = Context::new();
    let n = var(9);
    let rng = range::expand(&mut ctx, cint(0), n);
    let mut calls = 0usize;
    let r = for_expand(&mut ctx, rng, false, |mut c: Context, i: Element| {
        calls += 1;
        assert!(matches!(i, Element::Runtime { .. }));
        cubecl_expand::break_expand(&mut c);
        c
    });
    assert!(r.is_ok());
    assert_eq!(calls, 1, "the body template is built exactly once");
    let instructions = &ctx.scopes.last().unwrap().instructions;
    assert_eq!(instructions.len(), 1);
    match &instructions[0] {
        Instruction::Branch(Branch::RangeLoop {
            i,
            start,
            end,
            step,
            inclusive,
            scope,
        }) => {
            assert!(matches!(i, Element::Runtime { .. }));
            assert_eq!(*start, cint(0));
            assert_eq!(*end, n);
            assert_eq!(*step, None);
            assert!(!*inclusive);
            assert_eq!(
                scope.instructions,
                vec![Instruction::Branch(Branch::Break)],
                "the loop body holds what the template registered"
            );
        }
        other => panic!("expected a RangeLoop node, got {:?}", other),
    }
}

#[test]
fn dynamic_stepped_range_carries_step_verbatim() {
    let mut ctx = Context::new();
    let step = var(4);
    let rng = range_stepped::expand(&mut ctx, cint(1), var(9), step);
    let r = for_expand(&mut ctx, rng, false, |c: Context, _i: Element| c);
    assert!(r.is_ok());
    let instructions = &ctx.scopes.last().unwrap().instructions;
    assert_eq!(instructions.len(), 1);
    match &instructions[0] {
        Instruction::Branch(Branch::RangeLoop {
            start, end, step: s, ..
        }) => {
            assert_eq!(*start, cint(1));
            assert_eq!(*end, var(9));
            assert_eq!(*s, Some(step));
        }
        other => panic!("expected a RangeLoop node, got {:?}", other),
    }
}

#[test]
fn dynamic_loop_variable_is_fresh() {
    let mut ctx = Context::new();
    let a = ctx.create_local(Shape { code: 2 });
    let rng = range::expand(&mut ctx, cint(0), var(0));
    let mut seen_var: Option<Element> = None;
    let r = for_expand(&mut ctx, rng, false, |c: Context, i: Element| {
        seen_var = Some(i);
        c
    });
    assert!(r.is_ok());
    let i = seen_var.expect("body ran once");
    assert_ne!(i, a, "the loop variable is a fresh slot");
    match &ctx.scopes.last().unwrap().instructions[0] {
        Instruction::Branch(Branch::RangeLoop { i: node_i, .. }) => {
            assert_eq!(*node_i, i, "the node carries the variable the body saw");
        }
        other => panic!("expected a RangeLoop node, got {:?}", other),
    }
}

#[test]
fn range_values_walks_the_progression() {
    assert_eq!(cubecl_expand::range_values(0, 10, 3, false), vec![0, 3, 6, 9]);
    assert_eq!(cubecl_expand::range_values(0, 3, 1, true), vec![0, 1, 2, 3]);
    assert_eq!(cubecl_expand::range_values(0, 3, 10, true), vec![0]);
    assert_eq!(cubecl_expand::range_values(5, 5, 1, false), Vec::<i64>::new());
    assert_eq!(cubecl_expand::range_values(5, 5, 1, true), vec![5]);
}
