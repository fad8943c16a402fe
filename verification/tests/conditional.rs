use cubecl_expand::Branch;
use cubecl_expand::Constant;
use cubecl_expand::Context;
use cubecl_expand::Element;
use cubecl_expand::Instruction;
use cubecl_expand::Shape;
use cubecl_expand::break_expand;
use cubecl_expand::if_else_expand;
use cubecl_expand::if_else_expr_expand;
use cubecl_expand::if_expand;
use cubecl_expand::loop_expand;
use cubecl_expand::return_expand;

fn boolean(b: bool) -> Element {
    Element::Comptime {
        value: Constant::Bool(b),
        shape: Shape { code: 0 },
    }
}

fn cint(v: i64) -> Element {
    Element::Comptime {
        value: Constant::Int(v),
        shape: Shape { code: 1 },
    }
}

fn var(id: usize) -> Element {
    Element::Runtime {
        id,
        shape: Shape { code: 1 },
    }
}

#[test]
fn if_constant_true_runs_body_in_place() {
    let mut ctx = Context::new();
    if_expand(&mut ctx, boolean(true), |mut c: Context| {
        break_expand(&mut c);
        c
    });
    assert_eq!(
        ctx.scopes.last().unwrap().instructions,
        vec![Instruction::Branch(Branch::Break)],
        "the body ran directly in the caller's scope, no If node"
    );
}

#[test]
fn if_constant_false_does_nothing() {
    let mut ctx = Context::new();
    if_expand(&mut ctx, boolean(false), |_c: Context| -> Context {
        panic!("body must not run under a constant-false condition");
    });
    assert!(ctx.scopes.last().unwrap().instructions.is_empty());
}

#[test]
fn if_runtime_emits_one_if_node() {
    let mut ctx = Context::new();
    let cond = var(0);
    if_expand(&mut ctx, cond, |mut c: Context| {
        break_expand(&mut c);
        return_expand(&mut c);
        c
    });
    let instructions = &ctx.scopes.last().unwrap().instructions;
    assert_eq!(instructions.len(), 1);
    match &instructions[0] {
        Instruction::Branch(Branch::If { cond: c, scope }) => {
            assert_eq!(*c, cond);
            assert_eq!(
                scope.instructions,
                vec![
                    Instruction::Branch(Branch::Break),
                    Instruction::Branch(Branch::Return),
                ],
                "the If scope holds exactly what the body registered, in order"
            );
        }
        other => panic!("expected an If node, got {:?}", other),
    }
}

#[test]
fn if_else_constant_true_skips_else() {
    let mut ctx = Context::new();
    let handle = if_else_expand(&mut ctx, boolean(true), |mut c: Context| {
        break_expand(&mut c);
        c
    });
    handle.or_else(&mut ctx, |_c: Context| -> Context {
        panic!("else must not run after a constant-true condition");
    });
    assert_eq!(
        ctx.scopes.last().unwrap().instructions,
        vec![Instruction::Branch(Branch::Break)]
    );
}

#[test]
fn if_else_constant_false_runs_else_in_place() {
    let mut ctx = Context::new();
    let handle = if_else_expand(&mut ctx, boolean(false), |_c: Context| -> Context {
        panic!("then must not run under a constant-false condition");
    });
    handle.or_else(&mut ctx, |mut c: Context| {
        return_expand(&mut c);
        c
    });
    assert_eq!(
        ctx.scopes.last().unwrap().instructions,
        vec![Instruction::Branch(Branch::Return)]
    );
}

#[test]
fn if_else_runtime_emits_one_if_else_node() {
    let mut ctx = Context::new();
    let cond = var(2);
    let handle = if_else_expand(&mut ctx, cond, |mut c: Context| {
        break_expand(&mut c);
        c
    });
    handle.or_else(&mut ctx, |mut c: Context| {
        return_expand(&mut c);
        c
    });
    let instructions = &ctx.scopes.last().unwrap().instructions;
    assert_eq!(instructions.len(), 1);
    match &instructions[0] {
        Instruction::Branch(Branch::IfElse {
            cond: c,
            scope_if,
            scope_else,
        }) => {
            assert_eq!(*c, cond);
            assert_eq!(
                scope_if.instructions,
                vec![Instruction::Branch(Branch::Break)]
            );
            assert_eq!(
                scope_else.instructions,
                vec![Instruction::Branch(Branch::Return)]
            );
        }
        other => panic!("expected an IfElse node, got {:?}", other),
    }
}

#[test]
fn if_else_expr_constant_true_returns_then_value() {
    let mut ctx = Context::new();
    let handle = if_else_expr_expand(&mut ctx, boolean(true), |c: Context| (c, cint(7)));
    let value = handle.or_else(&mut ctx, |_c: Context| -> (Context, Element) {
        panic!("else must not run after a constant-true condition");
    });
    assert_eq!(value, cint(7));
    assert!(ctx.scopes.last().unwrap().instructions.is_empty());
    assert_eq!(ctx.locals.len(), 0, "no output slot is allocated");
}

#[test]
fn if_else_expr_constant_false_returns_else_value() {
    let mut ctx = Context::new();
    let handle = if_else_expr_expand(&mut ctx, boolean(false), |_c: Context| -> (Context, Element) {
        panic!("then must not run under a constant-false condition");
    });
    let value = handle.or_else(&mut ctx, |c: Context| (c, cint(42)));
    assert_eq!(value, cint(42));
    assert!(
        ctx.scopes.last().unwrap().instructions.is_empty(),
        "zero branch nodes are emitted"
    );
}

#[test]
fn if_else_expr_runtime_arms_write_one_output_slot() {
    let mut ctx = Context::new();
    let cond = var(3);
    let then_value = cint(1);
    let else_value = cint(2);
    let handle = if_else_expr_expand(&mut ctx, cond, |c: Context| (c, then_value));
    let value = handle.or_else(&mut ctx, |c: Context| (c, else_value));
    let out = match value {
        Element::Runtime { shape, .. } => {
            assert_eq!(shape, Shape { code: 1 }, "the slot takes the then value's shape");
            value
        }
        other => panic!("the expression's value is the shared slot, got {:?}", other),
    };
    assert_eq!(
        ctx.scopes.last().unwrap().vars,
        vec![out],
        "the output slot is declared in the caller's scope"
    );
    let instructions = &ctx.scopes.last().unwrap().instructions;
    assert_eq!(instructions.len(), 1);
    match &instructions[0] {
        Instruction::Branch(Branch::IfElse {
            cond: c,
            scope_if,
            scope_else,
        }) => {
            assert_eq!(*c, cond);
            assert_eq!(
                scope_if.instructions.last(),
                Some(&Instruction::Assign {
                    src: then_value,
                    dst: out
                }),
                "the then arm ends by assigning into the shared slot"
            );
            assert_eq!(
                scope_else.instructions.last(),
                Some(&Instruction::Assign {
                    src: else_value,
                    dst: out
                }),
                "the else arm ends by assigning into the same slot"
            );
        }
        other => panic!("expected an IfElse node, got {:?}", other),
    }
}

#[test]
fn loop_expand_emits_one_loop_node() {
    let mut ctx = Context::new();
    loop_expand(&mut ctx, |mut c: Context| {
        break_expand(&mut c);
        c
    });
    let instructions = &ctx.scopes.last().unwrap().instructions;
    assert_eq!(instructions.len(), 1);
    match &instructions[0] {
        Instruction::Branch(Branch::Loop { scope }) => {
            assert_eq!(
                scope.instructions,
                vec![Instruction::Branch(Branch::Break)]
            );
        }
        other => panic!("expected a Loop node, got {:?}", other),
    }
}

#[test]
fn markers_are_registered_in_program_order() {
    let mut ctx = Context::new();
    break_expand(&mut ctx);
    return_expand(&mut ctx);
    break_expand(&mut ctx);
    assert_eq!(
        ctx.scopes.last().unwrap().instructions,
        vec![
            Instruction::Branch(Branch::Break),
            Instruction::Branch(Branch::Return),
            Instruction::Branch(Branch::Break),
        ]
    );
}
