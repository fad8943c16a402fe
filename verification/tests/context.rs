use cubecl_expand::Branch;
use cubecl_expand::Context;
use cubecl_expand::Element;
use cubecl_expand::Instruction;
use cubecl_expand::Shape;
use cubecl_expand::break_expand;
use cubecl_expand::if_expand;
use cubecl_expand::loop_expand;
use cubecl_expand::return_expand;

fn var_id(e: Element) -> usize {
    match e {
        Element::Runtime { id, .. } => id,
        other => panic!("expected a runtime slot, got {:?}", other),
    }
}

#[test]
fn created_locals_are_fresh_and_declared() {
    let mut ctx = Context::new();
    let a = ctx.create_local(Shape { code: 1 });
    let b = ctx.create_local(Shape { code: 2 });
    let c = ctx.create_local_undeclared(Shape { code: 3 });
    assert_ne!(var_id(a), var_id(b));
    assert_ne!(var_id(b), var_id(c));
    assert_ne!(var_id(a), var_id(c));
    assert_eq!(
        ctx.scopes.last().unwrap().vars,
        vec![a, b],
        "an undeclared local is minted but not put in the scope's variable list"
    );
    assert_eq!(ctx.locals.len(), 3);
}

#[test]
fn child_and_seal_round_trip() {
    let mut ctx = Context::new();
    break_expand(&mut ctx);
    ctx.child();
    return_expand(&mut ctx);
    let inner = ctx.seal();
    assert_eq!(inner.instructions, vec![Instruction::Branch(Branch::Return)]);
    assert_eq!(
        ctx.scopes.last().unwrap().instructions,
        vec![Instruction::Branch(Branch::Break)],
        "sealing restores the parent scope untouched"
    );
}

#[test]
fn finish_yields_the_root_scope() {
    let mut ctx = Context::new();
    break_expand(&mut ctx);
    ctx.register(Branch::Return);
    let root = ctx.finish();
    assert_eq!(
        root.instructions,
        vec![
            Instruction::Branch(Branch::Break),
            Instruction::Branch(Branch::Return),
        ]
    );
}

#[test]
fn nested_lowering_builds_a_tree() {
    let mut ctx = Context::new();
    let cond = Element::Runtime {
        id: 0,
        shape: Shape { code: 0 },
    };
    loop_expand(&mut ctx, |mut c: Context| {
        if_expand(&mut c, cond, |mut inner: Context| {
            break_expand(&mut inner);
            inner
        });
        c
    });
    let root = ctx.finish();
    assert_eq!(root.instructions.len(), 1);
    match &root.instructions[0] {
        Instruction::Branch(Branch::Loop { scope }) => {
            assert_eq!(scope.instructions.len(), 1);
            match &scope.instructions[0] {
                Instruction::Branch(Branch::If { cond: c, scope }) => {
                    assert_eq!(*c, cond);
                    assert_eq!(
                        scope.instructions,
                        vec![Instruction::Branch(Branch::Break)]
                    );
                }
                other => panic!("expected an If inside the loop, got {:?}", other),
            }
        }
        other => panic!("expected a Loop node, got {:?}", other),
    }
}
