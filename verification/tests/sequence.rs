use cubecl_expand::Constant;
use cubecl_expand::Context;
use cubecl_expand::Element;
use cubecl_expand::ExpandError;
use cubecl_expand::Sequence;
use cubecl_expand::SequenceExpand;
use cubecl_expand::Shape;
use cubecl_expand::for_expand;

fn cint(v: i64) -> Element {
    Element::Comptime {
        value: Constant::Int(v),
        shape: Shape { code: 1 },
    }
}

fn var(id: usize) -> Element {
    Element::Runtime {
        id,
        shape: Shape { code: 1 },
    }
}

#[test]
fn fresh_sequence_is_empty() {
    let s = Sequence::new();
    assert_eq!(s.len(), 0);
}

#[test]
fn push_index_and_drain_keep_insertion_order() {
    let mut s = Sequence::new();
    let (v1, v2, v3) = (var(10), var(11), var(12));
    s.push(v1);
    s.push(v2);
    s.push(v3);
    assert_eq!(s.len(), 3);
    assert_eq!(s.index(cint(1)), Ok(v2));
    assert_eq!(s.index(cint(3)), Err(ExpandError::IndexOutOfRange));
    assert_eq!(s.drain(), vec![v1, v2, v3]);
}

#[test]
fn index_needs_a_constant() {
    let mut s = Sequence::new();
    s.push(cint(5));
    assert_eq!(s.index(var(0)), Err(ExpandError::ConstantIndexRequired));
    assert_eq!(s.index(cint(-1)), Err(ExpandError::IndexOutOfRange));
}

#[test]
fn sequence_has_no_runtime_form() {
    let s = Sequence::new();
    assert_eq!(s.runtime(), Err(ExpandError::RuntimeSequence));
}

#[test]
fn expand_handles_share_one_storage() {
    let mut ctx = Context::new();
    let s = SequenceExpand::new(&mut ctx);
    let copy = s;
    s.push(&mut ctx, cint(5));
    copy.push(&mut ctx, cint(10));
    s.push(&mut ctx, cint(15));
    assert_eq!(s.index(&ctx, cint(1)), Ok(cint(10)));
    assert_eq!(copy.index(&ctx, cint(2)), Ok(cint(15)));
    assert_eq!(copy.index(&ctx, cint(3)), Err(ExpandError::IndexOutOfRange));
    assert_eq!(
        s.index(&ctx, var(0)),
        Err(ExpandError::ConstantIndexRequired)
    );
}

#[test]
fn iterating_a_sequence_drains_it_in_order() {
    let mut ctx = Context::new();
    let s = SequenceExpand::new(&mut ctx);
    s.push(&mut ctx, cint(5));
    s.push(&mut ctx, cint(10));
    s.push(&mut ctx, cint(15));
    let mut seen: Vec<Element> = Vec::new();
    let r = for_expand(&mut ctx, s, true, |c: Context, e: Element| {
        seen.push(e);
        c
    });
    assert!(r.is_ok());
    assert_eq!(seen, vec![cint(5), cint(10), cint(15)]);
    assert!(
        ctx.scopes.last().unwrap().instructions.is_empty(),
        "sequence iteration never emits a loop node"
    );
    assert_eq!(
        s.index(&ctx, cint(0)),
        Err(ExpandError::IndexOutOfRange),
        "iteration is one-shot: the storage is drained"
    );
}

#[test]
fn dynamic_expansion_of_a_sequence_still_inlines() {
    let mut ctx = Context::new();
    let s = SequenceExpand::new(&mut ctx);
    s.push(&mut ctx, cint(1));
    s.push(&mut ctx, cint(2));
    let mut calls = 0usize;
    let r = for_expand(&mut ctx, s, false, |c: Context, _e: Element| {
        calls += 1;
        c
    });
    assert!(r.is_ok());
    assert_eq!(calls, 2, "the body runs once per element even without unroll");
    assert!(
        ctx.scopes.last().unwrap().instructions.is_empty(),
        "no branch node and no child scope, whatever the unroll flag says"
    );
    assert_eq!(ctx.scopes.len(), 1);
}

#[test]
fn separate_sequences_do_not_share() {
    let mut ctx = Context::new();
    let a = SequenceExpand::new(&mut ctx);
    let b = SequenceExpand::new(&mut ctx);
    a.push(&mut ctx, cint(1));
    b.push(&mut ctx, cint(2));
    assert_eq!(a.index(&ctx, cint(0)), Ok(cint(1)));
    assert_eq!(b.index(&ctx, cint(0)), Ok(cint(2)));
    assert_eq!(a.index(&ctx, cint(1)), Err(ExpandError::IndexOutOfRange));
}

#[test]
fn error_messages_name_the_failure() {
    assert_eq!(
        ExpandError::ConstantBoundRequired.message(),
        "only constant bounds and step can be unrolled"
    );
    assert_eq!(
        ExpandError::ConstantIndexRequired.message(),
        "only constant indices are supported"
    );
    assert_eq!(
        ExpandError::IndexOutOfRange.message(),
        "sequence index out of range"
    );
    assert_eq!(
        ExpandError::RuntimeSequence.message(),
        "sequences do not exist at device-execution time"
    );
}

#[test]
fn default_sequence_is_empty() {
    let s = Sequence::default();
    assert_eq!(s.len(), 0);
}
