use kestrel_execution_graph_lowering::context::LoweringContext;
use kestrel_execution_graph_lowering::mir::{NameId, TyId};

#[test]
fn function_thunks_are_found_after_they_are_recorded() {
    let mut ctx = LoweringContext::new();
    let f = NameId(3);
    assert_eq!(ctx.cached_function_thunk(f, &vec![TyId(1)]), None);
    ctx.remember_function_thunk(f, vec![TyId(1)], NameId(10));
    assert_eq!(ctx.cached_function_thunk(f, &vec![TyId(1)]), Some(NameId(10)));
    assert_eq!(ctx.cached_function_thunk(f, &vec![TyId(2)]), None);
    assert_eq!(ctx.cached_function_thunk(f, &Vec::new()), None);
    ctx.remember_function_thunk(f, Vec::new(), NameId(11));
    assert_eq!(ctx.cached_function_thunk(f, &Vec::new()), Some(NameId(11)));
    assert_eq!(ctx.cached_function_thunk(f, &vec![TyId(1)]), Some(NameId(10)));
    assert!(ctx.mir.blocks.is_empty() && ctx.mir.locals.is_empty());
}

#[test]
fn witness_thunks_are_keyed_by_protocol_and_type() {
    let mut ctx = LoweringContext::new();
    let p = NameId(4);
    ctx.remember_witness_thunk(p, TyId(7), NameId(20));
    assert_eq!(ctx.cached_witness_thunk(p, TyId(7)), Some(NameId(20)));
    assert_eq!(ctx.cached_witness_thunk(p, TyId(8)), None);
    // A witness key is the protocol with the one type as its type arguments.
    assert_eq!(ctx.cached_function_thunk(p, &vec![TyId(7)]), Some(NameId(20)));
}
