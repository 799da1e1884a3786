use kestrel_execution_graph_lowering::expr::{collect_type_param_substitutions, InferTy, NominalKind};
use kestrel_execution_graph_lowering::sem::SymbolId;
use kestrel_execution_graph_lowering::table::Table;

fn tp(id: u64) -> InferTy {
    InferTy::TypeParameter(SymbolId(id))
}

fn leaf(n: u64) -> InferTy {
    InferTy::Leaf(n)
}

fn nominal(kind: NominalKind, sym: u64, subs: Vec<(u64, InferTy)>) -> InferTy {
    InferTy::Nominal {
        kind,
        symbol: SymbolId(sym),
        substitutions: subs.into_iter().map(|(k, t)| (SymbolId(k), t)).collect(),
    }
}

fn infer(param: &InferTy, arg: &InferTy, ids: &[u64], subs: &mut Table<SymbolId, InferTy>) {
    let ids: Vec<SymbolId> = ids.iter().map(|i| SymbolId(*i)).collect();
    collect_type_param_substitutions(param, arg, &ids, subs);
}

fn shown(subs: &Table<SymbolId, InferTy>) -> Vec<String> {
    subs.entries.iter().map(|(k, t)| format!("{}={:?}", k.0, t)).collect()
}

#[test]
fn a_method_type_parameter_is_bound_to_the_argument() {
    let mut subs = Table::new();
    infer(&tp(10), &leaf(1), &[10], &mut subs);
    assert_eq!(shown(&subs), vec!["10=Leaf(1)"]);
}

#[test]
fn existing_bindings_and_other_parameters_are_left_alone() {
    let mut subs = Table::new();
    subs.insert(SymbolId(10), leaf(2));
    infer(&tp(10), &leaf(1), &[10], &mut subs);
    infer(&tp(11), &leaf(1), &[10], &mut subs);
    assert_eq!(shown(&subs), vec!["10=Leaf(2)"]);
}

#[test]
fn tuples_match_element_by_element_and_the_first_match_wins() {
    let mut subs = Table::new();
    let param = InferTy::Tuple(vec![tp(1), tp(2), tp(1)]);
    let arg = InferTy::Tuple(vec![leaf(7), InferTy::Tuple(vec![leaf(8)])]);
    infer(&param, &arg, &[1, 2], &mut subs);
    assert_eq!(shown(&subs), vec!["1=Leaf(7)", "2=Tuple([Leaf(8)])"]);
}

#[test]
fn function_types_match_when_their_arity_agrees() {
    let mut subs = Table::new();
    let param = InferTy::Function { params: vec![tp(1)], ret: Box::new(tp(2)) };
    let arg = InferTy::Function { params: vec![leaf(3)], ret: Box::new(InferTy::Pointer(Box::new(leaf(4)))) };
    infer(&param, &arg, &[1, 2], &mut subs);
    assert_eq!(shown(&subs), vec!["1=Leaf(3)", "2=Pointer(Leaf(4))"]);
    let mut subs = Table::new();
    let arg2 = InferTy::Function { params: vec![leaf(3), leaf(5)], ret: Box::new(leaf(4)) };
    infer(&param, &arg2, &[1, 2], &mut subs);
    assert!(subs.entries.is_empty());
}

#[test]
fn pointers_match_their_pointees() {
    let mut subs = Table::new();
    infer(&InferTy::Pointer(Box::new(tp(1))), &InferTy::Pointer(Box::new(leaf(9))), &[1], &mut subs);
    infer(&InferTy::Pointer(Box::new(tp(2))), &leaf(9), &[2], &mut subs);
    assert_eq!(shown(&subs), vec!["1=Leaf(9)"]);
}

#[test]
fn nominal_types_match_by_kind_symbol_and_substitution_key() {
    let param = nominal(NominalKind::Struct, 50, vec![(100, tp(1)), (101, tp(2))]);
    let arg = nominal(NominalKind::Struct, 50, vec![(101, leaf(6)), (100, leaf(5))]);
    let mut subs = Table::new();
    infer(&param, &arg, &[1, 2], &mut subs);
    assert_eq!(shown(&subs), vec!["1=Leaf(5)", "2=Leaf(6)"]);

    let partial = nominal(NominalKind::Struct, 50, vec![(101, leaf(6))]);
    let mut subs = Table::new();
    infer(&param, &partial, &[1, 2], &mut subs);
    assert_eq!(shown(&subs), vec!["2=Leaf(6)"]);

    let mut subs = Table::new();
    infer(&param, &nominal(NominalKind::Struct, 51, vec![(100, leaf(5))]), &[1, 2], &mut subs);
    infer(&param, &nominal(NominalKind::Enum, 50, vec![(100, leaf(5))]), &[1, 2], &mut subs);
    assert!(subs.entries.is_empty());
}
