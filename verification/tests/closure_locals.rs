use kestrel_execution_graph_lowering::closure_locals::{
    collect_closure_local_ids, CodeBlock, ElseBranch, Expression, IfCondition, MatchArm, Pattern, Statement,
};
use kestrel_execution_graph_lowering::sem::SemLocalId;

fn local(id: u64) -> Pattern {
    Pattern::Local { local_id: SemLocalId(id) }
}

fn closure(params: Option<Vec<Pattern>>, implicit: Option<u64>, body: Vec<Statement>, tail: Option<Expression>) -> Expression {
    Expression::Closure {
        params,
        body,
        tail_expr: tail.map(Box::new),
        implicit_param: implicit.map(SemLocalId),
    }
}

fn sorted(mut ids: Vec<SemLocalId>) -> Vec<u64> {
    ids.sort_by_key(|l| l.0);
    ids.into_iter().map(|l| l.0).collect()
}

#[test]
fn body_without_closures_declares_nothing() {
    let body = CodeBlock {
        statements: vec![
            Statement::Binding { value: Some(Expression::Literal) },
            Statement::Expr(Expression::Call { callee: Box::new(Expression::SymbolRef), arguments: vec![Expression::LocalRef] }),
            Statement::Deinit,
        ],
        yield_expr: Some(Box::new(Expression::LocalRef)),
    };
    assert!(collect_closure_local_ids(&body).is_empty());
}

#[test]
fn explicit_and_implicit_closure_parameters_are_collected() {
    let c1 = closure(Some(vec![local(1), Pattern::Wildcard]), None, vec![], Some(Expression::LocalRef));
    let c2 = closure(None, Some(2), vec![], None);
    let body = CodeBlock {
        statements: vec![Statement::Binding { value: Some(c1) }],
        yield_expr: Some(Box::new(Expression::Call { callee: Box::new(Expression::SymbolRef), arguments: vec![c2] })),
    };
    assert_eq!(sorted(collect_closure_local_ids(&body)), vec![1, 2]);
}

#[test]
fn nested_closures_and_patterns_are_collected() {
    let inner = closure(
        Some(vec![Pattern::Tuple { prefix: vec![local(3)], suffix: vec![Pattern::At { local_id: SemLocalId(4), subpattern: Box::new(local(5)) }] }]),
        None,
        vec![],
        None,
    );
    let outer = closure(
        Some(vec![
            Pattern::Or { alternatives: vec![local(6), local(7)] },
            Pattern::Array { prefix: vec![], suffix: vec![], rest: Some((Some("rest".to_string()), Some(SemLocalId(8)))) },
            Pattern::Array { prefix: vec![], suffix: vec![], rest: Some((None, Some(SemLocalId(9)))) },
        ]),
        None,
        vec![Statement::Expr(inner)],
        None,
    );
    let body = CodeBlock { statements: vec![Statement::Expr(outer)], yield_expr: None };
    assert_eq!(sorted(collect_closure_local_ids(&body)), vec![3, 4, 5, 6, 8]);
}

#[test]
fn closures_inside_control_flow_are_collected_once() {
    let c = |id: u64| closure(None, Some(id), vec![], None);
    let if_expr = Expression::If {
        conditions: vec![IfCondition::Let { value: c(1) }, IfCondition::Expr(c(1))],
        then_branch: vec![Statement::Expr(c(2))],
        then_value: None,
        else_branch: Some(ElseBranch::Block { statements: vec![], value: Some(Box::new(c(3))) }),
    };
    let match_expr = Expression::Match {
        scrutinee: Box::new(Expression::LocalRef),
        arms: vec![MatchArm { guard: Some(c(4)), body: c(5) }],
    };
    let body = CodeBlock {
        statements: vec![
            Statement::Expr(if_expr),
            Statement::Expr(match_expr),
            Statement::GuardLet {
                conditions: vec![IfCondition::Let { value: c(6) }],
                else_block: CodeBlock { statements: vec![Statement::Expr(Expression::Return { value: Some(Box::new(c(7))) })], yield_expr: None },
            },
            Statement::Expr(Expression::Dictionary(vec![(c(8), Expression::Tuple(vec![c(9)]))])),
        ],
        yield_expr: Some(Box::new(Expression::While { condition: Box::new(c(10)), body: vec![Statement::Expr(c(2))] })),
    };
    let ids = collect_closure_local_ids(&body);
    assert_eq!(ids.len(), 10);
    assert_eq!(sorted(ids), vec![1, 2, 3, 4, 5, 6, 7, 8, 9, 10]);
}
