//! The locals that closures declare inside a function body: the bindings of their
//! parameter patterns and their implicit `it` parameter, in closures at any depth.
//! These locals belong to the closures' own functions, not to the enclosing one.

use vstd::prelude::*;

use crate::sem::SemLocalId;

verus! {

/// A pattern, with what the search for declared locals reads of it.
#[derive(Debug)]
pub enum Pattern {
    Local { local_id: SemLocalId },
    Wildcard,
    Tuple { prefix: Vec<Pattern>, suffix: Vec<Pattern> },
    Literal,
    EnumVariant { bindings: Vec<Pattern> },
    Range,
    Struct { fields: Vec<Pattern> },
    /// An array pattern; `rest` is the rest element's name and local, if bound.
    Array { prefix: Vec<Pattern>, suffix: Vec<Pattern>, rest: Option<(Option<String>, Option<SemLocalId>)> },
    Or { alternatives: Vec<Pattern> },
    At { local_id: SemLocalId, subpattern: Box<Pattern> },
    Rest,
    Error,
}

/// A condition of an `if` or `while let`.
#[derive(Debug)]
pub enum IfCondition {
    Expr(Expression),
    Let { value: Expression },
}

/// An arm of a `match`.
#[derive(Debug)]
pub struct MatchArm {
    pub guard: Option<Expression>,
    pub body: Expression,
}

/// The `else` part of an `if`.
#[derive(Debug)]
pub enum ElseBranch {
    ElseIf(Box<Expression>),
    Block { statements: Vec<Statement>, value: Option<Box<Expression>> },
}

/// A block of statements with an optional final value.
#[derive(Debug)]
pub struct CodeBlock {
    pub statements: Vec<Statement>,
    pub yield_expr: Option<Box<Expression>>,
}

/// A statement.
#[derive(Debug)]
pub enum Statement {
    Binding { value: Option<Expression> },
    Expr(Expression),
    GuardLet { conditions: Vec<IfCondition>, else_block: CodeBlock },
    Deinit,
}

/// An expression, with its sub-expressions, statements, conditions and patterns
/// (call arguments by their values).
#[allow(inconsistent_fields)]
#[derive(Debug)]
pub enum Expression {
    Closure {
        params: Option<Vec<Pattern>>,
        body: Vec<Statement>,
        tail_expr: Option<Box<Expression>>,
        implicit_param: Option<SemLocalId>,
    },
    Call { callee: Box<Expression>, arguments: Vec<Expression> },
    PrimitiveMethodCall { receiver: Box<Expression>, arguments: Vec<Expression> },
    DeferredMethodCall { receiver: Box<Expression>, arguments: Vec<Expression> },
    DeferredStaticCall { arguments: Vec<Expression> },
    ImplicitStructInit { arguments: Vec<Expression> },
    DelegatingInit { arguments: Vec<Expression> },
    Assignment { target: Box<Expression>, value: Box<Expression> },
    If {
        conditions: Vec<IfCondition>,
        then_branch: Vec<Statement>,
        then_value: Option<Box<Expression>>,
        else_branch: Option<ElseBranch>,
    },
    Match { scrutinee: Box<Expression>, arms: Vec<MatchArm> },
    Block { statements: Vec<Statement>, value: Option<Box<Expression>> },
    While { condition: Box<Expression>, body: Vec<Statement> },
    WhileLet { conditions: Vec<IfCondition>, body: Vec<Statement> },
    Loop { body: Vec<Statement> },
    Tuple(Vec<Expression>),
    Array(Vec<Expression>),
    Dictionary(Vec<(Expression, Expression)>),
    Grouping(Box<Expression>),
    FieldAccess { object: Box<Expression> },
    ProtocolPropertyAccess { receiver: Box<Expression> },
    TupleIndex { tuple: Box<Expression> },
    MethodRef { receiver: Box<Expression> },
    PrimitiveMethodRef { receiver: Box<Expression> },
    Return { value: Option<Box<Expression>> },
    ImplicitMemberAccess { arguments: Option<Vec<Expression>> },
    LangIntrinsic { arguments: Vec<Expression> },
    SubscriptCall { receiver: Box<Expression>, arguments: Vec<Expression> },
    Literal,
    LocalRef,
    SymbolRef,
    OverloadedRef,
    TypeRef,
    TypeParameterRef,
    AssociatedTypeRef,
    EnumCase,
    Break,
    Continue,
    LangIntrinsicRef,
    Error,
}

// ---------------------------------------------------------------------------
// The locals declared by closures
// ---------------------------------------------------------------------------

/// The locals a pattern binds: bound names, `@` bindings and a named array rest; of
/// an or-pattern, those of its first alternative.
pub open spec fn pattern_ids(p: Pattern) -> Set<SemLocalId>
    decreases p, 1nat,
{
    match p {
        Pattern::Local { local_id } => set![local_id],
        Pattern::Tuple { prefix, suffix } => patterns_ids(prefix@) + patterns_ids(suffix@),
        Pattern::EnumVariant { bindings } => patterns_ids(bindings@),
        Pattern::Struct { fields } => patterns_ids(fields@),
        Pattern::Array { prefix, suffix, rest } => patterns_ids(prefix@) + patterns_ids(suffix@) + match rest {
            Some((Some(_), Some(l))) => set![l],
            _ => Set::empty(),
        },
        Pattern::Or { alternatives } => if alternatives@.len() > 0 {
            pattern_ids(alternatives@[0])
        } else {
            Set::empty()
        },
        Pattern::At { local_id, subpattern } => set![local_id] + pattern_ids(*subpattern),
        _ => Set::empty(),
    }
}

/// The locals the patterns bind.
pub open spec fn patterns_ids(ps: Seq<Pattern>) -> Set<SemLocalId>
    decreases ps, 0nat,
{
    if ps.len() == 0 {
        Set::empty()
    } else {
        patterns_ids(ps.drop_last()) + pattern_ids(ps.last())
    }
}

/// The locals declared by closures in an expression: each closure's parameter
/// bindings and implicit parameter, and those of closures nested anywhere in it.
pub open spec fn expr_ids(e: Expression) -> Set<SemLocalId>
    decreases e, 2nat,
{
    match e {
        Expression::Closure { params, body, tail_expr, implicit_param } => {
            (match params {
                Some(ps) => patterns_ids(ps@),
                None => Set::empty(),
            }) + (match implicit_param {
                Some(l) => set![l],
                None => Set::empty(),
            }) + stmts_ids(body@) + opt_ids(tail_expr)
        },
        Expression::Call { callee, arguments } => expr_ids(*callee) + exprs_ids(arguments@),
        Expression::PrimitiveMethodCall { receiver, arguments } => expr_ids(*receiver) + exprs_ids(arguments@),
        Expression::DeferredMethodCall { receiver, arguments } => expr_ids(*receiver) + exprs_ids(arguments@),
        Expression::DeferredStaticCall { arguments } => exprs_ids(arguments@),
        Expression::ImplicitStructInit { arguments } => exprs_ids(arguments@),
        Expression::DelegatingInit { arguments } => exprs_ids(arguments@),
        Expression::Assignment { target, value } => expr_ids(*target) + expr_ids(*value),
        Expression::If { conditions, then_branch, then_value, else_branch } => {
            conds_ids(conditions@) + stmts_ids(then_branch@) + opt_ids(then_value) + match else_branch {
                Some(ElseBranch::ElseIf(e2)) => expr_ids(*e2),
                Some(ElseBranch::Block { statements, value }) => stmts_ids(statements@) + opt_ids(value),
                None => Set::empty(),
            }
        },
        Expression::Match { scrutinee, arms } => expr_ids(*scrutinee) + arms_ids(arms@),
        Expression::Block { statements, value } => stmts_ids(statements@) + opt_ids(value),
        Expression::While { condition, body } => expr_ids(*condition) + stmts_ids(body@),
        Expression::WhileLet { conditions, body } => conds_ids(conditions@) + stmts_ids(body@),
        Expression::Loop { body } => stmts_ids(body@),
        Expression::Tuple(es) => exprs_ids(es@),
        Expression::Array(es) => exprs_ids(es@),
        Expression::Dictionary(pairs) => pairs_ids(pairs@),
        Expression::Grouping(inner) => expr_ids(*inner),
        Expression::FieldAccess { object } => expr_ids(*object),
        Expression::ProtocolPropertyAccess { receiver } => expr_ids(*receiver),
        Expression::TupleIndex { tuple } => expr_ids(*tuple),
        Expression::MethodRef { receiver } => expr_ids(*receiver),
        Expression::PrimitiveMethodRef { receiver } => expr_ids(*receiver),
        Expression::Return { value } => opt_ids(value),
        Expression::ImplicitMemberAccess { arguments } => match arguments {
            Some(args) => exprs_ids(args@),
            None => Set::empty(),
        },
        Expression::LangIntrinsic { arguments } => exprs_ids(arguments@),
        Expression::SubscriptCall { receiver, arguments } => expr_ids(*receiver) + exprs_ids(arguments@),
        _ => Set::empty(),
    }
}

/// The locals declared by closures in an optional expression.
pub open spec fn opt_ids(o: Option<Box<Expression>>) -> Set<SemLocalId>
    decreases o, 1nat,
{
    match o {
        Some(e) => expr_ids(*e),
        None => Set::empty(),
    }
}

/// The locals declared by closures in the expressions.
pub open spec fn exprs_ids(es: Seq<Expression>) -> Set<SemLocalId>
    decreases es, 1nat,
{
    if es.len() == 0 {
        Set::empty()
    } else {
        exprs_ids(es.drop_last()) + expr_ids(es.last())
    }
}

/// The locals declared by closures in the key-value pairs.
pub open spec fn pairs_ids(ps: Seq<(Expression, Expression)>) -> Set<SemLocalId>
    decreases ps, 1nat,
{
    if ps.len() == 0 {
        Set::empty()
    } else {
        pairs_ids(ps.drop_last()) + expr_ids(ps.last().0) + expr_ids(ps.last().1)
    }
}

/// The locals declared by closures in the arms' guards and bodies.
pub open spec fn arms_ids(arms: Seq<MatchArm>) -> Set<SemLocalId>
    decreases arms, 1nat,
{
    if arms.len() == 0 {
        Set::empty()
    } else {
        arms_ids(arms.drop_last()) + match arms.last().guard {
            Some(g) => expr_ids(g),
            None => Set::empty(),
        } + expr_ids(arms.last().body)
    }
}

/// The locals declared by closures in a condition (its expression or its value).
pub open spec fn cond_ids(c: IfCondition) -> Set<SemLocalId>
    decreases c, 1nat,
{
    match c {
        IfCondition::Expr(e) => expr_ids(e),
        IfCondition::Let { value } => expr_ids(value),
    }
}

/// The locals declared by closures in the conditions.
pub open spec fn conds_ids(cs: Seq<IfCondition>) -> Set<SemLocalId>
    decreases cs, 1nat,
{
    if cs.len() == 0 {
        Set::empty()
    } else {
        conds_ids(cs.drop_last()) + cond_ids(cs.last())
    }
}

/// The locals declared by closures in a statement.
pub open spec fn stmt_ids(s: Statement) -> Set<SemLocalId>
    decreases s, 1nat,
{
    match s {
        Statement::Binding { value } => match value {
            Some(e) => expr_ids(e),
            None => Set::empty(),
        },
        Statement::Expr(e) => expr_ids(e),
        Statement::GuardLet { conditions, else_block } => conds_ids(conditions@) + stmts_ids(
            else_block.statements@,
        ) + opt_ids(else_block.yield_expr),
        Statement::Deinit => Set::empty(),
    }
}

/// The locals declared by closures in the statements.
pub open spec fn stmts_ids(ss: Seq<Statement>) -> Set<SemLocalId>
    decreases ss, 1nat,
{
    if ss.len() == 0 {
        Set::empty()
    } else {
        stmts_ids(ss.drop_last()) + stmt_ids(ss.last())
    }
}

} // verus!

verus! {

/// The locals declared by closures in a block's statements and final value.
pub open spec fn block_ids(b: CodeBlock) -> Set<SemLocalId> {
    stmts_ids(b.statements@) + opt_ids(b.yield_expr)
}

/// Adds a local to the collected ones unless it is already there.
fn insert_local(ids: &mut Vec<SemLocalId>, l: SemLocalId)
    requires
        old(ids)@.no_duplicates(),
    ensures
        final(ids)@.no_duplicates(),
        final(ids)@.to_set() == old(ids)@.to_set().insert(l),
{
    let mut i: usize = 0;
    while i < ids.len()
        invariant
            i <= ids.len(),
            ids@ == old(ids)@,
            ids@.no_duplicates(),
            forall|j: int| 0 <= j < i ==> ids@[j] != l,
        decreases ids.len() - i,
    {
        if ids[i] == l {
            proof {
                assert(ids@.to_set() =~= ids@.to_set().insert(l));
            }
            return;
        }
        i += 1;
    }
    let ghost before = ids@;
    ids.push(l);
    proof {
        assert forall|x: SemLocalId| ids@.contains(x) <==> (before.contains(x) || x == l) by {
            if before.contains(x) {
                let j = choose|j: int| 0 <= j < before.len() && before[j] == x;
                assert(ids@[j] == x);
            }
            if x == l {
                assert(ids@[before.len() as int] == l);
            }
        }
        assert(before == old(ids)@);
        assert forall|x: SemLocalId| ids@.to_set().contains(x) <==> old(ids)@.to_set().insert(l).contains(x) by {
            assert(ids@.contains(x) <==> (before.contains(x) || x == l));
        }
        assert(ids@.to_set() =~= old(ids)@.to_set().insert(l));
    }
}


/// Adds the locals a pattern binds.
fn collect_closure_local_ids_from_pattern(p: &Pattern, ids: &mut Vec<SemLocalId>)
    requires
        old(ids)@.no_duplicates(),
    ensures
        final(ids)@.no_duplicates(),
        final(ids)@.to_set() == old(ids)@.to_set() + pattern_ids(*p),
    decreases p, 1nat,
{
    match p {
        Pattern::Local { local_id } => {
            insert_local(ids, *local_id);
        },
        Pattern::Tuple { prefix, suffix } => {
            collect_from_patterns(prefix, ids);
            collect_from_patterns(suffix, ids);
        },
        Pattern::EnumVariant { bindings } => {
            collect_from_patterns(bindings, ids);
        },
        Pattern::Struct { fields } => {
            collect_from_patterns(fields, ids);
        },
        Pattern::Array { prefix, suffix, rest } => {
            collect_from_patterns(prefix, ids);
            collect_from_patterns(suffix, ids);
            if let Some((Some(_), Some(l))) = rest {
                insert_local(ids, *l);
            }
        },
        Pattern::Or { alternatives } => {
            if alternatives.len() > 0 {
                collect_closure_local_ids_from_pattern(&alternatives[0], ids);
            }
        },
        Pattern::At { local_id, subpattern } => {
            insert_local(ids, *local_id);
            collect_closure_local_ids_from_pattern(subpattern, ids);
        },
        _ => {},
    }
}

/// Adds the locals the patterns bind.
fn collect_from_patterns(ps: &Vec<Pattern>, ids: &mut Vec<SemLocalId>)
    requires
        old(ids)@.no_duplicates(),
    ensures
        final(ids)@.no_duplicates(),
        final(ids)@.to_set() == old(ids)@.to_set() + patterns_ids(ps@),
    decreases ps@, 0nat,
{
    let ghost start = ids@.to_set();
    let mut i: usize = 0;
    while i < ps.len()
        invariant
            i <= ps.len(),
            ids@.no_duplicates(),
            ids@.to_set() == start + patterns_ids(ps@.take(i as int)),
        decreases ps.len() - i,
    {
        proof {
            assert(ps@.take(i as int + 1).drop_last() =~= ps@.take(i as int));
        }
        collect_closure_local_ids_from_pattern(&ps[i], ids);
        i += 1;
    }
    proof {
        assert(ps@.take(ps.len() as int) =~= ps@);
    }
}


/// Adds the locals declared by closures in the expressions.
fn collect_from_exprs(xs: &Vec<Expression>, ids: &mut Vec<SemLocalId>)
    requires
        old(ids)@.no_duplicates(),
    ensures
        final(ids)@.no_duplicates(),
        final(ids)@.to_set() == old(ids)@.to_set() + exprs_ids(xs@),
    decreases xs@, 1nat,
{
    let ghost start = ids@.to_set();
    let mut i: usize = 0;
    while i < xs.len()
        invariant
            i <= xs.len(),
            ids@.no_duplicates(),
            ids@.to_set() == start + exprs_ids(xs@.take(i as int)),
        decreases xs.len() - i,
    {
        proof {
            assert(xs@.take(i as int + 1).drop_last() =~= xs@.take(i as int));
        }
        collect_closure_local_ids_from_expr(&xs[i], ids);
        i += 1;
    }
    proof {
        assert(xs@.take(xs.len() as int) =~= xs@);
    }
}

/// Adds the locals declared by closures in the statements.
fn collect_from_stmts(xs: &Vec<Statement>, ids: &mut Vec<SemLocalId>)
    requires
        old(ids)@.no_duplicates(),
    ensures
        final(ids)@.no_duplicates(),
        final(ids)@.to_set() == old(ids)@.to_set() + stmts_ids(xs@),
    decreases xs@, 1nat,
{
    let ghost start = ids@.to_set();
    let mut i: usize = 0;
    while i < xs.len()
        invariant
            i <= xs.len(),
            ids@.no_duplicates(),
            ids@.to_set() == start + stmts_ids(xs@.take(i as int)),
        decreases xs.len() - i,
    {
        proof {
            assert(xs@.take(i as int + 1).drop_last() =~= xs@.take(i as int));
        }
        collect_closure_local_ids_from_stmt(&xs[i], ids);
        i += 1;
    }
    proof {
        assert(xs@.take(xs.len() as int) =~= xs@);
    }
}

/// Adds the locals declared by closures in the conditions.
fn collect_from_conditions(xs: &Vec<IfCondition>, ids: &mut Vec<SemLocalId>)
    requires
        old(ids)@.no_duplicates(),
    ensures
        final(ids)@.no_duplicates(),
        final(ids)@.to_set() == old(ids)@.to_set() + conds_ids(xs@),
    decreases xs@, 1nat,
{
    let ghost start = ids@.to_set();
    let mut i: usize = 0;
    while i < xs.len()
        invariant
            i <= xs.len(),
            ids@.no_duplicates(),
            ids@.to_set() == start + conds_ids(xs@.take(i as int)),
        decreases xs.len() - i,
    {
        proof {
            assert(xs@.take(i as int + 1).drop_last() =~= xs@.take(i as int));
        }
        collect_closure_local_ids_from_condition(&xs[i], ids);
        i += 1;
    }
    proof {
        assert(xs@.take(xs.len() as int) =~= xs@);
    }
}

/// Adds the locals declared by closures in the arms' guards and bodies.
fn collect_from_arms(xs: &Vec<MatchArm>, ids: &mut Vec<SemLocalId>)
    requires
        old(ids)@.no_duplicates(),
    ensures
        final(ids)@.no_duplicates(),
        final(ids)@.to_set() == old(ids)@.to_set() + arms_ids(xs@),
    decreases xs@, 1nat,
{
    let ghost start = ids@.to_set();
    let mut i: usize = 0;
    while i < xs.len()
        invariant
            i <= xs.len(),
            ids@.no_duplicates(),
            ids@.to_set() == start + arms_ids(xs@.take(i as int)),
        decreases xs.len() - i,
    {
        proof {
            assert(xs@.take(i as int + 1).drop_last() =~= xs@.take(i as int));
        }
        let arm = &xs[i];
        if let Some(guard) = &arm.guard {
            collect_closure_local_ids_from_expr(guard, ids);
        }
        collect_closure_local_ids_from_expr(&arm.body, ids);
        i += 1;
    }
    proof {
        assert(xs@.take(xs.len() as int) =~= xs@);
    }
}

/// Adds the locals declared by closures in the key-value pairs.
fn collect_from_pairs(xs: &Vec<(Expression, Expression)>, ids: &mut Vec<SemLocalId>)
    requires
        old(ids)@.no_duplicates(),
    ensures
        final(ids)@.no_duplicates(),
        final(ids)@.to_set() == old(ids)@.to_set() + pairs_ids(xs@),
    decreases xs@, 1nat,
{
    let ghost start = ids@.to_set();
    let mut i: usize = 0;
    while i < xs.len()
        invariant
            i <= xs.len(),
            ids@.no_duplicates(),
            ids@.to_set() == start + pairs_ids(xs@.take(i as int)),
        decreases xs.len() - i,
    {
        proof {
            assert(xs@.take(i as int + 1).drop_last() =~= xs@.take(i as int));
        }
        let pair = &xs[i];
        collect_closure_local_ids_from_expr(&pair.0, ids);
        collect_closure_local_ids_from_expr(&pair.1, ids);
        i += 1;
    }
    proof {
        assert(xs@.take(xs.len() as int) =~= xs@);
    }
}

/// Adds the locals declared by closures in an optional expression.
fn collect_from_opt(o: &Option<Box<Expression>>, ids: &mut Vec<SemLocalId>)
    requires
        old(ids)@.no_duplicates(),
    ensures
        final(ids)@.no_duplicates(),
        final(ids)@.to_set() == old(ids)@.to_set() + opt_ids(*o),
    decreases *o, 1nat,
{
    if let Some(e) = o {
        collect_closure_local_ids_from_expr(e, ids);
    }
}

/// Adds the locals declared by closures in a condition.
fn collect_closure_local_ids_from_condition(c: &IfCondition, ids: &mut Vec<SemLocalId>)
    requires
        old(ids)@.no_duplicates(),
    ensures
        final(ids)@.no_duplicates(),
        final(ids)@.to_set() == old(ids)@.to_set() + cond_ids(*c),
    decreases c, 1nat,
{
    match c {
        IfCondition::Expr(e) => collect_closure_local_ids_from_expr(e, ids),
        IfCondition::Let { value } => collect_closure_local_ids_from_expr(value, ids),
    }
}

/// Adds the locals declared by closures in a statement.
fn collect_closure_local_ids_from_stmt(st: &Statement, ids: &mut Vec<SemLocalId>)
    requires
        old(ids)@.no_duplicates(),
    ensures
        final(ids)@.no_duplicates(),
        final(ids)@.to_set() == old(ids)@.to_set() + stmt_ids(*st),
    decreases st, 1nat,
{
    match st {
        Statement::Binding { value } => {
            if let Some(e) = value {
                collect_closure_local_ids_from_expr(e, ids);
            }
        },
        Statement::Expr(e) => collect_closure_local_ids_from_expr(e, ids),
        Statement::GuardLet { conditions, else_block } => {
            collect_from_conditions(conditions, ids);
            collect_from_stmts(&else_block.statements, ids);
            collect_from_opt(&else_block.yield_expr, ids);
        },
        Statement::Deinit => {},
    }
}

/// Adds the locals declared by closures in an expression: each closure's parameter
/// bindings and implicit parameter, and those of closures nested in it.
fn collect_closure_local_ids_from_expr(e: &Expression, ids: &mut Vec<SemLocalId>)
    requires
        old(ids)@.no_duplicates(),
    ensures
        final(ids)@.no_duplicates(),
        final(ids)@.to_set() == old(ids)@.to_set() + expr_ids(*e),
    decreases e, 2nat,
{
    match e {
        Expression::Closure { params, body, tail_expr, implicit_param } => {
            if let Some(ps) = params {
                collect_from_patterns(ps, ids);
            }
            if let Some(l) = implicit_param {
                insert_local(ids, *l);
            }
            collect_from_stmts(body, ids);
            collect_from_opt(tail_expr, ids);
        },
        Expression::Call { callee, arguments } => {
            collect_closure_local_ids_from_expr(callee, ids);
            collect_from_exprs(arguments, ids);
        },
        Expression::PrimitiveMethodCall { receiver, arguments } => {
            collect_closure_local_ids_from_expr(receiver, ids);
            collect_from_exprs(arguments, ids);
        },
        Expression::DeferredMethodCall { receiver, arguments } => {
            collect_closure_local_ids_from_expr(receiver, ids);
            collect_from_exprs(arguments, ids);
        },
        Expression::DeferredStaticCall { arguments } => collect_from_exprs(arguments, ids),
        Expression::ImplicitStructInit { arguments } => collect_from_exprs(arguments, ids),
        Expression::DelegatingInit { arguments } => collect_from_exprs(arguments, ids),
        Expression::Assignment { target, value } => {
            collect_closure_local_ids_from_expr(target, ids);
            collect_closure_local_ids_from_expr(value, ids);
        },
        Expression::If { conditions, then_branch, then_value, else_branch } => {
            collect_from_conditions(conditions, ids);
            collect_from_stmts(then_branch, ids);
            collect_from_opt(then_value, ids);
            match else_branch {
                Some(ElseBranch::ElseIf(else_if)) => collect_closure_local_ids_from_expr(else_if, ids),
                Some(ElseBranch::Block { statements, value }) => {
                    collect_from_stmts(statements, ids);
                    collect_from_opt(value, ids);
                },
                None => {},
            }
        },
        Expression::Match { scrutinee, arms } => {
            collect_closure_local_ids_from_expr(scrutinee, ids);
            collect_from_arms(arms, ids);
        },
        Expression::Block { statements, value } => {
            collect_from_stmts(statements, ids);
            collect_from_opt(value, ids);
        },
        Expression::While { condition, body } => {
            collect_closure_local_ids_from_expr(condition, ids);
            collect_from_stmts(body, ids);
        },
        Expression::WhileLet { conditions, body } => {
            collect_from_conditions(conditions, ids);
            collect_from_stmts(body, ids);
        },
        Expression::Loop { body } => collect_from_stmts(body, ids),
        Expression::Tuple(es) => collect_from_exprs(es, ids),
        Expression::Array(es) => collect_from_exprs(es, ids),
        Expression::Dictionary(pairs) => collect_from_pairs(pairs, ids),
        Expression::Grouping(inner) => collect_closure_local_ids_from_expr(inner, ids),
        Expression::FieldAccess { object } => collect_closure_local_ids_from_expr(object, ids),
        Expression::ProtocolPropertyAccess { receiver } => collect_closure_local_ids_from_expr(receiver, ids),
        Expression::TupleIndex { tuple } => collect_closure_local_ids_from_expr(tuple, ids),
        Expression::MethodRef { receiver } => collect_closure_local_ids_from_expr(receiver, ids),
        Expression::PrimitiveMethodRef { receiver } => collect_closure_local_ids_from_expr(receiver, ids),
        Expression::Return { value } => collect_from_opt(value, ids),
        Expression::ImplicitMemberAccess { arguments } => {
            if let Some(args) = arguments {
                collect_from_exprs(args, ids);
            }
        },
        Expression::LangIntrinsic { arguments } => collect_from_exprs(arguments, ids),
        Expression::SubscriptCall { receiver, arguments } => {
            collect_closure_local_ids_from_expr(receiver, ids);
            collect_from_exprs(arguments, ids);
        },
        _ => {},
    }
}

/// The locals declared by the closures of a function body: explicit closure
/// parameters and implicit `it` parameters, at any depth. Each occurs once.
/// The enclosing function does not create them; each closure's own function does.
pub fn collect_closure_local_ids(body: &CodeBlock) -> (r: Vec<SemLocalId>)
    ensures
        r@.no_duplicates(),
        r@.to_set() == block_ids(*body),
{
    let mut ids: Vec<SemLocalId> = Vec::new();
    proof {
        assert(ids@.to_set() =~= Set::<SemLocalId>::empty());
    }
    collect_from_stmts(&body.statements, &mut ids);
    collect_from_opt(&body.yield_expr, &mut ids);
    ids
}
} // verus!
