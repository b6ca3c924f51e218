use vstd::prelude::*;
use crate::expr::Expr;
use crate::resolver::{
    begun, declared, defined, distance, ended, fresh_analysis, resolved_expr, resolved_exprs,
    resolved_local, resolved_stmt, resolved_stmts, with_params, Analysis, FunctionType,
};
use crate::soundness::{
    after, annotated_expr, annotated_exprs, annotated_stmt, annotated_stmts, inside, note,
    params_scope, recorded, well_placed, well_placed_all, Scopes,
};
use crate::stmt::Stmt;
use crate::token::Token;

verus! {

/// The identities of the uses of variables in an expression.
pub open spec fn expr_ids(e: Expr) -> Set<u64>
    decreases e, 0int,
{
    match e {
        Expr::Assign(x) => expr_ids(*x.value).insert(x.id),
        Expr::Binary(x) => expr_ids(*x.left).union(expr_ids(*x.right)),
        Expr::Call(x) => expr_ids(*x.callee).union(exprs_ids(x.arguments@, 0)),
        Expr::Grouping(x) => expr_ids(*x.expression),
        Expr::Literal(_) => Set::empty(),
        Expr::Logical(x) => expr_ids(*x.left).union(expr_ids(*x.right)),
        Expr::Unary(x) => expr_ids(*x.right),
        Expr::Variable(x) => Set::empty().insert(x.id),
    }
}

/// The identities of the uses of variables in the expressions from index `i` on.
pub open spec fn exprs_ids(es: Seq<Expr>, i: int) -> Set<u64>
    decreases es, es.len() - i,
{
    if i < 0 || i >= es.len() {
        Set::empty()
    } else {
        expr_ids(es[i]).union(exprs_ids(es, i + 1))
    }
}

/// The identities of the uses of variables in a statement.
pub open spec fn stmt_ids(s: Stmt) -> Set<u64>
    decreases s, 0int,
{
    match s {
        Stmt::Block(x) => stmts_ids(x.statements@, 0),
        Stmt::Break(_) => Set::empty(),
        Stmt::Expression(x) => expr_ids(x.expression),
        Stmt::Function(x) => stmts_ids(x.body@, 0),
        Stmt::If(x) => expr_ids(x.condition).union(stmt_ids(*x.then_branch)).union(
            match x.else_branch {
                Some(other) => stmt_ids(*other),
                None => Set::empty(),
            },
        ),
        Stmt::Print(x) => expr_ids(x.expression),
        Stmt::Return(x) => match x.value {
            Some(e) => expr_ids(e),
            None => Set::empty(),
        },
        Stmt::Def(x) => match x.initializer {
            Some(e) => expr_ids(e),
            None => Set::empty(),
        },
        Stmt::While(x) => expr_ids(x.condition).union(stmt_ids(*x.body)),
    }
}

/// The identities of the uses of variables in the statements from index `i` on.
pub open spec fn stmts_ids(ss: Seq<Stmt>, i: int) -> Set<u64>
    decreases ss, ss.len() - i,
{
    if i < 0 || i >= ss.len() {
        Set::empty()
    } else {
        stmt_ids(ss[i]).union(stmts_ids(ss, i + 1))
    }
}

/// Every use of a variable in the expression has an identity of its own.
pub open spec fn distinct_expr(e: Expr) -> bool
    decreases e, 0int,
{
    match e {
        Expr::Assign(x) => distinct_expr(*x.value) && !expr_ids(*x.value).contains(x.id),
        Expr::Binary(x) => distinct_expr(*x.left) && distinct_expr(*x.right) && expr_ids(
            *x.left,
        ).disjoint(expr_ids(*x.right)),
        Expr::Call(x) => distinct_expr(*x.callee) && distinct_exprs(x.arguments@, 0) && expr_ids(
            *x.callee,
        ).disjoint(exprs_ids(x.arguments@, 0)),
        Expr::Grouping(x) => distinct_expr(*x.expression),
        Expr::Literal(_) => true,
        Expr::Logical(x) => distinct_expr(*x.left) && distinct_expr(*x.right) && expr_ids(
            *x.left,
        ).disjoint(expr_ids(*x.right)),
        Expr::Unary(x) => distinct_expr(*x.right),
        Expr::Variable(_) => true,
    }
}

/// Every use of a variable in the expressions from index `i` on has an identity of its own.
pub open spec fn distinct_exprs(es: Seq<Expr>, i: int) -> bool
    decreases es, es.len() - i,
{
    i < 0 || i >= es.len() || (distinct_expr(es[i]) && distinct_exprs(es, i + 1) && expr_ids(
        es[i],
    ).disjoint(exprs_ids(es, i + 1)))
}

/// Every use of a variable in the statement has an identity of its own.
pub open spec fn distinct_stmt(s: Stmt) -> bool
    decreases s, 0int,
{
    match s {
        Stmt::Block(x) => distinct_stmts(x.statements@, 0),
        Stmt::Break(_) => true,
        Stmt::Expression(x) => distinct_expr(x.expression),
        Stmt::Function(x) => distinct_stmts(x.body@, 0),
        Stmt::If(x) => distinct_expr(x.condition) && distinct_stmt(*x.then_branch) && expr_ids(
            x.condition,
        ).disjoint(stmt_ids(*x.then_branch)) && match x.else_branch {
            Some(other) => distinct_stmt(*other) && expr_ids(x.condition).union(
                stmt_ids(*x.then_branch),
            ).disjoint(stmt_ids(*other)),
            None => true,
        },
        Stmt::Print(x) => distinct_expr(x.expression),
        Stmt::Return(x) => match x.value {
            Some(e) => distinct_expr(e),
            None => true,
        },
        Stmt::Def(x) => match x.initializer {
            Some(e) => distinct_expr(e),
            None => true,
        },
        Stmt::While(x) => distinct_expr(x.condition) && distinct_stmt(*x.body) && expr_ids(
            x.condition,
        ).disjoint(stmt_ids(*x.body)),
    }
}

/// Every use of a variable in the statements from index `i` on has an identity of its own.
pub open spec fn distinct_stmts(ss: Seq<Stmt>, i: int) -> bool
    decreases ss, ss.len() - i,
{
    i < 0 || i >= ss.len() || (distinct_stmt(ss[i]) && distinct_stmts(ss, i + 1) && stmt_ids(
        ss[i],
    ).disjoint(stmts_ids(ss, i + 1)))
}

/// Two tables say the same of every identity in `ids`.
pub open spec fn agree_on(a: Map<u64, usize>, b: Map<u64, usize>, ids: Set<u64>) -> bool {
    forall|id: u64| #[trigger]
        ids.contains(id) ==> a.contains_key(id) == b.contains_key(id) && (a.contains_key(id)
            ==> a[id] == b[id])
}

/// Two tables say the same of every identity outside `ids`.
pub open spec fn agree_outside(a: Map<u64, usize>, b: Map<u64, usize>, ids: Set<u64>) -> bool {
    forall|id: u64|
        !ids.contains(id) ==> (#[trigger] a.contains_key(id)) == b.contains_key(id) && (
        a.contains_key(id) ==> a[id] == b[id])
}

/// The table says nothing of any identity in `ids`.
pub open spec fn fresh(locals: Map<u64, usize>, ids: Set<u64>) -> bool {
    forall|id: u64| #[trigger] ids.contains(id) ==> !locals.contains_key(id)
}

/// Whether the table holds the right distances for an expression depends
/// only on what it says of the identities in the expression.
pub proof fn lemma_annotated_expr_agrees(a: Map<u64, usize>, b: Map<u64, usize>, sc: Scopes, e: Expr)
    requires
        annotated_expr(a, sc, e),
        agree_on(a, b, expr_ids(e)),
    ensures
        annotated_expr(b, sc, e),
    decreases e, 0int,
{
    match e {
        Expr::Assign(x) => {
            assert(expr_ids(e).contains(x.id));
            assert forall|id: u64| #[trigger] expr_ids(*x.value).contains(id) implies expr_ids(
                e,
            ).contains(id) by {}
            lemma_annotated_expr_agrees(a, b, sc, *x.value);
        },
        Expr::Binary(x) => {
            assert forall|id: u64| #[trigger] expr_ids(*x.left).contains(id) implies expr_ids(
                e,
            ).contains(id) by {}
            assert forall|id: u64| #[trigger] expr_ids(*x.right).contains(id) implies expr_ids(
                e,
            ).contains(id) by {}
            lemma_annotated_expr_agrees(a, b, sc, *x.left);
            lemma_annotated_expr_agrees(a, b, sc, *x.right);
        },
        Expr::Call(x) => {
            assert forall|id: u64| #[trigger] expr_ids(*x.callee).contains(id) implies expr_ids(
                e,
            ).contains(id) by {}
            assert forall|id: u64| #[trigger]
                exprs_ids(x.arguments@, 0).contains(id) implies expr_ids(e).contains(id) by {}
            lemma_annotated_expr_agrees(a, b, sc, *x.callee);
            lemma_annotated_exprs_agree(a, b, sc, x.arguments@, 0);
        },
        Expr::Grouping(x) => {
            lemma_annotated_expr_agrees(a, b, sc, *x.expression);
        },
        Expr::Literal(_) => {},
        Expr::Logical(x) => {
            assert forall|id: u64| #[trigger] expr_ids(*x.left).contains(id) implies expr_ids(
                e,
            ).contains(id) by {}
            assert forall|id: u64| #[trigger] expr_ids(*x.right).contains(id) implies expr_ids(
                e,
            ).contains(id) by {}
            lemma_annotated_expr_agrees(a, b, sc, *x.left);
            lemma_annotated_expr_agrees(a, b, sc, *x.right);
        },
        Expr::Unary(x) => {
            lemma_annotated_expr_agrees(a, b, sc, *x.right);
        },
        Expr::Variable(x) => {
            assert(expr_ids(e).contains(x.id));
        },
    }
}

/// The same for the expressions from index `i` on.
pub proof fn lemma_annotated_exprs_agree(
    a: Map<u64, usize>,
    b: Map<u64, usize>,
    sc: Scopes,
    es: Seq<Expr>,
    i: int,
)
    requires
        annotated_exprs(a, sc, es, i),
        agree_on(a, b, exprs_ids(es, i)),
    ensures
        annotated_exprs(b, sc, es, i),
    decreases es, es.len() - i,
{
    if 0 <= i < es.len() {
        assert forall|id: u64| #[trigger] expr_ids(es[i]).contains(id) implies exprs_ids(
            es,
            i,
        ).contains(id) by {}
        assert forall|id: u64| #[trigger] exprs_ids(es, i + 1).contains(id) implies exprs_ids(
            es,
            i,
        ).contains(id) by {}
        lemma_annotated_expr_agrees(a, b, sc, es[i]);
        lemma_annotated_exprs_agree(a, b, sc, es, i + 1);
    }
}

/// Whether the table holds the right distances for a statement depends
/// only on what it says of the identities in the statement.
pub proof fn lemma_annotated_stmt_agrees(a: Map<u64, usize>, b: Map<u64, usize>, sc: Scopes, s: Stmt)
    requires
        annotated_stmt(a, sc, s),
        agree_on(a, b, stmt_ids(s)),
    ensures
        annotated_stmt(b, sc, s),
    decreases s, 0int,
{
    match s {
        Stmt::Block(x) => {
            lemma_annotated_stmts_agree(a, b, sc.push(Map::empty()), x.statements@, 0);
        },
        Stmt::Break(_) => {},
        Stmt::Expression(x) => {
            lemma_annotated_expr_agrees(a, b, sc, x.expression);
        },
        Stmt::Function(x) => {
            lemma_annotated_stmts_agree(a, b, inside(sc, x.name, x.params@), x.body@, 0);
        },
        Stmt::If(x) => {
            assert forall|id: u64| #[trigger] expr_ids(x.condition).contains(id) implies stmt_ids(
                s,
            ).contains(id) by {}
            assert forall|id: u64| #[trigger]
                stmt_ids(*x.then_branch).contains(id) implies stmt_ids(s).contains(id) by {}
            lemma_annotated_expr_agrees(a, b, sc, x.condition);
            lemma_annotated_stmt_agrees(a, b, sc, *x.then_branch);
            match x.else_branch {
                Some(other) => {
                    assert forall|id: u64| #[trigger] stmt_ids(*other).contains(id) implies stmt_ids(
                        s,
                    ).contains(id) by {}
                    lemma_annotated_stmt_agrees(a, b, sc, *other);
                },
                None => {},
            }
        },
        Stmt::Print(x) => {
            lemma_annotated_expr_agrees(a, b, sc, x.expression);
        },
        Stmt::Return(x) => {
            match x.value {
                Some(e) => {
                    lemma_annotated_expr_agrees(a, b, sc, e);
                },
                None => {},
            }
        },
        Stmt::Def(x) => {
            match x.initializer {
                Some(e) => {
                    lemma_annotated_expr_agrees(a, b, note(sc, x.name.lexeme@, false), e);
                },
                None => {},
            }
        },
        Stmt::While(x) => {
            assert forall|id: u64| #[trigger] expr_ids(x.condition).contains(id) implies stmt_ids(
                s,
            ).contains(id) by {}
            assert forall|id: u64| #[trigger] stmt_ids(*x.body).contains(id) implies stmt_ids(
                s,
            ).contains(id) by {}
            lemma_annotated_expr_agrees(a, b, sc, x.condition);
            lemma_annotated_stmt_agrees(a, b, sc, *x.body);
        },
    }
}

/// The same for the statements from index `i` on.
pub proof fn lemma_annotated_stmts_agree(
    a: Map<u64, usize>,
    b: Map<u64, usize>,
    sc: Scopes,
    ss: Seq<Stmt>,
    i: int,
)
    requires
        annotated_stmts(a, sc, ss, i),
        agree_on(a, b, stmts_ids(ss, i)),
    ensures
        annotated_stmts(b, sc, ss, i),
    decreases ss, ss.len() - i,
{
    if 0 <= i < ss.len() {
        assert forall|id: u64| #[trigger] stmt_ids(ss[i]).contains(id) implies stmts_ids(
            ss,
            i,
        ).contains(id) by {}
        assert forall|id: u64| #[trigger] stmts_ids(ss, i + 1).contains(id) implies stmts_ids(
            ss,
            i,
        ).contains(id) by {}
        lemma_annotated_stmt_agrees(a, b, sc, ss[i]);
        lemma_annotated_stmts_agree(a, b, after(sc, ss[i]), ss, i + 1);
    }
}


/// What every step of the resolver keeps: it changes no scope, loses no
/// error, keeps whether it is inside a function and inside a loop, and
/// changes what the table says only of the identities in `ids`.
pub open spec fn steady(a: Analysis, b: Analysis, ids: Set<u64>) -> bool {
    &&& b.scopes == a.scopes
    &&& moved(a, b, ids)
}

/// As `steady`, but for the scopes.
pub open spec fn moved(a: Analysis, b: Analysis, ids: Set<u64>) -> bool {
    &&& b.errors.len() >= a.errors.len()
    &&& b.function == a.function
    &&& b.in_while == a.in_while
    &&& agree_outside(b.locals, a.locals, ids)
}

/// The scopes behind the statements from index `i` on.
pub open spec fn after_all(sc: Scopes, ss: Seq<Stmt>, i: int) -> Scopes
    decreases ss.len() - i,
{
    if i < 0 || i >= ss.len() {
        sc
    } else {
        after_all(after(sc, ss[i]), ss, i + 1)
    }
}

/// Statements change the innermost scope only.
pub proof fn lemma_after_all(sc: Scopes, ss: Seq<Stmt>, i: int)
    ensures
        after_all(sc, ss, i).len() == sc.len(),
        sc.len() > 0 ==> after_all(sc, ss, i).drop_last() == sc.drop_last(),
    decreases ss.len() - i,
{
    if 0 <= i < ss.len() {
        lemma_after_all(after(sc, ss[i]), ss, i + 1);
        if sc.len() > 0 {
            assert(after(sc, ss[i]).drop_last() =~= sc.drop_last());
        }
    }
}

/// What two steps keep, one after the other, both together keep.
pub proof fn lemma_moved_trans(a: Analysis, b: Analysis, c: Analysis, first: Set<u64>, second: Set<u64>)
    requires
        moved(a, b, first),
        moved(b, c, second),
    ensures
        moved(a, c, first.union(second)),
{
    assert forall|id: u64| !first.union(second).contains(id) implies (
    #[trigger] c.locals.contains_key(id)) == a.locals.contains_key(id) && (c.locals.contains_key(id)
        ==> c.locals[id] == a.locals[id]) by {
        assert(!first.contains(id) && !second.contains(id));
        assert(b.locals.contains_key(id) == a.locals.contains_key(id));
        assert(c.locals.contains_key(id) == b.locals.contains_key(id));
    }
}

/// What a step keeps for some identities it keeps for more.
pub proof fn lemma_moved_wider(a: Analysis, b: Analysis, ids: Set<u64>, more: Set<u64>)
    requires
        moved(a, b, ids),
        ids.subset_of(more),
    ensures
        moved(a, b, more),
{
    assert forall|id: u64| !more.contains(id) implies (#[trigger] b.locals.contains_key(id))
        == a.locals.contains_key(id) && (b.locals.contains_key(id) ==> b.locals[id]
        == a.locals[id]) by {
        assert(!ids.contains(id));
    }
}

/// What the resolver does to the analysis at an expression.
pub proof fn lemma_resolved_expr_steady(a: Analysis, e: Expr)
    ensures
        steady(a, resolved_expr(a, e), expr_ids(e)),
    decreases e, 0int,
{
    match e {
        Expr::Assign(x) => {
            lemma_resolved_expr_steady(a, *x.value);
            let b = resolved_expr(a, *x.value);
            let c = resolved_local(b, x.id, x.name);
            assert(moved(b, c, Set::empty().insert(x.id)));
            lemma_moved_trans(a, b, c, expr_ids(*x.value), Set::empty().insert(x.id));
            lemma_moved_wider(
                a,
                c,
                expr_ids(*x.value).union(Set::empty().insert(x.id)),
                expr_ids(e),
            );
        },
        Expr::Binary(x) => {
            lemma_resolved_expr_steady(a, *x.left);
            let b = resolved_expr(a, *x.left);
            lemma_resolved_expr_steady(b, *x.right);
            lemma_moved_trans(
                a,
                b,
                resolved_expr(b, *x.right),
                expr_ids(*x.left),
                expr_ids(*x.right),
            );
        },
        Expr::Call(x) => {
            lemma_resolved_expr_steady(a, *x.callee);
            let b = resolved_expr(a, *x.callee);
            lemma_resolved_exprs_steady(b, x.arguments@, 0);
            lemma_moved_trans(
                a,
                b,
                resolved_exprs(b, x.arguments@, 0),
                expr_ids(*x.callee),
                exprs_ids(x.arguments@, 0),
            );
        },
        Expr::Grouping(x) => {
            lemma_resolved_expr_steady(a, *x.expression);
        },
        Expr::Literal(_) => {},
        Expr::Logical(x) => {
            lemma_resolved_expr_steady(a, *x.left);
            let b = resolved_expr(a, *x.left);
            lemma_resolved_expr_steady(b, *x.right);
            lemma_moved_trans(
                a,
                b,
                resolved_expr(b, *x.right),
                expr_ids(*x.left),
                expr_ids(*x.right),
            );
        },
        Expr::Unary(x) => {
            lemma_resolved_expr_steady(a, *x.right);
        },
        Expr::Variable(x) => {},
    }
}

/// The same for the expressions from index `i` on.
pub proof fn lemma_resolved_exprs_steady(a: Analysis, es: Seq<Expr>, i: int)
    ensures
        steady(a, resolved_exprs(a, es, i), exprs_ids(es, i)),
    decreases es, es.len() - i,
{
    if 0 <= i < es.len() {
        lemma_resolved_expr_steady(a, es[i]);
        let b = resolved_expr(a, es[i]);
        lemma_resolved_exprs_steady(b, es, i + 1);
        lemma_moved_trans(
            a,
            b,
            resolved_exprs(b, es, i + 1),
            expr_ids(es[i]),
            exprs_ids(es, i + 1),
        );
    }
}

/// Keeping a name twice is keeping it once, as it is kept last.
pub proof fn lemma_note_twice(sc: Scopes, name: Seq<char>, first: bool, second: bool)
    ensures
        note(note(sc, name, first), name, second) == note(sc, name, second),
{
    if sc.len() > 0 {
        let once = note(sc, name, first);
        assert(once.last().insert(name, second) =~= sc.last().insert(name, second));
        assert(note(once, name, second) =~= note(sc, name, second));
    }
}

/// What declaring a name and defining it does to the analysis.
pub proof fn lemma_declared(a: Analysis, name: Token)
    ensures
        declared(a, name).scopes == note(a.scopes, name.lexeme@, false),
        moved(a, declared(a, name), Set::empty()),
        defined(declared(a, name), name).scopes == note(a.scopes, name.lexeme@, true),
        moved(a, defined(declared(a, name), name), Set::empty()),
{
    lemma_note_twice(a.scopes, name.lexeme@, false, true);
}

/// What the resolver does to the analysis at the declaration of a function.
pub proof fn lemma_resolved_function_moved(a: Analysis, s: Stmt)
    requires
        well_placed(s),
        s is Function,
    ensures
        resolved_stmt(a, s).scopes == after(a.scopes, s),
        moved(a, resolved_stmt(a, s), stmt_ids(s)),
        ({
            let x = s->Function_0;
            let named = defined(declared(a, x.name), x.name);
            let entered = begun(Analysis { function: FunctionType::Function, ..named });
            let within = with_params(entered, x.params@, x.params@.len());
            &&& within.scopes == inside(a.scopes, x.name, x.params@)
            &&& moved(a, Analysis { function: a.function, ..within }, Set::empty())
        }),
    decreases s, 1int,
{
    let x = s->Function_0;
    lemma_declared(a, x.name);
    let named = defined(declared(a, x.name), x.name);
    let entered = begun(Analysis { function: FunctionType::Function, ..named });
    lemma_with_params(entered, x.params@, x.params@.len());
    let within = with_params(entered, x.params@, x.params@.len());
    assert(entered.scopes.drop_last() =~= named.scopes);
    lemma_resolved_stmts_moved(within, x.body@, 0);
    lemma_after_all(within.scopes, x.body@, 0);
    assert(within.scopes.drop_last() =~= named.scopes);
    let done = ended(resolved_stmts(within, x.body@, 0));
    assert(moved(within, done, stmts_ids(x.body@, 0)));
    assert(moved(a, Analysis { function: a.function, ..within }, Set::empty()));
    assert(agree_outside(resolved_stmt(a, s).locals, a.locals, stmt_ids(s))) by {
        assert forall|id: u64| !stmt_ids(s).contains(id) implies (
        #[trigger] done.locals.contains_key(id)) == a.locals.contains_key(id) && (
        done.locals.contains_key(id) ==> done.locals[id] == a.locals[id]) by {
            assert(within.locals.contains_key(id) == a.locals.contains_key(id));
        }
    }
}

/// What declaring and defining the parameters does to the analysis.
pub proof fn lemma_with_params(a: Analysis, params: Seq<Token>, k: nat)
    requires
        a.scopes.len() > 0,
        a.scopes.last() == Map::<Seq<char>, bool>::empty(),
        k <= params.len(),
    ensures
        with_params(a, params, k).scopes == a.scopes.drop_last().push(params_scope(params, k)),
        moved(a, with_params(a, params, k), Set::empty()),
    decreases k,
{
    if k > 0 {
        lemma_with_params(a, params, (k - 1) as nat);
        let b = with_params(a, params, (k - 1) as nat);
        let name = params[k - 1];
        let c = defined(declared(b, name), name);
        assert(c.scopes.last() =~= params_scope(params, k));
        assert(c.scopes =~= a.scopes.drop_last().push(params_scope(params, k)));
    } else {
        assert(a.scopes =~= a.scopes.drop_last().push(params_scope(params, 0)));
    }
}

/// What the resolver does to the analysis at a statement.
pub proof fn lemma_resolved_stmt_moved(a: Analysis, s: Stmt)
    requires
        well_placed(s),
    ensures
        resolved_stmt(a, s).scopes == after(a.scopes, s),
        moved(a, resolved_stmt(a, s), stmt_ids(s)),
    decreases s, 2int,
{
    match s {
        Stmt::Block(x) => {
            let b = begun(a);
            lemma_resolved_stmts_moved(b, x.statements@, 0);
            lemma_after_all(b.scopes, x.statements@, 0);
            assert(b.scopes.drop_last() =~= a.scopes);
        },
        Stmt::Break(_) => {},
        Stmt::Expression(x) => {
            lemma_resolved_expr_steady(a, x.expression);
        },
        Stmt::Function(x) => {
            lemma_resolved_function_moved(a, s);
        },
        Stmt::If(x) => {
            lemma_resolved_expr_steady(a, x.condition);
            let b = resolved_expr(a, x.condition);
            lemma_resolved_stmt_moved(b, *x.then_branch);
            let c = resolved_stmt(b, *x.then_branch);
            lemma_moved_trans(a, b, c, expr_ids(x.condition), stmt_ids(*x.then_branch));
            match x.else_branch {
                Some(other) => {
                    lemma_resolved_stmt_moved(c, *other);
                    lemma_moved_trans(
                        a,
                        c,
                        resolved_stmt(c, *other),
                        expr_ids(x.condition).union(stmt_ids(*x.then_branch)),
                        stmt_ids(*other),
                    );
                },
                None => {
                    lemma_moved_wider(
                        a,
                        c,
                        expr_ids(x.condition).union(stmt_ids(*x.then_branch)),
                        stmt_ids(s),
                    );
                },
            }
        },
        Stmt::Print(x) => {
            lemma_resolved_expr_steady(a, x.expression);
        },
        Stmt::Return(x) => {
            match x.value {
                Some(e) => {
                    let checked = if a.function == FunctionType::Top {
                        crate::resolver::complains(a, x.keyword, "Can't return from top-level code."@)
                    } else {
                        a
                    };
                    lemma_resolved_expr_steady(checked, e);
                },
                None => {},
            }
        },
        Stmt::Def(x) => {
            lemma_declared(a, x.name);
            let b = declared(a, x.name);
            match x.initializer {
                Some(e) => {
                    lemma_resolved_expr_steady(b, e);
                },
                None => {},
            }
            lemma_note_twice(a.scopes, x.name.lexeme@, false, true);
        },
        Stmt::While(x) => {
            let b = Analysis { in_while: true, ..a };
            lemma_resolved_expr_steady(b, x.condition);
            let c = resolved_expr(b, x.condition);
            lemma_resolved_stmt_moved(c, *x.body);
            lemma_moved_trans(
                b,
                c,
                resolved_stmt(c, *x.body),
                expr_ids(x.condition),
                stmt_ids(*x.body),
            );
        },
    }
}

/// The same for the statements from index `i` on.
pub proof fn lemma_resolved_stmts_moved(a: Analysis, ss: Seq<Stmt>, i: int)
    requires
        well_placed_all(ss, i),
    ensures
        resolved_stmts(a, ss, i).scopes == after_all(a.scopes, ss, i),
        moved(a, resolved_stmts(a, ss, i), stmts_ids(ss, i)),
    decreases ss, ss.len() - i,
{
    if 0 <= i < ss.len() {
        lemma_resolved_stmt_moved(a, ss[i]);
        let b = resolved_stmt(a, ss[i]);
        lemma_resolved_stmts_moved(b, ss, i + 1);
        lemma_moved_trans(
            a,
            b,
            resolved_stmts(b, ss, i + 1),
            stmt_ids(ss[i]),
            stmts_ids(ss, i + 1),
        );
    }
}


/// What a later step leaves alone the final table says as the table between the steps.
pub proof fn lemma_part_agrees(
    between: Map<u64, usize>,
    last: Map<u64, usize>,
    wanted: Map<u64, usize>,
    part: Set<u64>,
    rest: Set<u64>,
    whole: Set<u64>,
)
    requires
        agree_on(last, wanted, whole),
        part.subset_of(whole),
        agree_outside(last, between, rest),
        part.disjoint(rest),
    ensures
        agree_on(between, wanted, part),
{
    assert forall|id: u64| #[trigger] part.contains(id) implies between.contains_key(id)
        == wanted.contains_key(id) && (between.contains_key(id) ==> between[id]
        == wanted[id]) by {
        assert(whole.contains(id));
        assert(!rest.contains(id));
        assert(last.contains_key(id) == between.contains_key(id));
    }
}

/// What an earlier step leaves alone is as fresh after it as before.
pub proof fn lemma_part_fresh(
    first: Map<u64, usize>,
    between: Map<u64, usize>,
    part: Set<u64>,
    earlier: Set<u64>,
    whole: Set<u64>,
)
    requires
        fresh(first, whole),
        part.subset_of(whole),
        agree_outside(between, first, earlier),
        part.disjoint(earlier),
    ensures
        fresh(between, part),
{
    assert forall|id: u64| #[trigger] part.contains(id) implies !between.contains_key(id) by {
        assert(whole.contains(id));
        assert(!earlier.contains(id));
        assert(between.contains_key(id) == first.contains_key(id));
    }
}

/// Tables that agree on some identities agree on fewer.
pub proof fn lemma_agree_narrow(a: Map<u64, usize>, b: Map<u64, usize>, part: Set<u64>, whole: Set<u64>)
    requires
        agree_on(a, b, whole),
        part.subset_of(whole),
    ensures
        agree_on(a, b, part),
{
    assert forall|id: u64| #[trigger] part.contains(id) implies a.contains_key(id)
        == b.contains_key(id) && (a.contains_key(id) ==> a[id] == b[id]) by {
        assert(whole.contains(id));
    }
}

/// A table that says nothing of some identities says nothing of fewer.
pub proof fn lemma_fresh_narrow(a: Map<u64, usize>, part: Set<u64>, whole: Set<u64>)
    requires
        fresh(a, whole),
        part.subset_of(whole),
    ensures
        fresh(a, part),
{
    assert forall|id: u64| #[trigger] part.contains(id) implies !a.contains_key(id) by {
        assert(whole.contains(id));
    }
}

/// What the resolver records for the use `id` of `name` is what the scopes say.
pub proof fn lemma_local_recorded(a: Analysis, id: u64, name: Token, wanted: Map<u64, usize>)
    requires
        !a.locals.contains_key(id),
        agree_on(resolved_local(a, id, name).locals, wanted, Set::empty().insert(id)),
    ensures
        recorded(wanted, a.scopes, id, name),
{
    assert(Set::<u64>::empty().insert(id).contains(id));
}

/// The resolver records the right distances for an expression: where every
/// use of a variable has an identity of its own, of which the table said
/// nothing before, and no error is found, the table in which the records of
/// the expression end up holds the right distance for every use, and no
/// variable is read in its own initializer.
pub proof fn lemma_resolver_annotates_expr(a: Analysis, e: Expr, wanted: Map<u64, usize>)
    requires
        distinct_expr(e),
        fresh(a.locals, expr_ids(e)),
        resolved_expr(a, e).errors.len() == a.errors.len(),
        agree_on(resolved_expr(a, e).locals, wanted, expr_ids(e)),
    ensures
        annotated_expr(wanted, a.scopes, e),
    decreases e, 1int,
{
    let res = resolved_expr(a, e);
    let all = expr_ids(e);
    match e {
        Expr::Assign(x) => {
            let b = resolved_expr(a, *x.value);
            let inner = expr_ids(*x.value);
            let own = Set::<u64>::empty().insert(x.id);
            lemma_resolved_expr_steady(a, *x.value);
            assert(moved(b, res, own));
            lemma_fresh_narrow(a.locals, inner, all);
            lemma_part_agrees(b.locals, res.locals, wanted, inner, own, all);
            lemma_resolver_annotates_expr(a, *x.value, wanted);
            assert(all.contains(x.id));
            assert(!inner.contains(x.id));
            assert(b.locals.contains_key(x.id) == a.locals.contains_key(x.id));
            lemma_agree_narrow(res.locals, wanted, own, all);
            lemma_local_recorded(b, x.id, x.name, wanted);
        },
        Expr::Binary(x) => {
            lemma_two_exprs(a, e, *x.left, *x.right, wanted, all);
        },
        Expr::Call(x) => {
            let b = resolved_expr(a, *x.callee);
            let first = expr_ids(*x.callee);
            let second = exprs_ids(x.arguments@, 0);
            lemma_resolved_expr_steady(a, *x.callee);
            lemma_resolved_exprs_steady(b, x.arguments@, 0);
            lemma_fresh_narrow(a.locals, first, all);
            lemma_part_agrees(b.locals, res.locals, wanted, first, second, all);
            lemma_resolver_annotates_expr(a, *x.callee, wanted);
            lemma_part_fresh(a.locals, b.locals, second, first, all);
            lemma_agree_narrow(res.locals, wanted, second, all);
            lemma_resolver_annotates_exprs(b, x.arguments@, 0, wanted);
        },
        Expr::Grouping(x) => {
            lemma_resolver_annotates_expr(a, *x.expression, wanted);
        },
        Expr::Literal(_) => {},
        Expr::Logical(x) => {
            lemma_two_exprs(a, e, *x.left, *x.right, wanted, all);
        },
        Expr::Unary(x) => {
            lemma_resolver_annotates_expr(a, *x.right, wanted);
        },
        Expr::Variable(x) => {
            assert(all.contains(x.id));
            assert(all =~= Set::<u64>::empty().insert(x.id));
            lemma_local_recorded(a, x.id, x.name, wanted);
        },
    }
}

/// The same for two expressions that are resolved one after the other.
pub proof fn lemma_two_exprs(
    a: Analysis,
    e: Expr,
    left: Expr,
    right: Expr,
    wanted: Map<u64, usize>,
    all: Set<u64>,
)
    requires
        (e matches Expr::Binary(x) && *x.left == left && *x.right == right) || (
        e matches Expr::Logical(x) && *x.left == left && *x.right == right),
        distinct_expr(left),
        distinct_expr(right),
        expr_ids(left).disjoint(expr_ids(right)),
        all == expr_ids(left).union(expr_ids(right)),
        fresh(a.locals, all),
        resolved_expr(resolved_expr(a, left), right).errors.len() == a.errors.len(),
        agree_on(resolved_expr(resolved_expr(a, left), right).locals, wanted, all),
    ensures
        annotated_expr(wanted, a.scopes, left),
        annotated_expr(wanted, a.scopes, right),
    decreases e, 0int,
{
    let b = resolved_expr(a, left);
    let res = resolved_expr(b, right);
    let first = expr_ids(left);
    let second = expr_ids(right);
    lemma_resolved_expr_steady(a, left);
    lemma_resolved_expr_steady(b, right);
    lemma_fresh_narrow(a.locals, first, all);
    lemma_part_agrees(b.locals, res.locals, wanted, first, second, all);
    lemma_resolver_annotates_expr(a, left, wanted);
    lemma_part_fresh(a.locals, b.locals, second, first, all);
    lemma_agree_narrow(res.locals, wanted, second, all);
    lemma_resolver_annotates_expr(b, right, wanted);
}

/// The same for the expressions from index `i` on.
pub proof fn lemma_resolver_annotates_exprs(a: Analysis, es: Seq<Expr>, i: int, wanted: Map<u64, usize>)
    requires
        distinct_exprs(es, i),
        fresh(a.locals, exprs_ids(es, i)),
        resolved_exprs(a, es, i).errors.len() == a.errors.len(),
        agree_on(resolved_exprs(a, es, i).locals, wanted, exprs_ids(es, i)),
    ensures
        annotated_exprs(wanted, a.scopes, es, i),
    decreases es, es.len() - i,
{
    if 0 <= i < es.len() {
        let all = exprs_ids(es, i);
        let b = resolved_expr(a, es[i]);
        let res = resolved_exprs(b, es, i + 1);
        let first = expr_ids(es[i]);
        let second = exprs_ids(es, i + 1);
        lemma_resolved_expr_steady(a, es[i]);
        lemma_resolved_exprs_steady(b, es, i + 1);
        lemma_fresh_narrow(a.locals, first, all);
        lemma_part_agrees(b.locals, res.locals, wanted, first, second, all);
        lemma_resolver_annotates_expr(a, es[i], wanted);
        lemma_part_fresh(a.locals, b.locals, second, first, all);
        lemma_agree_narrow(res.locals, wanted, second, all);
        lemma_resolver_annotates_exprs(b, es, i + 1, wanted);
    }
}


/// The resolver records the right distances for a statement, as
/// `lemma_resolver_annotates_expr` says it for an expression.
pub proof fn lemma_resolver_annotates_stmt(a: Analysis, s: Stmt, wanted: Map<u64, usize>)
    requires
        well_placed(s),
        distinct_stmt(s),
        fresh(a.locals, stmt_ids(s)),
        resolved_stmt(a, s).errors.len() == a.errors.len(),
        agree_on(resolved_stmt(a, s).locals, wanted, stmt_ids(s)),
    ensures
        annotated_stmt(wanted, a.scopes, s),
    decreases s, 1int,
{
    let res = resolved_stmt(a, s);
    let all = stmt_ids(s);
    match s {
        Stmt::Block(x) => {
            let b = begun(a);
            lemma_resolved_stmts_moved(b, x.statements@, 0);
            lemma_resolver_annotates_stmts(b, x.statements@, 0, wanted);
        },
        Stmt::Break(_) => {},
        Stmt::Expression(x) => {
            lemma_resolver_annotates_expr(a, x.expression, wanted);
        },
        Stmt::Function(x) => {
            lemma_resolved_function_moved(a, s);
            let named = defined(declared(a, x.name), x.name);
            let entered = begun(Analysis { function: FunctionType::Function, ..named });
            let within = with_params(entered, x.params@, x.params@.len());
            lemma_resolved_stmts_moved(within, x.body@, 0);
            assert(fresh(within.locals, stmts_ids(x.body@, 0))) by {
                assert forall|id: u64| #[trigger]
                    stmts_ids(x.body@, 0).contains(id) implies !within.locals.contains_key(id) by {
                    assert(within.locals.contains_key(id) == a.locals.contains_key(id));
                }
            }
            lemma_resolver_annotates_stmts(within, x.body@, 0, wanted);
        },
        Stmt::If(x) => {
            let b = resolved_expr(a, x.condition);
            let c = resolved_stmt(b, *x.then_branch);
            let first = expr_ids(x.condition);
            let second = stmt_ids(*x.then_branch);
            lemma_resolved_expr_steady(a, x.condition);
            lemma_resolved_stmt_moved(b, *x.then_branch);
            match x.else_branch {
                Some(other) => {
                    let third = stmt_ids(*other);
                    lemma_resolved_stmt_moved(c, *other);
                    lemma_moved_trans(b, c, res, second, third);
                    lemma_moved_trans(a, b, c, first, second);
                    // the condition
                    lemma_fresh_narrow(a.locals, first, all);
                    lemma_part_agrees(
                        b.locals,
                        res.locals,
                        wanted,
                        first,
                        second.union(third),
                        all,
                    );
                    lemma_resolver_annotates_expr(a, x.condition, wanted);
                    // the first branch
                    lemma_part_fresh(a.locals, b.locals, second, first, all);
                    lemma_part_agrees(c.locals, res.locals, wanted, second, third, all);
                    lemma_resolver_annotates_stmt(b, *x.then_branch, wanted);
                    // the second branch
                    lemma_part_fresh(a.locals, c.locals, third, first.union(second), all);
                    lemma_agree_narrow(res.locals, wanted, third, all);
                    lemma_resolver_annotates_stmt(c, *other, wanted);
                },
                None => {
                    lemma_fresh_narrow(a.locals, first, all);
                    lemma_part_agrees(b.locals, res.locals, wanted, first, second, all);
                    lemma_resolver_annotates_expr(a, x.condition, wanted);
                    lemma_part_fresh(a.locals, b.locals, second, first, all);
                    lemma_agree_narrow(res.locals, wanted, second, all);
                    lemma_resolver_annotates_stmt(b, *x.then_branch, wanted);
                },
            }
        },
        Stmt::Print(x) => {
            lemma_resolver_annotates_expr(a, x.expression, wanted);
        },
        Stmt::Return(x) => {
            match x.value {
                Some(e) => {
                    let checked = if a.function == FunctionType::Top {
                        crate::resolver::complains(a, x.keyword, "Can't return from top-level code."@)
                    } else {
                        a
                    };
                    lemma_resolved_expr_steady(checked, e);
                    lemma_resolver_annotates_expr(checked, e, wanted);
                },
                None => {},
            }
        },
        Stmt::Def(x) => {
            match x.initializer {
                Some(e) => {
                    lemma_declared(a, x.name);
                    let b = declared(a, x.name);
                    lemma_resolved_expr_steady(b, e);
                    lemma_resolver_annotates_expr(b, e, wanted);
                },
                None => {},
            }
        },
        Stmt::While(x) => {
            let b = Analysis { in_while: true, ..a };
            let c = resolved_expr(b, x.condition);
            let first = expr_ids(x.condition);
            let second = stmt_ids(*x.body);
            lemma_resolved_expr_steady(b, x.condition);
            lemma_resolved_stmt_moved(c, *x.body);
            lemma_fresh_narrow(b.locals, first, all);
            lemma_part_agrees(c.locals, res.locals, wanted, first, second, all);
            lemma_resolver_annotates_expr(b, x.condition, wanted);
            lemma_part_fresh(b.locals, c.locals, second, first, all);
            lemma_agree_narrow(res.locals, wanted, second, all);
            lemma_resolver_annotates_stmt(c, *x.body, wanted);
        },
    }
}

/// The same for the statements from index `i` on.
pub proof fn lemma_resolver_annotates_stmts(a: Analysis, ss: Seq<Stmt>, i: int, wanted: Map<u64, usize>)
    requires
        well_placed_all(ss, i),
        distinct_stmts(ss, i),
        fresh(a.locals, stmts_ids(ss, i)),
        resolved_stmts(a, ss, i).errors.len() == a.errors.len(),
        agree_on(resolved_stmts(a, ss, i).locals, wanted, stmts_ids(ss, i)),
    ensures
        annotated_stmts(wanted, a.scopes, ss, i),
    decreases ss, ss.len() - i,
{
    if 0 <= i < ss.len() {
        let all = stmts_ids(ss, i);
        let b = resolved_stmt(a, ss[i]);
        let res = resolved_stmts(b, ss, i + 1);
        let first = stmt_ids(ss[i]);
        let second = stmts_ids(ss, i + 1);
        lemma_resolved_stmt_moved(a, ss[i]);
        lemma_resolved_stmts_moved(b, ss, i + 1);
        lemma_fresh_narrow(a.locals, first, all);
        lemma_part_agrees(b.locals, res.locals, wanted, first, second, all);
        lemma_resolver_annotates_stmt(a, ss[i], wanted);
        lemma_part_fresh(a.locals, b.locals, second, first, all);
        lemma_agree_narrow(res.locals, wanted, second, all);
        lemma_resolver_annotates_stmts(b, ss, i + 1, wanted);
    }
}

/// The resolver records the right distances for a program. Take a program
/// in which declarations stand only in lists of statements and every use of
/// a variable has an identity of its own, of which the table `before` says
/// nothing. If the resolver finds no error in it, the table that it leaves
/// holds the right distance for every use of a variable in the program; of
/// every other identity it says what the table said before.
pub proof fn lemma_resolver_annotates(before: Map<u64, usize>, ss: Seq<Stmt>)
    requires
        well_placed_all(ss, 0),
        distinct_stmts(ss, 0),
        fresh(before, stmts_ids(ss, 0)),
        resolved_stmts(fresh_analysis(before), ss, 0).errors.len() == 0,
    ensures
        annotated_stmts(resolved_stmts(fresh_analysis(before), ss, 0).locals, Seq::empty(), ss, 0),
        agree_outside(resolved_stmts(fresh_analysis(before), ss, 0).locals, before, stmts_ids(ss, 0)),
{
    lemma_resolved_stmts_moved(fresh_analysis(before), ss, 0);
    lemma_resolver_annotates_stmts(
        fresh_analysis(before),
        ss,
        0,
        resolved_stmts(fresh_analysis(before), ss, 0).locals,
    );
}

/// The identities from `lo` up to `hi`.
pub open spec fn span(lo: nat, hi: nat) -> Set<u64> {
    Set::new(|id: u64| lo <= id < hi)
}

/// Every use of a variable in the expression has an identity of its own,
/// from `lo` up to `hi`.
pub open spec fn tagged_expr(e: Expr, lo: nat, hi: nat) -> bool {
    distinct_expr(e) && expr_ids(e).subset_of(span(lo, hi))
}

/// The same for a list of expressions.
pub open spec fn tagged_exprs(es: Seq<Expr>, lo: nat, hi: nat) -> bool {
    distinct_exprs(es, 0) && exprs_ids(es, 0).subset_of(span(lo, hi))
}

/// Every use of a variable in the statement has an identity of its own,
/// from `lo` up to `hi`, and declarations stand only in lists of statements.
pub open spec fn tagged_stmt(s: Stmt, lo: nat, hi: nat) -> bool {
    distinct_stmt(s) && stmt_ids(s).subset_of(span(lo, hi)) && well_placed(s)
}

/// The same for a list of statements.
pub open spec fn tagged_stmts(ss: Seq<Stmt>, lo: nat, hi: nat) -> bool {
    distinct_stmts(ss, 0) && stmts_ids(ss, 0).subset_of(span(lo, hi)) && well_placed_all(ss, 0)
}

/// What one more expression at the end of a list adds to the identities.
pub proof fn lemma_exprs_ids_push(es: Seq<Expr>, x: Expr, i: int)
    requires
        0 <= i <= es.len(),
    ensures
        exprs_ids(es.push(x), i) == exprs_ids(es, i).union(expr_ids(x)),
    decreases es.len() - i,
{
    let more = es.push(x);
    if i < es.len() {
        lemma_exprs_ids_push(es, x, i + 1);
        assert(more[i] == es[i]);
        assert(exprs_ids(more, i) =~= exprs_ids(es, i).union(expr_ids(x)));
    } else {
        assert(more[i] == x);
        assert(exprs_ids(more, i + 1) =~= Set::<u64>::empty());
        assert(exprs_ids(more, i) =~= exprs_ids(es, i).union(expr_ids(x)));
    }
}

/// One more expression at the end of a list, with identities beyond those of the list.
pub proof fn lemma_exprs_push(es: Seq<Expr>, x: Expr, i: int)
    requires
        0 <= i <= es.len(),
        distinct_exprs(es, i),
        distinct_expr(x),
        exprs_ids(es, i).disjoint(expr_ids(x)),
    ensures
        distinct_exprs(es.push(x), i),
    decreases es.len() - i,
{
    let more = es.push(x);
    if i < es.len() {
        assert(more[i] == es[i]);
        assert(distinct_exprs(es, i + 1));
        assert(exprs_ids(es, i + 1).subset_of(exprs_ids(es, i)));
        assert(expr_ids(es[i]).subset_of(exprs_ids(es, i)));
        lemma_exprs_ids_push(es, x, i + 1);
        lemma_exprs_push(es, x, i + 1);
        assert(expr_ids(more[i]).disjoint(exprs_ids(more, i + 1)));
    } else {
        assert(more[i] == x);
        assert(exprs_ids(more, i + 1) =~= Set::<u64>::empty());
        assert(distinct_exprs(more, i + 1));
    }
}

/// What one more statement at the end of a list adds to the identities.
pub proof fn lemma_stmts_ids_push(ss: Seq<Stmt>, x: Stmt, i: int)
    requires
        0 <= i <= ss.len(),
    ensures
        stmts_ids(ss.push(x), i) == stmts_ids(ss, i).union(stmt_ids(x)),
    decreases ss.len() - i,
{
    let more = ss.push(x);
    if i < ss.len() {
        lemma_stmts_ids_push(ss, x, i + 1);
        assert(more[i] == ss[i]);
        assert(stmts_ids(more, i) =~= stmts_ids(ss, i).union(stmt_ids(x)));
    } else {
        assert(more[i] == x);
        assert(stmts_ids(more, i + 1) =~= Set::<u64>::empty());
        assert(stmts_ids(more, i) =~= stmts_ids(ss, i).union(stmt_ids(x)));
    }
}

/// One more statement at the end of a list, with identities beyond those of the list.
pub proof fn lemma_stmts_push(ss: Seq<Stmt>, x: Stmt, i: int)
    requires
        0 <= i <= ss.len(),
        distinct_stmts(ss, i),
        well_placed_all(ss, i),
        distinct_stmt(x),
        well_placed(x),
        stmts_ids(ss, i).disjoint(stmt_ids(x)),
    ensures
        distinct_stmts(ss.push(x), i),
        well_placed_all(ss.push(x), i),
    decreases ss.len() - i,
{
    let more = ss.push(x);
    if i < ss.len() {
        assert(more[i] == ss[i]);
        assert(distinct_stmts(ss, i + 1));
        assert(well_placed_all(ss, i + 1));
        assert(stmts_ids(ss, i + 1).subset_of(stmts_ids(ss, i)));
        assert(stmt_ids(ss[i]).subset_of(stmts_ids(ss, i)));
        lemma_stmts_ids_push(ss, x, i + 1);
        lemma_stmts_push(ss, x, i + 1);
        assert(stmt_ids(more[i]).disjoint(stmts_ids(more, i + 1)));
    } else {
        assert(more[i] == x);
        assert(stmts_ids(more, i + 1) =~= Set::<u64>::empty());
        assert(distinct_stmts(more, i + 1));
        assert(well_placed_all(more, i + 1));
    }
}

/// A list of expressions with one more at the end, whose identities come behind.
pub proof fn lemma_tagged_exprs_push(es: Seq<Expr>, x: Expr, lo: nat, mid: nat, hi: nat)
    requires
        tagged_exprs(es, lo, mid),
        tagged_expr(x, mid, hi),
        lo <= mid <= hi,
    ensures
        tagged_exprs(es.push(x), lo, hi),
{
    lemma_exprs_ids_push(es, x, 0);
    lemma_exprs_push(es, x, 0);
}

/// A list of statements with one more at the end, whose identities come behind.
pub proof fn lemma_tagged_stmts_push(ss: Seq<Stmt>, x: Stmt, lo: nat, mid: nat, hi: nat)
    requires
        tagged_stmts(ss, lo, mid),
        tagged_stmt(x, mid, hi),
        lo <= mid <= hi,
    ensures
        tagged_stmts(ss.push(x), lo, hi),
{
    lemma_stmts_ids_push(ss, x, 0);
    lemma_stmts_push(ss, x, 0);
}


/// A list whose identities lie in a span lies in every wider span.
pub proof fn lemma_tagged_stmts_wider(ss: Seq<Stmt>, lo: nat, mid: nat, hi: nat)
    requires
        tagged_stmts(ss, lo, mid),
        mid <= hi,
    ensures
        tagged_stmts(ss, lo, hi),
{
}

} // verus!
