use vstd::prelude::*;
use crate::arithmetic::Numbers;
use crate::callable::Callable;
use crate::environment::{ancestor, rebound, well_linked, Environment};
use crate::error::SaturdayResult;
use crate::expr::Expr;
use crate::interpreter::lemma_rebound_keeps;
use crate::numbering::{
    agree_on, fresh, lemma_annotated_stmts_agree, lemma_resolved_stmts_moved,
    lemma_resolver_annotates, span, stmt_ids, stmts_ids, tagged_stmts,
};
use crate::object::Object;
use crate::resolver::{distance, fresh_analysis, resolved_stmts};
use crate::saturday_function::SaturdayFunction;
use crate::semantics::{
    binary_result, bound, decides, defined, evaluates, evaluates_all, executes, executes_all,
    executes_block, executes_while, extends, given, given2, interprets, invokes, printed, returned,
    unary_result, well_formed, write_result, written, Completion, Outcome, State,
};
use crate::stmt::Stmt;
use crate::stmt::WhileStmt;
use crate::token::Token;

verus! {

/// The scopes around a piece of code, the innermost last. A name is mapped
/// to `false` inside its own initializer and to `true` from then on.
pub type Scopes = Seq<Map<Seq<char>, bool>>;

/// The scopes with `name` kept in the innermost one. Outside every scope nothing is kept.
pub open spec fn note(sc: Scopes, name: Seq<char>, ready: bool) -> Scopes {
    if sc.len() > 0 {
        sc.update(sc.len() - 1, sc.last().insert(name, ready))
    } else {
        sc
    }
}

/// Every name of every scope is ready to be read.
pub open spec fn all_ready(sc: Scopes) -> bool {
    forall|k: int, name: Seq<char>|
        0 <= k < sc.len() && (#[trigger] sc[k].contains_key(name)) ==> sc[k][name]
}

/// Every name of every scope but the innermost is ready to be read.
pub open spec fn settled(sc: Scopes) -> bool {
    forall|k: int, name: Seq<char>|
        0 <= k < sc.len() - 1 && (#[trigger] sc[k].contains_key(name)) ==> sc[k][name]
}

/// The scope of the parameters of a function: the first `k` of them, ready to be read.
pub open spec fn params_scope(params: Seq<Token>, k: nat) -> Map<Seq<char>, bool>
    decreases k,
{
    if k == 0 || k > params.len() {
        Map::empty()
    } else {
        params_scope(params, (k - 1) as nat).insert(params[k - 1].lexeme@, true)
    }
}

/// A declaration of a variable or of a function.
pub open spec fn is_declaration(s: Stmt) -> bool {
    s is Def || s is Function
}

/// Declarations stand only in lists of statements: never as the branch of an
/// `if` or as the body of a loop.
pub open spec fn well_placed(s: Stmt) -> bool
    decreases s, 0int,
{
    match s {
        Stmt::Block(x) => well_placed_all(x.statements@, 0),
        Stmt::Function(x) => well_placed_all(x.body@, 0),
        Stmt::If(x) => !is_declaration(*x.then_branch) && well_placed(*x.then_branch)
            && match x.else_branch {
            Some(other) => !is_declaration(*other) && well_placed(*other),
            None => true,
        },
        Stmt::While(x) => !is_declaration(*x.body) && well_placed(*x.body),
        _ => true,
    }
}

/// The same for the statements from index `i` on.
pub open spec fn well_placed_all(ss: Seq<Stmt>, i: int) -> bool
    decreases ss, ss.len() - i,
{
    i < 0 || i >= ss.len() || (well_placed(ss[i]) && well_placed_all(ss, i + 1))
}

/// The scopes behind a statement: a declaration adds its name to the innermost scope.
pub open spec fn after(sc: Scopes, s: Stmt) -> Scopes {
    match s {
        Stmt::Def(x) => note(sc, x.name.lexeme@, true),
        Stmt::Function(x) => note(sc, x.name.lexeme@, true),
        _ => sc,
    }
}

/// The table `locals` holds for the use `id` of `name` what the scopes say:
/// the distance of the nearest scope that holds the name, or nothing if no
/// scope holds it.
pub open spec fn recorded(locals: Map<u64, usize>, sc: Scopes, id: u64, name: Token) -> bool {
    match distance(sc, name.lexeme@, 0) {
        Some(d) => locals.contains_key(id) && locals[id] == d as usize,
        None => !locals.contains_key(id),
    }
}

/// Whether a read of `name` stands in the initializer of `name` itself.
pub open spec fn unready(sc: Scopes, name: Token) -> bool {
    sc.len() > 0 && sc.last().contains_key(name.lexeme@) && !sc.last()[name.lexeme@]
}

/// The table `locals` holds the right distance for every use of a variable
/// in the expression, and no variable is read in its own initializer.
pub open spec fn annotated_expr(locals: Map<u64, usize>, sc: Scopes, e: Expr) -> bool
    decreases e, 0int,
{
    match e {
        Expr::Assign(x) => annotated_expr(locals, sc, *x.value) && recorded(
            locals,
            sc,
            x.id,
            x.name,
        ),
        Expr::Binary(x) => annotated_expr(locals, sc, *x.left) && annotated_expr(
            locals,
            sc,
            *x.right,
        ),
        Expr::Call(x) => annotated_expr(locals, sc, *x.callee) && annotated_exprs(
            locals,
            sc,
            x.arguments@,
            0,
        ),
        Expr::Grouping(x) => annotated_expr(locals, sc, *x.expression),
        Expr::Literal(_) => true,
        Expr::Logical(x) => annotated_expr(locals, sc, *x.left) && annotated_expr(
            locals,
            sc,
            *x.right,
        ),
        Expr::Unary(x) => annotated_expr(locals, sc, *x.right),
        Expr::Variable(x) => !unready(sc, x.name) && recorded(locals, sc, x.id, x.name),
    }
}

/// The same for the expressions from index `i` on.
pub open spec fn annotated_exprs(locals: Map<u64, usize>, sc: Scopes, es: Seq<Expr>, i: int) -> bool
    decreases es, es.len() - i,
{
    i < 0 || i >= es.len() || (annotated_expr(locals, sc, es[i]) && annotated_exprs(
        locals,
        sc,
        es,
        i + 1,
    ))
}

/// The scopes inside a function that is declared under `sc`: those around
/// the declaration, in which the function itself is known, and the scope of
/// the parameters.
pub open spec fn inside(sc: Scopes, name: Token, params: Seq<Token>) -> Scopes {
    note(sc, name.lexeme@, true).push(params_scope(params, params.len()))
}

/// The table `locals` holds the right distance for every use of a variable
/// in the statement, and no variable is read in its own initializer.
pub open spec fn annotated_stmt(locals: Map<u64, usize>, sc: Scopes, s: Stmt) -> bool
    decreases s, 0int,
{
    match s {
        Stmt::Block(x) => annotated_stmts(locals, sc.push(Map::empty()), x.statements@, 0),
        Stmt::Break(_) => true,
        Stmt::Expression(x) => annotated_expr(locals, sc, x.expression),
        Stmt::Function(x) => annotated_stmts(locals, inside(sc, x.name, x.params@), x.body@, 0),
        Stmt::If(x) => annotated_expr(locals, sc, x.condition) && annotated_stmt(
            locals,
            sc,
            *x.then_branch,
        ) && match x.else_branch {
            Some(other) => annotated_stmt(locals, sc, *other),
            None => true,
        },
        Stmt::Print(x) => annotated_expr(locals, sc, x.expression),
        Stmt::Return(x) => match x.value {
            Some(e) => annotated_expr(locals, sc, e),
            None => true,
        },
        Stmt::Def(x) => match x.initializer {
            Some(e) => annotated_expr(locals, note(sc, x.name.lexeme@, false), e),
            None => true,
        },
        Stmt::While(x) => annotated_expr(locals, sc, x.condition) && annotated_stmt(
            locals,
            sc,
            *x.body,
        ),
    }
}

/// The same for the statements from index `i` on, where each is analysed under the scopes that the one before leaves.
pub open spec fn annotated_stmts(locals: Map<u64, usize>, sc: Scopes, ss: Seq<Stmt>, i: int) -> bool
    decreases ss, ss.len() - i,
{
    i < 0 || i >= ss.len() || (annotated_stmt(locals, sc, ss[i]) && annotated_stmts(
        locals,
        after(sc, ss[i]),
        ss,
        i + 1,
    ))
}

/// Every name of the scope that is ready to be read is bound in the environment.
pub open spec fn names_bound(scope: Map<Seq<char>, bool>, env: Environment) -> bool {
    forall|name: Seq<char>| #[trigger]
        scope.contains_key(name) && scope[name] ==> env.bindings().contains_key(name)
}

/// The chain of environments from `env` outward mirrors the scopes: for
/// every scope there is an environment at its distance, and that
/// environment binds every name of the scope that is ready to be read.
pub open spec fn mirrors(sc: Scopes, arena: Seq<Environment>, env: int) -> bool {
    forall|k: int| 0 <= k < sc.len() ==> #[trigger] mirrored(sc, arena, env, k)
}

/// There is an environment `k` links outward of `env`; it is not the one of
/// the globals, and it binds every name that is ready to be read in the
/// scope `k` scopes outward of the innermost.
pub open spec fn mirrored(sc: Scopes, arena: Seq<Environment>, env: int, k: int) -> bool {
    ancestor(arena, env, k as nat) matches Some(a) && 0 < a < arena.len() && names_bound(
        sc[sc.len() - 1 - k],
        arena[a],
    )
}

/// What the functions of a state need: `around[i]` are scopes around the
/// declaration of the function `i`, in which the function itself is known;
/// the closure of the function mirrors them, and the table holds the right
/// distances for its body.
pub open spec fn functions_fit(
    used: Set<u64>,
    locals: Map<u64, usize>,
    around: Seq<Scopes>,
    arena: Seq<Environment>,
    functions: Seq<SaturdayFunction>,
) -> bool {
    &&& around.len() == functions.len()
    &&& forall|i: int| 0 <= i < functions.len() ==> #[trigger] function_fits(used, locals,
        around[i],
        arena,
        functions[i],
    )
}

/// Whether one function fits the scopes `sc` around its declaration.
pub open spec fn function_fits(
    used: Set<u64>,
    locals: Map<u64, usize>,
    sc: Scopes,
    arena: Seq<Environment>,
    f: SaturdayFunction,
) -> bool {
    &&& all_ready(sc)
    &&& f.closure < arena.len()
    &&& mirrors(sc, arena, f.closure as int)
    &&& well_placed_all(f.body@, 0)
    &&& stmts_ids(f.body@, 0).subset_of(used)
    &&& annotated_stmts(locals, sc.push(params_scope(f.params@, f.params@.len())), f.body@, 0)
}

/// The state fits the table and the scopes: it is well formed, the table
/// is the one of the state, the active environment mirrors the scopes, and
/// the functions fit.
pub open spec fn fits(
    used: Set<u64>,
    locals: Map<u64, usize>,
    around: Seq<Scopes>,
    sc: Scopes,
    s: State,
) -> bool {
    &&& well_formed(s)
    &&& s.locals == locals
    &&& mirrors(sc, s.arena, s.active as int)
    &&& functions_fit(used, locals, around, s.arena, s.functions)
}

/// No environment is lost from `pre` to `post`, none changes its place in
/// the chain, and each binds afterwards what it bound before.
pub open spec fn arena_grows(pre: Seq<Environment>, post: Seq<Environment>) -> bool {
    &&& pre.len() <= post.len()
    &&& forall|i: int| 0 <= i < pre.len() ==> (#[trigger] post[i]).parent() == pre[i].parent()
    &&& forall|i: int, name: Seq<char>|
        0 <= i < pre.len() && (#[trigger] pre[i].bindings().contains_key(name))
            ==> post[i].bindings().contains_key(name)
}

/// Nothing is lost from `pre` to `post`: the state extends, and every
/// environment binds afterwards what it bound before.
pub open spec fn grows(pre: State, post: State) -> bool {
    extends(pre, post) && arena_grows(pre.arena, post.arena)
}

/// Whether `a` is the beginning of `b`.
pub open spec fn begins(a: Seq<Scopes>, b: Seq<Scopes>) -> bool {
    a.len() <= b.len() && forall|i: int| 0 <= i < a.len() ==> a[i] == b[i]
}

/// Whether a result is not the failure of a wrong record.
pub open spec fn sound<T>(r: Result<T, SaturdayResult>) -> bool {
    !(r matches Err(SaturdayResult::Fail))
}

/// Where nothing is lost in one step and nothing in the next, nothing is lost in both.
pub proof fn lemma_arena_grows_trans(a: Seq<Environment>, b: Seq<Environment>, c: Seq<Environment>)
    requires
        arena_grows(a, b),
        arena_grows(b, c),
    ensures
        arena_grows(a, c),
{
    assert forall|i: int| 0 <= i < a.len() implies (#[trigger] c[i]).parent() == a[i].parent() by {
        assert(c[i].parent() == b[i].parent());
    }
    assert forall|i: int, name: Seq<char>|
        0 <= i < a.len() && (#[trigger] a[i].bindings().contains_key(
            name,
        )) implies c[i].bindings().contains_key(name) by {
        assert(b[i].bindings().contains_key(name));
    }
}

/// The same for states.
pub proof fn lemma_grows_trans(a: State, b: State, c: State)
    requires
        grows(a, b),
        grows(b, c),
    ensures
        grows(a, c),
{
    crate::interpreter::lemma_extends_trans(a, b, c);
    lemma_arena_grows_trans(a.arena, b.arena, c.arena);
}

/// The distance that the scopes give for a name leads to a scope that holds the name.
pub proof fn lemma_distance(sc: Scopes, name: Seq<char>, k: nat)
    ensures
        distance(sc, name, k) matches Some(d) ==> k <= d < sc.len() && sc[sc.len() - 1
            - d].contains_key(name),
    decreases sc.len() - k,
{
    if k < sc.len() && !sc[sc.len() - 1 - k].contains_key(name) {
        lemma_distance(sc, name, k + 1);
    }
}

/// The chain from an environment does not change where environments are
/// added and none changes its place in the chain.
pub proof fn lemma_ancestor_stays(pre: Seq<Environment>, post: Seq<Environment>, env: int, k: nat)
    requires
        well_linked(pre),
        pre.len() <= post.len(),
        forall|i: int| 0 <= i < pre.len() ==> (#[trigger] post[i]).parent() == pre[i].parent(),
        0 <= env < pre.len(),
    ensures
        ancestor(post, env, k) == ancestor(pre, env, k),
        ancestor(pre, env, k) matches Some(a) ==> 0 <= a < pre.len(),
    decreases k,
{
    if k > 0 {
        assert(post[env].parent() == pre[env].parent());
        match pre[env].parent() {
            Some(p) => {
                lemma_ancestor_stays(pre, post, p as int, (k - 1) as nat);
            },
            None => {},
        }
    }
}

/// What mirrors the scopes before mirrors them after, where nothing is lost.
pub proof fn lemma_mirrors_stays(sc: Scopes, pre: Seq<Environment>, post: Seq<Environment>, env: int)
    requires
        well_linked(pre),
        arena_grows(pre, post),
        0 <= env < pre.len(),
        mirrors(sc, pre, env),
    ensures
        mirrors(sc, post, env),
{
    assert forall|k: int| 0 <= k < sc.len() implies #[trigger] mirrored(sc, post, env, k) by {
        assert(mirrored(sc, pre, env, k));
        lemma_ancestor_stays(pre, post, env, k as nat);
        let a = ancestor(pre, env, k as nat)->Some_0;
        assert(names_bound(sc[sc.len() - 1 - k], pre[a]));
        assert forall|name: Seq<char>| #[trigger]
            sc[sc.len() - 1 - k].contains_key(name) && sc[sc.len() - 1
                - k][name] implies post[a].bindings().contains_key(name) by {
            assert(pre[a].bindings().contains_key(name));
        }
    }
}

/// Functions that fit before fit after, where nothing is lost.
pub proof fn lemma_functions_stay(
    used: Set<u64>,
    locals: Map<u64, usize>,
    around: Seq<Scopes>,
    pre: Seq<Environment>,
    post: Seq<Environment>,
    functions: Seq<SaturdayFunction>,
)
    requires
        well_linked(pre),
        arena_grows(pre, post),
        functions_fit(used, locals, around, pre, functions),
    ensures
        functions_fit(used, locals, around, post, functions),
{
    assert forall|i: int| 0 <= i < functions.len() implies #[trigger] function_fits(used, locals,
        around[i],
        post,
        functions[i],
    ) by {
        assert(function_fits(used, locals, around[i], pre, functions[i]));
        lemma_mirrors_stays(around[i], pre, post, functions[i].closure as int);
    }
}

/// A state that fits still fits where nothing is lost and no function is added.
pub proof fn lemma_fits_stays(
    used: Set<u64>,
    locals: Map<u64, usize>,
    around: Seq<Scopes>,
    sc: Scopes,
    pre: State,
    post: State,
)
    requires
        fits(used, locals, around, sc, pre),
        grows(pre, post),
        post.functions == pre.functions,
        well_formed(post),
    ensures
        fits(used, locals, around, sc, post),
{
    lemma_mirrors_stays(sc, pre.arena, post.arena, pre.active as int);
    lemma_functions_stay(used, locals, around, pre.arena, post.arena, pre.functions);
}

/// A state with one more environment, inside one that exists, is well formed.
pub proof fn lemma_entered(s: State, env: Environment, parent: usize)
    requires
        well_formed(s),
        env.parent() == Some(parent),
        parent < s.arena.len(),
        s.arena.len() < usize::MAX,
    ensures
        well_formed(s.entered(env)),
        arena_grows(s.arena, s.entered(env).arena),
{
    let more = s.arena.push(env);
    assert forall|i: int| 0 <= i < more.len() implies match (#[trigger] more[i]).parent() {
        Some(p) => p < i,
        None => true,
    } by {
        if i < s.arena.len() {
            assert(more[i] == s.arena[i]);
        }
    }
    assert forall|i: int| 0 <= i < s.arena.len() implies (#[trigger] more[i]).parent()
        == s.arena[i].parent() by {
        assert(more[i] == s.arena[i]);
    }
    assert forall|i: int, name: Seq<char>|
        0 <= i < s.arena.len() && (#[trigger] s.arena[i].bindings().contains_key(
            name,
        )) implies more[i].bindings().contains_key(name) by {
        assert(more[i] == s.arena[i]);
    }
}

/// A new environment inside one that mirrors the scopes mirrors the scopes
/// with one more, of which it binds the names.
pub proof fn lemma_mirrors_enter(
    sc: Scopes,
    top: Map<Seq<char>, bool>,
    arena: Seq<Environment>,
    env: Environment,
    parent: usize,
)
    requires
        well_linked(arena),
        0 <= parent < arena.len(),
        env.parent() == Some(parent),
        mirrors(sc, arena, parent as int),
        names_bound(top, env),
    ensures
        mirrors(sc.push(top), arena.push(env), arena.len() as int),
        well_linked(arena.push(env)),
        arena_grows(arena, arena.push(env)),
{
    let wide = sc.push(top);
    let more = arena.push(env);
    let here = arena.len() as int;
    assert forall|i: int| 0 <= i < more.len() implies match (#[trigger] more[i]).parent() {
        Some(p) => p < i,
        None => true,
    } by {
        if i < arena.len() {
            assert(more[i] == arena[i]);
        }
    }
    assert forall|k: int| 0 <= k < wide.len() implies #[trigger] mirrored(wide, more, here, k) by {
        if k == 0 {
            assert(ancestor(more, here, 0) == Some(here));
            assert(wide[wide.len() - 1] == top);
        } else {
            assert(mirrored(sc, arena, parent as int, k - 1));
            lemma_ancestor_stays(arena, more, parent as int, (k - 1) as nat);
            assert(more[here] == env);
            assert(ancestor(more, here, k as nat) == ancestor(more, parent as int, (k - 1) as nat));
            let a = ancestor(arena, parent as int, (k - 1) as nat)->Some_0;
            assert(more[a] == arena[a]);
            assert(wide[wide.len() - 1 - k] == sc[sc.len() - 1 - (k - 1)]);
        }
    }
}

/// The environment of a call binds every parameter.
pub proof fn lemma_params_bound(params: Seq<Token>, arguments: Seq<Object>, k: nat)
    requires
        k <= params.len(),
    ensures
        forall|name: Seq<char>| #[trigger]
            params_scope(params, k).contains_key(name) ==> bound(
                params,
                arguments,
                k,
            ).contains_key(name) && params_scope(params, k)[name],
    decreases k,
{
    if k > 0 {
        lemma_params_bound(params, arguments, (k - 1) as nat);
        let last = params[k - 1].lexeme@;
        assert forall|name: Seq<char>| #[trigger]
            params_scope(params, k).contains_key(name) implies bound(
            params,
            arguments,
            k,
        ).contains_key(name) && params_scope(params, k)[name] by {
            if name != last {
                assert(params_scope(params, (k - 1) as nat).contains_key(name));
            }
        }
    }
}

/// Binding a name keeps what was bound.
pub proof fn lemma_rebound_grows(
    pre: Seq<Environment>,
    post: Seq<Environment>,
    at: int,
    name: Seq<char>,
    value: Object,
)
    requires
        rebound(pre, post, at, name, value),
    ensures
        arena_grows(pre, post),
{
    assert forall|i: int| 0 <= i < pre.len() implies (#[trigger] post[i]).parent()
        == pre[i].parent() by {
        if i != at {
            assert(post[i] == pre[i]);
        }
    }
    assert forall|i: int, n: Seq<char>|
        0 <= i < pre.len() && (#[trigger] pre[i].bindings().contains_key(
            n,
        )) implies post[i].bindings().contains_key(n) by {
        if i != at {
            assert(post[i] == pre[i]);
        }
    }
}

/// Where a name is bound in the active environment, the chain mirrors the
/// scopes in which the name is ready to be read.
pub proof fn lemma_mirrors_define(
    sc: Scopes,
    pre: Seq<Environment>,
    post: Seq<Environment>,
    active: int,
    name: Seq<char>,
    value: Object,
)
    requires
        well_linked(pre),
        0 <= active < pre.len(),
        mirrors(sc, pre, active),
        rebound(pre, post, active, name, value),
    ensures
        mirrors(note(sc, name, true), post, active),
{
    lemma_rebound_grows(pre, post, active, name, value);
    lemma_mirrors_stays(sc, pre, post, active);
    let noted = note(sc, name, true);
    assert forall|k: int| 0 <= k < noted.len() implies #[trigger] mirrored(
        noted,
        post,
        active,
        k,
    ) by {
        assert(mirrored(sc, post, active, k));
        if k == 0 {
            assert(ancestor(post, active, 0) == Some(active));
        } else {
            assert(noted[noted.len() - 1 - k] == sc[sc.len() - 1 - k]);
        }
    }
}

/// The chain that mirrors the scopes mirrors them also where one more name
/// of the innermost scope is not ready to be read.
pub proof fn lemma_mirrors_declare(sc: Scopes, arena: Seq<Environment>, active: int, name: Seq<char>)
    requires
        mirrors(sc, arena, active),
    ensures
        mirrors(note(sc, name, false), arena, active),
{
    let noted = note(sc, name, false);
    assert forall|k: int| 0 <= k < noted.len() implies #[trigger] mirrored(
        noted,
        arena,
        active,
        k,
    ) by {
        assert(mirrored(sc, arena, active, k));
        if k != 0 {
            assert(noted[noted.len() - 1 - k] == sc[sc.len() - 1 - k]);
        }
    }
}


/// Scopes in which every name is ready stay so with one more name that is ready, and with one more scope.
pub proof fn lemma_ready_note(sc: Scopes, name: Seq<char>)
    requires
        all_ready(sc),
    ensures
        all_ready(note(sc, name, true)),
        settled(note(sc, name, false)),
        settled(sc),
        all_ready(sc.push(Map::empty())),
{
    let yes = note(sc, name, true);
    assert forall|k: int, n: Seq<char>|
        0 <= k < yes.len() && (#[trigger] yes[k].contains_key(n)) implies yes[k][n] by {
        if k != sc.len() - 1 || n != name {
            assert(sc[k].contains_key(n));
        }
    }
    let no = note(sc, name, false);
    assert forall|k: int, n: Seq<char>|
        0 <= k < no.len() - 1 && (#[trigger] no[k].contains_key(n)) implies no[k][n] by {
        assert(sc[k].contains_key(n));
    }
    let wide = sc.push(Map::empty());
    assert forall|k: int, n: Seq<char>|
        0 <= k < wide.len() && (#[trigger] wide[k].contains_key(n)) implies wide[k][n] by {
        if k < sc.len() {
            assert(sc[k].contains_key(n));
        }
    }
}

/// The same with the scope of the parameters of a function.
pub proof fn lemma_ready_params(sc: Scopes, params: Seq<Token>)
    requires
        all_ready(sc),
    ensures
        all_ready(sc.push(params_scope(params, params.len()))),
{
    let wide = sc.push(params_scope(params, params.len()));
    lemma_params_bound(params, Seq::empty(), params.len());
    assert forall|k: int, n: Seq<char>|
        0 <= k < wide.len() && (#[trigger] wide[k].contains_key(n)) implies wide[k][n] by {
        if k < sc.len() {
            assert(sc[k].contains_key(n));
        } else {
            assert(params_scope(params, params.len()).contains_key(n));
        }
    }
}

/// Every link of the chain leads to an older environment: the environment
/// `k` links outward of `env` lies at least `k` places before it.
pub proof fn lemma_chain(arena: Seq<Environment>, env: int, k: nat)
    requires
        well_linked(arena),
    ensures
        ancestor(arena, env, k) matches Some(a) ==> 0 <= a && a + k <= env,
    decreases k,
{
    if 0 <= env < arena.len() && k > 0 {
        match arena[env].parent() {
            Some(p) => {
                lemma_chain(arena, p as int, (k - 1) as nat);
            },
            None => {},
        }
    }
}

/// A variable with a record is found where the record says: the recorded
/// distance leads to an environment that is not the one of the globals, and
/// where the variable is ready to be read that environment binds it.
pub proof fn lemma_record_leads(locals: Map<u64, usize>, sc: Scopes, s: State, id: u64, name: Token)
    requires
        well_formed(s),
        s.locals == locals,
        mirrors(sc, s.arena, s.active as int),
        recorded(locals, sc, id, name),
        locals.contains_key(id),
    ensures
        ancestor(s.arena, s.active as int, locals[id] as nat) matches Some(a) && 0 < a
            < s.arena.len() && (settled(sc) && !unready(sc, name)
            ==> s.arena[a].bindings().contains_key(name.lexeme@)),
{
    lemma_distance(sc, name.lexeme@, 0);
    let d = distance(sc, name.lexeme@, 0)->Some_0;
    assert(mirrored(sc, s.arena, s.active as int, d as int));
    lemma_chain(s.arena, s.active as int, d);
    let a = ancestor(s.arena, s.active as int, d)->Some_0;
    if settled(sc) && !unready(sc, name) {
        assert(sc[sc.len() - 1 - d].contains_key(name.lexeme@));
        assert(sc[sc.len() - 1 - d][name.lexeme@]);
        assert(names_bound(sc[sc.len() - 1 - d], s.arena[a]));
    }
}

/// A state that fits still fits where a name was bound in one environment.
pub proof fn lemma_written_fits(
    used: Set<u64>,
    locals: Map<u64, usize>,
    around: Seq<Scopes>,
    sc: Scopes,
    pre: State,
    at: int,
    name: Seq<char>,
    value: Object,
    post: State,
)
    requires
        fits(used, locals, around, sc, pre),
        written(pre, at, name, value, post),
    ensures
        grows(pre, post),
        fits(used, locals, around, sc, post),
{
    lemma_rebound_keeps(pre, post, at, name, value);
    lemma_rebound_grows(pre.arena, post.arena, at, name, value);
    lemma_fits_stays(used, locals, around, sc, pre, post);
}

/// No evaluation of an expression for which the table holds the right
/// distances fails on a record, and the state fits afterwards as before.
pub proof fn lemma_sound_evaluation(
    num: Numbers,
    used: Set<u64>,
    locals: Map<u64, usize>,
    around: Seq<Scopes>,
    sc: Scopes,
    pre: State,
    e: Expr,
    fuel: nat,
    post: State,
    r: Outcome,
) -> (out: Seq<Scopes>)
    requires
        evaluates(num, pre, e, fuel, post, r),
        fits(used, locals, around, sc, pre),
        settled(sc),
        annotated_expr(locals, sc, e),
    ensures
        sound(r),
        grows(pre, post),
        begins(around, out),
        fits(used, locals, out, sc, post),
    decreases fuel, 1nat,
{
    reveal_with_fuel(evaluates, 2);
    if fuel == 0 {
        around
    } else {
        let n = (fuel - 1) as nat;
        match e {
            Expr::Assign(x) => {
                let (mid, v) = choose|mid: State, v: Outcome| #[trigger]
                    given2(mid, v) && evaluates(num, pre, *x.value, n, mid, v) && match v {
                        Err(e) => post == mid && r == v,
                        Ok(value) => write_result(mid, x.name, x.id, value, post, r),
                    };
                let out = lemma_sound_evaluation(num, used, locals, around, sc, pre, *x.value, n, mid, v);
                match v {
                    Ok(value) => {
                        if locals.contains_key(x.id) {
                            lemma_record_leads(locals, sc, mid, x.id, x.name);
                            let a = ancestor(
                                mid.arena,
                                mid.active as int,
                                locals[x.id] as nat,
                            )->Some_0;
                            lemma_written_fits(used, locals, out, sc, mid, a, x.name.lexeme@, value, post);
                            lemma_grows_trans(pre, mid, post);
                        } else if mid.arena[0].bindings().contains_key(x.name.lexeme@) {
                            lemma_written_fits(used, locals, out, sc, mid, 0, x.name.lexeme@, value, post);
                            lemma_grows_trans(pre, mid, post);
                        }
                    },
                    Err(_) => {},
                }
                out
            },
            Expr::Binary(x) => {
                let (mid, lv) = choose|mid: State, lv: Outcome| #[trigger]
                    given2(mid, lv) && evaluates(num, pre, *x.left, n, mid, lv) && match lv {
                        Err(e) => post == mid && r == lv,
                        Ok(left) => exists|rv: Outcome| #[trigger]
                            given(rv) && evaluates(num, mid, *x.right, n, post, rv) && match rv {
                                Err(e) => r == rv,
                                Ok(right) => binary_result(num, left, x.operator, right, r),
                            },
                    };
                let out1 = lemma_sound_evaluation(num, used, locals, around, sc, pre, *x.left, n, mid, lv);
                match lv {
                    Ok(left) => {
                        let rv = choose|rv: Outcome| #[trigger]
                            given(rv) && evaluates(num, mid, *x.right, n, post, rv) && match rv {
                                Err(e) => r == rv,
                                Ok(right) => binary_result(num, left, x.operator, right, r),
                            };
                        let out2 = lemma_sound_evaluation(
                            num,
                            used,
                            locals,
                            out1,
                            sc,
                            mid,
                            *x.right,
                            n,
                            post,
                            rv,
                        );
                        lemma_grows_trans(pre, mid, post);
                        out2
                    },
                    Err(_) => out1,
                }
            },
            Expr::Call(x) => {
                let (s1, cv) = choose|s1: State, cv: Outcome| #[trigger]
                    given2(s1, cv) && evaluates(num, pre, *x.callee, n, s1, cv) && match cv {
                        Err(e) => post == s1 && r == cv,
                        Ok(callee) => exists|s2: State, av: Result<Seq<Object>, SaturdayResult>| #[trigger]
                            given2(s2, av) && evaluates_all(num, s1, x.arguments@, 0, n, s2, av)
                                && match av {
                                Err(e) => post == s2 && r == Err::<Object, SaturdayResult>(e),
                                Ok(arguments) => invokes(num, s2, callee, x.paren, arguments, n, post, r),
                            },
                    };
                let out1 = lemma_sound_evaluation(num, used, locals, around, sc, pre, *x.callee, n, s1, cv);
                match cv {
                    Ok(callee) => {
                        let (s2, av) = choose|s2: State, av: Result<Seq<Object>, SaturdayResult>| #[trigger]
                            given2(s2, av) && evaluates_all(num, s1, x.arguments@, 0, n, s2, av)
                                && match av {
                                Err(e) => post == s2 && r == Err::<Object, SaturdayResult>(e),
                                Ok(arguments) => invokes(num, s2, callee, x.paren, arguments, n, post, r),
                            };
                        let out2 = lemma_sound_arguments(
                            num,
                            used,
                            locals,
                            out1,
                            sc,
                            s1,
                            x.arguments@,
                            0,
                            n,
                            s2,
                            av,
                        );
                        lemma_grows_trans(pre, s1, s2);
                        match av {
                            Ok(arguments) => {
                                let out3 = lemma_sound_invoke(
                                    num,
                                    used,
                                    locals,
                                    out2,
                                    sc,
                                    s2,
                                    callee,
                                    x.paren,
                                    arguments,
                                    n,
                                    post,
                                    r,
                                );
                                lemma_grows_trans(pre, s2, post);
                                out3
                            },
                            Err(_) => out2,
                        }
                    },
                    Err(_) => out1,
                }
            },
            Expr::Grouping(x) => lemma_sound_evaluation(
                num,
                used,
                locals,
                around,
                sc,
                pre,
                *x.expression,
                n,
                post,
                r,
            ),
            Expr::Literal(_) => around,
            Expr::Logical(x) => {
                let (mid, lv) = choose|mid: State, lv: Outcome| #[trigger]
                    given2(mid, lv) && evaluates(num, pre, *x.left, n, mid, lv) && match lv {
                        Err(e) => post == mid && r == lv,
                        Ok(left) => if decides(x.operator, left) {
                            post == mid && r == lv
                        } else {
                            evaluates(num, mid, *x.right, n, post, r)
                        },
                    };
                let out1 = lemma_sound_evaluation(num, used, locals, around, sc, pre, *x.left, n, mid, lv);
                match lv {
                    Ok(left) => {
                        if !decides(x.operator, left) {
                            let out2 = lemma_sound_evaluation(
                                num,
                                used,
                                locals,
                                out1,
                                sc,
                                mid,
                                *x.right,
                                n,
                                post,
                                r,
                            );
                            lemma_grows_trans(pre, mid, post);
                            out2
                        } else {
                            out1
                        }
                    },
                    Err(_) => out1,
                }
            },
            Expr::Unary(x) => {
                let v = choose|v: Outcome| #[trigger]
                    given(v) && evaluates(num, pre, *x.right, n, post, v) && match v {
                        Err(e) => r == v,
                        Ok(right) => unary_result(num, x.operator, right, r),
                    };
                lemma_sound_evaluation(num, used, locals, around, sc, pre, *x.right, n, post, v)
            },
            Expr::Variable(x) => {
                if locals.contains_key(x.id) {
                    lemma_record_leads(locals, sc, pre, x.id, x.name);
                }
                around
            },
        }
    }
}

/// The same for the arguments of a call.
pub proof fn lemma_sound_arguments(
    num: Numbers,
    used: Set<u64>,
    locals: Map<u64, usize>,
    around: Seq<Scopes>,
    sc: Scopes,
    pre: State,
    es: Seq<Expr>,
    i: int,
    n: nat,
    post: State,
    r: Result<Seq<Object>, SaturdayResult>,
) -> (out: Seq<Scopes>)
    requires
        evaluates_all(num, pre, es, i, n, post, r),
        fits(used, locals, around, sc, pre),
        settled(sc),
        annotated_exprs(locals, sc, es, i),
    ensures
        sound(r),
        grows(pre, post),
        begins(around, out),
        fits(used, locals, out, sc, post),
    decreases n, 2nat,
{
    if i < 0 || i >= es.len() || n == 0 {
        around
    } else {
        let (mid, v) = choose|mid: State, v: Outcome| #[trigger]
            given2(mid, v) && evaluates(num, pre, es[i], n, mid, v) && match v {
                Err(e) => post == mid && r == Err::<Seq<Object>, SaturdayResult>(e),
                Ok(first) => exists|rest: Result<Seq<Object>, SaturdayResult>| #[trigger]
                    given(rest) && evaluates_all(num, mid, es, i + 1, (n - 1) as nat, post, rest)
                        && match rest {
                        Err(e) => r == rest,
                        Ok(others) => r == Ok::<Seq<Object>, SaturdayResult>(seq![first] + others),
                    },
            };
        let out1 = lemma_sound_evaluation(num, used, locals, around, sc, pre, es[i], n, mid, v);
        match v {
            Ok(first) => {
                let rest = choose|rest: Result<Seq<Object>, SaturdayResult>| #[trigger]
                    given(rest) && evaluates_all(num, mid, es, i + 1, (n - 1) as nat, post, rest)
                        && match rest {
                        Err(e) => r == rest,
                        Ok(others) => r == Ok::<Seq<Object>, SaturdayResult>(seq![first] + others),
                    };
                let out2 = lemma_sound_arguments(
                    num,
                    used,
                    locals,
                    out1,
                    sc,
                    mid,
                    es,
                    i + 1,
                    (n - 1) as nat,
                    post,
                    rest,
                );
                lemma_grows_trans(pre, mid, post);
                out2
            },
            Err(_) => out1,
        }
    }
}

/// The same for a call.
pub proof fn lemma_sound_invoke(
    num: Numbers,
    used: Set<u64>,
    locals: Map<u64, usize>,
    around: Seq<Scopes>,
    sc: Scopes,
    pre: State,
    callee: Object,
    paren: Token,
    arguments: Seq<Object>,
    n: nat,
    post: State,
    r: Outcome,
) -> (out: Seq<Scopes>)
    requires
        invokes(num, pre, callee, paren, arguments, n, post, r),
        fits(used, locals, around, sc, pre),
    ensures
        sound(r),
        grows(pre, post),
        begins(around, out),
        fits(used, locals, out, sc, post),
    decreases n, 5nat,
{
    reveal_with_fuel(invokes, 2);
    match callee {
        Object::Func(Callable::Function(i)) => {
            if i < pre.functions.len() && arguments.len() == pre.functions[i as int].params@.len() {
                let function = pre.functions[i as int];
                let (env, body) = choose|env: Environment, body: Completion| #[trigger]
                    given2(env, body) && executes_block(num, pre, function.body@, env, n, post, body)
                        && env.parent() == Some(function.closure) && env.bindings() == bound(
                        function.params@,
                        arguments,
                        arguments.len(),
                    ) && r == returned(body);
                assert(function_fits(used, locals, around[i as int], pre.arena, function));
                lemma_params_bound(function.params@, arguments, arguments.len());
                let top = params_scope(function.params@, function.params@.len());
                lemma_mirrors_enter(around[i as int], top, pre.arena, env, function.closure);
                lemma_ready_params(around[i as int], function.params@);
                lemma_sound_block(
                    num,
                    used,
                    locals,
                    around,
                    sc,
                    around[i as int].push(top),
                    pre,
                    function.body@,
                    env,
                    function.closure,
                    n,
                    post,
                    body,
                )
            } else {
                around
            }
        },
        _ => around,
    }
}

/// The same for the statements of a block or of a function, which run in
/// the new environment `env` under the scopes `inner`.
pub proof fn lemma_sound_block(
    num: Numbers,
    used: Set<u64>,
    locals: Map<u64, usize>,
    around: Seq<Scopes>,
    sc: Scopes,
    inner: Scopes,
    pre: State,
    statements: Seq<Stmt>,
    env: Environment,
    parent: usize,
    n: nat,
    post: State,
    r: Completion,
) -> (out: Seq<Scopes>)
    requires
        executes_block(num, pre, statements, env, n, post, r),
        fits(used, locals, around, sc, pre),
        env.parent() == Some(parent),
        parent < pre.arena.len(),
        mirrors(inner, pre.arena.push(env), pre.arena.len() as int),
        all_ready(inner),
        annotated_stmts(locals, inner, statements, 0),
        well_placed_all(statements, 0),
        stmts_ids(statements, 0).subset_of(used),
    ensures
        sound(r),
        grows(pre, post),
        begins(around, out),
        fits(used, locals, out, sc, post),
    decreases n, 3nat,
{
    let last = choose|last: State| #[trigger]
        given(last) && pre.arena.len() < usize::MAX && executes_all(
            num,
            pre.entered(env),
            statements,
            0,
            n,
            last,
            r,
        ) && post == last.back_in(pre.active);
    let entered = pre.entered(env);
    lemma_entered(pre, env, parent);
    lemma_functions_stay(used, locals, around, pre.arena, entered.arena, pre.functions);
    let out = lemma_sound_statements(num, used, locals, around, inner, entered, statements, 0, n, last, r);
    lemma_arena_grows_trans(pre.arena, entered.arena, last.arena);
    lemma_mirrors_stays(sc, pre.arena, post.arena, pre.active as int);
    assert(extends(pre, post)) by {
        assert forall|i: int| 0 <= i < pre.arena.len() implies (#[trigger] post.arena[i]).parent()
            == pre.arena[i].parent() by {
            assert(entered.arena[i].parent() == pre.arena[i].parent());
        }
    }
    out
}

/// The same for the statements from index `i` on, under the scopes `sc`.
pub proof fn lemma_sound_statements(
    num: Numbers,
    used: Set<u64>,
    locals: Map<u64, usize>,
    around: Seq<Scopes>,
    sc: Scopes,
    pre: State,
    ss: Seq<Stmt>,
    i: int,
    n: nat,
    post: State,
    r: Completion,
) -> (out: Seq<Scopes>)
    requires
        executes_all(num, pre, ss, i, n, post, r),
        fits(used, locals, around, sc, pre),
        all_ready(sc),
        annotated_stmts(locals, sc, ss, i),
        well_placed_all(ss, i),
        stmts_ids(ss, i).subset_of(used),
    ensures
        sound(r),
        grows(pre, post),
        begins(around, out),
        well_formed(post),
        post.locals == locals,
        functions_fit(used, locals, out, post.arena, post.functions),
    decreases n, 2nat,
{
    if i < 0 || i >= ss.len() || n == 0 {
        around
    } else {
        let (mid, first) = choose|mid: State, first: Completion| #[trigger]
            given2(mid, first) && executes(num, pre, ss[i], n, mid, first) && match first {
                Err(e) => post == mid && r == first,
                Ok(_) => executes_all(num, mid, ss, i + 1, (n - 1) as nat, post, r),
            };
        let out1 = lemma_sound_execution(num, used, locals, around, sc, pre, ss[i], n, mid, first);
        match first {
            Ok(_) => {
                lemma_after_ready(sc, ss[i]);
                let out2 = lemma_sound_statements(
                    num,
                    used,
                    locals,
                    out1,
                    after(sc, ss[i]),
                    mid,
                    ss,
                    i + 1,
                    (n - 1) as nat,
                    post,
                    r,
                );
                lemma_grows_trans(pre, mid, post);
                out2
            },
            Err(_) => out1,
        }
    }
}

/// The same behind a statement.
pub proof fn lemma_after_ready(sc: Scopes, s: Stmt)
    requires
        all_ready(sc),
    ensures
        all_ready(after(sc, s)),
{
    match s {
        Stmt::Def(x) => {
            lemma_ready_note(sc, x.name.lexeme@);
        },
        Stmt::Function(x) => {
            lemma_ready_note(sc, x.name.lexeme@);
        },
        _ => {},
    }
}

/// No execution of a statement for which the table holds the right
/// distances fails on a record; the state fits afterwards as before, and
/// after a declaration the active environment binds the declared name.
pub proof fn lemma_sound_execution(
    num: Numbers,
    used: Set<u64>,
    locals: Map<u64, usize>,
    around: Seq<Scopes>,
    sc: Scopes,
    pre: State,
    s: Stmt,
    fuel: nat,
    post: State,
    r: Completion,
) -> (out: Seq<Scopes>)
    requires
        executes(num, pre, s, fuel, post, r),
        fits(used, locals, around, sc, pre),
        all_ready(sc),
        annotated_stmt(locals, sc, s),
        well_placed(s),
        stmt_ids(s).subset_of(used),
    ensures
        sound(r),
        grows(pre, post),
        begins(around, out),
        fits(used, locals, out, sc, post),
        r is Ok ==> mirrors(after(sc, s), post.arena, post.active as int),
    decreases fuel, 1nat,
{
    reveal_with_fuel(executes, 2);
    lemma_ready_note(sc, Seq::empty());
    if fuel == 0 {
        around
    } else {
        let n = (fuel - 1) as nat;
        match s {
            Stmt::Block(x) => {
                let env = choose|env: Environment| #[trigger]
                    given(env) && executes_block(num, pre, x.statements@, env, n, post, r)
                        && env.parent() == Some(pre.active) && env.bindings() == Map::<
                        Seq<char>,
                        Object,
                    >::empty();
                lemma_mirrors_enter(sc, Map::empty(), pre.arena, env, pre.active);
                lemma_sound_block(
                    num,
                    used,
                    locals,
                    around,
                    sc,
                    sc.push(Map::empty()),
                    pre,
                    x.statements@,
                    env,
                    pre.active,
                    n,
                    post,
                    r,
                )
            },
            Stmt::Break(_) => around,
            Stmt::Expression(x) => {
                let v = choose|v: Outcome| #[trigger]
                    given(v) && evaluates(num, pre, x.expression, n, post, v) && match v {
                        Err(e) => r == Err::<(), SaturdayResult>(e),
                        Ok(_) => r == Ok::<(), SaturdayResult>(()),
                    };
                lemma_sound_evaluation(num, used, locals, around, sc, pre, x.expression, n, post, v)
            },
            Stmt::Function(x) => {
                let function = SaturdayFunction {
                    name: x.name,
                    params: x.params,
                    body: x.body,
                    closure: pre.active,
                };
                let made = State { functions: pre.functions.push(function), ..pre };
                let value = Object::Func(Callable::Function(pre.functions.len() as usize));
                let known = note(sc, x.name.lexeme@, true);
                let out = around.push(known);
                assert(well_formed(made)) by {
                    assert forall|i: int| 0 <= i < made.functions.len() implies (
                    #[trigger] made.functions[i]).closure < made.arena.len() by {
                        if i < pre.functions.len() {
                            assert(made.functions[i] == pre.functions[i]);
                        }
                    }
                }
                lemma_rebound_keeps(made, post, pre.active as int, x.name.lexeme@, value);
                lemma_rebound_grows(pre.arena, post.arena, pre.active as int, x.name.lexeme@, value);
                lemma_mirrors_define(
                    sc,
                    pre.arena,
                    post.arena,
                    pre.active as int,
                    x.name.lexeme@,
                    value,
                );
                lemma_mirrors_stays(sc, pre.arena, post.arena, pre.active as int);
                lemma_functions_stay(used, locals, around, pre.arena, post.arena, pre.functions);
                assert(functions_fit(used, locals, out, post.arena, post.functions)) by {
                    assert forall|i: int| 0 <= i < post.functions.len() implies #[trigger] function_fits(used, locals,
                        out[i],
                        post.arena,
                        post.functions[i],
                    ) by {
                        if i < pre.functions.len() {
                            assert(function_fits(used, locals, around[i], post.arena, pre.functions[i]));
                            assert(post.functions[i] == pre.functions[i]);
                            assert(out[i] == around[i]);
                        } else {
                            assert(post.functions[i] == function);
                            assert(out[i] == known);
                        }
                    }
                }
                assert(extends(pre, post)) by {
                    assert forall|i: int| 0 <= i < pre.functions.len() implies #[trigger] post.functions[i]
                        == pre.functions[i] by {
                        assert(made.functions[i] == pre.functions[i]);
                    }
                }
                out
            },
            Stmt::If(x) => {
                let (mid, v) = choose|mid: State, v: Outcome| #[trigger]
                    given2(mid, v) && evaluates(num, pre, x.condition, n, mid, v) && match v {
                        Err(e) => post == mid && r == Err::<(), SaturdayResult>(e),
                        Ok(condition) => if condition.truthy() {
                            executes(num, mid, *x.then_branch, n, post, r)
                        } else {
                            match x.else_branch {
                                Some(other) => executes(num, mid, *other, n, post, r),
                                None => post == mid && r == Ok::<(), SaturdayResult>(()),
                            }
                        },
                    };
                let out1 = lemma_sound_evaluation(num, used, locals, around, sc, pre, x.condition, n, mid, v);
                match v {
                    Ok(condition) => {
                        if condition.truthy() {
                            let out2 = lemma_sound_execution(
                                num,
                                used,
                                locals,
                                out1,
                                sc,
                                mid,
                                *x.then_branch,
                                n,
                                post,
                                r,
                            );
                            lemma_grows_trans(pre, mid, post);
                            out2
                        } else {
                            match x.else_branch {
                                Some(other) => {
                                    let out2 = lemma_sound_execution(
                                        num,
                                        used,
                                        locals,
                                        out1,
                                        sc,
                                        mid,
                                        *other,
                                        n,
                                        post,
                                        r,
                                    );
                                    lemma_grows_trans(pre, mid, post);
                                    out2
                                },
                                None => out1,
                            }
                        }
                    },
                    Err(_) => out1,
                }
            },
            Stmt::Print(x) => {
                let (mid, v) = choose|mid: State, v: Outcome| #[trigger]
                    given2(mid, v) && evaluates(num, pre, x.expression, n, mid, v) && match v {
                        Err(e) => post == mid && r == Err::<(), SaturdayResult>(e),
                        Ok(value) => printed(mid, value, post) && r == Ok::<(), SaturdayResult>(()),
                    };
                let out = lemma_sound_evaluation(num, used, locals, around, sc, pre, x.expression, n, mid, v);
                match v {
                    Ok(value) => {
                        assert(grows(mid, post)) by {
                            assert forall|i: int| 0 <= i < mid.output.len() implies #[trigger] post.output[i]
                                == mid.output[i] by {
                                assert(post.output.drop_last()[i] == mid.output[i]);
                            }
                        }
                        lemma_fits_stays(used, locals, out, sc, mid, post);
                        lemma_grows_trans(pre, mid, post);
                    },
                    Err(_) => {},
                }
                out
            },
            Stmt::Return(x) => {
                match x.value {
                    Some(e) => {
                        let v = choose|v: Outcome| #[trigger]
                            given(v) && evaluates(num, pre, e, n, post, v) && match v {
                                Err(e) => r == Err::<(), SaturdayResult>(e),
                                Ok(value) => r == Err::<(), SaturdayResult>(
                                    SaturdayResult::ReturnValue { value },
                                ),
                            };
                        lemma_sound_evaluation(num, used, locals, around, sc, pre, e, n, post, v)
                    },
                    None => around,
                }
            },
            Stmt::Def(x) => {
                let name = x.name.lexeme@;
                match x.initializer {
                    Some(e) => {
                        let (mid, v) = choose|mid: State, v: Outcome| #[trigger]
                            given2(mid, v) && evaluates(num, pre, e, n, mid, v) && match v {
                                Err(e) => post == mid && r == Err::<(), SaturdayResult>(e),
                                Ok(value) => defined(mid, x.name.lexeme@, value, post) && r == Ok::<
                                    (),
                                    SaturdayResult,
                                >(()),
                            };
                        lemma_ready_note(sc, name);
                        lemma_mirrors_declare(sc, pre.arena, pre.active as int, name);
                        let out = lemma_sound_evaluation(
                            num,
                            used,
                            locals,
                            around,
                            note(sc, name, false),
                            pre,
                            e,
                            n,
                            mid,
                            v,
                        );
                        lemma_mirrors_stays(sc, pre.arena, mid.arena, pre.active as int);
                        match v {
                            Ok(value) => {
                                lemma_written_fits(used, locals,
                                    out,
                                    sc,
                                    mid,
                                    mid.active as int,
                                    name,
                                    value,
                                    post,
                                );
                                lemma_mirrors_define(
                                    sc,
                                    mid.arena,
                                    post.arena,
                                    mid.active as int,
                                    name,
                                    value,
                                );
                                lemma_grows_trans(pre, mid, post);
                            },
                            Err(_) => {},
                        }
                        out
                    },
                    None => {
                        lemma_written_fits(used, locals,
                            around,
                            sc,
                            pre,
                            pre.active as int,
                            name,
                            Object::Nil,
                            post,
                        );
                        lemma_mirrors_define(
                            sc,
                            pre.arena,
                            post.arena,
                            pre.active as int,
                            name,
                            Object::Nil,
                        );
                        around
                    },
                }
            },
            Stmt::While(x) => lemma_sound_loop(num, used, locals, around, sc, pre, x, n, post, r),
        }
    }
}

/// The same for a loop.
pub proof fn lemma_sound_loop(
    num: Numbers,
    used: Set<u64>,
    locals: Map<u64, usize>,
    around: Seq<Scopes>,
    sc: Scopes,
    pre: State,
    x: WhileStmt,
    n: nat,
    post: State,
    r: Completion,
) -> (out: Seq<Scopes>)
    requires
        executes_while(num, pre, x, n, post, r),
        fits(used, locals, around, sc, pre),
        all_ready(sc),
        annotated_expr(locals, sc, x.condition),
        annotated_stmt(locals, sc, *x.body),
        well_placed(*x.body),
        stmt_ids(*x.body).subset_of(used),
    ensures
        sound(r),
        grows(pre, post),
        begins(around, out),
        fits(used, locals, out, sc, post),
    decreases n, 6nat,
{
    lemma_ready_note(sc, Seq::empty());
    if n == 0 {
        around
    } else {
        let m = (n - 1) as nat;
        let (s1, cv) = choose|s1: State, cv: Outcome| #[trigger]
            given2(s1, cv) && evaluates(num, pre, x.condition, m, s1, cv) && match cv {
                Err(e) => post == s1 && r == Err::<(), SaturdayResult>(e),
                Ok(condition) => if !condition.truthy() {
                    post == s1 && r == Ok::<(), SaturdayResult>(())
                } else {
                    exists|s2: State, body: Completion| #[trigger]
                        given2(s2, body) && executes(num, s1, *x.body, m, s2, body) && match body {
                            Err(SaturdayResult::Break) => post == s2 && r == Ok::<
                                (),
                                SaturdayResult,
                            >(()),
                            Err(e) => post == s2 && r == body,
                            Ok(_) => executes_while(num, s2, x, m, post, r),
                        }
                },
            };
        let out1 = lemma_sound_evaluation(num, used, locals, around, sc, pre, x.condition, m, s1, cv);
        match cv {
            Ok(condition) => {
                if condition.truthy() {
                    let (s2, body) = choose|s2: State, body: Completion| #[trigger]
                        given2(s2, body) && executes(num, s1, *x.body, m, s2, body) && match body {
                            Err(SaturdayResult::Break) => post == s2 && r == Ok::<
                                (),
                                SaturdayResult,
                            >(()),
                            Err(e) => post == s2 && r == body,
                            Ok(_) => executes_while(num, s2, x, m, post, r),
                        };
                    let out2 = lemma_sound_execution(num, used, locals, out1, sc, s1, *x.body, m, s2, body);
                    lemma_grows_trans(pre, s1, s2);
                    match body {
                        Ok(_) => {
                            let out3 = lemma_sound_loop(num, used, locals, out2, sc, s2, x, m, post, r);
                            lemma_grows_trans(pre, s2, post);
                            out3
                        },
                        Err(_) => out2,
                    }
                } else {
                    out1
                }
            },
            Err(_) => out1,
        }
    }
}

/// The same for a program, which runs outside every scope.
pub proof fn lemma_sound_program(
    num: Numbers,
    used: Set<u64>,
    locals: Map<u64, usize>,
    around: Seq<Scopes>,
    pre: State,
    ss: Seq<Stmt>,
    i: int,
    fuel: nat,
    post: State,
    r: Completion,
) -> (out: Seq<Scopes>)
    requires
        interprets(num, pre, ss, i, fuel, post, r),
        fits(used, locals, around, Seq::empty(), pre),
        annotated_stmts(locals, Seq::empty(), ss, i),
        well_placed_all(ss, i),
        stmts_ids(ss, i).subset_of(used),
    ensures
        sound(r),
        grows(pre, post),
        begins(around, out),
        fits(used, locals, out, Seq::empty(), post),
    decreases ss.len() - i,
{
    if i < 0 || i >= ss.len() {
        around
    } else {
        let none: Scopes = Seq::empty();
        let (mid, first) = choose|mid: State, first: Completion| #[trigger]
            given2(mid, first) && executes(num, pre, ss[i], fuel, mid, first) && match first {
                Err(e) => post == mid && r == first,
                Ok(_) => interprets(num, mid, ss, i + 1, fuel, post, r),
            };
        let out1 = lemma_sound_execution(num, used, locals, around, none, pre, ss[i], fuel, mid, first);
        match first {
            Ok(_) => {
                assert(after(none, ss[i]) == none);
                let out2 = lemma_sound_program(num, used, locals, out1, mid, ss, i + 1, fuel, post, r);
                lemma_grows_trans(pre, mid, post);
                out2
            },
            Err(_) => out1,
        }
    }
}

/// Resolver soundness, for reads and for the environments of writes.
///
/// Take a program in which declarations stand only in lists of statements,
/// and a state whose table holds, for every use of a variable in the program
/// and in the functions made so far, the distance that the scopes around
/// the use give, and nothing for the uses around which no scope holds the
/// name. Then the program never fails on a record: walking the recorded
/// distance from the environment that is active at a use always reaches an
/// environment, and where the use reads the variable that environment binds
/// the name.
pub proof fn lemma_resolved_variables_are_found(
    num: Numbers,
    used: Set<u64>,
    around: Seq<Scopes>,
    pre: State,
    ss: Seq<Stmt>,
    fuel: nat,
    post: State,
    r: Completion,
)
    requires
        well_formed(pre),
        functions_fit(used, pre.locals, around, pre.arena, pre.functions),
        annotated_stmts(pre.locals, Seq::empty(), ss, 0),
        well_placed_all(ss, 0),
        interprets(num, pre, ss, 0, fuel, post, r),
        stmts_ids(ss, 0).subset_of(used),
    ensures
        !(r matches Err(SaturdayResult::Fail)),
{
    let _ = lemma_sound_program(num, used, pre.locals, around, pre, ss, 0, fuel, post, r);
}


/// What a session keeps from one program to the next: the state is well
/// formed; the functions fit the table, and the identities in their bodies
/// lie below `next`; the table says nothing of `next` and beyond.
pub open spec fn session_fits(next: nat, around: Seq<Scopes>, s: State) -> bool {
    &&& well_formed(s)
    &&& functions_fit(span(0, next), s.locals, around, s.arena, s.functions)
    &&& forall|id: u64| #[trigger] s.locals.contains_key(id) ==> id < next
}

/// A session that fits still fits where more identities are given out.
pub proof fn lemma_session_wider(next: nat, more: nat, around: Seq<Scopes>, s: State)
    requires
        session_fits(next, around, s),
        next <= more,
    ensures
        session_fits(more, around, s),
{
    assert forall|i: int| 0 <= i < s.functions.len() implies #[trigger] function_fits(
        span(0, more),
        s.locals,
        around[i],
        s.arena,
        s.functions[i],
    ) by {
        assert(function_fits(span(0, next), s.locals, around[i], s.arena, s.functions[i]));
    }
}

/// A session that fits still fits when the resolver has analysed a new
/// program, whose identities are new; and if the resolver found no error,
/// its table holds the right distances for the program.
pub proof fn lemma_session_resolved(next: nat, more: nat, around: Seq<Scopes>, s: State, ss: Seq<Stmt>)
    requires
        session_fits(next, around, s),
        tagged_stmts(ss, next, more),
        next <= more,
    ensures
        session_fits(
            more,
            around,
            State { locals: resolved_stmts(fresh_analysis(s.locals), ss, 0).locals, ..s },
        ),
        resolved_stmts(fresh_analysis(s.locals), ss, 0).errors.len() == 0 ==> annotated_stmts(
            resolved_stmts(fresh_analysis(s.locals), ss, 0).locals,
            Seq::empty(),
            ss,
            0,
        ),
{
    let res = resolved_stmts(fresh_analysis(s.locals), ss, 0);
    let ids = stmts_ids(ss, 0);
    lemma_resolved_stmts_moved(fresh_analysis(s.locals), ss, 0);
    assert(fresh(s.locals, ids)) by {
        assert forall|id: u64| #[trigger] ids.contains(id) implies !s.locals.contains_key(id) by {
            assert(span(next, more).contains(id));
        }
    }
    if res.errors.len() == 0 {
        lemma_resolver_annotates(s.locals, ss);
    }
    assert forall|i: int| 0 <= i < s.functions.len() implies #[trigger] function_fits(
        span(0, more),
        res.locals,
        around[i],
        s.arena,
        s.functions[i],
    ) by {
        let f = s.functions[i];
        assert(function_fits(span(0, next), s.locals, around[i], s.arena, f));
        let body = stmts_ids(f.body@, 0);
        assert(agree_on(s.locals, res.locals, body)) by {
            assert forall|id: u64| #[trigger] body.contains(id) implies s.locals.contains_key(id)
                == res.locals.contains_key(id) && (s.locals.contains_key(id) ==> s.locals[id]
                == res.locals[id]) by {
                assert(span(0, next).contains(id));
                assert(!ids.contains(id)) by {
                    if ids.contains(id) {
                        assert(span(next, more).contains(id));
                    }
                }
                assert(res.locals.contains_key(id) == s.locals.contains_key(id));
            }
        }
        lemma_annotated_stmts_agree(
            s.locals,
            res.locals,
            around[i].push(params_scope(f.params@, f.params@.len())),
            f.body@,
            0,
        );
    }
    assert forall|id: u64| #[trigger] res.locals.contains_key(id) implies id < more by {
        if ids.contains(id) {
            assert(span(next, more).contains(id));
        } else {
            assert(res.locals.contains_key(id) == s.locals.contains_key(id));
        }
    }
}

/// No program for which the table holds the right distances fails on a
/// record, and the session fits afterwards as before.
pub proof fn lemma_session_run(
    num: Numbers,
    next: nat,
    around: Seq<Scopes>,
    pre: State,
    ss: Seq<Stmt>,
    fuel: nat,
    post: State,
    r: Completion,
) -> (out: Seq<Scopes>)
    requires
        session_fits(next, around, pre),
        annotated_stmts(pre.locals, Seq::empty(), ss, 0),
        well_placed_all(ss, 0),
        stmts_ids(ss, 0).subset_of(span(0, next)),
        interprets(num, pre, ss, 0, fuel, post, r),
    ensures
        sound(r),
        session_fits(next, out, post),
{
    lemma_sound_program(num, span(0, next), pre.locals, around, pre, ss, 0, fuel, post, r)
}


/// Resolver soundness, from the resolver to the running program.
///
/// Take a session that fits, and a program as the parser makes it: every
/// use of a variable has an identity of its own, from `next` up to `more`,
/// and declarations stand only in lists of statements. If the resolver finds
/// no error in the program, then running the program with the table that
/// the resolver leaves never fails on a record: walking the recorded
/// distance from the environment that is active at a use always reaches an
/// environment, and where the use reads the variable that environment binds
/// the name. The session fits afterwards as before, for the scopes `out`.
pub proof fn lemma_resolver_is_sound(
    num: Numbers,
    next: nat,
    more: nat,
    around: Seq<Scopes>,
    s: State,
    ss: Seq<Stmt>,
    fuel: nat,
    post: State,
    r: Completion,
) -> (out: Seq<Scopes>)
    requires
        session_fits(next, around, s),
        tagged_stmts(ss, next, more),
        next <= more,
        resolved_stmts(fresh_analysis(s.locals), ss, 0).errors.len() == 0,
        interprets(
            num,
            State { locals: resolved_stmts(fresh_analysis(s.locals), ss, 0).locals,
            ..s },
            ss,
            0,
            fuel,
            post,
            r,
        ),
    ensures
        !(r matches Err(SaturdayResult::Fail)),
        session_fits(more, out, post),
{
    lemma_session_resolved(next, more, around, s, ss);
    let noted = State { locals: resolved_stmts(fresh_analysis(s.locals), ss, 0).locals, ..s };
    assert(stmts_ids(ss, 0).subset_of(span(0, more))) by {
        assert forall|id: u64| #[trigger] stmts_ids(ss, 0).contains(id) implies span(
            0,
            more,
        ).contains(id) by {
            assert(span(next, more).contains(id));
        }
    }
    lemma_session_run(num, more, around, noted, ss, fuel, post, r)
}

} // verus!
