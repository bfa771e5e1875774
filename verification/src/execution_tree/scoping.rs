//! Well-scopedness: every identifier of a resolved program leads somewhere.

use vstd::prelude::*;
use crate::execution_tree::{ExprView, Id, ProgramView, ScopeView};
use crate::execution_tree::resolution::{
    declare_all,
    find_in_chain,
    find_in_level,
    ids_of,
    lemma_declare_grows,
    lemma_grown_into_chains,
    lemma_grown_into_itself,
    lemma_resolve_exprs_grows,
    resolve_expr,
    resolve_exprs,
    resolve_program,
    resolve_scope,
    with_globals,
    LevelView,
    ParserScopeView,
    ParserView,
};
use crate::syntax_tree;
use crate::value::Value;

verus! {

/// Whether the scope `scope_id` or one of the scopes around it declares
/// `variable`.
pub open spec fn declares(scopes: Map<Id, ScopeView>, scope_id: Id, variable: Id) -> bool
    decreases scope_id.0,
{
    scopes.contains_key(scope_id) && (scopes[scope_id].local_variables.contains(variable)
        || match scopes[scope_id].parent_scope_id {
        Some(parent) => parent.0 < scope_id.0 && declares(scopes, parent, variable),
        None => false,
    })
}

/// Whether the scope `target` is the scope `scope_id` or one of the scopes
/// around it.
pub open spec fn within(scopes: Map<Id, ScopeView>, scope_id: Id, target: Id) -> bool
    decreases scope_id.0,
{
    scopes.contains_key(scope_id) && (scope_id == target
        || match scopes[scope_id].parent_scope_id {
        Some(parent) => parent.0 < scope_id.0 && within(scopes, parent, target),
        None => false,
    })
}

/// Whether every identifier in `expression`, which stands in the scope `home`,
/// leads somewhere: a variable that is read, written or called is declared by
/// `home` or by a scope around it; a scope that is entered is among `scopes`;
/// a scope that is unwound to is `home` or a scope around it; the parameters
/// of a function literal are declared by the scope of its body.
pub open spec fn well_scoped_expr(scopes: Map<Id, ScopeView>, home: Id, expression: ExprView) -> bool
    decreases expression,
{
    match expression {
        ExprView::Scope(scope_id) => scopes.contains_key(scope_id),
        ExprView::Literal(_) => true,
        ExprView::VarDef { variable_id, value } => declares(scopes, home, variable_id)
            && well_scoped_expr(scopes, home, *value),
        ExprView::VarAssign { variable_id, value } => declares(scopes, home, variable_id)
            && well_scoped_expr(scopes, home, *value),
        ExprView::VarCall { variable_id } => declares(scopes, home, variable_id),
        ExprView::FnDef { parameter_ids, body_scope_id } => scopes.contains_key(body_scope_id)
            && forall|i: int|
            0 <= i < parameter_ids.len() ==> scopes[body_scope_id].local_variables.contains(
                #[trigger] parameter_ids[i],
            ),
        ExprView::FnCall { variable_id, arguments } => declares(scopes, home, variable_id)
            && forall|i: int|
            0 <= i < arguments.len() ==> well_scoped_expr(scopes, home, #[trigger] arguments[i]),
        ExprView::FnRet { value, function_scope_id } => within(scopes, home, function_scope_id)
            && well_scoped_expr(scopes, home, *value),
        ExprView::Loop { body_scope_id } => scopes.contains_key(body_scope_id),
        ExprView::LoopBr { value, loop_scope_id } => within(scopes, home, loop_scope_id)
            && well_scoped_expr(scopes, home, *value),
        ExprView::Cond { condition, arm_true, arm_false } => well_scoped_expr(
            scopes,
            home,
            *condition,
        ) && well_scoped_expr(scopes, home, *arm_true) && match arm_false {
            Some(otherwise) => well_scoped_expr(scopes, home, *otherwise),
            None => true,
        },
    }
}

/// Whether the scope `scope_id` is recorded under its own identifier, lies in
/// a scope of `scopes` that is older than it is, unless it is the root, and
/// holds well-scoped statements only.
pub open spec fn well_scoped_scope(scopes: Map<Id, ScopeView>, scope_id: Id) -> bool {
    &&& scopes.contains_key(scope_id)
    &&& scopes[scope_id].scope_id == scope_id
    &&& scopes[scope_id].parent_scope_id matches Some(parent) ==> parent.0 < scope_id.0
        && scopes.contains_key(parent)
    &&& forall|i: int|
        0 <= i < scopes[scope_id].expressions.len() ==> well_scoped_expr(
            scopes,
            scope_id,
            #[trigger] scopes[scope_id].expressions[i],
        )
}

/// Whether every identifier of `program` leads somewhere.
pub open spec fn well_scoped(program: ProgramView) -> bool {
    &&& program.scopes.contains_key(program.main_scope_id)
    &&& forall|scope_id: Id| #[trigger]
        program.scopes.contains_key(scope_id) ==> well_scoped_scope(program.scopes, scope_id)
}

/// The scopes that are open where `scope` is being resolved, outermost first,
/// `scope` itself last.
pub open spec fn open_scopes(scope: ParserScopeView) -> Seq<LevelView> {
    scope.enclosing.push(scope.current)
}

/// Whether one of `levels` is the scope `scope_id`.
pub open spec fn among(levels: Seq<LevelView>, scope_id: Id) -> bool {
    exists|k: int| 0 <= k < levels.len() && (#[trigger] levels[k]).scope_id == scope_id
}

/// What holds of a scope under resolution and its resolver between any two
/// steps: identifiers in use are older than the next one issued, scopes nest
/// from older to younger, a finished scope is recorded under its own
/// identifier and lies in an older one, and the targets of `return` and
/// `break` are open scopes.
pub open spec fn coherent(scope: ParserScopeView, parser: ParserView) -> bool {
    let levels = open_scopes(scope);
    &&& forall|k: int| 0 <= k < levels.len() ==> (#[trigger] levels[k]).scope_id.0 < parser.next_id
    &&& forall|j: int, k: int|
        0 <= j < k < levels.len() ==> (#[trigger] levels[j]).scope_id.0 < (
        #[trigger] levels[k]).scope_id.0
    &&& forall|id: Id| #[trigger]
        parser.scopes.contains_key(id) ==> id.0 < parser.next_id && parser.scopes[id].scope_id
            == id
    &&& scope.parent_id == (if scope.enclosing.len() > 0 {
        Some(scope.enclosing.last().scope_id)
    } else {
        None
    })
    &&& scope.function_id matches Some(f) ==> among(levels, f)
    &&& scope.loop_id matches Some(l) ==> among(levels, l)
}

/// Whether a step from `(scope, parser)` led to `(later, after)`: the scope
/// only grew, no identifier was taken back, the scopes that were finished stay
/// as they were, and the scopes finished since got identifiers issued since.
pub open spec fn stepped(
    scope: ParserScopeView,
    parser: ParserView,
    later: ParserScopeView,
    after: ParserView,
) -> bool {
    &&& coherent(later, after)
    &&& scope.grown_into(later)
    &&& parser.next_id <= after.next_id
    &&& forall|id: Id| #[trigger]
        parser.scopes.contains_key(id) ==> after.scopes.contains_key(id) && after.scopes[id]
            == parser.scopes[id]
    &&& forall|id: Id| #[trigger]
        after.scopes.contains_key(id) && !parser.scopes.contains_key(id) ==> parser.next_id
            <= id.0
}

/// Whether `scopes` holds the finished scopes of `parser` as they are.
pub open spec fn covers_finished(scopes: Map<Id, ScopeView>, parser: ParserView) -> bool {
    forall|id: Id| #[trigger]
        parser.scopes.contains_key(id) ==> scopes.contains_key(id) && scopes[id]
            == parser.scopes[id]
}

/// The scope around the open scope `levels[k]`: the one opened before it.
#[verifier::opaque]
pub open spec fn around(levels: Seq<LevelView>, k: int) -> Option<Id> {
    if k > 0 {
        Some(levels[k - 1].scope_id)
    } else {
        None
    }
}

/// Whether `scopes` holds the open scopes `levels` where they are, each
/// inside the one before it, with at least the variables that they have
/// declared.
pub open spec fn covers_open(scopes: Map<Id, ScopeView>, levels: Seq<LevelView>) -> bool {
    forall|k: int|
        0 <= k < levels.len() ==> scopes.contains_key((#[trigger] levels[k]).scope_id)
            && scopes[levels[k].scope_id].parent_scope_id == around(levels, k) && forall|b: int|
            0 <= b < levels[k].bindings.len() ==> scopes[levels[k].scope_id].local_variables.contains(
             (#[trigger] levels[k].bindings[b]).1)
}

/// Whether `scopes` holds what resolution has fixed so far: the finished
/// scopes as they are, and the open scopes where they are, with at least the
/// variables that they have declared.
pub open spec fn covers(scopes: Map<Id, ScopeView>, scope: ParserScopeView, parser: ParserView) -> bool {
    covers_finished(scopes, parser) && covers_open(scopes, open_scopes(scope))
}

/// Steps compose.
pub proof fn lemma_stepped_chain(
    scope: ParserScopeView,
    parser: ParserView,
    second: ParserScopeView,
    then: ParserView,
    third: ParserScopeView,
    last: ParserView,
)
    requires
        stepped(scope, parser, second, then),
        stepped(second, then, third, last),
    ensures
        stepped(scope, parser, third, last),
{
    lemma_grown_into_chains(scope, second, third);
    assert forall|id: Id| #[trigger]
        last.scopes.contains_key(id) && !parser.scopes.contains_key(id) implies parser.next_id
        <= id.0 by {
        if then.scopes.contains_key(id) {
        }
    }
}

/// A coherent state has stepped to itself.
pub proof fn lemma_stepped_nowhere(scope: ParserScopeView, parser: ParserView)
    requires
        coherent(scope, parser),
    ensures
        stepped(scope, parser, scope, parser),
{
    lemma_grown_into_itself(scope);
}

/// Declaring a name under the next identifier is a step.
pub proof fn lemma_stepped_declare(scope: ParserScopeView, parser: ParserView, name: Seq<char>)
    requires
        coherent(scope, parser),
        parser.can_issue(),
    ensures
        stepped(scope, parser, scope.declare(name, parser.issued()), parser.advanced()),
{
    let later = scope.declare(name, parser.issued());
    lemma_declare_grows(scope, name, parser.issued());
    let levels = open_scopes(scope);
    let after = open_scopes(later);
    assert forall|k: int| 0 <= k < after.len() implies (#[trigger] after[k]).scope_id
        == levels[k].scope_id by {}
    assert forall|j: int, k: int| 0 <= j < k < after.len() implies (#[trigger] after[j]).scope_id.0
        < (#[trigger] after[k]).scope_id.0 by {
        assert(levels[j].scope_id.0 < levels[k].scope_id.0);
    }
    assert forall|k: int| 0 <= k < after.len() implies (#[trigger] after[k]).scope_id.0
        < parser.advanced().next_id by {
        assert(levels[k].scope_id.0 < parser.next_id);
    }
    if let Some(f) = scope.function_id {
        let k = choose|k: int| 0 <= k < levels.len() && (#[trigger] levels[k]).scope_id == f;
        assert(after[k].scope_id == f);
    }
    if let Some(l) = scope.loop_id {
        let k = choose|k: int| 0 <= k < levels.len() && (#[trigger] levels[k]).scope_id == l;
        assert(after[k].scope_id == l);
    }
}

/// A scope opened under the next identifier is coherent with the resolver
/// that issued the identifier, whichever the targets it takes over or becomes.
pub proof fn lemma_coherent_child(
    scope: ParserScopeView,
    parser: ParserView,
    function_id: Option<Id>,
    loop_id: Option<Id>,
)
    requires
        coherent(scope, parser),
        parser.can_issue(),
        function_id == scope.function_id || function_id == Some(parser.issued()),
        loop_id == scope.loop_id || loop_id.is_none() || loop_id == Some(parser.issued()),
    ensures
        coherent(scope.child(parser.issued(), function_id, loop_id), parser.advanced()),
        !parser.advanced().scopes.contains_key(parser.issued()),
{
    let id = parser.issued();
    let child = scope.child(id, function_id, loop_id);
    let levels = open_scopes(scope);
    let after = open_scopes(child);
    assert(after == levels.push(child.current));
    assert forall|k: int| 0 <= k < after.len() implies (#[trigger] after[k]).scope_id.0
        < parser.advanced().next_id by {
        if k < levels.len() {
            assert(levels[k].scope_id.0 < parser.next_id);
        }
    }
    assert forall|j: int, k: int| 0 <= j < k < after.len() implies (#[trigger] after[j]).scope_id.0
        < (#[trigger] after[k]).scope_id.0 by {
        assert(levels[j].scope_id.0 < parser.next_id);
        if k < levels.len() {
            assert(levels[j].scope_id.0 < levels[k].scope_id.0);
        }
    }
    assert(child.enclosing.last() == scope.current);
    if let Some(f) = function_id {
        if f == id {
            assert(after[after.len() - 1].scope_id == f);
        } else {
            let k = choose|k: int| 0 <= k < levels.len() && (#[trigger] levels[k]).scope_id == f;
            assert(after[k].scope_id == f);
        }
    }
    if let Some(l) = loop_id {
        if l == id {
            assert(after[after.len() - 1].scope_id == l);
        } else {
            let k = choose|k: int| 0 <= k < levels.len() && (#[trigger] levels[k]).scope_id == l;
            assert(after[k].scope_id == l);
        }
    }
    if parser.scopes.contains_key(id) {
        assert(id.0 < parser.next_id);
    }
}

/// What the resolution of the body of a freshly opened scope does to the
/// resolver: the finished scopes stay, the body's scope is recorded under its
/// identifier, inside the scope around it, and whatever else was recorded got
/// an identifier issued since.
pub open spec fn body_recorded(
    scope: ParserScopeView,
    parser: ParserView,
    after: ParserView,
) -> bool {
    let id = scope.current.scope_id;
    &&& parser.next_id <= after.next_id
    &&& forall|other: Id| #[trigger]
        parser.scopes.contains_key(other) ==> after.scopes.contains_key(other)
            && after.scopes[other] == parser.scopes[other]
    &&& forall|other: Id| #[trigger]
        after.scopes.contains_key(other) && !parser.scopes.contains_key(other) ==> other == id
            || parser.next_id <= other.0
    &&& forall|other: Id| #[trigger]
        after.scopes.contains_key(other) ==> other.0 < after.next_id && after.scopes[other].scope_id
            == other
    &&& after.scopes.contains_key(id)
    &&& after.scopes[id].parent_scope_id == scope.parent_id
}

/// Resolving an expression is a step.
pub proof fn lemma_resolve_expr_steps(
    expression: syntax_tree::Expr,
    scope: ParserScopeView,
    parser: ParserView,
)
    requires
        coherent(scope, parser),
    ensures
        resolve_expr(expression, scope, parser) matches Ok((_, later, after)) ==> stepped(
            scope,
            parser,
            later,
            after,
        ),
    decreases expression, 0int,
{
    lemma_stepped_nowhere(scope, parser);
    match *expression.0 {
        syntax_tree::ExprInner::Scope(block) => {
            if parser.can_issue() {
                lemma_coherent_child(scope, parser, scope.function_id, scope.loop_id);
                let child = scope.child_common(parser.issued());
                lemma_resolve_scope_steps(block.instructions@, child, parser.advanced());
                match resolve_scope(block.instructions@, child, parser.advanced()) {
                    Err(e) => {},
                    Ok(after) => {
                        lemma_child_finished_steps(scope, parser, child, after);
                    },
                }
            }
        },
        syntax_tree::ExprInner::Literal(literal) => {},
        syntax_tree::ExprInner::VarDef(definition) => {
            lemma_resolve_expr_steps(definition.value, scope, parser);
            match resolve_expr(definition.value, scope, parser) {
                Err(e) => {},
                Ok((value, scope1, parser1)) => {
                    if parser1.can_issue() {
                        lemma_stepped_declare(scope1, parser1, definition.name@);
                        lemma_stepped_chain(
                            scope,
                            parser,
                            scope1,
                            parser1,
                            scope1.declare(definition.name@, parser1.issued()),
                            parser1.advanced(),
                        );
                    }
                },
            }
        },
        syntax_tree::ExprInner::VarAssign(assignment) => {
            lemma_resolve_expr_steps(assignment.value, scope, parser);
        },
        syntax_tree::ExprInner::VarCall(call) => {},
        syntax_tree::ExprInner::FnDef(definition) => {
            if parser.can_issue() {
                let id = parser.issued();
                lemma_coherent_child(scope, parser, Some(id), None);
                let child = scope.child_function(id);
                lemma_declare_all_steps(definition.parameter_names@, child, parser.advanced());
                match declare_all(definition.parameter_names@, child, parser.advanced()) {
                    Err(e) => {},
                    Ok((parameter_ids, body_scope, parser1)) => {
                        lemma_resolve_scope_steps(
                            definition.body.instructions@,
                            body_scope,
                            parser1,
                        );
                        match resolve_scope(definition.body.instructions@, body_scope, parser1) {
                            Err(e) => {},
                            Ok(after) => {
                                assert(body_recorded(child, parser.advanced(), after)) by {
                                    assert forall|other: Id| #[trigger]
                                        after.scopes.contains_key(other)
                                            && !parser.advanced().scopes.contains_key(
                                            other,
                                        ) implies other == id || parser.advanced().next_id
                                        <= other.0 by {
                                        if parser1.scopes.contains_key(other) {
                                        }
                                    }
                                }
                                lemma_child_finished_steps(scope, parser, child, after);
                            },
                        }
                    },
                }
            }
        },
        syntax_tree::ExprInner::FnCall(call) => {
            lemma_resolve_exprs_steps(call.arguments@, scope, parser);
        },
        syntax_tree::ExprInner::FnRet(ret) => {
            lemma_resolve_expr_steps(ret.value, scope, parser);
        },
        syntax_tree::ExprInner::Loop(l) => {
            if parser.can_issue() {
                let id = parser.issued();
                lemma_coherent_child(scope, parser, scope.function_id, Some(id));
                let child = scope.child_loop(id);
                lemma_resolve_scope_steps(l.body.instructions@, child, parser.advanced());
                match resolve_scope(l.body.instructions@, child, parser.advanced()) {
                    Err(e) => {},
                    Ok(after) => {
                        lemma_child_finished_steps(scope, parser, child, after);
                    },
                }
            }
        },
        syntax_tree::ExprInner::LoopBr(br) => {
            lemma_resolve_expr_steps(br.value, scope, parser);
        },
        syntax_tree::ExprInner::Cond(cond) => {
            lemma_resolve_expr_steps(cond.condition, scope, parser);
            match resolve_expr(cond.condition, scope, parser) {
                Err(e) => {},
                Ok((condition, scope1, parser1)) => {
                    lemma_resolve_expr_steps(cond.arm_true, scope1, parser1);
                    match resolve_expr(cond.arm_true, scope1, parser1) {
                        Err(e) => {},
                        Ok((arm_true, scope2, parser2)) => {
                            lemma_stepped_chain(scope, parser, scope1, parser1, scope2, parser2);
                            match cond.arm_false {
                                None => {},
                                Some(otherwise) => {
                                    lemma_resolve_expr_steps(otherwise, scope2, parser2);
                                    match resolve_expr(otherwise, scope2, parser2) {
                                        Err(e) => {},
                                        Ok((arm_false, scope3, parser3)) => {
                                            lemma_stepped_chain(
                                                scope,
                                                parser,
                                                scope2,
                                                parser2,
                                                scope3,
                                                parser3,
                                            );
                                        },
                                    }
                                },
                            }
                        },
                    }
                },
            }
        },
    }
}

/// Once the body of a scope nested in `scope` is resolved and recorded,
/// `scope` has made a step.
pub proof fn lemma_child_finished_steps(
    scope: ParserScopeView,
    parser: ParserView,
    child: ParserScopeView,
    after: ParserView,
)
    requires
        coherent(scope, parser),
        parser.can_issue(),
        child.current.scope_id == parser.issued(),
        body_recorded(child, parser.advanced(), after),
    ensures
        stepped(scope, parser, scope, after),
{
    lemma_grown_into_itself(scope);
    let levels = open_scopes(scope);
    assert forall|k: int| 0 <= k < levels.len() implies (#[trigger] levels[k]).scope_id.0
        < after.next_id by {
        assert(levels[k].scope_id.0 < parser.next_id);
    }
    assert forall|id: Id| #[trigger] parser.scopes.contains_key(id) implies after.scopes.contains_key(
        id,
    ) && after.scopes[id] == parser.scopes[id] by {
        assert(parser.advanced().scopes.contains_key(id));
    }
    assert forall|id: Id| #[trigger]
        after.scopes.contains_key(id) && !parser.scopes.contains_key(id) implies parser.next_id
        <= id.0 by {
        assert(!parser.advanced().scopes.contains_key(id));
    }
}

/// Resolving a run of expressions is a step.
pub proof fn lemma_resolve_exprs_steps(
    expressions: Seq<syntax_tree::Expr>,
    scope: ParserScopeView,
    parser: ParserView,
)
    requires
        coherent(scope, parser),
    ensures
        resolve_exprs(expressions, scope, parser) matches Ok((_, later, after)) ==> stepped(
            scope,
            parser,
            later,
            after,
        ),
    decreases expressions, 0int,
{
    if expressions.len() == 0 {
        lemma_stepped_nowhere(scope, parser);
    } else {
        lemma_resolve_exprs_steps(expressions.drop_last(), scope, parser);
        match resolve_exprs(expressions.drop_last(), scope, parser) {
            Err(e) => {},
            Ok((resolved, scope1, parser1)) => {
                lemma_resolve_expr_steps(expressions.last(), scope1, parser1);
                match resolve_expr(expressions.last(), scope1, parser1) {
                    Err(e) => {},
                    Ok((last, scope2, parser2)) => {
                        lemma_stepped_chain(scope, parser, scope1, parser1, scope2, parser2);
                    },
                }
            },
        }
    }
}

/// Resolving the body of an open scope records the scope and keeps what was
/// recorded.
pub proof fn lemma_resolve_scope_steps(
    instructions: Seq<syntax_tree::Expr>,
    scope: ParserScopeView,
    parser: ParserView,
)
    requires
        coherent(scope, parser),
        !parser.scopes.contains_key(scope.current.scope_id),
    ensures
        resolve_scope(instructions, scope, parser) matches Ok(after) ==> body_recorded(
            scope,
            parser,
            after,
        ),
    decreases instructions, 1int,
{
    lemma_resolve_exprs_steps(instructions, scope, parser);
    match resolve_exprs(instructions, scope, parser) {
        Err(e) => {},
        Ok((expressions, later, parser1)) => {
            let id = scope.current.scope_id;
            let after = parser1.recorded(later.finished(expressions));
            let levels = open_scopes(later);
            assert(levels[levels.len() - 1].scope_id == id);
            assert(id.0 < parser1.next_id);
            assert(!parser1.scopes.contains_key(id)) by {
                if parser1.scopes.contains_key(id) {
                    assert(parser.next_id <= id.0);
                    let before = open_scopes(scope);
                    assert(before[before.len() - 1].scope_id.0 < parser.next_id);
                }
            }
            assert forall|other: Id| #[trigger]
                after.scopes.contains_key(other) implies other.0 < after.next_id
                && after.scopes[other].scope_id == other by {
                if other != id {
                    assert(parser1.scopes.contains_key(other));
                }
            }
            assert forall|other: Id| #[trigger]
                after.scopes.contains_key(other) && !parser.scopes.contains_key(
                    other,
                ) implies other == id || parser.next_id <= other.0 by {
                if other != id {
                    assert(parser1.scopes.contains_key(other));
                }
            }
        },
    }
}

/// Declaring names is a step that records nothing.
pub proof fn lemma_declare_all_steps(names: Seq<String>, scope: ParserScopeView, parser: ParserView)
    requires
        coherent(scope, parser),
    ensures
        declare_all(names, scope, parser) matches Ok((_, later, after)) ==> stepped(
            scope,
            parser,
            later,
            after,
        ) && after.scopes == parser.scopes,
    decreases names.len(),
{
    if names.len() == 0 {
        lemma_stepped_nowhere(scope, parser);
    } else {
        lemma_declare_all_steps(names.drop_last(), scope, parser);
        match declare_all(names.drop_last(), scope, parser) {
            Err(e) => {},
            Ok((ids, scope1, parser1)) => {
                if parser1.can_issue() {
                    lemma_stepped_declare(scope1, parser1, names.last()@);
                    lemma_stepped_chain(
                        scope,
                        parser,
                        scope1,
                        parser1,
                        scope1.declare(names.last()@, parser1.issued()),
                        parser1.advanced(),
                    );
                }
            },
        }
    }
}

/// What covers a state covers every state that stepped to it.
pub proof fn lemma_covers_earlier(
    scopes: Map<Id, ScopeView>,
    scope: ParserScopeView,
    parser: ParserView,
    later: ParserScopeView,
    after: ParserView,
)
    requires
        stepped(scope, parser, later, after),
        covers(scopes, later, after),
    ensures
        covers(scopes, scope, parser),
{
    reveal(around);
    let levels = open_scopes(scope);
    let grown = open_scopes(later);
    assert forall|k: int| 0 <= k < levels.len() implies scopes.contains_key(
        (#[trigger] levels[k]).scope_id,
    ) && scopes[levels[k].scope_id].parent_scope_id == around(levels, k) && forall|b: int|
        0 <= b < levels[k].bindings.len() ==> scopes[levels[k].scope_id].local_variables.contains(
             (#[trigger] levels[k].bindings[b]).1) by {
        assert(grown[k].scope_id == levels[k].scope_id);
        if k > 0 {
            assert(grown[k - 1].scope_id == levels[k - 1].scope_id);
        }
        assert forall|b: int| 0 <= b < levels[k].bindings.len() implies scopes[levels[k].scope_id].local_variables.contains(
             (#[trigger] levels[k].bindings[b]).1) by {
            if k < levels.len() - 1 {
                assert(grown[k] == levels[k]);
            } else {
                assert(later.current.bindings.take(scope.current.bindings.len() as int)[b]
                    == later.current.bindings[b]);
                assert(grown[k].bindings[b] == levels[k].bindings[b]);
            }
        }
    }
}

/// A name that is found among declarations is found at one of them.
pub proof fn lemma_found_is_bound(bindings: Seq<(Seq<char>, Id)>, name: Seq<char>)
    ensures
        find_in_level(bindings, name) matches Some(id) ==> exists|b: int|
            0 <= b < bindings.len() && (#[trigger] bindings[b]).1 == id,
    decreases bindings.len(),
{
    if bindings.len() > 0 {
        if bindings.last().0 == name {
            assert(bindings[bindings.len() - 1].1 == bindings.last().1);
        } else {
            lemma_found_is_bound(bindings.drop_last(), name);
            if let Some(id) = find_in_level(bindings.drop_last(), name) {
                let b = choose|b: int|
                    0 <= b < bindings.drop_last().len() && (#[trigger] bindings.drop_last()[b]).1
                        == id;
                assert(bindings[b].1 == id);
            }
        }
    }
}

/// A variable that an open scope has declared is declared, in what covers the
/// open scopes, by that scope and for every scope opened in it.
pub proof fn lemma_declares_from_level(
    scopes: Map<Id, ScopeView>,
    levels: Seq<LevelView>,
    k: int,
    n: int,
    variable: Id,
)
    requires
        covers_open(scopes, levels),
        forall|i: int, j: int|
            0 <= i < j < levels.len() ==> (#[trigger] levels[i]).scope_id.0 < (
            #[trigger] levels[j]).scope_id.0,
        0 <= k <= n < levels.len(),
        scopes[levels[k].scope_id].local_variables.contains(variable),
    ensures
        declares(scopes, levels[n].scope_id, variable),
    decreases n - k,
{
    reveal(around);
    if k < n {
        lemma_declares_from_level(scopes, levels, k, n - 1, variable);
        assert(scopes[levels[n].scope_id].parent_scope_id == Some(levels[n - 1].scope_id));
        assert(levels[n - 1].scope_id.0 < levels[n].scope_id.0);
    }
}

/// A name that is found in a chain of open scopes is declared by one of them.
pub proof fn lemma_found_in_chain(
    scopes: Map<Id, ScopeView>,
    levels: Seq<LevelView>,
    upto: int,
    name: Seq<char>,
)
    requires
        covers_open(scopes, levels),
        0 <= upto <= levels.len(),
    ensures
        find_in_chain(levels.take(upto), name) matches Some(id) ==> exists|k: int|
            0 <= k < upto && scopes[(#[trigger] levels[k]).scope_id].local_variables.contains(id),
    decreases upto,
{
    if upto > 0 {
        let part = levels.take(upto);
        assert(part.last() == levels[upto - 1]);
        assert(part.drop_last() == levels.take(upto - 1));
        match find_in_level(part.last().bindings, name) {
            Some(id) => {
                lemma_found_is_bound(part.last().bindings, name);
                let b = choose|b: int|
                    0 <= b < part.last().bindings.len() && (#[trigger] part.last().bindings[b]).1
                        == id;
                assert(scopes[levels[upto - 1].scope_id].local_variables.contains(
                    levels[upto - 1].bindings[b].1,
                ));
            },
            None => {
                lemma_found_in_chain(scopes, levels, upto - 1, name);
                if let Some(id) = find_in_chain(levels.take(upto - 1), name) {
                    let k = choose|k: int|
                        0 <= k < upto - 1 && scopes[(
                        #[trigger] levels[k]).scope_id].local_variables.contains(id);
                    assert(scopes[levels[k].scope_id].local_variables.contains(id));
                }
            },
        }
    }
}

/// A name that resolves in a scope resolves to a variable that the scope or a
/// scope around it declares.
pub proof fn lemma_lookup_declares(
    scopes: Map<Id, ScopeView>,
    scope: ParserScopeView,
    parser: ParserView,
    name: Seq<char>,
)
    requires
        coherent(scope, parser),
        covers(scopes, scope, parser),
    ensures
        scope.lookup(name) matches Some(id) ==> declares(scopes, scope.current.scope_id, id),
{
    let levels = open_scopes(scope);
    let n = levels.len() - 1;
    assert(levels.take(levels.len() as int) == levels);
    assert(levels.drop_last() == scope.enclosing);
    assert(levels.last() == scope.current);
    lemma_found_in_chain(scopes, levels, levels.len() as int, name);
    if let Some(id) = scope.lookup(name) {
        assert(find_in_chain(levels, name) == Some(id));
        let k = choose|k: int|
            0 <= k < levels.len() && scopes[(#[trigger] levels[k]).scope_id].local_variables.contains(
                id,
            );
        lemma_declares_from_level(scopes, levels, k, n, id);
    }
}

/// Whether each scope that `after` holds and `parser` does not is well scoped
/// in `scopes`.
pub open spec fn news_scoped(scopes: Map<Id, ScopeView>, parser: ParserView, after: ParserView) -> bool {
    forall|id: Id| #[trigger]
        after.scopes.contains_key(id) && !parser.scopes.contains_key(id) ==> well_scoped_scope(
            scopes,
            id,
        )
}

/// The expression that an expression resolves to is well scoped in whatever
/// covers the state that the resolution leaves, and so is every scope
/// finished on the way.
pub proof fn lemma_resolve_expr_scoped(
    expression: syntax_tree::Expr,
    scope: ParserScopeView,
    parser: ParserView,
    scopes: Map<Id, ScopeView>,
)
    requires
        coherent(scope, parser),
        resolve_expr(expression, scope, parser) matches Ok((_, later, after)) && covers(
            scopes,
            later,
            after,
        ),
    ensures
        resolve_expr(expression, scope, parser) matches Ok((resolved, later, after))
            && well_scoped_expr(scopes, scope.current.scope_id, resolved) && news_scoped(
            scopes,
            parser,
            after,
        ),
    decreases expression, 0int,
{
    assert(expression == syntax_tree::expr_of(*expression.0));
    match *expression.0 {
        syntax_tree::ExprInner::Scope(block) => {
            lemma_coherent_child(scope, parser, scope.function_id, scope.loop_id);
            lemma_nested_scoped(
                block.instructions@,
                scope,
                parser,
                scope.child_common(parser.issued()),
                scopes,
            );
        },
        syntax_tree::ExprInner::Literal(literal) => {},
        syntax_tree::ExprInner::VarDef(definition) => {
            lemma_definition_scoped(definition, scope, parser, scopes);
        },
        syntax_tree::ExprInner::VarAssign(assignment) => {
            lemma_resolve_expr_steps(assignment.value, scope, parser);
            let (value, later, after) = resolve_expr(assignment.value, scope, parser)->Ok_0;
            lemma_resolve_expr_scoped(assignment.value, scope, parser, scopes);
            lemma_lookup_declares(scopes, later, after, assignment.name@);
        },
        syntax_tree::ExprInner::VarCall(call) => {
            lemma_lookup_declares(scopes, scope, parser, call.name@);
        },
        syntax_tree::ExprInner::FnDef(definition) => {
            lemma_function_scoped(definition, scope, parser, scopes);
        },
        syntax_tree::ExprInner::FnCall(call) => {
            lemma_resolve_exprs_steps(call.arguments@, scope, parser);
            let (arguments, later, after) = resolve_exprs(call.arguments@, scope, parser)->Ok_0;
            lemma_covers_earlier(scopes, scope, parser, later, after);
            lemma_lookup_declares(scopes, scope, parser, call.name@);
            lemma_resolve_exprs_scoped(call.arguments@, scope, parser, scopes);
        },
        syntax_tree::ExprInner::FnRet(ret) => {
            lemma_resolve_expr_steps(ret.value, scope, parser);
            let (value, later, after) = resolve_expr(ret.value, scope, parser)->Ok_0;
            lemma_resolve_expr_scoped(ret.value, scope, parser, scopes);
            lemma_target_is_covered(scopes, later, after);
        },
        syntax_tree::ExprInner::Loop(l) => {
            lemma_coherent_child(scope, parser, scope.function_id, Some(parser.issued()));
            lemma_nested_scoped(
                l.body.instructions@,
                scope,
                parser,
                scope.child_loop(parser.issued()),
                scopes,
            );
        },
        syntax_tree::ExprInner::LoopBr(br) => {
            lemma_resolve_expr_steps(br.value, scope, parser);
            let (value, later, after) = resolve_expr(br.value, scope, parser)->Ok_0;
            lemma_resolve_expr_scoped(br.value, scope, parser, scopes);
            lemma_target_is_covered(scopes, later, after);
        },
        syntax_tree::ExprInner::Cond(cond) => {
            lemma_condition_scoped(cond, scope, parser, scopes);
        },
    }
}

/// The body of a scope nested in `scope` is well scoped once it is resolved,
/// and so is every scope finished on the way.
pub proof fn lemma_nested_scoped(
    instructions: Seq<syntax_tree::Expr>,
    scope: ParserScopeView,
    parser: ParserView,
    child: ParserScopeView,
    scopes: Map<Id, ScopeView>,
)
    requires
        coherent(scope, parser),
        parser.can_issue(),
        coherent(child, parser.advanced()),
        child.enclosing == open_scopes(scope),
        child.current.scope_id == parser.issued(),
        resolve_scope(instructions, child, parser.advanced()) matches Ok(after) && covers(
            scopes,
            scope,
            after,
        ),
    ensures
        resolve_scope(instructions, child, parser.advanced()) matches Ok(after) && news_scoped(
            scopes,
            parser,
            after,
        ) && scopes.contains_key(parser.issued()),
    decreases instructions, 2int,
{
    let after = resolve_scope(instructions, child, parser.advanced())->Ok_0;
    if parser.scopes.contains_key(parser.issued()) {
        assert(parser.issued().0 < parser.next_id);
    }
    lemma_resolve_scope_steps(instructions, child, parser.advanced());
    lemma_resolve_scope_scoped(instructions, child, parser.advanced(), scopes);
    assert(after.scopes.contains_key(parser.issued()));
}

/// The declaration that a declaration resolves to is well scoped.
pub proof fn lemma_definition_scoped(
    definition: syntax_tree::VarDef,
    scope: ParserScopeView,
    parser: ParserView,
    scopes: Map<Id, ScopeView>,
)
    requires
        coherent(scope, parser),
        resolve_expr(
            syntax_tree::expr_of(syntax_tree::ExprInner::VarDef(definition)),
            scope,
            parser,
        ) matches Ok((_, later, after)) && covers(scopes, later, after),
    ensures
        resolve_expr(
            syntax_tree::expr_of(syntax_tree::ExprInner::VarDef(definition)),
            scope,
            parser,
        ) matches Ok((resolved, later, after)) && well_scoped_expr(
            scopes,
            scope.current.scope_id,
            resolved,
        ) && news_scoped(scopes, parser, after),
    decreases definition, 0int,
{
    let home = scope.current.scope_id;
    let (value, scope1, parser1) = resolve_expr(definition.value, scope, parser)->Ok_0;
    let later = scope1.declare(definition.name@, parser1.issued());
    let after = parser1.advanced();
    lemma_resolve_expr_steps(definition.value, scope, parser);
    lemma_stepped_declare(scope1, parser1, definition.name@);
    lemma_covers_earlier(scopes, scope1, parser1, later, after);
    lemma_resolve_expr_scoped(definition.value, scope, parser, scopes);
    let levels = open_scopes(later);
    let n = levels.len() - 1;
    let b = later.current.bindings.len() - 1;
    assert(levels[n].bindings[b].1 == parser1.issued());
    assert(scopes[levels[n].scope_id].local_variables.contains(levels[n].bindings[b].1));
    assert(levels[n].scope_id == home);
    assert(declares(scopes, home, parser1.issued()));
}

/// The function literal that a function literal resolves to is well scoped,
/// and so are the scope of its body and every scope finished on the way.
pub proof fn lemma_function_scoped(
    definition: syntax_tree::FnDef,
    scope: ParserScopeView,
    parser: ParserView,
    scopes: Map<Id, ScopeView>,
)
    requires
        coherent(scope, parser),
        resolve_expr(
            syntax_tree::expr_of(syntax_tree::ExprInner::FnDef(definition)),
            scope,
            parser,
        ) matches Ok((_, later, after)) && covers(scopes, later, after),
    ensures
        resolve_expr(
            syntax_tree::expr_of(syntax_tree::ExprInner::FnDef(definition)),
            scope,
            parser,
        ) matches Ok((resolved, later, after)) && well_scoped_expr(
            scopes,
            scope.current.scope_id,
            resolved,
        ) && news_scoped(scopes, parser, after),
    decreases definition, 0int,
{
    let id = parser.issued();
    let child = scope.child_function(id);
    lemma_coherent_child(scope, parser, Some(id), None);
    lemma_declare_all_steps(definition.parameter_names@, child, parser.advanced());
    let (parameter_ids, body_scope, parser1) = declare_all(
        definition.parameter_names@,
        child,
        parser.advanced(),
    )->Ok_0;
    let after = resolve_scope(definition.body.instructions@, body_scope, parser1)->Ok_0;
    lemma_resolve_scope_steps(definition.body.instructions@, body_scope, parser1);
    lemma_resolve_scope_scoped(definition.body.instructions@, body_scope, parser1, scopes);
    lemma_declared_are_bound(definition.parameter_names@, child, parser.advanced());
    lemma_resolve_exprs_grows(definition.body.instructions@, body_scope, parser1);
    let (expressions, body_later, parser2) = resolve_exprs(
        definition.body.instructions@,
        body_scope,
        parser1,
    )->Ok_0;
    let record = body_later.finished(expressions);
    assert(after.scopes.contains_key(id));
    assert(after.scopes[id] == record);
    assert(scopes[id] == record);
    assert forall|i: int| 0 <= i < parameter_ids.len() implies scopes[id].local_variables.contains(
         #[trigger] parameter_ids[i]) by {
        let b = choose|b: int|
            0 <= b < ids_of(body_scope.current.bindings).len() && ids_of(
                body_scope.current.bindings,
            )[b] == parameter_ids[i];
        assert(body_later.current.bindings.take(body_scope.current.bindings.len() as int)[b]
            == body_later.current.bindings[b]);
        assert(record.local_variables[b] == parameter_ids[i]);
    }
}

/// The conditional that a conditional resolves to is well scoped, and so is
/// every scope finished on the way.
pub proof fn lemma_condition_scoped(
    cond: syntax_tree::Cond,
    scope: ParserScopeView,
    parser: ParserView,
    scopes: Map<Id, ScopeView>,
)
    requires
        coherent(scope, parser),
        resolve_expr(
            syntax_tree::expr_of(syntax_tree::ExprInner::Cond(cond)),
            scope,
            parser,
        ) matches Ok((_, later, after)) && covers(scopes, later, after),
    ensures
        resolve_expr(
            syntax_tree::expr_of(syntax_tree::ExprInner::Cond(cond)),
            scope,
            parser,
        ) matches Ok((resolved, later, after)) && well_scoped_expr(
            scopes,
            scope.current.scope_id,
            resolved,
        ) && news_scoped(scopes, parser, after),
    decreases cond, 0int,
{
    lemma_resolve_expr_steps(cond.condition, scope, parser);
    let (condition, scope1, parser1) = resolve_expr(cond.condition, scope, parser)->Ok_0;
    lemma_resolve_expr_steps(cond.arm_true, scope1, parser1);
    let (arm_true, scope2, parser2) = resolve_expr(cond.arm_true, scope1, parser1)->Ok_0;
    match cond.arm_false {
        None => {
            lemma_covers_earlier(scopes, scope1, parser1, scope2, parser2);
            lemma_resolve_expr_scoped(cond.condition, scope, parser, scopes);
            lemma_resolve_expr_scoped(cond.arm_true, scope1, parser1, scopes);
            lemma_news_chain(scopes, parser, parser1, parser2);
        },
        Some(otherwise) => {
            lemma_resolve_expr_steps(otherwise, scope2, parser2);
            let (arm_false, scope3, parser3) = resolve_expr(otherwise, scope2, parser2)->Ok_0;
            lemma_covers_earlier(scopes, scope2, parser2, scope3, parser3);
            lemma_covers_earlier(scopes, scope1, parser1, scope2, parser2);
            lemma_resolve_expr_scoped(cond.condition, scope, parser, scopes);
            lemma_resolve_expr_scoped(cond.arm_true, scope1, parser1, scopes);
            lemma_resolve_expr_scoped(otherwise, scope2, parser2, scopes);
            lemma_news_chain(scopes, parser, parser1, parser2);
            lemma_news_chain(scopes, parser, parser2, parser3);
        },
    }
}

/// What was finished in two steps was finished in one of them.
pub proof fn lemma_news_chain(
    scopes: Map<Id, ScopeView>,
    parser: ParserView,
    then: ParserView,
    last: ParserView,
)
    requires
        news_scoped(scopes, parser, then),
        news_scoped(scopes, then, last),
    ensures
        news_scoped(scopes, parser, last),
{
    assert forall|id: Id| #[trigger]
        last.scopes.contains_key(id) && !parser.scopes.contains_key(id) implies well_scoped_scope(
        scopes,
        id,
    ) by {
        if then.scopes.contains_key(id) {
        }
    }
}

/// An open scope lies within every scope that was opened before it and is
/// still open.
pub proof fn lemma_within_from_level(
    scopes: Map<Id, ScopeView>,
    levels: Seq<LevelView>,
    k: int,
    n: int,
)
    requires
        covers_open(scopes, levels),
        forall|i: int, j: int|
            0 <= i < j < levels.len() ==> (#[trigger] levels[i]).scope_id.0 < (
            #[trigger] levels[j]).scope_id.0,
        0 <= k <= n < levels.len(),
    ensures
        within(scopes, levels[n].scope_id, levels[k].scope_id),
    decreases n - k,
{
    reveal(around);
    if k < n {
        lemma_within_from_level(scopes, levels, k, n - 1);
        assert(scopes[levels[n].scope_id].parent_scope_id == Some(levels[n - 1].scope_id));
        assert(levels[n - 1].scope_id.0 < levels[n].scope_id.0);
        assert(levels[k].scope_id.0 < levels[n].scope_id.0);
    }
}

/// The targets of `return` and `break` in a scope are the scope or scopes
/// around it.
pub proof fn lemma_target_is_covered(
    scopes: Map<Id, ScopeView>,
    scope: ParserScopeView,
    parser: ParserView,
)
    requires
        coherent(scope, parser),
        covers(scopes, scope, parser),
    ensures
        scope.function_id matches Some(f) ==> within(scopes, scope.current.scope_id, f),
        scope.loop_id matches Some(l) ==> within(scopes, scope.current.scope_id, l),
{
    let levels = open_scopes(scope);
    let n = levels.len() - 1;
    assert(levels[n].scope_id == scope.current.scope_id);
    if let Some(f) = scope.function_id {
        let k = choose|k: int| 0 <= k < levels.len() && (#[trigger] levels[k]).scope_id == f;
        lemma_within_from_level(scopes, levels, k, n);
    }
    if let Some(l) = scope.loop_id {
        let k = choose|k: int| 0 <= k < levels.len() && (#[trigger] levels[k]).scope_id == l;
        lemma_within_from_level(scopes, levels, k, n);
    }
}

/// Each identifier that a run of declarations issued is declared by the scope
/// that the declarations leave.
pub proof fn lemma_declared_are_bound(names: Seq<String>, scope: ParserScopeView, parser: ParserView)
    ensures
        declare_all(names, scope, parser) matches Ok((ids, later, _)) ==> forall|i: int|
            0 <= i < ids.len() ==> ids_of(later.current.bindings).contains(#[trigger] ids[i]),
    decreases names.len(),
{
    if names.len() > 0 {
        lemma_declared_are_bound(names.drop_last(), scope, parser);
        match declare_all(names.drop_last(), scope, parser) {
            Err(e) => {},
            Ok((ids, scope1, parser1)) => {
                if parser1.can_issue() {
                    let id = parser1.issued();
                    let later = scope1.declare(names.last()@, id);
                    let all = ids.push(id);
                    assert forall|i: int| 0 <= i < all.len() implies ids_of(
                        later.current.bindings,
                    ).contains(#[trigger] all[i]) by {
                        if i < ids.len() {
                            let b = choose|b: int|
                                0 <= b < ids_of(scope1.current.bindings).len() && ids_of(
                                    scope1.current.bindings,
                                )[b] == ids[i];
                            assert(ids_of(later.current.bindings)[b] == all[i]);
                        } else {
                            assert(ids_of(later.current.bindings)[later.current.bindings.len() - 1]
                                == all[i]);
                        }
                    }
                }
            },
        }
    }
}

/// The expressions that a run of expressions resolves to are well scoped in
/// whatever covers the state that the resolution leaves, and so is every scope
/// finished on the way.
pub proof fn lemma_resolve_exprs_scoped(
    expressions: Seq<syntax_tree::Expr>,
    scope: ParserScopeView,
    parser: ParserView,
    scopes: Map<Id, ScopeView>,
)
    requires
        coherent(scope, parser),
        resolve_exprs(expressions, scope, parser) matches Ok((_, later, after)) && covers(
            scopes,
            later,
            after,
        ),
    ensures
        resolve_exprs(expressions, scope, parser) matches Ok((resolved, later, after))
            && news_scoped(scopes, parser, after) && forall|i: int|
            0 <= i < resolved.len() ==> well_scoped_expr(
                scopes,
                scope.current.scope_id,
                #[trigger] resolved[i],
            ),
    decreases expressions, 0int,
{
    if expressions.len() > 0 {
        let (before, scope1, parser1) = resolve_exprs(expressions.drop_last(), scope, parser)->Ok_0;
        let (last, later, after) = resolve_expr(expressions.last(), scope1, parser1)->Ok_0;
        lemma_resolve_exprs_steps(expressions.drop_last(), scope, parser);
        lemma_resolve_expr_steps(expressions.last(), scope1, parser1);
        lemma_covers_earlier(scopes, scope1, parser1, later, after);
        lemma_resolve_exprs_scoped(expressions.drop_last(), scope, parser, scopes);
        lemma_resolve_expr_scoped(expressions.last(), scope1, parser1, scopes);
        lemma_news_chain(scopes, parser, parser1, after);
        let resolved = before.push(last);
        assert forall|i: int| 0 <= i < resolved.len() implies well_scoped_expr(
            scopes,
            scope.current.scope_id,
            #[trigger] resolved[i],
        ) by {
            if i < before.len() {
                assert(resolved[i] == before[i]);
            }
        }
    }
}

/// The scope whose body is resolved is well scoped in whatever covers the
/// scopes around it and the scopes that are finished once it is, and so is
/// every scope finished on the way.
pub proof fn lemma_resolve_scope_scoped(
    instructions: Seq<syntax_tree::Expr>,
    scope: ParserScopeView,
    parser: ParserView,
    scopes: Map<Id, ScopeView>,
)
    requires
        coherent(scope, parser),
        !parser.scopes.contains_key(scope.current.scope_id),
        resolve_scope(instructions, scope, parser) matches Ok(after) && covers_finished(
            scopes,
            after,
        ),
        covers_open(scopes, scope.enclosing),
    ensures
        resolve_scope(instructions, scope, parser) matches Ok(after) && news_scoped(
            scopes,
            parser,
            after,
        ),
    decreases instructions, 1int,
{
    let id = scope.current.scope_id;
    let (expressions, later, parser1) = resolve_exprs(instructions, scope, parser)->Ok_0;
    let record = later.finished(expressions);
    let after = parser1.recorded(record);
    lemma_resolve_exprs_steps(instructions, scope, parser);
    lemma_resolve_scope_steps(instructions, scope, parser);
    assert(!parser1.scopes.contains_key(id)) by {
        if parser1.scopes.contains_key(id) {
            let before = open_scopes(scope);
            assert(before[before.len() - 1].scope_id.0 < parser.next_id);
        }
    }
    assert(scopes[id] == record);
    let levels = open_scopes(later);
    assert(covers(scopes, later, parser1)) by {
        reveal(around);
        assert forall|other: Id| #[trigger] parser1.scopes.contains_key(other) implies scopes.contains_key(
            other,
        ) && scopes[other] == parser1.scopes[other] by {
            assert(after.scopes.contains_key(other));
        }
        assert forall|k: int| 0 <= k < levels.len() implies scopes.contains_key(
            (#[trigger] levels[k]).scope_id,
        ) && scopes[levels[k].scope_id].parent_scope_id == around(levels, k) && forall|b: int|
            0 <= b < levels[k].bindings.len() ==> scopes[levels[k].scope_id].local_variables.contains(
             (#[trigger] levels[k].bindings[b]).1) by {
            if k < levels.len() - 1 {
                assert(levels[k] == scope.enclosing[k]);
                if k > 0 {
                    assert(levels[k - 1] == scope.enclosing[k - 1]);
                }
            } else {
                assert(after.scopes.contains_key(id));
                if k > 0 {
                    assert(levels[k - 1] == scope.enclosing[k - 1]);
                }
                assert forall|b: int| 0 <= b < levels[k].bindings.len() implies scopes[levels[k].scope_id].local_variables.contains(
             (#[trigger] levels[k].bindings[b]).1) by {
                    assert(record.local_variables[b] == levels[k].bindings[b].1);
                }
            }
        }
    }
    lemma_resolve_exprs_scoped(instructions, scope, parser, scopes);
    assert(well_scoped_scope(scopes, id)) by {
        reveal(around);
        if later.enclosing.len() > 0 {
            let n = levels.len() - 1;
            assert(levels[n - 1].scope_id.0 < levels[n].scope_id.0);
            assert(scopes.contains_key(levels[n - 1].scope_id));
        }
    }
}

/// Every identifier in a resolved program leads somewhere: each variable that
/// an expression reads, writes or calls is declared by the scope of the
/// expression or by a scope around it; each scope that an expression enters is
/// a scope of the program; each scope that a `return` or a `break` unwinds to
/// is the scope of the expression or a scope around it; each parameter of a
/// function literal is declared by the scope of the function's body; and each
/// scope but the main one lies in a scope of the program.
pub proof fn lemma_resolved_is_well_scoped(
    globals: Seq<(String, Value)>,
    instructions: Seq<syntax_tree::Expr>,
)
    ensures
        resolve_program(globals, instructions) matches Ok(program) ==> well_scoped(program),
{
    if let Ok(program) = resolve_program(globals, instructions) {
        let parser = ParserView::fresh();
        let root = ParserScopeView::root(parser.issued());
        let start = parser.advanced();
        let all = with_globals(globals, instructions);
        assert(coherent(root, start)) by {
            let levels = open_scopes(root);
            assert(levels.len() == 1);
        }
        assert(covers_open(program.scopes, root.enclosing));
        lemma_resolve_scope_steps(all, root, start);
        lemma_resolve_scope_scoped(all, root, start, program.scopes);
    }
}

} // verus!
