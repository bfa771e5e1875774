//! Unique numbering: every identifier of a resolved program names one thing.

use vstd::prelude::*;
use crate::execution_tree::{Id, ProgramView, ScopeView};
use crate::execution_tree::resolution::{
    declare_all,
    ids_of,
    resolve_expr,
    resolve_exprs,
    resolve_program,
    resolve_scope,
    with_globals,
    LevelView,
    ParserScopeView,
    ParserView,
};
use crate::execution_tree::scoping::{
    among,
    coherent,
    lemma_coherent_child,
    lemma_declare_all_steps,
    lemma_resolve_expr_steps,
    lemma_resolve_exprs_steps,
    lemma_stepped_declare,
    open_scopes,
};
use crate::syntax_tree;
use crate::value::Value;

verus! {

/// Whether each identifier in `declared`, the variables that each scope
/// declares, names one thing: it is declared once, in one scope, and is the
/// identifier of no scope. All identifiers are older than `next`.
pub open spec fn issued_once(declared: Map<Id, Seq<Id>>, next: int) -> bool {
    &&& forall|scope: Id| #[trigger] declared.contains_key(scope) ==> scope.0 < next
    &&& forall|scope: Id, i: int|
        declared.contains_key(scope) && 0 <= i < declared[scope].len() ==> (
        #[trigger] declared[scope][i]).0 < next
    &&& forall|scope: Id, i: int, other: Id|
        declared.contains_key(scope) && 0 <= i < declared[scope].len() && #[trigger]
        declared.contains_key(other) ==> #[trigger] declared[scope][i] != other
    &&& forall|scope: Id, i: int, other: Id, j: int|
        declared.contains_key(scope) && 0 <= i < declared[scope].len() && declared.contains_key(
            other,
        ) && 0 <= j < declared[other].len() && #[trigger] declared[scope][i]
            == #[trigger] declared[other][j] ==> scope == other && i == j
}

/// The variables that each scope of `scopes` declares.
pub open spec fn declared_by(scopes: Map<Id, ScopeView>) -> Map<Id, Seq<Id>> {
    Map::new(|id: Id| scopes.contains_key(id), |id: Id| scopes[id].local_variables)
}

/// Whether each identifier of `program` names one thing: one scope, or one
/// variable or parameter of one scope.
pub open spec fn well_numbered(program: ProgramView) -> bool {
    exists|next: int| issued_once(declared_by(program.scopes), next)
}

/// The variables that the open scope `scope_id` has declared.
pub open spec fn open_declared(levels: Seq<LevelView>, scope_id: Id) -> Seq<Id>
    decreases levels.len(),
{
    if levels.len() == 0 {
        Seq::empty()
    } else if levels.last().scope_id == scope_id {
        ids_of(levels.last().bindings)
    } else {
        open_declared(levels.drop_last(), scope_id)
    }
}

/// The variables that each scope, finished or open, has declared so far.
pub open spec fn census(levels: Seq<LevelView>, parser: ParserView) -> Map<Id, Seq<Id>> {
    Map::new(
        |id: Id| parser.scopes.contains_key(id) || among(levels, id),
        |id: Id|
            if parser.scopes.contains_key(id) {
                parser.scopes[id].local_variables
            } else {
                open_declared(levels, id)
            },
    )
}

/// What holds of the numbering between any two steps of a resolution: the
/// state is coherent, no open scope is finished, and each identifier in use
/// names one thing.
pub open spec fn numbered(scope: ParserScopeView, parser: ParserView) -> bool {
    &&& coherent(scope, parser)
    &&& forall|k: int|
        0 <= k < open_scopes(scope).len() ==> !parser.scopes.contains_key(
            (#[trigger] open_scopes(scope)[k]).scope_id,
        )
    &&& issued_once(census(open_scopes(scope), parser), parser.next_id as int)
}

/// What an open scope has declared is what its level holds.
pub proof fn lemma_open_declared_at(levels: Seq<LevelView>, k: int)
    requires
        0 <= k < levels.len(),
        forall|i: int, j: int|
            0 <= i < j < levels.len() ==> (#[trigger] levels[i]).scope_id.0 < (
            #[trigger] levels[j]).scope_id.0,
    ensures
        open_declared(levels, levels[k].scope_id) == ids_of(levels[k].bindings),
    decreases levels.len(),
{
    if k < levels.len() - 1 {
        assert(levels[k].scope_id.0 < levels[levels.len() - 1].scope_id.0);
        assert forall|i: int, j: int| 0 <= i < j < levels.drop_last().len() implies (
        #[trigger] levels.drop_last()[i]).scope_id.0 < (
        #[trigger] levels.drop_last()[j]).scope_id.0 by {
            assert(levels[i].scope_id.0 < levels[j].scope_id.0);
        }
        lemma_open_declared_at(levels.drop_last(), k);
    }
}

/// Declaring a name under the next identifier keeps the numbering.
pub proof fn lemma_numbered_declare(scope: ParserScopeView, parser: ParserView, name: Seq<char>)
    requires
        numbered(scope, parser),
        parser.can_issue(),
    ensures
        numbered(scope.declare(name, parser.issued()), parser.advanced()),
{
    let id = parser.issued();
    let later = scope.declare(name, id);
    let after = parser.advanced();
    lemma_stepped_declare(scope, parser, name);
    let levels = open_scopes(scope);
    let grown = open_scopes(later);
    let n = levels.len() - 1;
    let home = scope.current.scope_id;
    assert forall|k: int| 0 <= k < grown.len() implies (#[trigger] grown[k]).scope_id
        == levels[k].scope_id by {}
    assert forall|k: int| 0 <= k < grown.len() implies !after.scopes.contains_key(
        (#[trigger] grown[k]).scope_id,
    ) by {
        assert(!parser.scopes.contains_key(levels[k].scope_id));
    }
    let before = census(levels, parser);
    let now = census(grown, after);
    assert(among(levels, home)) by {
        assert(levels[n].scope_id == home);
    }
    assert forall|other: Id| among(grown, other) <==> among(levels, other) by {
        if among(grown, other) {
            let k = choose|k: int| 0 <= k < grown.len() && (#[trigger] grown[k]).scope_id == other;
            assert(levels[k].scope_id == other);
        }
        if among(levels, other) {
            let k = choose|k: int|
                0 <= k < levels.len() && (#[trigger] levels[k]).scope_id == other;
            assert(grown[k].scope_id == other);
        }
    }
    lemma_open_declared_at(levels, n);
    lemma_open_declared_at(grown, n);
    assert(ids_of(later.current.bindings) == ids_of(scope.current.bindings).push(id));
    assert forall|other: Id| now.contains_key(other) && other != home implies now[other]
        == before[other] by {
        if !parser.scopes.contains_key(other) {
            let k = choose|k: int|
                0 <= k < levels.len() && (#[trigger] levels[k]).scope_id == other;
            lemma_open_declared_at(levels, k);
            lemma_open_declared_at(grown, k);
            assert(grown[k] == levels[k]);
        }
    }
    assert(now =~= before.insert(home, before[home].push(id)));
    lemma_issued_once_push(before, parser.next_id as int, home);
}

/// Declaring the next identifier in one scope keeps each identifier naming
/// one thing.
pub proof fn lemma_issued_once_push(declared: Map<Id, Seq<Id>>, next: int, home: Id)
    requires
        issued_once(declared, next),
        declared.contains_key(home),
        0 <= next <= u64::MAX,
    ensures
        issued_once(declared.insert(home, declared[home].push(Id(next as u64))), next + 1),
{
    let id = Id(next as u64);
    let now = declared.insert(home, declared[home].push(id));
    {
        assert forall|scope: Id, i: int|
            now.contains_key(scope) && 0 <= i < now[scope].len() implies (
        #[trigger] now[scope][i]).0 < next + 1 by {
            if scope == home && i == declared[home].len() {
            } else {
                assert(declared[scope][i].0 < next);
            }
        }
        assert forall|scope: Id, i: int, other: Id|
            now.contains_key(scope) && 0 <= i < now[scope].len() && #[trigger] now.contains_key(
                other,
            ) implies #[trigger] now[scope][i] != other by {
            assert(declared.contains_key(other));
            if scope == home && i == declared[home].len() {
            } else {
                assert(declared[scope][i] != other);
            }
        }
        assert forall|scope: Id, i: int, other: Id, j: int|
            now.contains_key(scope) && 0 <= i < now[scope].len() && now.contains_key(other) && 0
                <= j < now[other].len() && #[trigger] now[scope][i]
                == #[trigger] now[other][j] implies scope == other && i == j by {
            let fresh_i = scope == home && i == declared[home].len();
            let fresh_j = other == home && j == declared[home].len();
            if !fresh_i {
                assert(declared[scope][i].0 < next);
            }
            if !fresh_j {
                assert(declared[other][j].0 < next);
            }
            if !fresh_i && !fresh_j {
                assert(declared[scope][i] == declared[other][j]);
            }
        }
    }
}


/// Opening a scope under the next identifier keeps the numbering.
pub proof fn lemma_numbered_child(
    scope: ParserScopeView,
    parser: ParserView,
    function_id: Option<Id>,
    loop_id: Option<Id>,
)
    requires
        numbered(scope, parser),
        parser.can_issue(),
        function_id == scope.function_id || function_id == Some(parser.issued()),
        loop_id == scope.loop_id || loop_id.is_none() || loop_id == Some(parser.issued()),
    ensures
        numbered(scope.child(parser.issued(), function_id, loop_id), parser.advanced()),
{
    let id = parser.issued();
    let child = scope.child(id, function_id, loop_id);
    let after = parser.advanced();
    lemma_coherent_child(scope, parser, function_id, loop_id);
    let levels = open_scopes(scope);
    let grown = open_scopes(child);
    assert(grown == levels.push(child.current));
    assert(grown.drop_last() == levels);
    assert forall|k: int| 0 <= k < grown.len() implies !after.scopes.contains_key(
        (#[trigger] grown[k]).scope_id,
    ) by {
        if k < levels.len() {
            assert(!parser.scopes.contains_key(levels[k].scope_id));
        }
    }
    let before = census(levels, parser);
    let now = census(grown, after);
    assert forall|other: Id| among(grown, other) <==> (among(levels, other) || other == id) by {
        if among(grown, other) {
            let k = choose|k: int| 0 <= k < grown.len() && (#[trigger] grown[k]).scope_id == other;
            if k < levels.len() {
                assert(levels[k].scope_id == other);
            }
        }
        if among(levels, other) {
            let k = choose|k: int|
                0 <= k < levels.len() && (#[trigger] levels[k]).scope_id == other;
            assert(grown[k].scope_id == other);
        }
        if other == id {
            assert(grown[grown.len() - 1].scope_id == other);
        }
    }
    assert(!before.contains_key(id)) by {
        if parser.scopes.contains_key(id) {
            assert(id.0 < parser.next_id);
        }
        if among(levels, id) {
            let k = choose|k: int| 0 <= k < levels.len() && (#[trigger] levels[k]).scope_id == id;
            assert(levels[k].scope_id.0 < parser.next_id);
        }
    }
    assert(ids_of(child.current.bindings) == Seq::<Id>::empty());
    assert(now =~= before.insert(id, Seq::empty()));
    let next = parser.next_id as int;
    assert forall|scope: Id, i: int|
        now.contains_key(scope) && 0 <= i < now[scope].len() implies (#[trigger] now[scope][i]).0
        < next + 1 by {
        assert(before[scope][i].0 < next);
    }
    assert forall|scope: Id, i: int, other: Id|
        now.contains_key(scope) && 0 <= i < now[scope].len() && #[trigger] now.contains_key(
            other,
        ) implies #[trigger] now[scope][i] != other by {
        assert(before[scope][i].0 < next);
        if other != id {
            assert(before[scope][i] != other);
        }
    }
    assert forall|scope: Id, i: int, other: Id, j: int|
        now.contains_key(scope) && 0 <= i < now[scope].len() && now.contains_key(other) && 0 <= j
            < now[other].len() && #[trigger] now[scope][i]
            == #[trigger] now[other][j] implies scope == other && i == j by {
        assert(before[scope][i] == before[other][j]);
    }
}

/// Finishing a scope moves what it declared from the open scopes to the
/// finished ones, and changes nothing else.
pub proof fn lemma_census_finished(
    later: ParserScopeView,
    parser: ParserView,
    expressions: Seq<crate::execution_tree::ExprView>,
)
    requires
        numbered(later, parser),
    ensures
        census(later.enclosing, parser.recorded(later.finished(expressions))) == census(
            open_scopes(later),
            parser,
        ),
{
    let id = later.current.scope_id;
    let after = parser.recorded(later.finished(expressions));
    let levels = open_scopes(later);
    let n = levels.len() - 1;
    assert(levels.drop_last() == later.enclosing);
    assert(levels[n].scope_id == id);
    assert(!parser.scopes.contains_key(id));
    let left = census(later.enclosing, after);
    let right = census(levels, parser);
    assert forall|other: Id| left.contains_key(other) <==> right.contains_key(other) by {
        if among(later.enclosing, other) {
            let k = choose|k: int|
                0 <= k < later.enclosing.len() && (#[trigger] later.enclosing[k]).scope_id
                    == other;
            assert(levels[k].scope_id == other);
        }
        if among(levels, other) {
            let k = choose|k: int|
                0 <= k < levels.len() && (#[trigger] levels[k]).scope_id == other;
            if k < n {
                assert(later.enclosing[k].scope_id == other);
            }
        }
    }
    assert forall|other: Id| left.contains_key(other) implies left[other] == right[other] by {
        if other == id {
        } else if parser.scopes.contains_key(other) {
        } else {
            assert(among(later.enclosing, other));
        }
    }
    assert(left =~= right);
}

/// Once the body of a scope nested in `scope` is resolved and recorded, the
/// numbering is kept.
pub proof fn lemma_numbered_finished(
    scope: ParserScopeView,
    later: ParserScopeView,
    parser: ParserView,
    expressions: Seq<crate::execution_tree::ExprView>,
)
    requires
        numbered(later, parser),
        later.enclosing == open_scopes(scope),
        coherent(scope, parser.recorded(later.finished(expressions))),
    ensures
        numbered(scope, parser.recorded(later.finished(expressions))),
{
    let id = later.current.scope_id;
    let after = parser.recorded(later.finished(expressions));
    lemma_census_finished(later, parser, expressions);
    let levels = open_scopes(later);
    let n = levels.len() - 1;
    assert forall|k: int| 0 <= k < open_scopes(scope).len() implies !after.scopes.contains_key(
        (#[trigger] open_scopes(scope)[k]).scope_id,
    ) by {
        assert(levels[k] == open_scopes(scope)[k]);
        assert(!parser.scopes.contains_key(levels[k].scope_id));
        assert(levels[k].scope_id.0 < levels[n].scope_id.0);
    }
}

/// Resolving an expression keeps the numbering.
pub proof fn lemma_resolve_expr_numbered(
    expression: syntax_tree::Expr,
    scope: ParserScopeView,
    parser: ParserView,
)
    requires
        numbered(scope, parser),
    ensures
        resolve_expr(expression, scope, parser) matches Ok((_, later, after)) ==> numbered(
            later,
            after,
        ),
    decreases expression, 0int,
{
    match *expression.0 {
        syntax_tree::ExprInner::Scope(block) => {
            if parser.can_issue() {
                lemma_numbered_child(scope, parser, scope.function_id, scope.loop_id);
                lemma_resolve_scope_numbered(
                    block.instructions@,
                    scope,
                    scope.child_common(parser.issued()),
                    parser.advanced(),
                );
                lemma_resolve_expr_steps(expression, scope, parser);
            }
        },
        syntax_tree::ExprInner::Literal(literal) => {},
        syntax_tree::ExprInner::VarDef(definition) => {
            lemma_resolve_expr_numbered(definition.value, scope, parser);
            match resolve_expr(definition.value, scope, parser) {
                Err(e) => {},
                Ok((value, scope1, parser1)) => {
                    if parser1.can_issue() {
                        lemma_numbered_declare(scope1, parser1, definition.name@);
                    }
                },
            }
        },
        syntax_tree::ExprInner::VarAssign(assignment) => {
            lemma_resolve_expr_numbered(assignment.value, scope, parser);
        },
        syntax_tree::ExprInner::VarCall(call) => {},
        syntax_tree::ExprInner::FnDef(definition) => {
            if parser.can_issue() {
                let id = parser.issued();
                lemma_numbered_child(scope, parser, Some(id), None);
                let child = scope.child_function(id);
                lemma_declare_all_numbered(definition.parameter_names@, child, parser.advanced());
                lemma_declare_all_steps(definition.parameter_names@, child, parser.advanced());
                match declare_all(definition.parameter_names@, child, parser.advanced()) {
                    Err(e) => {},
                    Ok((parameter_ids, body_scope, parser1)) => {
                        lemma_resolve_scope_numbered(
                            definition.body.instructions@,
                            scope,
                            body_scope,
                            parser1,
                        );
                        lemma_resolve_expr_steps(expression, scope, parser);
                    },
                }
            }
        },
        syntax_tree::ExprInner::FnCall(call) => {
            lemma_resolve_exprs_numbered(call.arguments@, scope, parser);
        },
        syntax_tree::ExprInner::FnRet(ret) => {
            lemma_resolve_expr_numbered(ret.value, scope, parser);
        },
        syntax_tree::ExprInner::Loop(l) => {
            if parser.can_issue() {
                lemma_numbered_child(scope, parser, scope.function_id, Some(parser.issued()));
                lemma_resolve_scope_numbered(
                    l.body.instructions@,
                    scope,
                    scope.child_loop(parser.issued()),
                    parser.advanced(),
                );
                lemma_resolve_expr_steps(expression, scope, parser);
            }
        },
        syntax_tree::ExprInner::LoopBr(br) => {
            lemma_resolve_expr_numbered(br.value, scope, parser);
        },
        syntax_tree::ExprInner::Cond(cond) => {
            lemma_resolve_expr_numbered(cond.condition, scope, parser);
            match resolve_expr(cond.condition, scope, parser) {
                Err(e) => {},
                Ok((condition, scope1, parser1)) => {
                    lemma_resolve_expr_numbered(cond.arm_true, scope1, parser1);
                    match resolve_expr(cond.arm_true, scope1, parser1) {
                        Err(e) => {},
                        Ok((arm_true, scope2, parser2)) => {
                            match cond.arm_false {
                                None => {},
                                Some(otherwise) => {
                                    lemma_resolve_expr_numbered(otherwise, scope2, parser2);
                                },
                            }
                        },
                    }
                },
            }
        },
    }
}

/// Resolving a run of expressions keeps the numbering.
pub proof fn lemma_resolve_exprs_numbered(
    expressions: Seq<syntax_tree::Expr>,
    scope: ParserScopeView,
    parser: ParserView,
)
    requires
        numbered(scope, parser),
    ensures
        resolve_exprs(expressions, scope, parser) matches Ok((_, later, after)) ==> numbered(
            later,
            after,
        ),
    decreases expressions, 0int,
{
    if expressions.len() > 0 {
        lemma_resolve_exprs_numbered(expressions.drop_last(), scope, parser);
        match resolve_exprs(expressions.drop_last(), scope, parser) {
            Err(e) => {},
            Ok((resolved, scope1, parser1)) => {
                lemma_resolve_expr_numbered(expressions.last(), scope1, parser1);
            },
        }
    }
}

/// Resolving and recording the body of a scope nested in `scope` keeps the
/// numbering.
pub proof fn lemma_resolve_scope_numbered(
    instructions: Seq<syntax_tree::Expr>,
    scope: ParserScopeView,
    child: ParserScopeView,
    parser: ParserView,
)
    requires
        numbered(child, parser),
        child.enclosing == open_scopes(scope),
    ensures
        resolve_scope(instructions, child, parser) matches Ok(after) ==> (coherent(scope, after)
            ==> numbered(scope, after)),
    decreases instructions, 1int,
{
    lemma_resolve_exprs_numbered(instructions, child, parser);
    lemma_resolve_exprs_steps(instructions, child, parser);
    match resolve_exprs(instructions, child, parser) {
        Err(e) => {},
        Ok((expressions, later, parser1)) => {
            if coherent(scope, parser1.recorded(later.finished(expressions))) {
                lemma_numbered_finished(scope, later, parser1, expressions);
            }
        },
    }
}

/// Declaring names keeps the numbering.
pub proof fn lemma_declare_all_numbered(
    names: Seq<String>,
    scope: ParserScopeView,
    parser: ParserView,
)
    requires
        numbered(scope, parser),
    ensures
        declare_all(names, scope, parser) matches Ok((_, later, after)) ==> numbered(later, after),
    decreases names.len(),
{
    if names.len() > 0 {
        lemma_declare_all_numbered(names.drop_last(), scope, parser);
        match declare_all(names.drop_last(), scope, parser) {
            Err(e) => {},
            Ok((ids, scope1, parser1)) => {
                if parser1.can_issue() {
                    lemma_numbered_declare(scope1, parser1, names.last()@);
                }
            },
        }
    }
}

/// The numbering is kept where a resolution starts: at the open root scope,
/// with nothing finished.
pub proof fn lemma_root_numbered()
    ensures
        numbered(
            ParserScopeView::root(ParserView::fresh().issued()),
            ParserView::fresh().advanced(),
        ),
{
    let root = ParserScopeView::root(ParserView::fresh().issued());
    let start = ParserView::fresh().advanced();
    let levels = open_scopes(root);
    assert(levels.len() == 1);
    assert(coherent(root, start));
    assert(ids_of(root.current.bindings) == Seq::<Id>::empty());
    let now = census(levels, start);
    assert forall|scope: Id| #[trigger] now.contains_key(scope) implies scope == Id(0) by {
        let k = choose|k: int| 0 <= k < levels.len() && (#[trigger] levels[k]).scope_id == scope;
    }
    assert forall|scope: Id| #[trigger] now.contains_key(scope) implies now[scope].len() == 0 by {}
}

/// Every identifier of a resolved program names one thing: no two scopes have
/// the same identifier, no scope declares a variable or a parameter twice,
/// no two scopes declare the same one, and none has the identifier of a
/// scope.
pub proof fn lemma_resolved_is_well_numbered(
    globals: Seq<(String, Value)>,
    instructions: Seq<syntax_tree::Expr>,
)
    ensures
        resolve_program(globals, instructions) matches Ok(program) ==> well_numbered(program),
{
    if let Ok(program) = resolve_program(globals, instructions) {
        let parser = ParserView::fresh();
        let root = ParserScopeView::root(parser.issued());
        let start = parser.advanced();
        let all = with_globals(globals, instructions);
        lemma_root_numbered();
        lemma_resolve_exprs_numbered(all, root, start);
        let (expressions, later, parser1) = resolve_exprs(all, root, start)->Ok_0;
        lemma_census_finished(later, parser1, expressions);
        lemma_resolve_exprs_steps(all, root, start);
        let after = parser1.recorded(later.finished(expressions));
        assert(later.enclosing == Seq::<LevelView>::empty());
        assert(census(later.enclosing, after) =~= declared_by(program.scopes)) by {
            assert forall|id: Id| !among(later.enclosing, id) by {}
        }
    }
}

} // verus!
