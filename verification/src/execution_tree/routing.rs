//! Routing: every `return` of a resolved program targets the function around
//! it, and every `break` the loop around it.

use vstd::prelude::*;
use crate::execution_tree::{ExprView, Id, ProgramView, ScopeView};
use crate::execution_tree::numbering::{
    lemma_declare_all_numbered,
    lemma_numbered_child,
    lemma_resolve_expr_numbered,
    lemma_resolve_exprs_numbered,
    numbered,
};
use crate::execution_tree::resolution::{
    declare_all,
    global_definition,
    lemma_declare_all_grows,
    lemma_resolve_expr_grows,
    lemma_resolve_exprs_grows,
    resolve_expr,
    resolve_exprs,
    resolve_program,
    resolve_scope,
    with_globals,
    ParserScopeView,
    ParserView,
};
use crate::execution_tree::scoping::open_scopes;
use crate::syntax_tree;
use crate::syntax_tree::{plain_all, plain_ast};
use crate::value::{plain, Value};

verus! {

/// Where `return` and `break` lead from a place of a program.
pub struct Targets {
    /// The body of the function around the place: the scope that a `return`
    /// unwinds to.
    pub function: Option<Id>,
    /// The body of the loop around the place, inside that function: the scope
    /// that a `break` unwinds to.
    pub in_loop: Option<Id>,
}

/// Where `return` and `break` lead from a scope under resolution.
pub open spec fn targets_of(scope: ParserScopeView) -> Targets {
    Targets { function: scope.function_id, in_loop: scope.loop_id }
}

/// Whether every `return` and `break` in `expression`, which stands at a place
/// from which they lead to `here`, targets where they lead; every scope that
/// the expression opens is labelled in `labels` with where they lead from
/// inside it: a block with `here`, the body of a loop with itself for
/// `break`, the body of a function with itself for `return` and nothing for
/// `break`; and every literal is no function defined in the language.
pub open spec fn routed_expr(labels: Map<Id, Targets>, here: Targets, expression: ExprView) -> bool
    decreases expression,
{
    match expression {
        ExprView::Scope(scope_id) => labels.contains_key(scope_id) && labels[scope_id] == here,
        ExprView::Literal(value) => plain(value),
        ExprView::VarDef { variable_id, value } => routed_expr(labels, here, *value),
        ExprView::VarAssign { variable_id, value } => routed_expr(labels, here, *value),
        ExprView::VarCall { variable_id } => true,
        ExprView::FnDef { parameter_ids, body_scope_id } => labels.contains_key(body_scope_id)
            && labels[body_scope_id] == (Targets {
            function: Some(body_scope_id),
            in_loop: None,
        }),
        ExprView::FnCall { variable_id, arguments } => forall|i: int|
            0 <= i < arguments.len() ==> routed_expr(labels, here, #[trigger] arguments[i]),
        ExprView::FnRet { value, function_scope_id } => here.function == Some(function_scope_id)
            && routed_expr(labels, here, *value),
        ExprView::Loop { body_scope_id } => labels.contains_key(body_scope_id)
            && labels[body_scope_id] == (Targets {
            function: here.function,
            in_loop: Some(body_scope_id),
        }),
        ExprView::LoopBr { value, loop_scope_id } => here.in_loop == Some(loop_scope_id)
            && routed_expr(labels, here, *value),
        ExprView::Cond { condition, arm_true, arm_false } => routed_expr(labels, here, *condition)
            && routed_expr(labels, here, *arm_true) && match arm_false {
            Some(otherwise) => routed_expr(labels, here, *otherwise),
            None => true,
        },
    }
}

/// Whether `labels` labels the scopes of `scopes`, and every statement of
/// every scope is routed from where its scope's label says.
pub open spec fn labeled(labels: Map<Id, Targets>, scopes: Map<Id, ScopeView>) -> bool {
    &&& forall|id: Id| #[trigger] labels.contains_key(id) <==> scopes.contains_key(id)
    &&& forall|id: Id, i: int|
        scopes.contains_key(id) && 0 <= i < scopes[id].expressions.len() ==> routed_expr(
            labels,
            labels[id],
            #[trigger] scopes[id].expressions[i],
        )
}

/// Whether `labels` routes `program`: it labels its scopes, the main scope as
/// one that lies in no function and no loop.
pub open spec fn routed(program: ProgramView, labels: Map<Id, Targets>) -> bool {
    &&& labeled(labels, program.scopes)
    &&& program.scopes.contains_key(program.main_scope_id)
    &&& labels[program.main_scope_id] == (Targets { function: None, in_loop: None })
}

/// Whether the scopes of `program` can be labelled so that every `return`
/// targets the body of the function around it and every `break` the body of
/// the loop around it in that function, and neither stands outside of one.
pub open spec fn well_routed(program: ProgramView) -> bool {
    exists|labels: Map<Id, Targets>| routed(program, labels)
}

/// Whether `grown` holds every label of `labels`.
pub open spec fn extends(labels: Map<Id, Targets>, grown: Map<Id, Targets>) -> bool {
    forall|id: Id| #[trigger]
        labels.contains_key(id) ==> grown.contains_key(id) && grown[id] == labels[id]
}

/// What is routed stays routed when labels are added.
pub proof fn lemma_routed_in_more(
    labels: Map<Id, Targets>,
    grown: Map<Id, Targets>,
    here: Targets,
    expression: ExprView,
)
    requires
        extends(labels, grown),
        routed_expr(labels, here, expression),
    ensures
        routed_expr(grown, here, expression),
    decreases expression,
{
    match expression {
        ExprView::VarDef { variable_id, value } => {
            lemma_routed_in_more(labels, grown, here, *value);
        },
        ExprView::VarAssign { variable_id, value } => {
            lemma_routed_in_more(labels, grown, here, *value);
        },
        ExprView::FnCall { variable_id, arguments } => {
            assert forall|i: int| 0 <= i < arguments.len() implies routed_expr(
                grown,
                here,
                #[trigger] arguments[i],
            ) by {
                lemma_routed_in_more(labels, grown, here, arguments[i]);
            }
        },
        ExprView::FnRet { value, function_scope_id } => {
            lemma_routed_in_more(labels, grown, here, *value);
        },
        ExprView::LoopBr { value, loop_scope_id } => {
            lemma_routed_in_more(labels, grown, here, *value);
        },
        ExprView::Cond { condition, arm_true, arm_false } => {
            lemma_routed_in_more(labels, grown, here, *condition);
            lemma_routed_in_more(labels, grown, here, *arm_true);
            match arm_false {
                Some(otherwise) => {
                    lemma_routed_in_more(labels, grown, here, *otherwise);
                },
                None => {},
            }
        },
        _ => {},
    }
}

/// What is labelled stays labelled when a scope is recorded whose statements
/// are routed from where its own label says.
pub proof fn lemma_labeled_recorded(
    labels: Map<Id, Targets>,
    scopes: Map<Id, ScopeView>,
    record: ScopeView,
    here: Targets,
)
    requires
        labeled(labels, scopes),
        !scopes.contains_key(record.scope_id),
        forall|i: int|
            0 <= i < record.expressions.len() ==> routed_expr(
                labels,
                here,
                #[trigger] record.expressions[i],
            ),
    ensures
        labeled(labels.insert(record.scope_id, here), scopes.insert(record.scope_id, record)),
        extends(labels, labels.insert(record.scope_id, here)),
{
    let grown = labels.insert(record.scope_id, here);
    let recorded = scopes.insert(record.scope_id, record);
    assert(extends(labels, grown));
    assert forall|id: Id, i: int|
        recorded.contains_key(id) && 0 <= i < recorded[id].expressions.len() implies routed_expr(
        grown,
        grown[id],
        #[trigger] recorded[id].expressions[i],
    ) by {
        if id == record.scope_id {
            lemma_routed_in_more(labels, grown, here, record.expressions[i]);
        } else {
            lemma_routed_in_more(labels, grown, labels[id], scopes[id].expressions[i]);
        }
    }
}

/// Extending labels twice extends them.
pub proof fn lemma_extends_chain(
    first: Map<Id, Targets>,
    second: Map<Id, Targets>,
    third: Map<Id, Targets>,
)
    requires
        extends(first, second),
        extends(second, third),
    ensures
        extends(first, third),
{
    assert forall|id: Id| #[trigger] first.contains_key(id) implies third.contains_key(id)
        && third[id] == first[id] by {
        assert(second.contains_key(id));
    }
}

/// The expression that an expression resolves to is routed from where
/// `return` and `break` lead in its scope, once the scopes finished on the
/// way are labelled. Returns the labels with those of these scopes.
pub proof fn lemma_resolve_expr_routed(
    expression: syntax_tree::Expr,
    scope: ParserScopeView,
    parser: ParserView,
    labels: Map<Id, Targets>,
) -> (grown: Map<Id, Targets>)
    requires
        numbered(scope, parser),
        labeled(labels, parser.scopes),
        plain_ast(expression),
        resolve_expr(expression, scope, parser) is Ok,
    ensures
        resolve_expr(expression, scope, parser) matches Ok((resolved, later, after)) && labeled(
            grown,
            after.scopes,
        ) && extends(labels, grown) && routed_expr(grown, targets_of(scope), resolved),
    decreases expression, 0int,
{
    assert(expression == syntax_tree::expr_of(*expression.0));
    match *expression.0 {
        syntax_tree::ExprInner::Scope(block) => {
            lemma_numbered_child(scope, parser, scope.function_id, scope.loop_id);
            lemma_resolve_scope_routed(
                block.instructions@,
                scope.child_common(parser.issued()),
                parser.advanced(),
                labels,
            )
        },
        syntax_tree::ExprInner::Literal(literal) => labels,
        syntax_tree::ExprInner::VarDef(definition) => {
            lemma_resolve_expr_grows(definition.value, scope, parser);
            lemma_resolve_expr_routed(definition.value, scope, parser, labels)
        },
        syntax_tree::ExprInner::VarAssign(assignment) => {
            lemma_resolve_expr_grows(assignment.value, scope, parser);
            lemma_resolve_expr_routed(assignment.value, scope, parser, labels)
        },
        syntax_tree::ExprInner::VarCall(call) => labels,
        syntax_tree::ExprInner::FnDef(definition) => {
            let id = parser.issued();
            lemma_numbered_child(scope, parser, Some(id), None);
            let child = scope.child_function(id);
            lemma_declare_all_numbered(definition.parameter_names@, child, parser.advanced());
            lemma_declare_all_grows(definition.parameter_names@, child, parser.advanced());
            let (parameter_ids, body_scope, parser1) = declare_all(
                definition.parameter_names@,
                child,
                parser.advanced(),
            )->Ok_0;
            lemma_resolve_scope_routed(definition.body.instructions@, body_scope, parser1, labels)
        },
        syntax_tree::ExprInner::FnCall(call) => {
            lemma_resolve_exprs_grows(call.arguments@, scope, parser);
            lemma_resolve_exprs_routed(call.arguments@, scope, parser, labels)
        },
        syntax_tree::ExprInner::FnRet(ret) => {
            lemma_resolve_expr_grows(ret.value, scope, parser);
            lemma_resolve_expr_routed(ret.value, scope, parser, labels)
        },
        syntax_tree::ExprInner::Loop(l) => {
            lemma_numbered_child(scope, parser, scope.function_id, Some(parser.issued()));
            lemma_resolve_scope_routed(
                l.body.instructions@,
                scope.child_loop(parser.issued()),
                parser.advanced(),
                labels,
            )
        },
        syntax_tree::ExprInner::LoopBr(br) => {
            lemma_resolve_expr_grows(br.value, scope, parser);
            lemma_resolve_expr_routed(br.value, scope, parser, labels)
        },
        syntax_tree::ExprInner::Cond(cond) => {
            lemma_condition_routed(cond, scope, parser, labels)
        },
    }
}

/// The conditional that a conditional resolves to is routed.
pub proof fn lemma_condition_routed(
    cond: syntax_tree::Cond,
    scope: ParserScopeView,
    parser: ParserView,
    labels: Map<Id, Targets>,
) -> (grown: Map<Id, Targets>)
    requires
        numbered(scope, parser),
        labeled(labels, parser.scopes),
        plain_ast(syntax_tree::expr_of(syntax_tree::ExprInner::Cond(cond))),
        resolve_expr(syntax_tree::expr_of(syntax_tree::ExprInner::Cond(cond)), scope, parser) is Ok,
    ensures
        resolve_expr(
            syntax_tree::expr_of(syntax_tree::ExprInner::Cond(cond)),
            scope,
            parser,
        ) matches Ok((resolved, later, after)) && labeled(grown, after.scopes) && extends(
            labels,
            grown,
        ) && routed_expr(grown, targets_of(scope), resolved),
    decreases cond, 0int,
{
    let here = targets_of(scope);
    let (condition, scope1, parser1) = resolve_expr(cond.condition, scope, parser)->Ok_0;
    let (arm_true, scope2, parser2) = resolve_expr(cond.arm_true, scope1, parser1)->Ok_0;
    lemma_resolve_expr_grows(cond.condition, scope, parser);
    lemma_resolve_expr_grows(cond.arm_true, scope1, parser1);
    lemma_resolve_expr_numbered(cond.condition, scope, parser);
    lemma_resolve_expr_numbered(cond.arm_true, scope1, parser1);
    let first = lemma_resolve_expr_routed(cond.condition, scope, parser, labels);
    let second = lemma_resolve_expr_routed(cond.arm_true, scope1, parser1, first);
    lemma_extends_chain(labels, first, second);
    lemma_routed_in_more(first, second, here, condition);
    match cond.arm_false {
        None => second,
        Some(otherwise) => {
            let (arm_false, scope3, parser3) = resolve_expr(otherwise, scope2, parser2)->Ok_0;
            let third = lemma_resolve_expr_routed(otherwise, scope2, parser2, second);
            lemma_extends_chain(labels, second, third);
            lemma_routed_in_more(second, third, here, condition);
            lemma_routed_in_more(second, third, here, arm_true);
            third
        },
    }
}

/// The expressions that a run of expressions resolves to are routed.
pub proof fn lemma_resolve_exprs_routed(
    expressions: Seq<syntax_tree::Expr>,
    scope: ParserScopeView,
    parser: ParserView,
    labels: Map<Id, Targets>,
) -> (grown: Map<Id, Targets>)
    requires
        numbered(scope, parser),
        labeled(labels, parser.scopes),
        plain_all(expressions),
        resolve_exprs(expressions, scope, parser) is Ok,
    ensures
        resolve_exprs(expressions, scope, parser) matches Ok((resolved, later, after)) && labeled(
            grown,
            after.scopes,
        ) && extends(labels, grown) && forall|i: int|
            0 <= i < resolved.len() ==> routed_expr(grown, targets_of(scope), #[trigger] resolved[i]),
    decreases expressions, 0int,
{
    if expressions.len() == 0 {
        labels
    } else {
        let here = targets_of(scope);
        let (before, scope1, parser1) = resolve_exprs(expressions.drop_last(), scope, parser)->Ok_0;
        let (last, later, after) = resolve_expr(expressions.last(), scope1, parser1)->Ok_0;
        lemma_resolve_exprs_grows(expressions.drop_last(), scope, parser);
        lemma_resolve_exprs_numbered(expressions.drop_last(), scope, parser);
        let first = lemma_resolve_exprs_routed(expressions.drop_last(), scope, parser, labels);
        let second = lemma_resolve_expr_routed(expressions.last(), scope1, parser1, first);
        lemma_extends_chain(labels, first, second);
        let resolved = before.push(last);
        assert forall|i: int| 0 <= i < resolved.len() implies routed_expr(
            second,
            here,
            #[trigger] resolved[i],
        ) by {
            if i < before.len() {
                assert(resolved[i] == before[i]);
                lemma_routed_in_more(first, second, here, before[i]);
            }
        }
        second
    }
}

/// The scope whose body is resolved gets the label of where `return` and
/// `break` lead from inside it, and its statements are routed from there.
pub proof fn lemma_resolve_scope_routed(
    instructions: Seq<syntax_tree::Expr>,
    scope: ParserScopeView,
    parser: ParserView,
    labels: Map<Id, Targets>,
) -> (grown: Map<Id, Targets>)
    requires
        numbered(scope, parser),
        labeled(labels, parser.scopes),
        plain_all(instructions),
        resolve_scope(instructions, scope, parser) is Ok,
    ensures
        resolve_scope(instructions, scope, parser) matches Ok(after) && labeled(grown, after.scopes)
            && extends(labels, grown) && grown.contains_key(scope.current.scope_id)
            && grown[scope.current.scope_id] == targets_of(scope),
    decreases instructions, 1int,
{
    let (expressions, later, parser1) = resolve_exprs(instructions, scope, parser)->Ok_0;
    lemma_resolve_exprs_grows(instructions, scope, parser);
    lemma_resolve_exprs_numbered(instructions, scope, parser);
    let first = lemma_resolve_exprs_routed(instructions, scope, parser, labels);
    let record = later.finished(expressions);
    let levels = open_scopes(later);
    assert(levels[levels.len() - 1].scope_id == record.scope_id);
    assert(!parser1.scopes.contains_key(record.scope_id));
    lemma_labeled_recorded(first, parser1.scopes, record, targets_of(scope));
    let grown = first.insert(record.scope_id, targets_of(scope));
    lemma_extends_chain(labels, first, grown);
    grown
}

/// Whether no value among `globals` is a function defined in the language.
pub open spec fn plain_globals(globals: Seq<(String, Value)>) -> bool {
    forall|i: int| 0 <= i < globals.len() ==> plain((#[trigger] globals[i]).1@)
}

/// The instructions of a program with plain globals and plain instructions
/// are plain.
pub proof fn lemma_plain_with_globals(
    globals: Seq<(String, Value)>,
    instructions: Seq<syntax_tree::Expr>,
)
    requires
        plain_globals(globals),
        plain_all(instructions),
    ensures
        plain_all(with_globals(globals, instructions)),
    decreases instructions.len(), globals.len(),
{
    let all = with_globals(globals, instructions);
    if instructions.len() > 0 {
        lemma_plain_with_globals(globals, instructions.drop_last());
        assert(all.drop_last() == with_globals(globals, instructions.drop_last()));
        assert(all.last() == instructions.last());
    } else if globals.len() > 0 {
        lemma_plain_with_globals(globals.drop_last(), instructions);
        assert(all.drop_last() == with_globals(globals.drop_last(), instructions));
        let last = global_definition(globals.last().0, globals.last().1);
        assert(all.last() == last);
        assert(plain_ast(last)) by {
            let definition = syntax_tree::VarDef {
                name: globals.last().0,
                value: syntax_tree::Expr(
                    Box::new(
                        syntax_tree::ExprInner::Literal(syntax_tree::Literal(globals.last().1)),
                    ),
                ),
            };
            assert(*last.0 == syntax_tree::ExprInner::VarDef(definition));
            assert(plain_ast(definition.value));
        }
    } else {
        assert(all.len() == 0);
    }
}

/// Every `return` of a resolved program targets the body of the function
/// around it, and every `break` the body of the loop around it in that
/// function: the scopes of the program can be labelled accordingly, provided
/// that no literal of the program and no global is a function defined in the
/// language.
pub proof fn lemma_resolved_is_well_routed(
    globals: Seq<(String, Value)>,
    instructions: Seq<syntax_tree::Expr>,
)
    requires
        plain_globals(globals),
        plain_all(instructions),
    ensures
        resolve_program(globals, instructions) matches Ok(program) ==> well_routed(program),
{
    if let Ok(program) = resolve_program(globals, instructions) {
        let parser = ParserView::fresh();
        let root = ParserScopeView::root(parser.issued());
        let start = parser.advanced();
        let all = with_globals(globals, instructions);
        lemma_plain_with_globals(globals, instructions);
        crate::execution_tree::numbering::lemma_root_numbered();
        let labels = lemma_resolve_scope_routed(all, root, start, Map::empty());
        assert(routed(program, labels));
    }
}

} // verus!
