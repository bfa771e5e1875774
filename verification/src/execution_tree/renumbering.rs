//! Renumbering: what it means that two execution trees differ in the values of
//! their identifiers only.

use vstd::prelude::*;
use crate::execution_tree::{ExprView, Id, ProgramView, ScopeView};
use crate::execution_tree::resolution::{resolve_program, ResolveError};
use crate::syntax_tree;
use crate::value::{Value, ValueView};
use crate::value::function::{ExecutorView, FunctionView};

verus! {

/// Whether `to` gives different identifiers different numbers.
pub open spec fn one_to_one(to: spec_fn(Id) -> Id) -> bool {
    forall|a: Id, b: Id| #[trigger] to(a) == #[trigger] to(b) ==> a == b
}

/// The identifiers `ids`, each renumbered.
pub open spec fn renumbered_ids(ids: Seq<Id>, to: spec_fn(Id) -> Id) -> Seq<Id> {
    Seq::new(ids.len(), |i: int| to(ids[i]))
}

/// The value `value` with the identifiers in it renumbered: those that a
/// function defined in the language holds.
pub open spec fn renumbered_value(value: ValueView, to: spec_fn(Id) -> Id) -> ValueView {
    match value {
        ValueView::Function(function) => match function.executor {
            ExecutorView::Constructed { parameter_ids, body_scope_id } => ValueView::Function(
                FunctionView {
                    argument_count: function.argument_count,
                    executor: ExecutorView::Constructed {
                        parameter_ids: renumbered_ids(parameter_ids, to),
                        body_scope_id: to(body_scope_id),
                    },
                },
            ),
            ExecutorView::Native(_) => value,
        },
        _ => value,
    }
}

/// The expression `expression` with every identifier in it renumbered.
pub open spec fn renumbered_expr(expression: ExprView, to: spec_fn(Id) -> Id) -> ExprView
    decreases expression,
{
    match expression {
        ExprView::Scope(scope_id) => ExprView::Scope(to(scope_id)),
        ExprView::Literal(value) => ExprView::Literal(renumbered_value(value, to)),
        ExprView::VarDef { variable_id, value } => ExprView::VarDef {
            variable_id: to(variable_id),
            value: Box::new(renumbered_expr(*value, to)),
        },
        ExprView::VarAssign { variable_id, value } => ExprView::VarAssign {
            variable_id: to(variable_id),
            value: Box::new(renumbered_expr(*value, to)),
        },
        ExprView::VarCall { variable_id } => ExprView::VarCall { variable_id: to(variable_id) },
        ExprView::FnDef { parameter_ids, body_scope_id } => ExprView::FnDef {
            parameter_ids: renumbered_ids(parameter_ids, to),
            body_scope_id: to(body_scope_id),
        },
        ExprView::FnCall { variable_id, arguments } => ExprView::FnCall {
            variable_id: to(variable_id),
            arguments: renumbered_exprs(arguments, to),
        },
        ExprView::FnRet { value, function_scope_id } => ExprView::FnRet {
            value: Box::new(renumbered_expr(*value, to)),
            function_scope_id: to(function_scope_id),
        },
        ExprView::Loop { body_scope_id } => ExprView::Loop { body_scope_id: to(body_scope_id) },
        ExprView::LoopBr { value, loop_scope_id } => ExprView::LoopBr {
            value: Box::new(renumbered_expr(*value, to)),
            loop_scope_id: to(loop_scope_id),
        },
        ExprView::Cond { condition, arm_true, arm_false } => ExprView::Cond {
            condition: Box::new(renumbered_expr(*condition, to)),
            arm_true: Box::new(renumbered_expr(*arm_true, to)),
            arm_false: match arm_false {
                Some(otherwise) => Some(Box::new(renumbered_expr(*otherwise, to))),
                None => None,
            },
        },
    }
}

/// The expressions `expressions`, each with every identifier in it
/// renumbered.
pub open spec fn renumbered_exprs(expressions: Seq<ExprView>, to: spec_fn(Id) -> Id) -> Seq<
    ExprView,
>
    decreases expressions,
{
    if expressions.len() == 0 {
        Seq::empty()
    } else {
        renumbered_exprs(expressions.drop_last(), to).push(
            renumbered_expr(expressions.last(), to),
        )
    }
}

/// The scope `scope` with every identifier in it renumbered.
pub open spec fn renumbered_scope(scope: ScopeView, to: spec_fn(Id) -> Id) -> ScopeView {
    ScopeView {
        scope_id: to(scope.scope_id),
        parent_scope_id: match scope.parent_scope_id {
            Some(parent) => Some(to(parent)),
            None => None,
        },
        local_variables: renumbered_ids(scope.local_variables, to),
        expressions: renumbered_exprs(scope.expressions, to),
    }
}

/// Whether `second` is `first` renumbered by `to`: it has the scope that
/// `first` has under an identifier, renumbered, under the number that `to`
/// gives the identifier, and no other scope.
pub open spec fn renumbers(first: ProgramView, second: ProgramView, to: spec_fn(Id) -> Id) -> bool {
    &&& one_to_one(to)
    &&& second.main_scope_id == to(first.main_scope_id)
    &&& forall|id: Id| #[trigger]
        first.scopes.contains_key(id) ==> second.scopes.contains_key(to(id))
            && second.scopes[to(id)] == renumbered_scope(first.scopes[id], to)
    &&& forall|number: Id| #[trigger]
        second.scopes.contains_key(number) ==> exists|id: Id| #[trigger]
            first.scopes.contains_key(id) && to(id) == number
}

/// Whether two programs are the same up to the values of their identifiers:
/// one is the other renumbered.
pub open spec fn isomorphic(first: ProgramView, second: ProgramView) -> bool {
    exists|to: spec_fn(Id) -> Id| renumbers(first, second, to)
}

/// Renumbering each identifier by itself changes no expression.
pub proof fn lemma_renumbered_by_itself(expression: ExprView)
    ensures
        renumbered_expr(expression, |id: Id| id) == expression,
    decreases expression,
{
    let to = |id: Id| id;
    match expression {
        ExprView::Scope(scope_id) => {},
        ExprView::Literal(value) => {
            match value {
                ValueView::Function(function) => match function.executor {
                    ExecutorView::Constructed { parameter_ids, body_scope_id } => {
                        assert(renumbered_ids(parameter_ids, to) == parameter_ids);
                    },
                    ExecutorView::Native(_) => {},
                },
                _ => {},
            }
        },
        ExprView::VarDef { variable_id, value } => {
            lemma_renumbered_by_itself(*value);
        },
        ExprView::VarAssign { variable_id, value } => {
            lemma_renumbered_by_itself(*value);
        },
        ExprView::VarCall { variable_id } => {},
        ExprView::FnDef { parameter_ids, body_scope_id } => {
            assert(renumbered_ids(parameter_ids, to) == parameter_ids);
        },
        ExprView::FnCall { variable_id, arguments } => {
            lemma_all_renumbered_by_itself(arguments);
        },
        ExprView::FnRet { value, function_scope_id } => {
            lemma_renumbered_by_itself(*value);
        },
        ExprView::Loop { body_scope_id } => {},
        ExprView::LoopBr { value, loop_scope_id } => {
            lemma_renumbered_by_itself(*value);
        },
        ExprView::Cond { condition, arm_true, arm_false } => {
            lemma_renumbered_by_itself(*condition);
            lemma_renumbered_by_itself(*arm_true);
            match arm_false {
                Some(otherwise) => {
                    lemma_renumbered_by_itself(*otherwise);
                },
                None => {},
            }
        },
    }
}

/// Renumbering each identifier by itself changes no run of expressions.
pub proof fn lemma_all_renumbered_by_itself(expressions: Seq<ExprView>)
    ensures
        renumbered_exprs(expressions, |id: Id| id) == expressions,
    decreases expressions,
{
    if expressions.len() > 0 {
        lemma_all_renumbered_by_itself(expressions.drop_last());
        lemma_renumbered_by_itself(expressions.last());
        assert(expressions.drop_last().push(expressions.last()) == expressions);
    }
}

/// Every program is isomorphic to itself.
pub proof fn lemma_isomorphic_to_itself(program: ProgramView)
    ensures
        isomorphic(program, program),
{
    let to = |id: Id| id;
    assert forall|id: Id| #[trigger] program.scopes.contains_key(id) implies program.scopes[to(
        id,
    )] == renumbered_scope(program.scopes[id], to) by {
        let scope = program.scopes[id];
        lemma_all_renumbered_by_itself(scope.expressions);
        assert(renumbered_ids(scope.local_variables, to) == scope.local_variables);
    }
    assert(renumbers(program, program, to));
}

/// Resolving the same program twice gives isomorphic execution trees: the
/// second is the first renumbered. As the identifiers are issued in the same
/// order both times, the renumbering is the one that changes nothing.
pub proof fn lemma_resolutions_are_isomorphic(
    globals: Seq<(String, Value)>,
    instructions: Seq<syntax_tree::Expr>,
    first: ProgramView,
    second: ProgramView,
)
    requires
        resolve_program(globals, instructions) == Ok::<ProgramView, ResolveError>(first),
        resolve_program(globals, instructions) == Ok::<ProgramView, ResolveError>(second),
    ensures
        first == second,
        isomorphic(first, second),
{
    lemma_isomorphic_to_itself(first);
}

} // verus!
