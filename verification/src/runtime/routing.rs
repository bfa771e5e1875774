//! Unwinding reaches its target: in a program whose `return`s and `break`s
//! are routed, every unwind is ended by the function or the loop that it
//! targets.

use vstd::prelude::*;
use crate::execution_tree::{ExprView, Id, ProgramView, ScopeView};
use crate::execution_tree::routing::{labeled, routed, routed_expr, Targets};
use crate::runtime::laws::{
    lemma_eval_block_orderly,
    lemma_eval_call_orderly,
    lemma_eval_expr_orderly,
    lemma_eval_loop_orderly,
    lemma_holder_holds,
};
use crate::runtime::semantics::{
    assigned,
    bound,
    eval_args,
    eval_block,
    eval_call,
    eval_expr,
    eval_loop,
    eval_program,
    eval_scope,
    frame_for,
    holder,
    lookup,
    paired,
    unset,
    ArgsOutcome,
    ExecReturnView,
    FrameView,
    GatheredView,
    InternalFault,
    Outcome,
    RuntimeError,
    RuntimeView,
};
use crate::value::ValueView;
use crate::value::function::{ExecutorView, FunctionView, NativeFault};

verus! {

/// Whether `value`, where it is a function defined in the language, has a
/// body that is labelled as the body of a function: the target of the
/// `return`s in it, inside no loop.
pub open spec fn proper(labels: Map<Id, Targets>, value: ValueView) -> bool {
    match value {
        ValueView::Function(function) => match function.executor {
            ExecutorView::Constructed { parameter_ids, body_scope_id } => labels.contains_key(
                body_scope_id,
            ) && labels[body_scope_id] == (Targets {
                function: Some(body_scope_id),
                in_loop: None,
            }),
            ExecutorView::Native(_) => true,
        },
        _ => true,
    }
}

/// Whether every value of `values` is proper.
pub open spec fn all_proper(labels: Map<Id, Targets>, values: Seq<ValueView>) -> bool {
    forall|i: int| 0 <= i < values.len() ==> proper(labels, #[trigger] values[i])
}

/// Whether every value that a variable holds is proper.
pub open spec fn proper_variables(labels: Map<Id, Targets>, variables: Map<Id, ValueView>) -> bool {
    forall|id: Id| variables.contains_key(id) ==> proper(labels, #[trigger] variables[id])
}

/// Whether every value that a frame of `stack` holds is proper.
pub open spec fn proper_stack(labels: Map<Id, Targets>, stack: Seq<FrameView>) -> bool {
    forall|i: int| 0 <= i < stack.len() ==> proper_variables(labels, (#[trigger] stack[i]).variables)
}

/// Whether every value that the host answers with is proper.
pub open spec fn proper_answers(
    labels: Map<Id, Targets>,
    answers: Seq<Result<ValueView, NativeFault>>,
) -> bool {
    forall|i: int|
        0 <= i < answers.len() ==> match #[trigger] answers[i] {
            Ok(value) => proper(labels, value),
            Err(_) => true,
        }
}

/// Whether a result, got at a place from which `return` and `break` lead to
/// `here`, is sound: it is no failure for a scope that the program lacks or
/// for an unwind that got lost; an unwind targets where `return` or `break`
/// lead from the place; and the value is proper.
pub open spec fn sound_result(
    labels: Map<Id, Targets>,
    here: Targets,
    result: Result<ExecReturnView, RuntimeError>,
) -> bool {
    match result {
        Ok(ExecReturnView::Value(value)) => proper(labels, value),
        Ok(ExecReturnView::ShortCircuit { value, destination_scope_id }) => proper(labels, value)
            && (here.function == Some(destination_scope_id) || here.in_loop == Some(
            destination_scope_id,
        )),
        Err(RuntimeError::Internal(InternalFault::UnknownScope(_))) => false,
        Err(RuntimeError::Internal(InternalFault::StrayUnwind(_))) => false,
        Err(_) => true,
    }
}

/// Whether an outcome is sound: its result is, and unless the evaluation was
/// aborted every value on the stack is proper.
pub open spec fn sound(labels: Map<Id, Targets>, here: Targets, outcome: Outcome) -> bool {
    &&& sound_result(labels, here, outcome.result)
    &&& outcome.result is Ok ==> proper_stack(labels, outcome.state.stack)
}

/// Whether the outcome of the evaluation of arguments is sound.
pub open spec fn sound_args(labels: Map<Id, Targets>, here: Targets, outcome: ArgsOutcome) -> bool {
    &&& match outcome.result {
        Ok(GatheredView::Values(values)) => all_proper(labels, values),
        Ok(GatheredView::ShortCircuit { value, destination_scope_id }) => proper(labels, value)
            && (here.function == Some(destination_scope_id) || here.in_loop == Some(
            destination_scope_id,
        )),
        Err(RuntimeError::Internal(InternalFault::UnknownScope(_))) => false,
        Err(RuntimeError::Internal(InternalFault::StrayUnwind(_))) => false,
        Err(_) => true,
    }
    &&& outcome.result is Ok ==> proper_stack(labels, outcome.state.stack)
}

/// From nowhere: the place of the main scope and of a function that is
/// called, from which no `return` and no `break` leads anywhere.
pub open spec fn nowhere() -> Targets {
    Targets { function: None, in_loop: None }
}

/// Writing proper bindings keeps the variables proper.
pub proof fn lemma_bound_proper(
    labels: Map<Id, Targets>,
    variables: Map<Id, ValueView>,
    bindings: Seq<(Id, ValueView)>,
)
    requires
        proper_variables(labels, variables),
        forall|i: int| 0 <= i < bindings.len() ==> proper(labels, (#[trigger] bindings[i]).1),
    ensures
        proper_variables(labels, bound(variables, bindings)),
    decreases bindings.len(),
{
    if bindings.len() > 0 {
        assert forall|i: int| 0 <= i < bindings.drop_last().len() implies proper(
            labels,
            (#[trigger] bindings.drop_last()[i]).1,
        ) by {
            assert(bindings.drop_last()[i] == bindings[i]);
        }
        lemma_bound_proper(labels, variables, bindings.drop_last());
        assert(proper(labels, bindings[bindings.len() - 1].1));
    }
}

/// The frame that a scope starts with holds proper values where its bindings
/// are proper.
pub proof fn lemma_frame_proper(
    labels: Map<Id, Targets>,
    scope: ScopeView,
    bindings: Seq<(Id, ValueView)>,
)
    requires
        forall|i: int| 0 <= i < bindings.len() ==> proper(labels, (#[trigger] bindings[i]).1),
    ensures
        proper_variables(labels, frame_for(scope, bindings).variables),
{
    lemma_bound_proper(labels, unset(scope.local_variables), bindings);
}

/// Writing a proper value keeps the stack proper.
pub proof fn lemma_assigned_proper(
    labels: Map<Id, Targets>,
    stack: Seq<FrameView>,
    id: Id,
    value: ValueView,
)
    requires
        proper_stack(labels, stack),
        proper(labels, value),
    ensures
        assigned(stack, id, value) matches Some(after) ==> proper_stack(labels, after),
{
    lemma_holder_holds(stack, id);
    if let Some(after) = assigned(stack, id, value) {
        let at = holder(stack, id)->Some_0;
        assert forall|i: int| 0 <= i < after.len() implies proper_variables(
            labels,
            (#[trigger] after[i]).variables,
        ) by {
            assert(proper_variables(labels, stack[i].variables));
            if i == at {
                assert forall|other: Id| after[i].variables.contains_key(other) implies proper(
                    labels,
                    #[trigger] after[i].variables[other],
                ) by {
                    if other != id {
                        assert(stack[i].variables.contains_key(other));
                    }
                }
            }
        }
    }
}

/// What is read from a proper stack is proper.
pub proof fn lemma_lookup_proper(labels: Map<Id, Targets>, stack: Seq<FrameView>, id: Id)
    requires
        proper_stack(labels, stack),
    ensures
        lookup(stack, id) matches Some(value) ==> proper(labels, value),
{
    lemma_holder_holds(stack, id);
    if let Some(at) = holder(stack, id) {
        assert(proper_variables(labels, stack[at].variables));
    }
}

/// The evaluation of a routed expression is sound.
pub proof fn lemma_eval_expr_sound(
    program: ProgramView,
    labels: Map<Id, Targets>,
    here: Targets,
    expression: ExprView,
    state: RuntimeView,
    fuel: nat,
    answers: Seq<Result<ValueView, NativeFault>>,
)
    requires
        labeled(labels, program.scopes),
        routed_expr(labels, here, expression),
        proper_stack(labels, state.stack),
        proper_answers(labels, answers),
        eval_expr(program, expression, state, fuel, answers).state.calls.len() <= answers.len(),
    ensures
        sound(labels, here, eval_expr(program, expression, state, fuel, answers)),
    decreases fuel, 2int, expression,
{
    match expression {
        ExprView::Scope(scope_id) => {
            lemma_eval_scope_sound(program, labels, scope_id, Seq::empty(), state, fuel, answers);
        },
        ExprView::Literal(value) => {},
        ExprView::VarDef { variable_id, value } => {
            lemma_eval_expr_sound(program, labels, here, *value, state, fuel, answers);
            lemma_written_sound(
                labels,
                here,
                eval_expr(program, *value, state, fuel, answers),
                variable_id,
            );
        },
        ExprView::VarAssign { variable_id, value } => {
            lemma_eval_expr_sound(program, labels, here, *value, state, fuel, answers);
            lemma_written_sound(
                labels,
                here,
                eval_expr(program, *value, state, fuel, answers),
                variable_id,
            );
        },
        ExprView::VarCall { variable_id } => {
            lemma_lookup_proper(labels, state.stack, variable_id);
        },
        ExprView::FnDef { parameter_ids, body_scope_id } => {},
        ExprView::FnCall { variable_id, arguments } => {
            let gathered = eval_args(program, arguments, state, fuel, answers);
            match gathered.result {
                Ok(GatheredView::Values(values)) => match lookup(
                    gathered.state.stack,
                    variable_id,
                ) {
                    Some(ValueView::Function(function)) => {
                        lemma_eval_call_orderly(
                            program,
                            function.executor,
                            values,
                            gathered.state,
                            fuel,
                            answers,
                        );
                        lemma_eval_args_sound(
                            program,
                            labels,
                            here,
                            arguments,
                            state,
                            fuel,
                            answers,
                        );
                        lemma_lookup_proper(labels, gathered.state.stack, variable_id);
                        lemma_eval_call_sound(
                            program,
                            labels,
                            function,
                            values,
                            gathered.state,
                            fuel,
                            answers,
                        );
                    },
                    _ => {
                        lemma_eval_args_sound(
                            program,
                            labels,
                            here,
                            arguments,
                            state,
                            fuel,
                            answers,
                        );
                    },
                },
                _ => {
                    lemma_eval_args_sound(program, labels, here, arguments, state, fuel, answers);
                },
            }
        },
        ExprView::FnRet { value, function_scope_id } => {
            lemma_eval_expr_sound(program, labels, here, *value, state, fuel, answers);
        },
        ExprView::Loop { body_scope_id } => {
            lemma_eval_loop_sound(program, labels, here, body_scope_id, state, fuel, answers);
        },
        ExprView::LoopBr { value, loop_scope_id } => {
            lemma_eval_expr_sound(program, labels, here, *value, state, fuel, answers);
        },
        ExprView::Cond { condition, arm_true, arm_false } => {
            let tested = eval_expr(program, *condition, state, fuel, answers);
            match tested.result {
                Ok(ExecReturnView::Value(ValueView::Bool(holds))) => {
                    if holds {
                        lemma_eval_expr_orderly(program, *arm_true, tested.state, fuel, answers);
                        lemma_eval_expr_sound(
                            program,
                            labels,
                            here,
                            *condition,
                            state,
                            fuel,
                            answers,
                        );
                        lemma_eval_expr_sound(
                            program,
                            labels,
                            here,
                            *arm_true,
                            tested.state,
                            fuel,
                            answers,
                        );
                    } else {
                        match arm_false {
                            Some(otherwise) => {
                                lemma_eval_expr_orderly(
                                    program,
                                    *otherwise,
                                    tested.state,
                                    fuel,
                                    answers,
                                );
                                lemma_eval_expr_sound(
                                    program,
                                    labels,
                                    here,
                                    *condition,
                                    state,
                                    fuel,
                                    answers,
                                );
                                lemma_eval_expr_sound(
                                    program,
                                    labels,
                                    here,
                                    *otherwise,
                                    tested.state,
                                    fuel,
                                    answers,
                                );
                            },
                            None => {
                                lemma_eval_expr_sound(
                                    program,
                                    labels,
                                    here,
                                    *condition,
                                    state,
                                    fuel,
                                    answers,
                                );
                            },
                        }
                    }
                },
                _ => {
                    lemma_eval_expr_sound(program, labels, here, *condition, state, fuel, answers);
                },
            }
        },
    }
}

/// Writing the value of a sound outcome to a variable is sound.
pub proof fn lemma_written_sound(
    labels: Map<Id, Targets>,
    here: Targets,
    outcome: Outcome,
    id: Id,
)
    requires
        sound(labels, here, outcome),
    ensures
        sound(labels, here, outcome.written_to(id)),
{
    match outcome.result {
        Ok(ExecReturnView::Value(written)) => {
            lemma_assigned_proper(labels, outcome.state.stack, id, written);
        },
        _ => {},
    }
}

/// The call of a proper function with proper arguments is sound, and ends
/// with a value or a failure: nothing unwinds out of a call.
pub proof fn lemma_eval_call_sound(
    program: ProgramView,
    labels: Map<Id, Targets>,
    function: FunctionView,
    arguments: Seq<ValueView>,
    state: RuntimeView,
    fuel: nat,
    answers: Seq<Result<ValueView, NativeFault>>,
)
    requires
        labeled(labels, program.scopes),
        proper(labels, ValueView::Function(function)),
        all_proper(labels, arguments),
        proper_stack(labels, state.stack),
        proper_answers(labels, answers),
        eval_call(program, function.executor, arguments, state, fuel, answers).state.calls.len()
            <= answers.len(),
    ensures
        sound(
            labels,
            nowhere(),
            eval_call(program, function.executor, arguments, state, fuel, answers),
        ),
    decreases fuel, 1int, arguments,
{
    match function.executor {
        ExecutorView::Native(native) => {
            assert(0 <= state.calls.len() < answers.len());
            let answer = answers[state.calls.len() as int];
        },
        ExecutorView::Constructed { parameter_ids, body_scope_id } => {
            let bindings = paired(parameter_ids, arguments);
            assert forall|i: int| 0 <= i < bindings.len() implies proper(
                labels,
                (#[trigger] bindings[i]).1,
            ) by {
                assert(proper(labels, arguments[i]));
            }
            lemma_eval_scope_sound(
                program,
                labels,
                body_scope_id,
                bindings,
                state,
                fuel,
                answers,
            );
        },
    }
}

/// The evaluation of routed arguments is sound.
pub proof fn lemma_eval_args_sound(
    program: ProgramView,
    labels: Map<Id, Targets>,
    here: Targets,
    arguments: Seq<ExprView>,
    state: RuntimeView,
    fuel: nat,
    answers: Seq<Result<ValueView, NativeFault>>,
)
    requires
        labeled(labels, program.scopes),
        forall|i: int| 0 <= i < arguments.len() ==> routed_expr(labels, here, #[trigger] arguments[i]),
        proper_stack(labels, state.stack),
        proper_answers(labels, answers),
        eval_args(program, arguments, state, fuel, answers).state.calls.len() <= answers.len(),
    ensures
        sound_args(labels, here, eval_args(program, arguments, state, fuel, answers)),
    decreases fuel, 2int, arguments,
{
    if arguments.len() > 0 {
        let before = eval_args(program, arguments.drop_last(), state, fuel, answers);
        assert forall|i: int| 0 <= i < arguments.drop_last().len() implies routed_expr(
            labels,
            here,
            #[trigger] arguments.drop_last()[i],
        ) by {
            assert(arguments.drop_last()[i] == arguments[i]);
        }
        assert(routed_expr(labels, here, arguments[arguments.len() - 1]));
        match before.result {
            Ok(GatheredView::Values(values)) => {
                lemma_eval_expr_orderly(program, arguments.last(), before.state, fuel, answers);
                lemma_eval_args_sound(
                    program,
                    labels,
                    here,
                    arguments.drop_last(),
                    state,
                    fuel,
                    answers,
                );
                lemma_eval_expr_sound(
                    program,
                    labels,
                    here,
                    arguments.last(),
                    before.state,
                    fuel,
                    answers,
                );
                let last = eval_expr(program, arguments.last(), before.state, fuel, answers);
                match last.result {
                    Ok(ExecReturnView::Value(value)) => {
                        assert forall|i: int| 0 <= i < values.push(value).len() implies proper(
                            labels,
                            #[trigger] values.push(value)[i],
                        ) by {
                            if i < values.len() {
                                assert(proper(labels, values[i]));
                            }
                        }
                    },
                    _ => {},
                }
            },
            _ => {
                lemma_eval_args_sound(
                    program,
                    labels,
                    here,
                    arguments.drop_last(),
                    state,
                    fuel,
                    answers,
                );
            },
        }
    }
}

/// The evaluation of routed statements is sound.
pub proof fn lemma_eval_block_sound(
    program: ProgramView,
    labels: Map<Id, Targets>,
    here: Targets,
    statements: Seq<ExprView>,
    state: RuntimeView,
    fuel: nat,
    answers: Seq<Result<ValueView, NativeFault>>,
)
    requires
        labeled(labels, program.scopes),
        forall|i: int|
            0 <= i < statements.len() ==> routed_expr(labels, here, #[trigger] statements[i]),
        proper_stack(labels, state.stack),
        proper_answers(labels, answers),
        eval_block(program, statements, state, fuel, answers).state.calls.len() <= answers.len(),
    ensures
        sound(labels, here, eval_block(program, statements, state, fuel, answers)),
    decreases fuel, 2int, statements,
{
    if statements.len() > 0 {
        let before = eval_block(program, statements.drop_last(), state, fuel, answers);
        assert forall|i: int| 0 <= i < statements.drop_last().len() implies routed_expr(
            labels,
            here,
            #[trigger] statements.drop_last()[i],
        ) by {
            assert(statements.drop_last()[i] == statements[i]);
        }
        assert(routed_expr(labels, here, statements[statements.len() - 1]));
        match before.result {
            Ok(ExecReturnView::Value(_)) => {
                lemma_eval_expr_orderly(program, statements.last(), before.state, fuel, answers);
                lemma_eval_block_sound(
                    program,
                    labels,
                    here,
                    statements.drop_last(),
                    state,
                    fuel,
                    answers,
                );
                lemma_eval_expr_sound(
                    program,
                    labels,
                    here,
                    statements.last(),
                    before.state,
                    fuel,
                    answers,
                );
            },
            _ => {
                lemma_eval_block_sound(
                    program,
                    labels,
                    here,
                    statements.drop_last(),
                    state,
                    fuel,
                    answers,
                );
            },
        }
    }
}

/// One execution of a labelled scope is sound: what unwinds out of it targets
/// where `return` and `break` lead from inside it.
pub proof fn lemma_eval_scope_sound(
    program: ProgramView,
    labels: Map<Id, Targets>,
    scope_id: Id,
    bindings: Seq<(Id, ValueView)>,
    state: RuntimeView,
    fuel: nat,
    answers: Seq<Result<ValueView, NativeFault>>,
)
    requires
        labeled(labels, program.scopes),
        labels.contains_key(scope_id),
        forall|i: int| 0 <= i < bindings.len() ==> proper(labels, (#[trigger] bindings[i]).1),
        proper_stack(labels, state.stack),
        proper_answers(labels, answers),
        eval_scope(program, scope_id, bindings, state, fuel, answers).state.calls.len()
            <= answers.len(),
    ensures
        sound(
            labels,
            labels[scope_id],
            eval_scope(program, scope_id, bindings, state, fuel, answers),
        ),
    decreases fuel, 0int, bindings,
{
    assert(program.scopes.contains_key(scope_id));
    if fuel > 0 {
        let scope = program.scopes[scope_id];
        let entered = state.pushed(frame_for(scope, bindings));
        lemma_frame_proper(labels, scope, bindings);
        assert forall|i: int| 0 <= i < entered.stack.len() implies proper_variables(
            labels,
            (#[trigger] entered.stack[i]).variables,
        ) by {
            if i < state.stack.len() {
                assert(entered.stack[i] == state.stack[i]);
            }
        }
        lemma_eval_block_sound(
            program,
            labels,
            labels[scope_id],
            scope.expressions,
            entered,
            (fuel - 1) as nat,
            answers,
        );
        let ended = eval_block(program, scope.expressions, entered, (fuel - 1) as nat, answers);
        lemma_eval_block_orderly(program, scope.expressions, entered, (fuel - 1) as nat, answers);
        if ended.result is Ok {
            let left = ended.state.popped();
            assert(ended.state.stack.len() == entered.stack.len());
            assert forall|i: int| 0 <= i < left.stack.len() implies proper_variables(
                labels,
                (#[trigger] left.stack[i]).variables,
            ) by {
                assert(left.stack[i] == ended.state.stack[i]);
            }
        }
    }
}

/// A loop over a scope that is labelled as the body of a loop is sound: what
/// unwinds out of it targets the function around it.
pub proof fn lemma_eval_loop_sound(
    program: ProgramView,
    labels: Map<Id, Targets>,
    here: Targets,
    body_scope_id: Id,
    state: RuntimeView,
    fuel: nat,
    answers: Seq<Result<ValueView, NativeFault>>,
)
    requires
        labeled(labels, program.scopes),
        labels.contains_key(body_scope_id),
        labels[body_scope_id] == (Targets { function: here.function, in_loop: Some(body_scope_id) }),
        proper_stack(labels, state.stack),
        proper_answers(labels, answers),
        eval_loop(program, body_scope_id, state, fuel, answers).state.calls.len() <= answers.len(),
    ensures
        sound(
            labels,
            Targets { function: here.function, in_loop: None },
            eval_loop(program, body_scope_id, state, fuel, answers),
        ),
    decreases fuel, 0int, state.stack,
{
    if fuel > 0 {
        let iteration = eval_scope(
            program,
            body_scope_id,
            Seq::empty(),
            state,
            (fuel - 1) as nat,
            answers,
        );
        match iteration.result {
            Ok(ExecReturnView::Value(_)) => {
                lemma_eval_loop_orderly(
                    program,
                    body_scope_id,
                    iteration.state,
                    (fuel - 1) as nat,
                    answers,
                );
                lemma_eval_scope_sound(
                    program,
                    labels,
                    body_scope_id,
                    Seq::empty(),
                    state,
                    (fuel - 1) as nat,
                    answers,
                );
                lemma_eval_loop_sound(
                    program,
                    labels,
                    here,
                    body_scope_id,
                    iteration.state,
                    (fuel - 1) as nat,
                    answers,
                );
            },
            _ => {
                lemma_eval_scope_sound(
                    program,
                    labels,
                    body_scope_id,
                    Seq::empty(),
                    state,
                    (fuel - 1) as nat,
                    answers,
                );
            },
        }
    }
}

/// Unwinding reaches its target. In a routed program that is run on proper
/// values, with answers of the host for all its native calls, every scope
/// that is entered exists and every `return` and `break` is ended by the
/// function or the loop that it targets: the run fails neither for a scope
/// that the program lacks nor for an unwind that left the main scope.
pub proof fn lemma_run_is_sound(
    program: ProgramView,
    labels: Map<Id, Targets>,
    state: RuntimeView,
    fuel: nat,
    answers: Seq<Result<ValueView, NativeFault>>,
)
    requires
        routed(program, labels),
        proper_stack(labels, state.stack),
        proper_answers(labels, answers),
        eval_program(program, state, fuel, answers).1.calls.len() <= answers.len(),
    ensures
        !(eval_program(program, state, fuel, answers).0 matches Err(
            RuntimeError::Internal(InternalFault::UnknownScope(_)),
        )),
        !(eval_program(program, state, fuel, answers).0 matches Err(
            RuntimeError::Internal(InternalFault::StrayUnwind(_)),
        )),
        eval_program(program, state, fuel, answers).0 matches Ok(value) ==> proper(labels, value),
{
    assert(labels.contains_key(program.main_scope_id));
    lemma_eval_scope_sound(
        program,
        labels,
        program.main_scope_id,
        Seq::empty(),
        state,
        fuel,
        answers,
    );
    let outcome = eval_scope(
        program,
        program.main_scope_id,
        Seq::empty(),
        state,
        fuel,
        answers,
    );
    assert(sound_result(labels, nowhere(), outcome.result));
}

} // verus!
