//! What holds of every evaluation.

use vstd::prelude::*;
use crate::execution_tree::{ExprView, Id, ProgramView};
use crate::runtime::semantics::{
    assigned,
    eval_args,
    eval_block,
    eval_call,
    eval_expr,
    eval_loop,
    eval_scope,
    frame_for,
    holder,
    lookup,
    paired,
    ArgsOutcome,
    ExecReturnView,
    FrameView,
    GatheredView,
    Outcome,
    RuntimeError,
    RuntimeView,
};
use crate::value::ValueView;
use crate::value::function::{ExecutorView, NativeFault};

verus! {

impl Outcome {
    /// Whether this outcome is an unwind to `scope_id`.
    pub open spec fn unwinds_to(self, scope_id: Id) -> bool {
        self.result matches Ok(ExecReturnView::ShortCircuit { destination_scope_id, .. })
            && destination_scope_id == scope_id
    }
}

/// Routing by target. A function or loop whose body is the scope `scope_id`
/// ends the unwinds that target that scope, and only those: it turns them
/// into their value. An unwind to any other scope, a value and a failure pass
/// it unchanged. No unwind to `scope_id` gets past it.
pub proof fn lemma_interception(outcome: Outcome, scope_id: Id)
    ensures
        !outcome.intercepted_at(scope_id).unwinds_to(scope_id),
        !outcome.unwinds_to(scope_id) ==> outcome.intercepted_at(scope_id) == outcome,
        outcome.result matches Ok(ExecReturnView::ShortCircuit { value, destination_scope_id })
            ==> (destination_scope_id == scope_id ==> outcome.intercepted_at(scope_id)
            == Outcome::value(value, outcome.state)),
{
}

/// A loop never hands on a `break` that targets its own body: the loop ends
/// with the value of that `break`. What a loop hands on is an unwind to
/// another scope, and a loop never ends with a value but by such a `break`.
pub proof fn lemma_loop_ends_its_breaks(
    program: ProgramView,
    body_scope_id: Id,
    state: RuntimeView,
    fuel: nat,
    answers: Seq<Result<ValueView, NativeFault>>,
)
    ensures
        !eval_loop(program, body_scope_id, state, fuel, answers).unwinds_to(body_scope_id),
    decreases fuel,
{
    if fuel > 0 {
        let iteration = eval_scope(
            program,
            body_scope_id,
            Seq::empty(),
            state,
            (fuel - 1) as nat,
            answers,
        );
        match iteration.result {
            Ok(ExecReturnView::Value(_)) => {
                lemma_loop_ends_its_breaks(
                    program,
                    body_scope_id,
                    iteration.state,
                    (fuel - 1) as nat,
                    answers,
                );
            },
            _ => {
                lemma_interception(iteration, body_scope_id);
            },
        }
    }
}

/// A call of a constructed function never hands on a `return` that targets the
/// function's body: the call has the value of that `return`.
pub proof fn lemma_call_ends_its_returns(
    program: ProgramView,
    parameter_ids: Seq<Id>,
    body_scope_id: Id,
    arguments: Seq<ValueView>,
    state: RuntimeView,
    fuel: nat,
    answers: Seq<Result<ValueView, NativeFault>>,
)
    ensures
        !eval_call(
            program,
            ExecutorView::Constructed { parameter_ids, body_scope_id },
            arguments,
            state,
            fuel,
            answers,
        ).unwinds_to(body_scope_id),
{
}

/// A `return` or a `break` unwinds to the scope that it was resolved to,
/// whatever frames are active: where its value is a value, the outcome is an
/// unwind of that value to that scope.
pub proof fn lemma_unwind_carries_its_target(
    program: ProgramView,
    value: ExprView,
    target: Id,
    state: RuntimeView,
    fuel: nat,
    answers: Seq<Result<ValueView, NativeFault>>,
)
    ensures
        eval_expr(program, value, state, fuel, answers).result matches Ok(
            ExecReturnView::Value(v),
        ) ==> eval_expr(
            program,
            ExprView::FnRet { value: Box::new(value), function_scope_id: target },
            state,
            fuel,
            answers,
        ) == Outcome::unwind(v, target, eval_expr(program, value, state, fuel, answers).state)
            && eval_expr(
            program,
            ExprView::LoopBr { value: Box::new(value), loop_scope_id: target },
            state,
            fuel,
            answers,
        ) == Outcome::unwind(v, target, eval_expr(program, value, state, fuel, answers).state),
{
}

/// Whether `after` holds the frames of `before`: as many, each for the same
/// scope and with the same variables, whatever their values.
pub open spec fn same_frames(before: Seq<FrameView>, after: Seq<FrameView>) -> bool {
    &&& before.len() == after.len()
    &&& forall|i: int|
        0 <= i < before.len() ==> (#[trigger] after[i]).scope_id == before[i].scope_id
            && after[i].variables.dom() == before[i].variables.dom()
}

/// Whether a step from `before` to `after` was orderly: the native calls made
/// before are still on record, in their order, and, unless the step was
/// aborted, the frames are those of before.
pub open spec fn orderly(before: RuntimeView, after: RuntimeView, completed: bool) -> bool {
    &&& before.continued_by(after)
    &&& completed ==> same_frames(before.stack, after.stack)
}

/// Orderly steps compose.
pub proof fn lemma_orderly_chain(
    first: RuntimeView,
    second: RuntimeView,
    third: RuntimeView,
    completed: bool,
)
    requires
        orderly(first, second, true),
        orderly(second, third, completed),
    ensures
        orderly(first, third, completed),
{
    assert forall|i: int| 0 <= i < first.calls.len() implies #[trigger] third.calls[i]
        == first.calls[i] by {
        assert(second.calls[i] == first.calls[i]);
    }
    if completed {
        assert forall|i: int| 0 <= i < first.stack.len() implies (
        #[trigger] third.stack[i]).scope_id == first.stack[i].scope_id
            && third.stack[i].variables.dom() == first.stack[i].variables.dom() by {
            assert(second.stack[i].scope_id == first.stack[i].scope_id);
        }
    }
}

/// The innermost frame that holds a variable is a frame of the stack, and
/// holds the variable.
pub proof fn lemma_holder_holds(stack: Seq<FrameView>, id: Id)
    ensures
        holder(stack, id) matches Some(i) ==> 0 <= i < stack.len()
            && stack[i].variables.contains_key(id),
    decreases stack.len(),
{
    if stack.len() > 0 && !stack.last().variables.contains_key(id) {
        lemma_holder_holds(stack.drop_last(), id);
    }
}

/// Writing a variable changes its value and nothing else: the frames stay.
pub proof fn lemma_assigned_keeps_frames(stack: Seq<FrameView>, id: Id, value: ValueView)
    ensures
        assigned(stack, id, value) matches Some(after) ==> same_frames(stack, after),
{
    lemma_holder_holds(stack, id);
    if let Some(after) = assigned(stack, id, value) {
        let at = holder(stack, id)->Some_0;
        assert forall|i: int| 0 <= i < stack.len() implies (#[trigger] after[i]).scope_id
            == stack[i].scope_id && after[i].variables.dom() == stack[i].variables.dom() by {
            if i == at {
                assert(stack[i].variables.insert(id, value).dom() =~= stack[i].variables.dom());
            }
        }
    }
}

/// Stack discipline. The evaluation of an expression is orderly: when it ends
/// with a value or an unwind, every frame that was active before is active
/// after, for the same scope and with the same variables, and no other frame
/// is; the record of native calls only grows.
pub proof fn lemma_eval_expr_orderly(
    program: ProgramView,
    expression: ExprView,
    state: RuntimeView,
    fuel: nat,
    answers: Seq<Result<ValueView, NativeFault>>,
)
    ensures
        orderly(
            state,
            eval_expr(program, expression, state, fuel, answers).state,
            eval_expr(program, expression, state, fuel, answers).result is Ok,
        ),
    decreases fuel, 2int, expression,
{
    match expression {
        ExprView::Scope(scope_id) => {
            lemma_eval_scope_orderly(program, scope_id, Seq::empty(), state, fuel, answers);
        },
        ExprView::Literal(value) => {},
        ExprView::VarDef { variable_id, value } => {
            lemma_eval_expr_orderly(program, *value, state, fuel, answers);
            lemma_written_orderly(
                state,
                eval_expr(program, *value, state, fuel, answers),
                variable_id,
            );
        },
        ExprView::VarAssign { variable_id, value } => {
            lemma_eval_expr_orderly(program, *value, state, fuel, answers);
            lemma_written_orderly(
                state,
                eval_expr(program, *value, state, fuel, answers),
                variable_id,
            );
        },
        ExprView::VarCall { variable_id } => {},
        ExprView::FnDef { parameter_ids, body_scope_id } => {},
        ExprView::FnCall { variable_id, arguments } => {
            lemma_eval_args_orderly(program, arguments, state, fuel, answers);
            let gathered = eval_args(program, arguments, state, fuel, answers);
            match gathered.result {
                Ok(GatheredView::Values(values)) => match lookup(
                    gathered.state.stack,
                    variable_id,
                ) {
                    Some(ValueView::Function(function)) => {
                        lemma_eval_call_orderly(
                            program,
                            function.executor,
                            values,
                            gathered.state,
                            fuel,
                            answers,
                        );
                        let called = eval_call(
                            program,
                            function.executor,
                            values,
                            gathered.state,
                            fuel,
                            answers,
                        );
                        lemma_orderly_chain(
                            state,
                            gathered.state,
                            called.state,
                            called.result is Ok,
                        );
                    },
                    _ => {},
                },
                _ => {},
            }
        },
        ExprView::FnRet { value, function_scope_id } => {
            lemma_eval_expr_orderly(program, *value, state, fuel, answers);
        },
        ExprView::Loop { body_scope_id } => {
            lemma_eval_loop_orderly(program, body_scope_id, state, fuel, answers);
        },
        ExprView::LoopBr { value, loop_scope_id } => {
            lemma_eval_expr_orderly(program, *value, state, fuel, answers);
        },
        ExprView::Cond { condition, arm_true, arm_false } => {
            lemma_eval_expr_orderly(program, *condition, state, fuel, answers);
            let tested = eval_expr(program, *condition, state, fuel, answers);
            match tested.result {
                Ok(ExecReturnView::Value(ValueView::Bool(holds))) => {
                    if holds {
                        lemma_eval_expr_orderly(program, *arm_true, tested.state, fuel, answers);
                        let taken = eval_expr(program, *arm_true, tested.state, fuel, answers);
                        lemma_orderly_chain(state, tested.state, taken.state, taken.result is Ok);
                    } else {
                        match arm_false {
                            Some(otherwise) => {
                                lemma_eval_expr_orderly(
                                    program,
                                    *otherwise,
                                    tested.state,
                                    fuel,
                                    answers,
                                );
                                let taken = eval_expr(
                                    program,
                                    *otherwise,
                                    tested.state,
                                    fuel,
                                    answers,
                                );
                                lemma_orderly_chain(
                                    state,
                                    tested.state,
                                    taken.state,
                                    taken.result is Ok,
                                );
                            },
                            None => {},
                        }
                    }
                },
                _ => {},
            }
        },
    }
}

/// Writing the value of an orderly step is orderly.
pub proof fn lemma_written_orderly(before: RuntimeView, outcome: Outcome, id: Id)
    requires
        orderly(before, outcome.state, outcome.result is Ok),
    ensures
        orderly(before, outcome.written_to(id).state, outcome.written_to(id).result is Ok),
{
    match outcome.result {
        Ok(ExecReturnView::Value(value)) => {
            lemma_assigned_keeps_frames(outcome.state.stack, id, value);
            match assigned(outcome.state.stack, id, value) {
                Some(stack) => {
                    lemma_orderly_chain(
                        before,
                        outcome.state,
                        outcome.state.with_stack(stack),
                        true,
                    );
                },
                None => {},
            }
        },
        _ => {},
    }
}

/// The call of a function is orderly.
pub proof fn lemma_eval_call_orderly(
    program: ProgramView,
    executor: ExecutorView,
    arguments: Seq<ValueView>,
    state: RuntimeView,
    fuel: nat,
    answers: Seq<Result<ValueView, NativeFault>>,
)
    ensures
        orderly(
            state,
            eval_call(program, executor, arguments, state, fuel, answers).state,
            eval_call(program, executor, arguments, state, fuel, answers).result is Ok,
        ),
    decreases fuel, 1int, arguments,
{
    match executor {
        ExecutorView::Native(native) => {},
        ExecutorView::Constructed { parameter_ids, body_scope_id } => {
            lemma_eval_scope_orderly(
                program,
                body_scope_id,
                paired(parameter_ids, arguments),
                state,
                fuel,
                answers,
            );
        },
    }
}

/// The evaluation of the arguments of a call is orderly.
pub proof fn lemma_eval_args_orderly(
    program: ProgramView,
    arguments: Seq<ExprView>,
    state: RuntimeView,
    fuel: nat,
    answers: Seq<Result<ValueView, NativeFault>>,
)
    ensures
        orderly(
            state,
            eval_args(program, arguments, state, fuel, answers).state,
            eval_args(program, arguments, state, fuel, answers).result is Ok,
        ),
    decreases fuel, 2int, arguments,
{
    if arguments.len() > 0 {
        lemma_eval_args_orderly(program, arguments.drop_last(), state, fuel, answers);
        let before = eval_args(program, arguments.drop_last(), state, fuel, answers);
        match before.result {
            Ok(GatheredView::Values(values)) => {
                lemma_eval_expr_orderly(program, arguments.last(), before.state, fuel, answers);
                let last = eval_expr(program, arguments.last(), before.state, fuel, answers);
                lemma_orderly_chain(state, before.state, last.state, last.result is Ok);
            },
            _ => {},
        }
    }
}

/// The evaluation of the statements of a scope is orderly.
pub proof fn lemma_eval_block_orderly(
    program: ProgramView,
    statements: Seq<ExprView>,
    state: RuntimeView,
    fuel: nat,
    answers: Seq<Result<ValueView, NativeFault>>,
)
    ensures
        orderly(
            state,
            eval_block(program, statements, state, fuel, answers).state,
            eval_block(program, statements, state, fuel, answers).result is Ok,
        ),
    decreases fuel, 2int, statements,
{
    if statements.len() > 0 {
        lemma_eval_block_orderly(program, statements.drop_last(), state, fuel, answers);
        let before = eval_block(program, statements.drop_last(), state, fuel, answers);
        match before.result {
            Ok(ExecReturnView::Value(_)) => {
                lemma_eval_expr_orderly(program, statements.last(), before.state, fuel, answers);
                let last = eval_expr(program, statements.last(), before.state, fuel, answers);
                lemma_orderly_chain(state, before.state, last.state, last.result is Ok);
            },
            _ => {},
        }
    }
}

/// Frames are removed in the order in which they were added. One execution of
/// a scope is orderly: the frame that it adds is gone when the scope ends,
/// with a value or with an unwind, and the frames below it are those of
/// before.
pub proof fn lemma_eval_scope_orderly(
    program: ProgramView,
    scope_id: Id,
    bindings: Seq<(Id, ValueView)>,
    state: RuntimeView,
    fuel: nat,
    answers: Seq<Result<ValueView, NativeFault>>,
)
    ensures
        orderly(
            state,
            eval_scope(program, scope_id, bindings, state, fuel, answers).state,
            eval_scope(program, scope_id, bindings, state, fuel, answers).result is Ok,
        ),
    decreases fuel, 0int, bindings,
{
    if program.scopes.contains_key(scope_id) && fuel > 0 {
        let scope = program.scopes[scope_id];
        let entered = state.pushed(frame_for(scope, bindings));
        lemma_eval_block_orderly(program, scope.expressions, entered, (fuel - 1) as nat, answers);
        let ended = eval_block(program, scope.expressions, entered, (fuel - 1) as nat, answers);
        if ended.result is Ok {
            let left = ended.state.popped();
            assert forall|i: int| 0 <= i < state.stack.len() implies (
            #[trigger] left.stack[i]).scope_id == state.stack[i].scope_id
                && left.stack[i].variables.dom() == state.stack[i].variables.dom() by {
                assert(ended.state.stack[i].scope_id == entered.stack[i].scope_id);
            }
        }
    }
}

/// A loop is orderly.
pub proof fn lemma_eval_loop_orderly(
    program: ProgramView,
    body_scope_id: Id,
    state: RuntimeView,
    fuel: nat,
    answers: Seq<Result<ValueView, NativeFault>>,
)
    ensures
        orderly(
            state,
            eval_loop(program, body_scope_id, state, fuel, answers).state,
            eval_loop(program, body_scope_id, state, fuel, answers).result is Ok,
        ),
    decreases fuel, 0int, state.stack,
{
    if fuel > 0 {
        lemma_eval_scope_orderly(
            program,
            body_scope_id,
            Seq::empty(),
            state,
            (fuel - 1) as nat,
            answers,
        );
        let iteration = eval_scope(
            program,
            body_scope_id,
            Seq::empty(),
            state,
            (fuel - 1) as nat,
            answers,
        );
        match iteration.result {
            Ok(ExecReturnView::Value(_)) => {
                lemma_eval_loop_orderly(
                    program,
                    body_scope_id,
                    iteration.state,
                    (fuel - 1) as nat,
                    answers,
                );
                let rest = eval_loop(
                    program,
                    body_scope_id,
                    iteration.state,
                    (fuel - 1) as nat,
                    answers,
                );
                lemma_orderly_chain(state, iteration.state, rest.state, rest.result is Ok);
            },
            _ => {},
        }
    }
}

impl Outcome {
    /// Whether the evaluation was aborted for want of fuel.
    pub open spec fn exhausted(self) -> bool {
        self.result == Err::<ExecReturnView, RuntimeError>(RuntimeError::FuelExhausted)
    }
}

impl ArgsOutcome {
    /// Whether the evaluation was aborted for want of fuel.
    pub open spec fn exhausted(self) -> bool {
        self.result == Err::<GatheredView, RuntimeError>(RuntimeError::FuelExhausted)
    }
}

/// Fuel decides nothing but whether an evaluation is aborted. An evaluation
/// that was not aborted for want of fuel goes the same way, with the same
/// outcome, on any larger amount of fuel.
pub proof fn lemma_eval_expr_more_fuel(
    program: ProgramView,
    expression: ExprView,
    state: RuntimeView,
    fuel: nat,
    more: nat,
    answers: Seq<Result<ValueView, NativeFault>>,
)
    requires
        fuel <= more,
        !eval_expr(program, expression, state, fuel, answers).exhausted(),
    ensures
        eval_expr(program, expression, state, more, answers) == eval_expr(
            program,
            expression,
            state,
            fuel,
            answers,
        ),
    decreases fuel, 2int, expression,
{
    match expression {
        ExprView::Scope(scope_id) => {
            lemma_eval_scope_more_fuel(program, scope_id, Seq::empty(), state, fuel, more, answers);
        },
        ExprView::Literal(value) => {},
        ExprView::VarDef { variable_id, value } => {
            lemma_eval_expr_more_fuel(program, *value, state, fuel, more, answers);
        },
        ExprView::VarAssign { variable_id, value } => {
            lemma_eval_expr_more_fuel(program, *value, state, fuel, more, answers);
        },
        ExprView::VarCall { variable_id } => {},
        ExprView::FnDef { parameter_ids, body_scope_id } => {},
        ExprView::FnCall { variable_id, arguments } => {
            lemma_eval_args_more_fuel(program, arguments, state, fuel, more, answers);
            let gathered = eval_args(program, arguments, state, fuel, answers);
            match gathered.result {
                Ok(GatheredView::Values(values)) => match lookup(
                    gathered.state.stack,
                    variable_id,
                ) {
                    Some(ValueView::Function(function)) => {
                        lemma_eval_call_more_fuel(
                            program,
                            function.executor,
                            values,
                            gathered.state,
                            fuel,
                            more,
                            answers,
                        );
                    },
                    _ => {},
                },
                _ => {},
            }
        },
        ExprView::FnRet { value, function_scope_id } => {
            lemma_eval_expr_more_fuel(program, *value, state, fuel, more, answers);
        },
        ExprView::Loop { body_scope_id } => {
            lemma_eval_loop_more_fuel(program, body_scope_id, state, fuel, more, answers);
        },
        ExprView::LoopBr { value, loop_scope_id } => {
            lemma_eval_expr_more_fuel(program, *value, state, fuel, more, answers);
        },
        ExprView::Cond { condition, arm_true, arm_false } => {
            lemma_eval_expr_more_fuel(program, *condition, state, fuel, more, answers);
            let tested = eval_expr(program, *condition, state, fuel, answers);
            match tested.result {
                Ok(ExecReturnView::Value(ValueView::Bool(holds))) => {
                    if holds {
                        lemma_eval_expr_more_fuel(
                            program,
                            *arm_true,
                            tested.state,
                            fuel,
                            more,
                            answers,
                        );
                    } else {
                        match arm_false {
                            Some(otherwise) => {
                                lemma_eval_expr_more_fuel(
                                    program,
                                    *otherwise,
                                    tested.state,
                                    fuel,
                                    more,
                                    answers,
                                );
                            },
                            None => {},
                        }
                    }
                },
                _ => {},
            }
        },
    }
}

/// A call that was not aborted for want of fuel goes the same way on more.
pub proof fn lemma_eval_call_more_fuel(
    program: ProgramView,
    executor: ExecutorView,
    arguments: Seq<ValueView>,
    state: RuntimeView,
    fuel: nat,
    more: nat,
    answers: Seq<Result<ValueView, NativeFault>>,
)
    requires
        fuel <= more,
        !eval_call(program, executor, arguments, state, fuel, answers).exhausted(),
    ensures
        eval_call(program, executor, arguments, state, more, answers) == eval_call(
            program,
            executor,
            arguments,
            state,
            fuel,
            answers,
        ),
    decreases fuel, 1int, arguments,
{
    match executor {
        ExecutorView::Native(native) => {},
        ExecutorView::Constructed { parameter_ids, body_scope_id } => {
            lemma_eval_scope_more_fuel(
                program,
                body_scope_id,
                paired(parameter_ids, arguments),
                state,
                fuel,
                more,
                answers,
            );
        },
    }
}

/// Arguments whose evaluation was not aborted for want of fuel evaluate the
/// same way on more.
pub proof fn lemma_eval_args_more_fuel(
    program: ProgramView,
    arguments: Seq<ExprView>,
    state: RuntimeView,
    fuel: nat,
    more: nat,
    answers: Seq<Result<ValueView, NativeFault>>,
)
    requires
        fuel <= more,
        !eval_args(program, arguments, state, fuel, answers).exhausted(),
    ensures
        eval_args(program, arguments, state, more, answers) == eval_args(
            program,
            arguments,
            state,
            fuel,
            answers,
        ),
    decreases fuel, 2int, arguments,
{
    if arguments.len() > 0 {
        let before = eval_args(program, arguments.drop_last(), state, fuel, answers);
        lemma_eval_args_more_fuel(program, arguments.drop_last(), state, fuel, more, answers);
        match before.result {
            Ok(GatheredView::Values(values)) => {
                lemma_eval_expr_more_fuel(
                    program,
                    arguments.last(),
                    before.state,
                    fuel,
                    more,
                    answers,
                );
            },
            _ => {},
        }
    }
}

/// Statements whose evaluation was not aborted for want of fuel evaluate the
/// same way on more.
pub proof fn lemma_eval_block_more_fuel(
    program: ProgramView,
    statements: Seq<ExprView>,
    state: RuntimeView,
    fuel: nat,
    more: nat,
    answers: Seq<Result<ValueView, NativeFault>>,
)
    requires
        fuel <= more,
        !eval_block(program, statements, state, fuel, answers).exhausted(),
    ensures
        eval_block(program, statements, state, more, answers) == eval_block(
            program,
            statements,
            state,
            fuel,
            answers,
        ),
    decreases fuel, 2int, statements,
{
    if statements.len() > 0 {
        let before = eval_block(program, statements.drop_last(), state, fuel, answers);
        lemma_eval_block_more_fuel(program, statements.drop_last(), state, fuel, more, answers);
        match before.result {
            Ok(ExecReturnView::Value(_)) => {
                lemma_eval_expr_more_fuel(
                    program,
                    statements.last(),
                    before.state,
                    fuel,
                    more,
                    answers,
                );
            },
            _ => {},
        }
    }
}

/// A scope whose execution was not aborted for want of fuel executes the same
/// way on more.
pub proof fn lemma_eval_scope_more_fuel(
    program: ProgramView,
    scope_id: Id,
    bindings: Seq<(Id, ValueView)>,
    state: RuntimeView,
    fuel: nat,
    more: nat,
    answers: Seq<Result<ValueView, NativeFault>>,
)
    requires
        fuel <= more,
        !eval_scope(program, scope_id, bindings, state, fuel, answers).exhausted(),
    ensures
        eval_scope(program, scope_id, bindings, state, more, answers) == eval_scope(
            program,
            scope_id,
            bindings,
            state,
            fuel,
            answers,
        ),
    decreases fuel, 0int, bindings,
{
    if program.scopes.contains_key(scope_id) {
        let scope = program.scopes[scope_id];
        lemma_eval_block_more_fuel(
            program,
            scope.expressions,
            state.pushed(frame_for(scope, bindings)),
            (fuel - 1) as nat,
            (more - 1) as nat,
            answers,
        );
    }
}

/// A loop that was not aborted for want of fuel goes the same way on more.
pub proof fn lemma_eval_loop_more_fuel(
    program: ProgramView,
    body_scope_id: Id,
    state: RuntimeView,
    fuel: nat,
    more: nat,
    answers: Seq<Result<ValueView, NativeFault>>,
)
    requires
        fuel <= more,
        !eval_loop(program, body_scope_id, state, fuel, answers).exhausted(),
    ensures
        eval_loop(program, body_scope_id, state, more, answers) == eval_loop(
            program,
            body_scope_id,
            state,
            fuel,
            answers,
        ),
    decreases fuel, 0int, state.stack,
{
    let iteration = eval_scope(
        program,
        body_scope_id,
        Seq::empty(),
        state,
        (fuel - 1) as nat,
        answers,
    );
    lemma_eval_scope_more_fuel(
        program,
        body_scope_id,
        Seq::empty(),
        state,
        (fuel - 1) as nat,
        (more - 1) as nat,
        answers,
    );
    match iteration.result {
        Ok(ExecReturnView::Value(_)) => {
            lemma_eval_loop_more_fuel(
                program,
                body_scope_id,
                iteration.state,
                (fuel - 1) as nat,
                (more - 1) as nat,
                answers,
            );
        },
        _ => {},
    }
}

/// What is written to a variable is what is read from it, until it is written
/// again; every other variable reads as before.
pub proof fn lemma_read_after_write(stack: Seq<FrameView>, id: Id, value: ValueView, other: Id)
    ensures
        assigned(stack, id, value) matches Some(after) ==> lookup(after, id) == Some(value) && (
        other != id ==> lookup(after, other) == lookup(stack, other)),
        assigned(stack, id, value).is_none() <==> lookup(stack, id).is_none(),
    decreases stack.len(),
{
    lemma_holder_holds(stack, id);
    if let Some(after) = assigned(stack, id, value) {
        lemma_assigned_keeps_frames(stack, id, value);
        lemma_holder_of_same_frames(stack, after, id);
        lemma_holder_of_same_frames(stack, after, other);
        lemma_holder_holds(stack, other);
    }
}

/// Which frame holds a variable depends on the frames and their variables,
/// not on the values.
pub proof fn lemma_holder_of_same_frames(before: Seq<FrameView>, after: Seq<FrameView>, id: Id)
    requires
        same_frames(before, after),
    ensures
        holder(after, id) == holder(before, id),
    decreases before.len(),
{
    if before.len() > 0 {
        assert(after[after.len() - 1].variables.dom() == before[before.len() - 1].variables.dom());
        assert(after.last().variables.contains_key(id) == before.last().variables.contains_key(
            id,
        ));
        if !before.last().variables.contains_key(id) {
            assert forall|i: int| 0 <= i < before.drop_last().len() implies (
            #[trigger] after.drop_last()[i]).scope_id == before.drop_last()[i].scope_id
                && after.drop_last()[i].variables.dom() == before.drop_last()[i].variables.dom() by {
                assert(after[i].scope_id == before[i].scope_id);
            }
            lemma_holder_of_same_frames(before.drop_last(), after.drop_last(), id);
        }
    }
}

} // verus!
