//! What evaluation means: the mathematical description that the runtime is
//! proved against.
//!
//! Evaluation is described for a given budget of nested scope entries and loop
//! iterations, and for given answers of the host to the native calls that the
//! program makes, in the order in which it makes them.

use vstd::prelude::*;
use crate::execution_tree::{ExprView, Id, ProgramView, ScopeView};
use crate::value::ValueView;
use crate::value::function::{ExecutorView, FunctionView, NativeFault, NativeId};

verus! {

/// A broken invariant of the execution tree. A tree that the resolver built
/// and that is run as a whole does not cause one, but for a function value
/// that is called after the scope that declared its free variables has ended.
#[derive(Debug, Clone, Copy, PartialEq, Eq, Structural)]
pub enum InternalFault {
    /// No active frame holds the variable.
    UnknownVariable(Id),
    /// The execution tree holds no scope under the identifier.
    UnknownScope(Id),
    /// A `return` or a `break` left the main scope without meeting its target.
    StrayUnwind(Id),
}

/// Why an evaluation was aborted.
#[derive(Debug, Clone, Copy, PartialEq, Eq, Structural)]
pub enum RuntimeError {
    /// A value that is not a function was called.
    NotAFunction,
    /// The condition of a conditional is not a boolean.
    NonBooleanCondition,
    /// A native function failed.
    Native(NativeFault),
    /// The execution tree is not well formed.
    Internal(InternalFault),
    /// The budget of nested scopes and loop iterations is used up.
    FuelExhausted,
}

/// What a frame stands for: the scope it was made for and the values of the
/// variables it holds.
pub struct FrameView {
    pub scope_id: Id,
    pub variables: Map<Id, ValueView>,
}

/// One call of a native function: what was asked of the host, and what it
/// answered.
pub struct NativeCall {
    pub native: NativeId,
    pub arguments: Seq<ValueView>,
    pub answer: Result<ValueView, NativeFault>,
}

/// What a runtime stands for: its frames, innermost last, and the native calls
/// it has made so far.
pub struct RuntimeView {
    pub stack: Seq<FrameView>,
    pub calls: Seq<NativeCall>,
}

/// How an evaluation step ended: with a value, or with a value that unwinds to
/// a scope.
pub enum ExecReturnView {
    Value(ValueView),
    ShortCircuit { value: ValueView, destination_scope_id: Id },
}

/// The result of an evaluation step and the runtime it leaves.
pub struct Outcome {
    pub result: Result<ExecReturnView, RuntimeError>,
    pub state: RuntimeView,
}

/// What the evaluation of the arguments of a call gave: all their values, or
/// the unwind that one of them caused.
pub enum GatheredView {
    Values(Seq<ValueView>),
    ShortCircuit { value: ValueView, destination_scope_id: Id },
}

/// The result of evaluating the arguments of a call and the runtime it leaves.
pub struct ArgsOutcome {
    pub result: Result<GatheredView, RuntimeError>,
    pub state: RuntimeView,
}

/// The variables of a fresh frame: each of `ids` holds `none`.
pub open spec fn unset(ids: Seq<Id>) -> Map<Id, ValueView> {
    Map::new(|id: Id| ids.contains(id), |id: Id| ValueView::Nil)
}

/// `variables` after `bindings` were written in order; a later binding of an
/// identifier replaces an earlier one.
pub open spec fn bound(variables: Map<Id, ValueView>, bindings: Seq<(Id, ValueView)>) -> Map<
    Id,
    ValueView,
>
    decreases bindings.len(),
{
    if bindings.len() == 0 {
        variables
    } else {
        bound(variables, bindings.drop_last()).insert(bindings.last().0, bindings.last().1)
    }
}

/// The frame that an execution of `scope` starts with: every variable the scope
/// declares holds `none`, then `bindings` are written.
pub open spec fn frame_for(scope: ScopeView, bindings: Seq<(Id, ValueView)>) -> FrameView {
    FrameView { scope_id: scope.scope_id, variables: bound(unset(scope.local_variables), bindings) }
}

/// The position of the innermost frame that holds `id`.
pub open spec fn holder(stack: Seq<FrameView>, id: Id) -> Option<int>
    decreases stack.len(),
{
    if stack.len() == 0 {
        None
    } else if stack.last().variables.contains_key(id) {
        Some(stack.len() - 1)
    } else {
        holder(stack.drop_last(), id)
    }
}

/// The value of `id`: what the innermost frame that holds it holds for it.
pub open spec fn lookup(stack: Seq<FrameView>, id: Id) -> Option<ValueView> {
    match holder(stack, id) {
        Some(i) => Some(stack[i].variables[id]),
        None => None,
    }
}

/// The stack after `value` was written to `id` in the innermost frame that
/// holds it.
pub open spec fn assigned(stack: Seq<FrameView>, id: Id, value: ValueView) -> Option<
    Seq<FrameView>,
> {
    match holder(stack, id) {
        Some(i) => Some(
            stack.update(
                i,
                FrameView {
                    scope_id: stack[i].scope_id,
                    variables: stack[i].variables.insert(id, value),
                },
            ),
        ),
        None => None,
    }
}

/// The parameters bound to the arguments, position by position, as far as both
/// reach.
pub open spec fn paired(parameter_ids: Seq<Id>, arguments: Seq<ValueView>) -> Seq<
    (Id, ValueView),
> {
    Seq::new(
        if parameter_ids.len() <= arguments.len() {
            parameter_ids.len()
        } else {
            arguments.len()
        },
        |i: int| (parameter_ids[i], arguments[i]),
    )
}

/// Whether `answers` begins with the answers that the host gave in `calls`.
pub open spec fn answered(answers: Seq<Result<ValueView, NativeFault>>, calls: Seq<NativeCall>) -> bool {
    &&& calls.len() <= answers.len()
    &&& forall|i: int| 0 <= i < calls.len() ==> answers[i] == (#[trigger] calls[i]).answer
}

impl RuntimeView {
    /// A runtime with no frame that has made no call.
    pub open spec fn fresh() -> Self {
        RuntimeView { stack: Seq::empty(), calls: Seq::empty() }
    }

    pub open spec fn with_stack(self, stack: Seq<FrameView>) -> Self {
        RuntimeView { stack, ..self }
    }

    pub open spec fn pushed(self, frame: FrameView) -> Self {
        RuntimeView { stack: self.stack.push(frame), ..self }
    }

    pub open spec fn popped(self) -> Self {
        RuntimeView { stack: self.stack.drop_last(), ..self }
    }

    /// This runtime after the host was called and gave `answer`.
    pub open spec fn called(
        self,
        native: NativeId,
        arguments: Seq<ValueView>,
        answer: Result<ValueView, NativeFault>,
    ) -> Self {
        RuntimeView { calls: self.calls.push(NativeCall { native, arguments, answer }), ..self }
    }
}

impl Outcome {
    pub open spec fn value(value: ValueView, state: RuntimeView) -> Self {
        Outcome { result: Ok(ExecReturnView::Value(value)), state }
    }

    pub open spec fn unwind(value: ValueView, destination_scope_id: Id, state: RuntimeView) -> Self {
        Outcome { result: Ok(ExecReturnView::ShortCircuit { value, destination_scope_id }), state }
    }

    pub open spec fn failure(error: RuntimeError, state: RuntimeView) -> Self {
        Outcome { result: Err(error), state }
    }

    /// This outcome as seen from around the function or loop whose body is the
    /// scope `scope_id`: an unwind that targets that scope ends there and
    /// leaves its value; every other outcome passes unchanged.
    pub open spec fn intercepted_at(self, scope_id: Id) -> Self {
        match self.result {
            Ok(ExecReturnView::ShortCircuit { value, destination_scope_id }) => {
                if destination_scope_id == scope_id {
                    Outcome::value(value, self.state)
                } else {
                    self
                }
            },
            _ => self,
        }
    }

    /// This outcome of a value as the outcome of the `return` or `break` of
    /// that value to `scope_id`. An unwind or a failure of the value passes
    /// unchanged.
    pub open spec fn unwinding_to(self, scope_id: Id) -> Self {
        match self.result {
            Ok(ExecReturnView::Value(value)) => Outcome::unwind(value, scope_id, self.state),
            _ => self,
        }
    }

    /// This outcome of a value after the value was written to `id`.
    pub open spec fn written_to(self, id: Id) -> Self {
        match self.result {
            Ok(ExecReturnView::Value(value)) => match assigned(self.state.stack, id, value) {
                Some(stack) => Outcome::value(value, self.state.with_stack(stack)),
                None => Outcome::failure(
                    RuntimeError::Internal(InternalFault::UnknownVariable(id)),
                    self.state,
                ),
            },
            _ => self,
        }
    }

    /// This outcome of the statements of a scope as the outcome of the scope:
    /// unless the evaluation was aborted, the frame of the scope is removed.
    pub open spec fn left(self) -> Self {
        match self.result {
            Ok(_) => Outcome { result: self.result, state: self.state.popped() },
            Err(_) => self,
        }
    }
}

/// The evaluation of one expression.
pub open spec fn eval_expr(
    program: ProgramView,
    expression: ExprView,
    state: RuntimeView,
    fuel: nat,
    answers: Seq<Result<ValueView, NativeFault>>,
) -> Outcome
    decreases fuel, 2int, expression,
{
    match expression {
        ExprView::Scope(scope_id) => eval_scope(
            program,
            scope_id,
            Seq::empty(),
            state,
            fuel,
            answers,
        ),
        ExprView::Literal(value) => Outcome::value(value, state),
        ExprView::VarDef { variable_id, value } => eval_expr(
            program,
            *value,
            state,
            fuel,
            answers,
        ).written_to(variable_id),
        ExprView::VarAssign { variable_id, value } => eval_expr(
            program,
            *value,
            state,
            fuel,
            answers,
        ).written_to(variable_id),
        ExprView::VarCall { variable_id } => match lookup(state.stack, variable_id) {
            Some(value) => Outcome::value(value, state),
            None => Outcome::failure(
                RuntimeError::Internal(InternalFault::UnknownVariable(variable_id)),
                state,
            ),
        },
        ExprView::FnDef { parameter_ids, body_scope_id } => Outcome::value(
            ValueView::Function(
                FunctionView {
                    argument_count: parameter_ids.len(),
                    executor: ExecutorView::Constructed { parameter_ids, body_scope_id },
                },
            ),
            state,
        ),
        ExprView::FnCall { variable_id, arguments } => {
            let gathered = eval_args(program, arguments, state, fuel, answers);
            match gathered.result {
                Err(e) => Outcome::failure(e, gathered.state),
                Ok(GatheredView::ShortCircuit { value, destination_scope_id }) => Outcome::unwind(
                    value,
                    destination_scope_id,
                    gathered.state,
                ),
                Ok(GatheredView::Values(values)) => match lookup(
                    gathered.state.stack,
                    variable_id,
                ) {
                    None => Outcome::failure(
                        RuntimeError::Internal(InternalFault::UnknownVariable(variable_id)),
                        gathered.state,
                    ),
                    Some(ValueView::Function(function)) => eval_call(
                        program,
                        function.executor,
                        values,
                        gathered.state,
                        fuel,
                        answers,
                    ),
                    Some(_) => Outcome::failure(RuntimeError::NotAFunction, gathered.state),
                },
            }
        },
        ExprView::FnRet { value, function_scope_id } => eval_expr(
            program,
            *value,
            state,
            fuel,
            answers,
        ).unwinding_to(function_scope_id),
        ExprView::Loop { body_scope_id } => eval_loop(program, body_scope_id, state, fuel, answers),
        ExprView::LoopBr { value, loop_scope_id } => eval_expr(
            program,
            *value,
            state,
            fuel,
            answers,
        ).unwinding_to(loop_scope_id),
        ExprView::Cond { condition, arm_true, arm_false } => {
            let tested = eval_expr(program, *condition, state, fuel, answers);
            match tested.result {
                Ok(ExecReturnView::Value(ValueView::Bool(holds))) => {
                    if holds {
                        eval_expr(program, *arm_true, tested.state, fuel, answers)
                    } else {
                        match arm_false {
                            Some(otherwise) => eval_expr(
                                program,
                                *otherwise,
                                tested.state,
                                fuel,
                                answers,
                            ),
                            None => Outcome::value(ValueView::Bool(false), tested.state),
                        }
                    }
                },
                Ok(ExecReturnView::Value(_)) => Outcome::failure(
                    RuntimeError::NonBooleanCondition,
                    tested.state,
                ),
                _ => tested,
            }
        },
    }
}

/// The call of a function with the values of its arguments.
///
/// A native function is asked of the host: its answer is the next of
/// `answers`. A constructed function runs its body with the parameters bound
/// to the arguments; a `return` that targets the body ends there.
pub open spec fn eval_call(
    program: ProgramView,
    executor: ExecutorView,
    arguments: Seq<ValueView>,
    state: RuntimeView,
    fuel: nat,
    answers: Seq<Result<ValueView, NativeFault>>,
) -> Outcome
    decreases fuel, 1int, arguments,
{
    match executor {
        ExecutorView::Native(native) => {
            let answer = answers[state.calls.len() as int];
            let state = state.called(native, arguments, answer);
            match answer {
                Ok(value) => Outcome::value(value, state),
                Err(fault) => Outcome::failure(RuntimeError::Native(fault), state),
            }
        },
        ExecutorView::Constructed { parameter_ids, body_scope_id } => eval_scope(
            program,
            body_scope_id,
            paired(parameter_ids, arguments),
            state,
            fuel,
            answers,
        ).intercepted_at(body_scope_id),
    }
}

/// The evaluation of the arguments of a call, from the left. The first unwind
/// or failure ends it.
pub open spec fn eval_args(
    program: ProgramView,
    arguments: Seq<ExprView>,
    state: RuntimeView,
    fuel: nat,
    answers: Seq<Result<ValueView, NativeFault>>,
) -> ArgsOutcome
    decreases fuel, 2int, arguments,
{
    if arguments.len() == 0 {
        ArgsOutcome { result: Ok(GatheredView::Values(Seq::empty())), state }
    } else {
        let before = eval_args(program, arguments.drop_last(), state, fuel, answers);
        match before.result {
            Ok(GatheredView::Values(values)) => {
                let last = eval_expr(program, arguments.last(), before.state, fuel, answers);
                match last.result {
                    Ok(ExecReturnView::Value(value)) => ArgsOutcome {
                        result: Ok(GatheredView::Values(values.push(value))),
                        state: last.state,
                    },
                    Ok(ExecReturnView::ShortCircuit { value, destination_scope_id }) => ArgsOutcome {
                        result: Ok(GatheredView::ShortCircuit { value, destination_scope_id }),
                        state: last.state,
                    },
                    Err(e) => ArgsOutcome { result: Err(e), state: last.state },
                }
            },
            _ => before,
        }
    }
}

/// The evaluation of the statements of a scope, in order. The first unwind or
/// failure ends it; otherwise the value is that of the last statement, or
/// `none` where there is no statement.
pub open spec fn eval_block(
    program: ProgramView,
    statements: Seq<ExprView>,
    state: RuntimeView,
    fuel: nat,
    answers: Seq<Result<ValueView, NativeFault>>,
) -> Outcome
    decreases fuel, 2int, statements,
{
    if statements.len() == 0 {
        Outcome::value(ValueView::Nil, state)
    } else {
        let before = eval_block(program, statements.drop_last(), state, fuel, answers);
        match before.result {
            Ok(ExecReturnView::Value(_)) => eval_expr(
                program,
                statements.last(),
                before.state,
                fuel,
                answers,
            ),
            _ => before,
        }
    }
}

/// One execution of the scope `scope_id`: a frame for it is added, with
/// `bindings` written to it; its statements are evaluated; the frame is
/// removed. Entering the scope takes one unit of `fuel`.
pub open spec fn eval_scope(
    program: ProgramView,
    scope_id: Id,
    bindings: Seq<(Id, ValueView)>,
    state: RuntimeView,
    fuel: nat,
    answers: Seq<Result<ValueView, NativeFault>>,
) -> Outcome
    decreases fuel, 0int, bindings,
{
    if !program.scopes.contains_key(scope_id) {
        Outcome::failure(RuntimeError::Internal(InternalFault::UnknownScope(scope_id)), state)
    } else if fuel == 0 {
        Outcome::failure(RuntimeError::FuelExhausted, state)
    } else {
        let scope = program.scopes[scope_id];
        eval_block(
            program,
            scope.expressions,
            state.pushed(frame_for(scope, bindings)),
            (fuel - 1) as nat,
            answers,
        ).left()
    }
}

/// A loop over the scope `body_scope_id`: the body is executed again and again
/// until it unwinds or fails. A `break` that targets the body ends the loop
/// and leaves its value; the value of an iteration that ends normally is
/// dropped. Each iteration takes one unit of `fuel`.
pub open spec fn eval_loop(
    program: ProgramView,
    body_scope_id: Id,
    state: RuntimeView,
    fuel: nat,
    answers: Seq<Result<ValueView, NativeFault>>,
) -> Outcome
    decreases fuel, 0int, state.stack,
{
    if fuel == 0 {
        Outcome::failure(RuntimeError::FuelExhausted, state)
    } else {
        let iteration = eval_scope(
            program,
            body_scope_id,
            Seq::empty(),
            state,
            (fuel - 1) as nat,
            answers,
        );
        match iteration.result {
            Ok(ExecReturnView::Value(_)) => eval_loop(
                program,
                body_scope_id,
                iteration.state,
                (fuel - 1) as nat,
                answers,
            ),
            _ => iteration.intercepted_at(body_scope_id),
        }
    }
}

/// The run of a whole program: one execution of its main scope, whose value is
/// the program's. An unwind that leaves the main scope is a fault of the tree.
pub open spec fn eval_program(
    program: ProgramView,
    state: RuntimeView,
    fuel: nat,
    answers: Seq<Result<ValueView, NativeFault>>,
) -> (Result<ValueView, RuntimeError>, RuntimeView) {
    let outcome = eval_scope(program, program.main_scope_id, Seq::empty(), state, fuel, answers);
    match outcome.result {
        Ok(ExecReturnView::Value(value)) => (Ok(value), outcome.state),
        Ok(ExecReturnView::ShortCircuit { value, destination_scope_id }) => (
            Err(RuntimeError::Internal(InternalFault::StrayUnwind(destination_scope_id))),
            outcome.state,
        ),
        Err(e) => (Err(e), outcome.state),
    }
}

} // verus!
