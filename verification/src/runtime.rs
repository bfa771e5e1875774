//! The tree-walking runtime.

use vstd::prelude::*;
use crate::execution_tree::{
    Cond,
    Expr,
    ExprInner,
    ExprView,
    FnCall,
    FnDef,
    FnRet,
    Id,
    Literal,
    Loop,
    LoopBr,
    Program,
    Scope,
    VarAssign,
    VarCall,
    VarDef,
};
use crate::execution_tree::{expr_of, lemma_views_of, views_of};
use crate::runtime::semantics::{
    answered,
    assigned,
    bound,
    eval_args,
    eval_block,
    eval_call,
    eval_expr,
    eval_loop,
    eval_program,
    eval_scope,
    frame_for,
    holder,
    lookup,
    paired,
    unset,
    ArgsOutcome,
    ExecReturnView,
    FrameView,
    GatheredView,
    InternalFault,
    NativeCall,
    Outcome,
    RuntimeError,
    RuntimeView,
};
use crate::value::function::{ExecutorView, FunctionView, NativeFault};
use crate::value::{answer_of, values_of, Value, ValueView};
use crate::value::function::{
    ConstructedFunctionExecutor,
    Function,
    FunctionExecutor,
    NativeFunctionExecutor,
    NativeId,
};

pub mod laws;
pub mod routing;
pub mod semantics;

verus! {

broadcast use vstd::std_specs::hash::group_hash_axioms;

/// Collects the bindings that a frame starts with, on top of the variables of
/// its scope.
pub struct FrameBuilder {
    variables: Vec<(Id, Value)>,
}

impl View for FrameBuilder {
    type V = Seq<(Id, ValueView)>;

    /// The bindings collected so far, in the order in which they were given.
    closed spec fn view(&self) -> Seq<(Id, ValueView)> {
        Seq::new(self.variables@.len(), |i: int| (self.variables@[i].0, self.variables@[i].1@))
    }
}

impl FrameBuilder {
    /// A builder that holds no binding.
    pub fn new() -> (builder: Self)
        ensures
            builder@ == Seq::<(Id, ValueView)>::empty(),
    {
        FrameBuilder { variables: Vec::new() }
    }

    /// Binds `variable_id` to `default`, after the bindings given before.
    pub fn variable(&mut self, variable_id: &Id, default: Value)
        ensures
            final(self)@ == old(self)@.push((*variable_id, default@)),
    {
        self.variables.push((*variable_id, default));
    }
}

/// The storage of the variables of one scope that is being executed.
pub struct Frame {
    _scope_id: Id,
    variables: Vec<(Id, Value)>,
}

/// The variables that `entries` hold: the value of a variable is that of its
/// last entry.
pub open spec fn variables_of(entries: Seq<(Id, Value)>) -> Map<Id, ValueView>
    decreases entries.len(),
{
    if entries.len() == 0 {
        Map::empty()
    } else {
        variables_of(entries.drop_last()).insert(entries.last().0, entries.last().1@)
    }
}

/// Whether the entry at `i` is the last entry of its variable.
spec fn last_entry(entries: Seq<(Id, Value)>, i: int) -> bool {
    &&& 0 <= i < entries.len()
    &&& forall|j: int| i < j < entries.len() ==> (#[trigger] entries[j]).0 != entries[i].0
}

/// The variables held are those of the entries.
proof fn lemma_variables_domain(entries: Seq<(Id, Value)>, id: Id)
    ensures
        variables_of(entries).contains_key(id) <==> exists|i: int|
            0 <= i < entries.len() && (#[trigger] entries[i]).0 == id,
    decreases entries.len(),
{
    if entries.len() > 0 {
        lemma_variables_domain(entries.drop_last(), id);
        if variables_of(entries).contains_key(id) {
            if entries.last().0 == id {
                assert(entries[entries.len() - 1].0 == id);
            } else {
                let i = choose|i: int|
                    0 <= i < entries.drop_last().len() && (#[trigger] entries.drop_last()[i]).0
                        == id;
                assert(entries[i].0 == id);
            }
        }
        if exists|i: int| 0 <= i < entries.len() && (#[trigger] entries[i]).0 == id {
            let i = choose|i: int| 0 <= i < entries.len() && (#[trigger] entries[i]).0 == id;
            if i < entries.len() - 1 {
                assert(entries.drop_last()[i].0 == id);
            }
        }
    }
}

/// The value of a variable is that of its last entry.
proof fn lemma_variables_at(entries: Seq<(Id, Value)>, i: int)
    requires
        last_entry(entries, i),
    ensures
        variables_of(entries).contains_key(entries[i].0),
        variables_of(entries)[entries[i].0] == entries[i].1@,
    decreases entries.len(),
{
    if i < entries.len() - 1 {
        assert(entries[entries.len() - 1].0 != entries[i].0);
        assert(last_entry(entries.drop_last(), i)) by {
            assert forall|j: int| i < j < entries.drop_last().len() implies (
            #[trigger] entries.drop_last()[j]).0 != entries.drop_last()[i].0 by {
                assert(entries[j].0 != entries[i].0);
            }
        }
        lemma_variables_at(entries.drop_last(), i);
        assert(entries.drop_last()[i] == entries[i]);
    }
}

/// Replacing the value of the last entry of a variable replaces the value of
/// the variable.
proof fn lemma_variables_replaced(entries: Seq<(Id, Value)>, i: int, value: Value)
    requires
        last_entry(entries, i),
    ensures
        variables_of(entries.update(i, (entries[i].0, value))) == variables_of(entries).insert(
            entries[i].0,
            value@,
        ),
    decreases entries.len(),
{
    let id = entries[i].0;
    let updated = entries.update(i, (id, value));
    if i == entries.len() - 1 {
        assert(updated.drop_last() == entries.drop_last());
        assert(variables_of(updated) =~= variables_of(entries).insert(id, value@));
    } else {
        assert(entries[entries.len() - 1].0 != id);
        assert(last_entry(entries.drop_last(), i)) by {
            assert forall|j: int| i < j < entries.drop_last().len() implies (
            #[trigger] entries.drop_last()[j]).0 != entries.drop_last()[i].0 by {
                assert(entries[j].0 != entries[i].0);
            }
        }
        lemma_variables_replaced(entries.drop_last(), i, value);
        assert(updated.drop_last() == entries.drop_last().update(i, (id, value)));
        assert(updated.last() == entries.last());
        assert(variables_of(updated) =~= variables_of(entries).insert(id, value@));
    }
}

impl View for Frame {
    type V = FrameView;

    closed spec fn view(&self) -> FrameView {
        FrameView { scope_id: self._scope_id, variables: variables_of(self.variables@) }
    }
}

impl Frame {
    /// The frame that an execution of `scope` starts with: every variable that
    /// the scope declares holds `none`, then the bindings of `builder` are
    /// written in order.
    pub fn new(scope: &Scope, builder: FrameBuilder) -> (frame: Self)
        ensures
            frame@ == frame_for(scope@, builder@),
    {
        let mut variables: Vec<(Id, Value)> = Vec::new();
        let mut i: usize = 0;
        assert(variables_of(variables@) =~= unset(scope.local_variables@.take(0)));
        while i < scope.local_variables.len()
            invariant
                i <= scope.local_variables.len(),
                variables_of(variables@) == unset(scope.local_variables@.take(i as int)),
            decreases scope.local_variables.len() - i,
        {
            let id = scope.local_variables[i];
            let ghost held = variables@;
            variables.push((id, Value::Nil));
            proof {
                let before = scope.local_variables@.take(i as int);
                let after = scope.local_variables@.take(i + 1);
                assert(after == before.push(id));
                assert forall|x: Id| after.contains(x) <==> (before.contains(x) || x == id) by {
                    if before.contains(x) {
                        let j = choose|j: int| 0 <= j < before.len() && before[j] == x;
                        assert(after[j] == x);
                    }
                    if x == id {
                        assert(after[i as int] == x);
                    }
                }
                assert(variables@.drop_last() == held);
                assert(variables_of(variables@) == unset(before).insert(id, ValueView::Nil));
                assert(unset(before).insert(id, ValueView::Nil) =~= unset(after));
            }
            i = i + 1;
        }
        assert(scope.local_variables@.take(i as int) == scope.local_variables@);
        let FrameBuilder { variables: bindings } = builder;
        let ghost given = builder@;
        let ghost base = variables_of(variables@);
        assert(given.take(0) == Seq::<(Id, ValueView)>::empty());
        for binding in it: bindings
            invariant
                it.seq() == bindings@,
                given.len() == bindings@.len(),
                forall|k: int|
                    0 <= k < given.len() ==> given[k] == (bindings@[k].0, bindings@[k].1@),
                variables_of(variables@) == bound(base, given.take(it.index() as int)),
        {
            proof {
                let next = given.take(it.index() + 1);
                assert(next.drop_last() == given.take(it.index() as int));
                assert(next.last() == (binding.0, binding.1@));
            }
            let ghost before = variables@;
            variables.push(binding);
            assert(variables@.drop_last() == before);
        }
        assert(given.take(given.len() as int) == given);
        Frame { _scope_id: scope.scope_id, variables }
    }

    /// The position of the last entry of `variable_id`.
    fn position(&self, variable_id: &Id) -> (found: Option<usize>)
        ensures
            match found {
                Some(i) => last_entry(self.variables@, i as int) && self.variables@[i as int].0
                    == *variable_id && self@.variables.contains_key(*variable_id),
                None => !self@.variables.contains_key(*variable_id),
            },
    {
        let mut i: usize = self.variables.len();
        while i > 0
            invariant
                i <= self.variables.len(),
                forall|j: int|
                    i <= j < self.variables@.len() ==> (#[trigger] self.variables@[j]).0
                        != *variable_id,
            decreases i,
        {
            i = i - 1;
            if self.variables[i].0 == *variable_id {
                proof {
                    lemma_variables_domain(self.variables@, *variable_id);
                }
                return Some(i);
            }
        }
        proof {
            lemma_variables_domain(self.variables@, *variable_id);
        }
        None
    }
}

/// The frames of the scopes that are being executed, innermost last.
pub struct Stack {
    frames: Vec<Frame>,
}

impl View for Stack {
    type V = Seq<FrameView>;

    closed spec fn view(&self) -> Seq<FrameView> {
        Seq::new(self.frames@.len(), |i: int| self.frames@[i]@)
    }
}

impl Stack {
    /// A stack without frames.
    pub fn new() -> (stack: Self)
        ensures
            stack@ == Seq::<FrameView>::empty(),
    {
        Stack { frames: Vec::new() }
    }

    /// Adds `frame` as the innermost frame.
    pub fn push_frame(&mut self, frame: Frame)
        ensures
            final(self)@ == old(self)@.push(frame@),
    {
        self.frames.push(frame);
    }

    /// Removes the innermost frame, if there is one.
    pub fn pop_frame(&mut self)
        ensures
            final(self)@ == (if old(self)@.len() > 0 {
                old(self)@.drop_last()
            } else {
                old(self)@
            }),
    {
        let _dropped = self.frames.pop();
    }

    /// The innermost frame that holds `variable_id`, and the place of the
    /// variable in it.
    fn find(&self, variable_id: &Id) -> (place: Option<(usize, usize)>)
        ensures
            match place {
                Some((frame, slot)) => holder(self@, *variable_id) == Some(frame as int) && frame
                    < self.frames@.len() && last_entry(
                    self.frames@[frame as int].variables@,
                    slot as int,
                ) && self.frames@[frame as int].variables@[slot as int].0 == *variable_id,
                None => holder(self@, *variable_id).is_none(),
            },
    {
        let mut i: usize = self.frames.len();
        assert(self@.take(i as int) == self@);
        while i > 0
            invariant
                i <= self.frames.len(),
                holder(self@, *variable_id) == holder(self@.take(i as int), *variable_id),
            decreases i,
        {
            i = i - 1;
            proof {
                let upto = self@.take(i + 1);
                assert(upto.drop_last() == self@.take(i as int));
                assert(upto.last() == self.frames@[i as int]@);
            }
            match self.frames[i].position(variable_id) {
                Some(slot) => {
                    return Some((i, slot));
                },
                None => {},
            }
        }
        None
    }

    /// The value of `variable_id`: the innermost frame that holds the variable
    /// is asked.
    pub fn get(&self, variable_id: &Id) -> (value: Option<&Value>)
        ensures
            match value {
                Some(value) => lookup(self@, *variable_id) == Some(value@),
                None => lookup(self@, *variable_id).is_none(),
            },
    {
        match self.find(variable_id) {
            Some((frame, slot)) => {
                proof {
                    lemma_variables_at(self.frames@[frame as int].variables@, slot as int);
                }
                Some(&self.frames[frame].variables[slot].1)
            },
            None => None,
        }
    }

    /// The place where the value of `variable_id` is kept, to be written to:
    /// that of the innermost frame that holds the variable. What is written
    /// there is what the variable holds from then on.
    pub fn get_mut(&mut self, variable_id: &Id) -> (value: Option<&mut Value>)
        ensures
            match value {
                Some(value) => lookup(old(self)@, *variable_id) == Some(value@) && assigned(
                    old(self)@,
                    *variable_id,
                    final(value)@,
                ) == Some(final(self)@),
                None => lookup(old(self)@, *variable_id).is_none() && final(self)@ == old(self)@,
            },
    {
        match self.find(variable_id) {
            Some((frame, slot)) => {
                let ghost entries = self.frames@[frame as int].variables@;
                proof {
                    lemma_variables_at(entries, slot as int);
                }
                let value = &mut self.frames[frame].variables[slot].1;
                proof {
                    lemma_variables_replaced(entries, slot as int, *final(value));
                }
                Some(value)
            },
            None => None,
        }
    }

    /// Writes `value` to `variable_id` in the innermost frame that holds the
    /// variable. Returns whether a frame holds it; nothing is written where
    /// none does.
    pub fn set(&mut self, variable_id: &Id, value: Value) -> (written: bool)
        ensures
            match assigned(old(self)@, *variable_id, value@) {
                Some(stack) => written && final(self)@ == stack,
                None => !written && final(self)@ == old(self)@,
            },
            final(self)@.len() == old(self)@.len(),
    {
        match self.find(variable_id) {
            Some((frame, slot)) => {
                let ghost entries = self.frames@[frame as int].variables@;
                proof {
                    lemma_variables_replaced(entries, slot as int, value);
                }
                self.frames[frame].variables[slot].1 = value;
                assert(self.frames@[frame as int].variables@ == entries.update(
                    slot as int,
                    (*variable_id, value),
                ));
                assert(self@ == assigned(old(self)@, *variable_id, value@).unwrap());
                true
            },
            None => false,
        }
    }
}

/// A value on its way to the scope that it unwinds to.
pub struct ShortCircuit {
    pub value: Value,
    pub destination_scope_id: Id,
}

/// How an evaluation step ended: with a value, or with a value that unwinds
/// until the scope it targets is met.
pub enum ExecReturn {
    Value(Value),
    ShortCircuit(ShortCircuit),
}

impl View for ExecReturn {
    type V = ExecReturnView;

    open spec fn view(&self) -> ExecReturnView {
        match *self {
            ExecReturn::Value(value) => ExecReturnView::Value(value@),
            ExecReturn::ShortCircuit(short_circuit) => ExecReturnView::ShortCircuit {
                value: short_circuit.value@,
                destination_scope_id: short_circuit.destination_scope_id,
            },
        }
    }
}

impl ExecReturn {
    pub fn new_value(value: Value) -> (returned: Self)
        ensures
            returned == ExecReturn::Value(value),
    {
        ExecReturn::Value(value)
    }

    pub fn new_short_circuit(value: Value, destination_scope_id: Id) -> (returned: Self)
        ensures
            returned == ExecReturn::ShortCircuit(ShortCircuit { value, destination_scope_id }),
    {
        ExecReturn::ShortCircuit(ShortCircuit { destination_scope_id, value })
    }

    /// The value, where the step ended with one.
    pub fn into_value(self) -> (value: Option<Value>)
        ensures
            value == (match self {
                ExecReturn::Value(value) => Some(value),
                ExecReturn::ShortCircuit(_) => None,
            }),
    {
        match self {
            ExecReturn::Value(value) => Some(value),
            ExecReturn::ShortCircuit(_) => None,
        }
    }

    /// The unwind, where the step ended with one.
    pub fn into_shortcircuit(self) -> (short_circuit: Option<ShortCircuit>)
        ensures
            short_circuit == (match self {
                ExecReturn::Value(_) => None,
                ExecReturn::ShortCircuit(short_circuit) => Some(short_circuit),
            }),
    {
        match self {
            ExecReturn::Value(_) => None,
            ExecReturn::ShortCircuit(short_circuit) => Some(short_circuit),
        }
    }
}

impl From<Value> for ExecReturn {
    fn from(value: Value) -> (returned: Self) {
        ExecReturn::Value(value)
    }
}

impl vstd::std_specs::convert::FromSpecImpl<Value> for ExecReturn {
    open spec fn obeys_from_spec() -> bool {
        true
    }

    open spec fn from_spec(value: Value) -> Self {
        ExecReturn::Value(value)
    }
}

/// The native functions of a host. The runtime hands every call of a native
/// function to the host and takes what the host answers.
pub trait NativeHost {
    /// Applies the native function `native` to `arguments`.
    fn call_native(&mut self, native: NativeId, arguments: Vec<Value>) -> Result<
        Value,
        NativeFault,
    >;
}

/// Evaluates execution trees.
pub struct Runtime {
    stack: Stack,
    calls: Ghost<Seq<NativeCall>>,
}

impl View for Runtime {
    type V = RuntimeView;

    closed spec fn view(&self) -> RuntimeView {
        RuntimeView { stack: self.stack@, calls: self.calls@ }
    }
}

/// The view of what a step returned, or the failure.
pub open spec fn viewed(returned: Result<ExecReturn, RuntimeError>) -> Result<
    ExecReturnView,
    RuntimeError,
> {
    match returned {
        Ok(returned) => Ok(returned@),
        Err(e) => Err(e),
    }
}

impl RuntimeView {
    /// Whether `later` has made the native calls of `self`, and maybe more
    /// after them.
    pub open spec fn continued_by(self, later: RuntimeView) -> bool {
        &&& self.calls.len() <= later.calls.len()
        &&& forall|i: int| 0 <= i < self.calls.len() ==> #[trigger] later.calls[i] == self.calls[i]
    }
}

/// Whether a step that took the runtime from `before` to `after` kept the
/// record of native calls and, unless it was aborted, the depth of the stack.
pub open spec fn follows<T>(
    before: RuntimeView,
    after: RuntimeView,
    returned: Result<T, RuntimeError>,
) -> bool {
    &&& before.continued_by(after)
    &&& returned is Ok ==> after.stack.len() == before.stack.len()
}

/// Answers that cover the calls of a runtime cover the calls of every earlier
/// state of it.
pub proof fn lemma_answered_earlier(
    answers: Seq<Result<ValueView, NativeFault>>,
    earlier: RuntimeView,
    later: RuntimeView,
)
    requires
        earlier.continued_by(later),
        answered(answers, later.calls),
    ensures
        answered(answers, earlier.calls),
{
    assert forall|i: int| 0 <= i < earlier.calls.len() implies answers[i] == (
    #[trigger] earlier.calls[i]).answer by {
        assert(later.calls[i] == earlier.calls[i]);
    }
}

/// A runtime that continues a continuation of a state continues that state.
pub proof fn lemma_continued_chain(first: RuntimeView, second: RuntimeView, third: RuntimeView)
    requires
        first.continued_by(second),
        second.continued_by(third),
    ensures
        first.continued_by(third),
{
    assert forall|i: int| 0 <= i < first.calls.len() implies #[trigger] third.calls[i]
        == first.calls[i] by {
        assert(second.calls[i] == first.calls[i]);
    }
}

/// Arguments whose evaluation stopped early stay stopped: what follows them is
/// not evaluated.
pub proof fn lemma_eval_args_stops(
    program: crate::execution_tree::ProgramView,
    arguments: Seq<ExprView>,
    n: int,
    state: RuntimeView,
    fuel: nat,
    answers: Seq<Result<ValueView, NativeFault>>,
)
    requires
        0 <= n <= arguments.len(),
        !(eval_args(program, arguments.take(n), state, fuel, answers).result matches Ok(
            GatheredView::Values(_),
        )),
    ensures
        eval_args(program, arguments, state, fuel, answers) == eval_args(
            program,
            arguments.take(n),
            state,
            fuel,
            answers,
        ),
    decreases arguments.len() - n,
{
    if n < arguments.len() {
        assert(arguments.take(n + 1).drop_last() == arguments.take(n));
        lemma_eval_args_stops(program, arguments, n + 1, state, fuel, answers);
    } else {
        assert(arguments.take(n) == arguments);
    }
}

/// Statements whose evaluation stopped early stay stopped: what follows them is
/// not evaluated.
pub proof fn lemma_eval_block_stops(
    program: crate::execution_tree::ProgramView,
    statements: Seq<ExprView>,
    n: int,
    state: RuntimeView,
    fuel: nat,
    answers: Seq<Result<ValueView, NativeFault>>,
)
    requires
        0 <= n <= statements.len(),
        !(eval_block(program, statements.take(n), state, fuel, answers).result matches Ok(
            ExecReturnView::Value(_),
        )),
    ensures
        eval_block(program, statements, state, fuel, answers) == eval_block(
            program,
            statements.take(n),
            state,
            fuel,
            answers,
        ),
    decreases statements.len() - n,
{
    if n < statements.len() {
        assert(statements.take(n + 1).drop_last() == statements.take(n));
        lemma_eval_block_stops(program, statements, n + 1, state, fuel, answers);
    } else {
        assert(statements.take(n) == statements);
    }
}

impl Runtime {
    /// A runtime with an empty stack that has made no native call.
    pub fn new() -> (runtime: Self)
        ensures
            runtime@ == RuntimeView::fresh(),
    {
        Runtime { stack: Stack::new(), calls: Ghost(Seq::empty()) }
    }

    /// Runs `program`: executes its main scope once and returns the value of
    /// that scope.
    ///
    /// `fuel` bounds how deep scopes may nest at run time and how often a loop
    /// may iterate; the run is aborted where it does not suffice. `host`
    /// answers the calls of native functions. The run is the one that the
    /// semantics describes for the answers that the host gave.
    pub fn execute<H: NativeHost>(&mut self, program: &Program, host: &mut H, fuel: u64) -> (value:
        Result<Value, RuntimeError>)
        ensures
            follows(old(self)@, final(self)@, value),
            forall|answers: Seq<Result<ValueView, NativeFault>>|
                answered(answers, final(self)@.calls) ==> #[trigger] eval_program(
                    program@,
                    old(self)@,
                    fuel as nat,
                    answers,
                ) == ((match value {
                    Ok(value) => Ok(value@),
                    Err(e) => Err(e),
                }), final(self)@),
    {
        let main_scope_id = program.main_scope_id;
        let returned = self.execute_scope(&main_scope_id, program, FrameBuilder::new(), host, fuel);
        let value = match returned {
            Ok(ExecReturn::Value(value)) => Ok(value),
            Ok(ExecReturn::ShortCircuit(short_circuit)) => Err(
                RuntimeError::Internal(
                    InternalFault::StrayUnwind(short_circuit.destination_scope_id),
                ),
            ),
            Err(e) => Err(e),
        };
        proof {
            assert forall|answers: Seq<Result<ValueView, NativeFault>>|
                answered(answers, self@.calls) implies #[trigger] eval_program(
                program@,
                old(self)@,
                fuel as nat,
                answers,
            ) == ((match value {
                Ok(value) => Ok(value@),
                Err(e) => Err(e),
            }), self@) by {
                assert(eval_scope(
                    program@,
                    program@.main_scope_id,
                    Seq::empty(),
                    old(self)@,
                    fuel as nat,
                    answers,
                ) == (Outcome { result: viewed(returned), state: self@ }));
            }
        }
        value
    }

    /// Executes the scope `scope_id` once: adds a frame for it, with the
    /// bindings of `frame_builder` written to it, evaluates its statements in
    /// order, and removes the frame. The first unwind ends the scope and is
    /// handed on unchanged; otherwise the scope's value is that of its last
    /// statement.
    #[verifier::loop_isolation(false)]
    pub fn execute_scope<H: NativeHost>(
        &mut self,
        scope_id: &Id,
        program: &Program,
        frame_builder: FrameBuilder,
        host: &mut H,
        fuel: u64,
    ) -> (returned: Result<ExecReturn, RuntimeError>)
        ensures
            follows(old(self)@, final(self)@, returned),
            forall|answers: Seq<Result<ValueView, NativeFault>>|
                answered(answers, final(self)@.calls) ==> #[trigger] eval_scope(
                    program@,
                    *scope_id,
                    frame_builder@,
                    old(self)@,
                    fuel as nat,
                    answers,
                ) == (Outcome { result: viewed(returned), state: final(self)@ }),
        decreases fuel, 0int, frame_builder,
    {
        let scope = match program.scopes.get(&scope_id.0) {
            Some(scope) => scope,
            None => {
                return Err(RuntimeError::Internal(InternalFault::UnknownScope(*scope_id)));
            },
        };
        assert(program@.scopes.contains_key(*scope_id) && program@.scopes[*scope_id] == scope@);
        if fuel == 0 {
            return Err(RuntimeError::FuelExhausted);
        }
        let frame = Frame::new(scope, frame_builder);
        self.stack.push_frame(frame);
        let ghost entered = self@;
        let ghost statements = views_of(scope.expressions@);
        proof {
            lemma_views_of(scope.expressions@);
            assert(statements.take(0) == Seq::<ExprView>::empty());
            assert(entered == old(self)@.pushed(frame_for(scope@, frame_builder@)));
            assert(entered.stack.drop_last() == old(self)@.stack);
        }

        let mut last_expression = Value::Nil;
        let mut i: usize = 0;
        while i < scope.expressions.len()
            invariant
                i <= scope.expressions.len(),
                fuel > 0,
                statements == views_of(scope.expressions@),
                statements.len() == scope.expressions@.len(),
                entered.continued_by(self@),
                self@.stack.len() == entered.stack.len(),
                forall|answers: Seq<Result<ValueView, NativeFault>>|
                    answered(answers, self@.calls) ==> #[trigger] eval_block(
                        program@,
                        statements.take(i as int),
                        entered,
                        (fuel - 1) as nat,
                        answers,
                    ) == Outcome::value(last_expression@, self@),
            decreases scope.expressions.len() - i,
        {
            let ghost before = self@;
            let ghost last_before = last_expression@;
            proof {
                lemma_views_of(scope.expressions@);
                assert(statements.take(i + 1).drop_last() == statements.take(i as int));
                assert(statements.take(i + 1).last() == scope.expressions@[i as int]@);
            }
            let returned = self.execute_expression(&scope.expressions[i], program, host, fuel - 1);
            proof {
                lemma_continued_chain(entered, before, self@);
                assert forall|answers: Seq<Result<ValueView, NativeFault>>|
                    answered(answers, self@.calls) implies #[trigger] eval_block(
                    program@,
                    statements.take(i + 1),
                    entered,
                    (fuel - 1) as nat,
                    answers,
                ) == (Outcome { result: viewed(returned), state: self@ }) by {
                    lemma_answered_earlier(answers, before, self@);
                    assert(eval_block(
                        program@,
                        statements.take(i as int),
                        entered,
                        (fuel - 1) as nat,
                        answers,
                    ) == Outcome::value(last_before, before));
                    assert(eval_expr(
                        program@,
                        scope.expressions@[i as int]@,
                        before,
                        (fuel - 1) as nat,
                        answers,
                    ) == (Outcome { result: viewed(returned), state: self@ }));
                }
            }
            match returned {
                Err(e) => {
                    proof {
                        lemma_continued_chain(old(self)@, entered, self@);
                        assert forall|answers: Seq<Result<ValueView, NativeFault>>|
                            answered(answers, self@.calls) implies #[trigger] eval_scope(
                            program@,
                            *scope_id,
                            frame_builder@,
                            old(self)@,
                            fuel as nat,
                            answers,
                        ) == (Outcome { result: Err(e), state: self@ }) by {
                            assert(eval_block(
                                program@,
                                statements.take(i + 1),
                                entered,
                                (fuel - 1) as nat,
                                answers,
                            ) == (Outcome { result: viewed(returned), state: self@ }));
                            lemma_eval_block_stops(
                                program@,
                                statements,
                                i + 1,
                                entered,
                                (fuel - 1) as nat,
                                answers,
                            );
                        }
                    }
                    return Err(e);
                },
                Ok(ExecReturn::ShortCircuit(short_circuit)) => {
                    let ghost unwound = self@;
                    self.stack.pop_frame();
                    proof {
                        lemma_continued_chain(old(self)@, entered, self@);
                        assert(self@ == unwound.popped());
                        assert forall|answers: Seq<Result<ValueView, NativeFault>>|
                            answered(answers, self@.calls) implies #[trigger] eval_scope(
                            program@,
                            *scope_id,
                            frame_builder@,
                            old(self)@,
                            fuel as nat,
                            answers,
                        ) == (Outcome {
                            result: Ok(ExecReturn::ShortCircuit(short_circuit)@),
                            state: self@,
                        }) by {
                            assert(eval_block(
                                program@,
                                statements.take(i + 1),
                                entered,
                                (fuel - 1) as nat,
                                answers,
                            ) == (Outcome { result: viewed(returned), state: unwound }));
                            lemma_eval_block_stops(
                                program@,
                                statements,
                                i + 1,
                                entered,
                                (fuel - 1) as nat,
                                answers,
                            );
                        }
                    }
                    return Ok(ExecReturn::ShortCircuit(short_circuit));
                },
                Ok(ExecReturn::Value(value)) => {
                    last_expression = value;
                },
            }
            i = i + 1;
        }
        let ghost finished = self@;
        self.stack.pop_frame();
        proof {
            assert(statements.take(i as int) == statements);
            lemma_continued_chain(old(self)@, entered, self@);
            assert(self@ == finished.popped());
            assert forall|answers: Seq<Result<ValueView, NativeFault>>|
                answered(answers, self@.calls) implies #[trigger] eval_scope(
                program@,
                *scope_id,
                frame_builder@,
                old(self)@,
                fuel as nat,
                answers,
            ) == (Outcome {
                result: Ok(ExecReturnView::Value(last_expression@)),
                state: self@,
            }) by {
                assert(eval_block(program@, statements, entered, (fuel - 1) as nat, answers)
                    == Outcome::value(last_expression@, finished));
            }
        }
        Ok(ExecReturn::Value(last_expression))
    }

    /// Evaluates one expression.
    pub fn execute_expression<H: NativeHost>(
        &mut self,
        expression: &Expr,
        program: &Program,
        host: &mut H,
        fuel: u64,
    ) -> (returned: Result<ExecReturn, RuntimeError>)
        ensures
            follows(old(self)@, final(self)@, returned),
            forall|answers: Seq<Result<ValueView, NativeFault>>|
                answered(answers, final(self)@.calls) ==> #[trigger] eval_expr(
                    program@,
                    expression@,
                    old(self)@,
                    fuel as nat,
                    answers,
                ) == (Outcome { result: viewed(returned), state: final(self)@ }),
        decreases fuel, 2int, expression,
    {
        assert(*expression == expr_of(*expression.0));
        match expression.inner() {
            ExprInner::Scope(scope_id) => {
                let returned = self.execute_scope(
                    scope_id,
                    program,
                    FrameBuilder::new(),
                    host,
                    fuel,
                );
                proof {
                    assert forall|answers: Seq<Result<ValueView, NativeFault>>|
                        answered(answers, self@.calls) implies #[trigger] eval_expr(
                        program@,
                        expression@,
                        old(self)@,
                        fuel as nat,
                        answers,
                    ) == (Outcome { result: viewed(returned), state: self@ }) by {
                        assert(eval_scope(
                            program@,
                            *scope_id,
                            Seq::empty(),
                            old(self)@,
                            fuel as nat,
                            answers,
                        ) == (Outcome { result: viewed(returned), state: self@ }));
                    }
                }
                returned
            },
            ExprInner::Literal(literal) => Ok(self.execute_literal(literal)),
            ExprInner::VarDef(variable_definition) => {
                self.execute_variable_definition(variable_definition, program, host, fuel)
            },
            ExprInner::VarAssign(variable_assignment) => {
                self.execute_variable_assignment(variable_assignment, program, host, fuel)
            },
            ExprInner::VarCall(variable_call) => self.execute_variable_call(variable_call),
            ExprInner::FnDef(function_definition) => Ok(
                self.execute_function_definition(function_definition),
            ),
            ExprInner::FnCall(function_call) => {
                self.execute_function_call(function_call, program, host, fuel)
            },
            ExprInner::FnRet(function_return) => {
                self.execute_function_return(function_return, program, host, fuel)
            },
            ExprInner::Loop(loop_) => {
                let returned = self.execute_loop(loop_, program, host, fuel);
                proof {
                    assert forall|answers: Seq<Result<ValueView, NativeFault>>|
                        answered(answers, self@.calls) implies #[trigger] eval_expr(
                        program@,
                        expression@,
                        old(self)@,
                        fuel as nat,
                        answers,
                    ) == (Outcome { result: viewed(returned), state: self@ }) by {
                        assert(eval_loop(
                            program@,
                            loop_.body_scope_id,
                            old(self)@,
                            fuel as nat,
                            answers,
                        ) == (Outcome { result: viewed(returned), state: self@ }));
                    }
                }
                returned
            },
            ExprInner::LoopBr(loop_break) => self.execute_loop_break(
                loop_break,
                program,
                host,
                fuel,
            ),
            ExprInner::Cond(condition) => self.execute_condition(condition, program, host, fuel),
        }
    }

    /// A literal evaluates to its value.
    pub fn execute_literal(&self, literal: &Literal) -> (returned: ExecReturn)
        ensures
            returned@ == ExecReturnView::Value(literal.0@),
    {
        let Literal(value) = literal;
        ExecReturn::new_value(value.clone())
    }

    /// Evaluates the value and writes it to the variable, whose slot the frame
    /// of the declaring scope holds. Returns the value. An unwind of the value
    /// is handed on and nothing is written.
    pub fn execute_variable_definition<H: NativeHost>(
        &mut self,
        variable_definition: &VarDef,
        program: &Program,
        host: &mut H,
        fuel: u64,
    ) -> (returned: Result<ExecReturn, RuntimeError>)
        ensures
            follows(old(self)@, final(self)@, returned),
            forall|answers: Seq<Result<ValueView, NativeFault>>|
                answered(answers, final(self)@.calls) ==> #[trigger] eval_expr(
                    program@,
                    expr_of(ExprInner::VarDef(*variable_definition))@,
                    old(self)@,
                    fuel as nat,
                    answers,
                ) == (Outcome { result: viewed(returned), state: final(self)@ }),
        decreases fuel, 2int, variable_definition,
    {
        let VarDef { variable_id, value } = variable_definition;
        let evaluated = self.execute_expression(value, program, host, fuel);
        let ghost mid = self@;
        let returned = match evaluated {
            Ok(ExecReturn::Value(value)) => {
                let stored = value.clone();
                if self.stack.set(variable_id, stored) {
                    Ok(ExecReturn::Value(value))
                } else {
                    Err(RuntimeError::Internal(InternalFault::UnknownVariable(*variable_id)))
                }
            },
            evaluated => evaluated,
        };
        proof {
            assert forall|answers: Seq<Result<ValueView, NativeFault>>|
                answered(answers, self@.calls) implies #[trigger] eval_expr(
                program@,
                expr_of(ExprInner::VarDef(*variable_definition))@,
                old(self)@,
                fuel as nat,
                answers,
            ) == (Outcome { result: viewed(returned), state: self@ }) by {
                assert(eval_expr(program@, value@, old(self)@, fuel as nat, answers) == (Outcome {
                    result: viewed(evaluated),
                    state: mid,
                }));
            }
        }
        returned
    }

    /// Evaluates the value and writes it to the variable. Returns the value.
    /// An unwind of the value is handed on and nothing is written.
    pub fn execute_variable_assignment<H: NativeHost>(
        &mut self,
        variable_assignment: &VarAssign,
        program: &Program,
        host: &mut H,
        fuel: u64,
    ) -> (returned: Result<ExecReturn, RuntimeError>)
        ensures
            follows(old(self)@, final(self)@, returned),
            forall|answers: Seq<Result<ValueView, NativeFault>>|
                answered(answers, final(self)@.calls) ==> #[trigger] eval_expr(
                    program@,
                    expr_of(ExprInner::VarAssign(*variable_assignment))@,
                    old(self)@,
                    fuel as nat,
                    answers,
                ) == (Outcome { result: viewed(returned), state: final(self)@ }),
        decreases fuel, 2int, variable_assignment,
    {
        let VarAssign { variable_id, value } = variable_assignment;
        let evaluated = self.execute_expression(value, program, host, fuel);
        let ghost mid = self@;
        let returned = match evaluated {
            Ok(ExecReturn::Value(value)) => {
                let stored = value.clone();
                if self.stack.set(variable_id, stored) {
                    Ok(ExecReturn::Value(value))
                } else {
                    Err(RuntimeError::Internal(InternalFault::UnknownVariable(*variable_id)))
                }
            },
            evaluated => evaluated,
        };
        proof {
            assert forall|answers: Seq<Result<ValueView, NativeFault>>|
                answered(answers, self@.calls) implies #[trigger] eval_expr(
                program@,
                expr_of(ExprInner::VarAssign(*variable_assignment))@,
                old(self)@,
                fuel as nat,
                answers,
            ) == (Outcome { result: viewed(returned), state: self@ }) by {
                assert(eval_expr(program@, value@, old(self)@, fuel as nat, answers) == (Outcome {
                    result: viewed(evaluated),
                    state: mid,
                }));
            }
        }
        returned
    }

    /// Reads a variable: the innermost active frame that holds it is asked.
    pub fn execute_variable_call(&mut self, variable_call: &VarCall) -> (returned: Result<
        ExecReturn,
        RuntimeError,
    >)
        ensures
            final(self)@ == old(self)@,
            viewed(returned) == (match lookup(old(self)@.stack, variable_call.variable_id) {
                Some(value) => Ok(ExecReturnView::Value(value)),
                None => Err(
                    RuntimeError::Internal(
                        InternalFault::UnknownVariable(variable_call.variable_id),
                    ),
                ),
            }),
    {
        let VarCall { variable_id } = variable_call;
        match self.stack.get(variable_id) {
            Some(variable) => Ok(ExecReturn::Value(variable.clone())),
            None => Err(RuntimeError::Internal(InternalFault::UnknownVariable(*variable_id))),
        }
    }

    /// A function literal evaluates to a function value that holds the
    /// parameters and the body's scope, and no variable binding.
    pub fn execute_function_definition(&mut self, function_definition: &FnDef) -> (returned:
        ExecReturn)
        ensures
            final(self)@ == old(self)@,
            returned@ == ExecReturnView::Value(
                ValueView::Function(
                    FunctionView {
                        argument_count: function_definition.parameter_ids@.len(),
                        executor: ExecutorView::Constructed {
                            parameter_ids: function_definition.parameter_ids@,
                            body_scope_id: function_definition.body_scope_id,
                        },
                    },
                ),
            ),
    {
        let FnDef { parameter_ids: argument_ids, body_scope_id } = function_definition;
        let value = Function::new_constructed(
            crate::value::function::copy_ids(argument_ids),
            *body_scope_id,
        );
        let value = Value::Function(value);
        ExecReturn::Value(value)
    }

    /// Evaluates the arguments of a call from the left and collects their
    /// values. The first unwind ends the evaluation and is handed on.
    #[verifier::loop_isolation(false)]
    fn execute_arguments<H: NativeHost>(
        &mut self,
        arguments: &Vec<Expr>,
        program: &Program,
        host: &mut H,
        fuel: u64,
    ) -> (gathered: Result<Result<Vec<Value>, ShortCircuit>, RuntimeError>)
        ensures
            follows(old(self)@, final(self)@, gathered),
            forall|answers: Seq<Result<ValueView, NativeFault>>|
                answered(answers, final(self)@.calls) ==> #[trigger] eval_args(
                    program@,
                    views_of(arguments@),
                    old(self)@,
                    fuel as nat,
                    answers,
                ) == (ArgsOutcome { result: gathered_of(gathered), state: final(self)@ }),
        decreases fuel, 2int, arguments,
    {
        let ghost wanted = views_of(arguments@);
        proof {
            lemma_views_of(arguments@);
            assert(wanted.take(0) == Seq::<ExprView>::empty());
        }

        let mut collector: Vec<Value> = Vec::new();
        let mut i: usize = 0;
        assert(values_of(collector@) == Seq::<ValueView>::empty());
        while i < arguments.len()
            invariant
                i <= arguments.len(),
                wanted == views_of(arguments@),
                wanted.len() == arguments@.len(),
                old(self)@.continued_by(self@),
                self@.stack.len() == old(self)@.stack.len(),
                forall|answers: Seq<Result<ValueView, NativeFault>>|
                    answered(answers, self@.calls) ==> #[trigger] eval_args(
                        program@,
                        wanted.take(i as int),
                        old(self)@,
                        fuel as nat,
                        answers,
                    ) == (ArgsOutcome {
                        result: Ok(GatheredView::Values(values_of(collector@))),
                        state: self@,
                    }),
            decreases arguments.len() - i,
        {
            let ghost before = self@;
            let ghost gathered = values_of(collector@);
            proof {
                lemma_views_of(arguments@);
                assert(wanted.take(i + 1).drop_last() == wanted.take(i as int));
                assert(wanted.take(i + 1).last() == arguments@[i as int]@);
            }
            let returned = self.execute_expression(&arguments[i], program, host, fuel);
            proof {
                lemma_continued_chain(old(self)@, before, self@);
                assert forall|answers: Seq<Result<ValueView, NativeFault>>|
                    answered(answers, self@.calls) implies #[trigger] eval_args(
                    program@,
                    wanted.take(i + 1),
                    old(self)@,
                    fuel as nat,
                    answers,
                ) == (ArgsOutcome {
                    result: match viewed(returned) {
                        Ok(ExecReturnView::Value(value)) => Ok(
                            GatheredView::Values(gathered.push(value)),
                        ),
                        Ok(ExecReturnView::ShortCircuit { value, destination_scope_id }) => Ok(
                            GatheredView::ShortCircuit { value, destination_scope_id },
                        ),
                        Err(e) => Err(e),
                    },
                    state: self@,
                }) by {
                    lemma_answered_earlier(answers, before, self@);
                    assert(eval_args(
                        program@,
                        wanted.take(i as int),
                        old(self)@,
                        fuel as nat,
                        answers,
                    ) == (ArgsOutcome {
                        result: Ok(GatheredView::Values(gathered)),
                        state: before,
                    }));
                    assert(eval_expr(
                        program@,
                        arguments@[i as int]@,
                        before,
                        fuel as nat,
                        answers,
                    ) == (Outcome { result: viewed(returned), state: self@ }));
                }
            }
            match returned {
                Ok(ExecReturn::Value(value)) => {
                    collector.push(value);
                    assert(values_of(collector@) == gathered.push(value@));
                },
                Ok(ExecReturn::ShortCircuit(short_circuit)) => {
                    proof {
                        assert forall|answers: Seq<Result<ValueView, NativeFault>>|
                            answered(answers, self@.calls) implies #[trigger] eval_args(
                            program@,
                            wanted,
                            old(self)@,
                            fuel as nat,
                            answers,
                        ) == (ArgsOutcome {
                            result: Ok(
                                GatheredView::ShortCircuit {
                                    value: short_circuit.value@,
                                    destination_scope_id: short_circuit.destination_scope_id,
                                },
                            ),
                            state: self@,
                        }) by {
                            assert(eval_args(
                                program@,
                                wanted.take(i + 1),
                                old(self)@,
                                fuel as nat,
                                answers,
                            ).state == self@);
                            lemma_eval_args_stops(
                                program@,
                                wanted,
                                i + 1,
                                old(self)@,
                                fuel as nat,
                                answers,
                            );
                        }
                    }
                    return Ok(Err(short_circuit));
                },
                Err(e) => {
                    proof {
                        assert forall|answers: Seq<Result<ValueView, NativeFault>>|
                            answered(answers, self@.calls) implies #[trigger] eval_args(
                            program@,
                            wanted,
                            old(self)@,
                            fuel as nat,
                            answers,
                        ) == (ArgsOutcome { result: Err(e), state: self@ }) by {
                            assert(eval_args(
                                program@,
                                wanted.take(i + 1),
                                old(self)@,
                                fuel as nat,
                                answers,
                            ).state == self@);
                            lemma_eval_args_stops(
                                program@,
                                wanted,
                                i + 1,
                                old(self)@,
                                fuel as nat,
                                answers,
                            );
                        }
                    }
                    return Err(e);
                },
            }
            i = i + 1;
        }
        proof {
            assert(wanted.take(i as int) == wanted);
        }
        Ok(Ok(collector))
    }

    /// Evaluates the arguments from the left, then calls the function that the
    /// variable holds with their values. An unwind of an argument aborts the
    /// call and is handed on.
    pub fn execute_function_call<H: NativeHost>(
        &mut self,
        function_call: &FnCall,
        program: &Program,
        host: &mut H,
        fuel: u64,
    ) -> (returned: Result<ExecReturn, RuntimeError>)
        ensures
            follows(old(self)@, final(self)@, returned),
            forall|answers: Seq<Result<ValueView, NativeFault>>|
                answered(answers, final(self)@.calls) ==> #[trigger] eval_expr(
                    program@,
                    expr_of(ExprInner::FnCall(*function_call))@,
                    old(self)@,
                    fuel as nat,
                    answers,
                ) == (Outcome { result: viewed(returned), state: final(self)@ }),
        decreases fuel, 2int, function_call,
    {
        let FnCall { variable_id, arguments } = function_call;

        let gathered = self.execute_arguments(arguments, program, host, fuel);
        let ghost mid = self@;
        let ghost given = gathered_of(gathered);
        let arguments = match gathered {
            Ok(Ok(arguments)) => arguments,
            Ok(Err(short_circuit)) => {
                proof {
                    assert forall|answers: Seq<Result<ValueView, NativeFault>>|
                        answered(answers, self@.calls) implies #[trigger] eval_expr(
                        program@,
                        expr_of(ExprInner::FnCall(*function_call))@,
                        old(self)@,
                        fuel as nat,
                        answers,
                    ) == (Outcome {
                        result: Ok(ExecReturn::ShortCircuit(short_circuit)@),
                        state: self@,
                    }) by {
                        assert(eval_args(
                            program@,
                            views_of(function_call.arguments@),
                            old(self)@,
                            fuel as nat,
                            answers,
                        ) == (ArgsOutcome { result: given, state: mid }));
                    }
                }
                return Ok(ExecReturn::ShortCircuit(short_circuit));
            },
            Err(e) => {
                proof {
                    assert forall|answers: Seq<Result<ValueView, NativeFault>>|
                        answered(answers, self@.calls) implies #[trigger] eval_expr(
                        program@,
                        expr_of(ExprInner::FnCall(*function_call))@,
                        old(self)@,
                        fuel as nat,
                        answers,
                    ) == (Outcome { result: Err(e), state: self@ }) by {
                        assert(eval_args(
                            program@,
                            views_of(function_call.arguments@),
                            old(self)@,
                            fuel as nat,
                            answers,
                        ) == (ArgsOutcome { result: given, state: mid }));
                    }
                }
                return Err(e);
            },
        };
        let ghost values = values_of(arguments@);

        let function = match self.stack.get(variable_id) {
            None => None,
            Some(value) => match value.as_function() {
                None => Some(None),
                Some(function) => Some(Some(function.clone())),
            },
        };
        let returned = match function {
            None => Err(RuntimeError::Internal(InternalFault::UnknownVariable(*variable_id))),
            Some(None) => Err(RuntimeError::NotAFunction),
            Some(Some(function)) => match function.executor() {
                FunctionExecutor::Constructed(executor) => self.execute_constructed_function(
                    arguments,
                    executor,
                    program,
                    host,
                    fuel,
                ),
                FunctionExecutor::Native(executor) => {
                    match self.execute_native_function(arguments, executor, host) {
                        Ok(value) => Ok(ExecReturn::Value(value)),
                        Err(e) => Err(e),
                    }
                },
            },
        };
        proof {
            lemma_continued_chain(old(self)@, mid, self@);
            assert forall|answers: Seq<Result<ValueView, NativeFault>>|
                answered(answers, self@.calls) implies #[trigger] eval_expr(
                program@,
                expr_of(ExprInner::FnCall(*function_call))@,
                old(self)@,
                fuel as nat,
                answers,
            ) == (Outcome { result: viewed(returned), state: self@ }) by {
                lemma_answered_earlier(answers, mid, self@);
                assert(eval_args(
                    program@,
                    views_of(function_call.arguments@),
                    old(self)@,
                    fuel as nat,
                    answers,
                ) == (ArgsOutcome { result: Ok(GatheredView::Values(values)), state: mid }));
                match function {
                    Some(Some(function)) => {
                        assert(lookup(mid.stack, *variable_id) == Some(
                            ValueView::Function(function@),
                        ));
                        match function.executor {
                            FunctionExecutor::Constructed(executor) => {
                                assert(eval_call(
                                    program@,
                                    function@.executor,
                                    values,
                                    mid,
                                    fuel as nat,
                                    answers,
                                ) == (Outcome { result: viewed(returned), state: self@ }));
                            },
                            FunctionExecutor::Native(executor) => {
                                assert(self@.calls.len() == mid.calls.len() + 1);
                                assert(answers[mid.calls.len() as int]
                                    == self@.calls[mid.calls.len() as int].answer);
                                assert(eval_call(
                                    program@,
                                    function@.executor,
                                    values,
                                    mid,
                                    fuel as nat,
                                    answers,
                                ) == (Outcome { result: viewed(returned), state: self@ }));
                            },
                        }
                    },
                    _ => {},
                }
            }
        }
        returned
    }

    /// Calls a function defined in the language: executes its body with the
    /// parameters bound to the arguments, position by position. A `return`
    /// that targets the body ends here and leaves its value; any other unwind
    /// is handed on.
    #[verifier::loop_isolation(false)]
    pub fn execute_constructed_function<H: NativeHost>(
        &mut self,
        arguments: Vec<Value>,
        executor: &ConstructedFunctionExecutor,
        program: &Program,
        host: &mut H,
        fuel: u64,
    ) -> (returned: Result<ExecReturn, RuntimeError>)
        ensures
            follows(old(self)@, final(self)@, returned),
            forall|answers: Seq<Result<ValueView, NativeFault>>|
                answered(answers, final(self)@.calls) ==> #[trigger] eval_call(
                    program@,
                    ExecutorView::Constructed {
                        parameter_ids: executor.parameter_ids@,
                        body_scope_id: executor.body_scope_id,
                    },
                    values_of(arguments@),
                    old(self)@,
                    fuel as nat,
                    answers,
                ) == (Outcome { result: viewed(returned), state: final(self)@ }),
        decreases fuel, 1int, arguments,
    {
        let ConstructedFunctionExecutor { parameter_ids, body_scope_id } = executor;
        let ghost given = values_of(arguments@);
        let ghost wanted = paired(parameter_ids@, given);

        let mut builder = FrameBuilder::new();
        assert(wanted.take(0) == Seq::<(Id, ValueView)>::empty());
        for argument in it: arguments
            invariant
                it.seq() == arguments@,
                given == values_of(arguments@),
                wanted == paired(parameter_ids@, given),
                builder.variables@.len() == (if it.index() <= parameter_ids@.len() {
                    it.index() as int
                } else {
                    parameter_ids@.len() as int
                }),
                builder@ == wanted.take(builder.variables@.len() as int),
        {
            let position: usize = builder.variables.len();
            if position < parameter_ids.len() {
                assert(wanted.take(position + 1) == wanted.take(position as int).push(
                    (parameter_ids@[position as int], argument@),
                ));
                builder.variable(&parameter_ids[position], argument);
            }
        }
        assert(builder@ == wanted);

        let ghost bindings = builder@;
        let evaluated = self.execute_scope(body_scope_id, program, builder, host, fuel);
        let returned = match evaluated {
            Ok(ExecReturn::ShortCircuit(short_circuit)) => {
                if short_circuit.destination_scope_id == *body_scope_id {
                    Ok(ExecReturn::Value(short_circuit.value))
                } else {
                    Ok(ExecReturn::ShortCircuit(short_circuit))
                }
            },
            evaluated => evaluated,
        };
        proof {
            assert forall|answers: Seq<Result<ValueView, NativeFault>>|
                answered(answers, self@.calls) implies #[trigger] eval_call(
                program@,
                ExecutorView::Constructed {
                    parameter_ids: executor.parameter_ids@,
                    body_scope_id: executor.body_scope_id,
                },
                values_of(arguments@),
                old(self)@,
                fuel as nat,
                answers,
            ) == (Outcome { result: viewed(returned), state: self@ }) by {
                assert(eval_scope(
                    program@,
                    *body_scope_id,
                    bindings,
                    old(self)@,
                    fuel as nat,
                    answers,
                ) == (Outcome { result: viewed(evaluated), state: self@ }));
            }
        }
        returned
    }

    /// Calls a native function: hands the arguments to the host, records the
    /// call with the host's answer, and returns the answer. Whatever the host
    /// answers, the stack is left as it is and exactly this call is recorded.
    pub fn execute_native_function<H: NativeHost>(
        &mut self,
        arguments: Vec<Value>,
        executor: &NativeFunctionExecutor,
        host: &mut H,
    ) -> (value: Result<Value, RuntimeError>)
        ensures
            final(self)@.calls.len() == old(self)@.calls.len() + 1,
            final(self)@ == old(self)@.called(
                executor.native,
                values_of(arguments@),
                final(self)@.calls.last().answer,
            ),
            match final(self)@.calls.last().answer {
                Ok(answer) => value matches Ok(v) && v@ == answer,
                Err(fault) => value == Err::<Value, RuntimeError>(RuntimeError::Native(fault)),
            },
    {
        let ghost given = values_of(arguments@);
        let answer = host.call_native(executor.native, arguments);
        let ghost recorded = answer_of(answer);
        proof {
            self.calls@ = self.calls@.push(
                NativeCall { native: executor.native, arguments: given, answer: recorded },
            );
        }
        match answer {
            Ok(value) => Ok(value),
            Err(fault) => Err(RuntimeError::Native(fault)),
        }
    }

    /// Evaluates the returned value and makes it unwind to the function that
    /// the `return` was resolved to. An unwind of the value is handed on.
    pub fn execute_function_return<H: NativeHost>(
        &mut self,
        function_return: &FnRet,
        program: &Program,
        host: &mut H,
        fuel: u64,
    ) -> (returned: Result<ExecReturn, RuntimeError>)
        ensures
            follows(old(self)@, final(self)@, returned),
            forall|answers: Seq<Result<ValueView, NativeFault>>|
                answered(answers, final(self)@.calls) ==> #[trigger] eval_expr(
                    program@,
                    expr_of(ExprInner::FnRet(*function_return))@,
                    old(self)@,
                    fuel as nat,
                    answers,
                ) == (Outcome { result: viewed(returned), state: final(self)@ }),
        decreases fuel, 2int, function_return,
    {
        let FnRet { value, function_scope_id } = function_return;

        let evaluated = self.execute_expression(value, program, host, fuel);
        let returned = match evaluated {
            Ok(ExecReturn::Value(value)) => Ok(
                ExecReturn::new_short_circuit(value, *function_scope_id),
            ),
            evaluated => evaluated,
        };
        proof {
            assert forall|answers: Seq<Result<ValueView, NativeFault>>|
                answered(answers, self@.calls) implies #[trigger] eval_expr(
                program@,
                expr_of(ExprInner::FnRet(*function_return))@,
                old(self)@,
                fuel as nat,
                answers,
            ) == (Outcome { result: viewed(returned), state: self@ }) by {
                assert(eval_expr(program@, value@, old(self)@, fuel as nat, answers) == (Outcome {
                    result: viewed(evaluated),
                    state: self@,
                }));
            }
        }
        returned
    }

    /// Executes the body again and again until it unwinds. A `break` that
    /// targets the body ends the loop here and leaves its value; any other
    /// unwind is handed on at once.
    #[verifier::loop_isolation(false)]
    pub fn execute_loop<H: NativeHost>(
        &mut self,
        loop_: &Loop,
        program: &Program,
        host: &mut H,
        fuel: u64,
    ) -> (returned: Result<ExecReturn, RuntimeError>)
        ensures
            follows(old(self)@, final(self)@, returned),
            forall|answers: Seq<Result<ValueView, NativeFault>>|
                answered(answers, final(self)@.calls) ==> #[trigger] eval_loop(
                    program@,
                    loop_.body_scope_id,
                    old(self)@,
                    fuel as nat,
                    answers,
                ) == (Outcome { result: viewed(returned), state: final(self)@ }),
        decreases fuel, 0int, loop_,
    {
        let Loop { body_scope_id } = loop_;

        let mut remaining: u64 = fuel;
        loop
            invariant
                remaining <= fuel,
                old(self)@.continued_by(self@),
                self@.stack.len() == old(self)@.stack.len(),
                forall|answers: Seq<Result<ValueView, NativeFault>>|
                    answered(answers, self@.calls) ==> #[trigger] eval_loop(
                        program@,
                        *body_scope_id,
                        old(self)@,
                        fuel as nat,
                        answers,
                    ) == eval_loop(program@, *body_scope_id, self@, remaining as nat, answers),
            decreases remaining,
        {
            if remaining == 0 {
                proof {
                    assert forall|answers: Seq<Result<ValueView, NativeFault>>|
                        answered(answers, self@.calls) implies #[trigger] eval_loop(
                        program@,
                        loop_.body_scope_id,
                        old(self)@,
                        fuel as nat,
                        answers,
                    ) == Outcome::failure(RuntimeError::FuelExhausted, self@) by {
                        assert(eval_loop(program@, *body_scope_id, self@, 0, answers)
                            == Outcome::failure(RuntimeError::FuelExhausted, self@));
                    }
                }
                return Err(RuntimeError::FuelExhausted);
            }
            let ghost before = self@;
            let evaluated = self.execute_scope(
                body_scope_id,
                program,
                FrameBuilder::new(),
                host,
                remaining - 1,
            );
            proof {
                lemma_continued_chain(old(self)@, before, self@);
                assert forall|answers: Seq<Result<ValueView, NativeFault>>|
                    answered(answers, self@.calls) implies #[trigger] eval_loop(
                    program@,
                    *body_scope_id,
                    old(self)@,
                    fuel as nat,
                    answers,
                ) == (match viewed(evaluated) {
                    Ok(ExecReturnView::Value(_)) => eval_loop(
                        program@,
                        *body_scope_id,
                        self@,
                        (remaining - 1) as nat,
                        answers,
                    ),
                    _ => (Outcome { result: viewed(evaluated), state: self@ }).intercepted_at(
                        *body_scope_id,
                    ),
                }) by {
                    lemma_answered_earlier(answers, before, self@);
                    assert(eval_loop(program@, *body_scope_id, old(self)@, fuel as nat, answers)
                        == eval_loop(program@, *body_scope_id, before, remaining as nat, answers));
                    assert(eval_scope(
                        program@,
                        *body_scope_id,
                        Seq::empty(),
                        before,
                        (remaining - 1) as nat,
                        answers,
                    ) == (Outcome { result: viewed(evaluated), state: self@ }));
                }
            }
            match evaluated {
                Ok(ExecReturn::Value(_)) => {},
                Ok(ExecReturn::ShortCircuit(short_circuit)) => {
                    if short_circuit.destination_scope_id == *body_scope_id {
                        return Ok(ExecReturn::Value(short_circuit.value));
                    } else {
                        return Ok(ExecReturn::ShortCircuit(short_circuit));
                    }
                },
                Err(e) => {
                    return Err(e);
                },
            }
            remaining = remaining - 1;
        }
    }

    /// Evaluates the value and makes it unwind to the loop that the `break`
    /// was resolved to. An unwind of the value is handed on.
    pub fn execute_loop_break<H: NativeHost>(
        &mut self,
        loop_break: &LoopBr,
        program: &Program,
        host: &mut H,
        fuel: u64,
    ) -> (returned: Result<ExecReturn, RuntimeError>)
        ensures
            follows(old(self)@, final(self)@, returned),
            forall|answers: Seq<Result<ValueView, NativeFault>>|
                answered(answers, final(self)@.calls) ==> #[trigger] eval_expr(
                    program@,
                    expr_of(ExprInner::LoopBr(*loop_break))@,
                    old(self)@,
                    fuel as nat,
                    answers,
                ) == (Outcome { result: viewed(returned), state: final(self)@ }),
        decreases fuel, 2int, loop_break,
    {
        let LoopBr { value, loop_scope_id } = loop_break;

        let evaluated = self.execute_expression(value, program, host, fuel);
        let returned = match evaluated {
            Ok(ExecReturn::Value(value)) => Ok(ExecReturn::new_short_circuit(value, *loop_scope_id)),
            evaluated => evaluated,
        };
        proof {
            assert forall|answers: Seq<Result<ValueView, NativeFault>>|
                answered(answers, self@.calls) implies #[trigger] eval_expr(
                program@,
                expr_of(ExprInner::LoopBr(*loop_break))@,
                old(self)@,
                fuel as nat,
                answers,
            ) == (Outcome { result: viewed(returned), state: self@ }) by {
                assert(eval_expr(program@, value@, old(self)@, fuel as nat, answers) == (Outcome {
                    result: viewed(evaluated),
                    state: self@,
                }));
            }
        }
        returned
    }

    /// Evaluates the condition, which must give a boolean, then the arm that
    /// it selects. Where it is false and there is no second arm, the value is
    /// `false`.
    pub fn execute_condition<H: NativeHost>(
        &mut self,
        condition: &Cond,
        program: &Program,
        host: &mut H,
        fuel: u64,
    ) -> (returned: Result<ExecReturn, RuntimeError>)
        ensures
            follows(old(self)@, final(self)@, returned),
            forall|answers: Seq<Result<ValueView, NativeFault>>|
                answered(answers, final(self)@.calls) ==> #[trigger] eval_expr(
                    program@,
                    expr_of(ExprInner::Cond(*condition))@,
                    old(self)@,
                    fuel as nat,
                    answers,
                ) == (Outcome { result: viewed(returned), state: final(self)@ }),
        decreases fuel, 2int, condition,
    {
        let Cond { condition: test, arm_true, arm_false } = condition;

        let tested = self.execute_expression(test, program, host, fuel);
        let ghost mid = self@;
        let ghost tested_view = viewed(tested);
        let returned = match tested {
            Ok(ExecReturn::Value(Value::Bool(boolean))) => {
                if boolean {
                    self.execute_expression(arm_true, program, host, fuel)
                } else {
                    match arm_false {
                        Some(arm_false) => self.execute_expression(arm_false, program, host, fuel),
                        None => Ok(ExecReturn::Value(Value::Bool(false))),
                    }
                }
            },
            Ok(ExecReturn::Value(_)) => Err(RuntimeError::NonBooleanCondition),
            tested => tested,
        };
        proof {
            lemma_continued_chain(old(self)@, mid, self@);
            assert forall|answers: Seq<Result<ValueView, NativeFault>>|
                answered(answers, self@.calls) implies #[trigger] eval_expr(
                program@,
                expr_of(ExprInner::Cond(*condition))@,
                old(self)@,
                fuel as nat,
                answers,
            ) == (Outcome { result: viewed(returned), state: self@ }) by {
                lemma_answered_earlier(answers, mid, self@);
                assert(eval_expr(program@, test@, old(self)@, fuel as nat, answers) == (Outcome {
                    result: tested_view,
                    state: mid,
                }));
                match tested_view {
                    Ok(ExecReturnView::Value(ValueView::Bool(holds))) => {
                        if holds {
                            assert(eval_expr(program@, arm_true@, mid, fuel as nat, answers)
                                == (Outcome { result: viewed(returned), state: self@ }));
                        } else {
                            match condition.arm_false {
                                Some(otherwise) => {
                                    assert(eval_expr(
                                        program@,
                                        otherwise@,
                                        mid,
                                        fuel as nat,
                                        answers,
                                    ) == (Outcome { result: viewed(returned), state: self@ }));
                                },
                                None => {},
                            }
                        }
                    },
                    _ => {},
                }
            }
        }
        returned
    }
}

/// The view of the values gathered for a call, of the unwind that ended their
/// evaluation, or the failure.
pub open spec fn gathered_of(
    gathered: Result<Result<Vec<Value>, ShortCircuit>, RuntimeError>,
) -> Result<GatheredView, RuntimeError> {
    match gathered {
        Ok(Ok(values)) => Ok(GatheredView::Values(values_of(values@))),
        Ok(Err(short_circuit)) => Ok(
            GatheredView::ShortCircuit {
                value: short_circuit.value@,
                destination_scope_id: short_circuit.destination_scope_id,
            },
        ),
        Err(e) => Err(e),
    }
}

} // verus!
