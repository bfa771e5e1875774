//! Function values: defined in the language, or provided by the host.

use vstd::prelude::*;
use crate::execution_tree::Id;

verus! {

/// Names one operation of the host's native-function registry.
#[derive(Debug, Clone, Copy, PartialEq, Eq, Structural)]
pub struct NativeId(pub u64);

/// Why a native function gave no value.
#[derive(Debug, Clone, Copy, PartialEq, Eq, Structural)]
pub enum NativeFault {
    /// An argument has a type that the function does not work on.
    TypeMismatch,
    /// The function got fewer arguments than it reads.
    MissingArgument,
    /// The host provides no function under the identifier called.
    UnknownNative,
    /// An object reference names no object of the host.
    UnknownObject,
    /// The host can hold no more objects.
    TooManyObjects,
}

/// A function defined in the language: its parameter slots and the scope that
/// holds its body. It captures no variable bindings.
#[derive(Debug)]
pub struct ConstructedFunctionExecutor {
    pub parameter_ids: Vec<Id>,
    pub body_scope_id: Id,
}

/// A function that the host provides.
#[derive(Debug, Clone, Copy, PartialEq, Eq, Structural)]
pub struct NativeFunctionExecutor {
    pub native: NativeId,
}

#[derive(Debug)]
pub enum FunctionExecutor {
    Constructed(ConstructedFunctionExecutor),
    Native(NativeFunctionExecutor),
}

#[derive(Debug)]
pub struct Function {
    pub argument_count: usize,
    pub executor: FunctionExecutor,
}

/// What a [`FunctionExecutor`] stands for.
pub enum ExecutorView {
    Constructed { parameter_ids: Seq<Id>, body_scope_id: Id },
    Native(NativeId),
}

/// What a [`Function`] stands for.
pub struct FunctionView {
    pub argument_count: nat,
    pub executor: ExecutorView,
}

impl View for FunctionExecutor {
    type V = ExecutorView;

    open spec fn view(&self) -> ExecutorView {
        match *self {
            FunctionExecutor::Constructed(c) => ExecutorView::Constructed {
                parameter_ids: c.parameter_ids@,
                body_scope_id: c.body_scope_id,
            },
            FunctionExecutor::Native(n) => ExecutorView::Native(n.native),
        }
    }
}

impl View for Function {
    type V = FunctionView;

    open spec fn view(&self) -> FunctionView {
        FunctionView { argument_count: self.argument_count as nat, executor: self.executor@ }
    }
}

/// A copy of `ids` that holds the same identifiers in the same order.
pub fn copy_ids(ids: &Vec<Id>) -> (copy: Vec<Id>)
    ensures
        copy@ == ids@,
{
    let mut copy: Vec<Id> = Vec::new();
    let mut i: usize = 0;
    while i < ids.len()
        invariant
            i <= ids.len(),
            copy@ == ids@.take(i as int),
        decreases ids.len() - i,
    {
        copy.push(ids[i]);
        i = i + 1;
    }
    copy
}

impl Clone for ConstructedFunctionExecutor {
    fn clone(&self) -> (copy: Self)
        ensures
            copy.parameter_ids@ == self.parameter_ids@,
            copy.body_scope_id == self.body_scope_id,
    {
        ConstructedFunctionExecutor {
            parameter_ids: copy_ids(&self.parameter_ids),
            body_scope_id: self.body_scope_id,
        }
    }
}

impl Clone for FunctionExecutor {
    fn clone(&self) -> (copy: Self)
        ensures
            copy@ == self@,
    {
        match self {
            FunctionExecutor::Constructed(c) => FunctionExecutor::Constructed(c.clone()),
            FunctionExecutor::Native(n) => FunctionExecutor::Native(*n),
        }
    }
}

impl Clone for Function {
    fn clone(&self) -> (copy: Self)
        ensures
            copy@ == self@,
    {
        Function { argument_count: self.argument_count, executor: self.executor.clone() }
    }
}

impl Function {
    /// A function defined in the language. Its arity is the number of its
    /// parameters.
    pub fn new_constructed(argument_ids: Vec<Id>, body_scope_id: Id) -> (function: Self)
        ensures
            function@ == (FunctionView {
                argument_count: argument_ids@.len(),
                executor: ExecutorView::Constructed { parameter_ids: argument_ids@, body_scope_id },
            }),
    {
        let argument_count = argument_ids.len();
        let executor = FunctionExecutor::Constructed(
            ConstructedFunctionExecutor { parameter_ids: argument_ids, body_scope_id },
        );
        Function { argument_count, executor }
    }

    /// A function of the given arity that the host provides under `native`.
    pub fn new_native(argument_count: usize, native: NativeId) -> (function: Self)
        ensures
            function@ == (FunctionView {
                argument_count: argument_count as nat,
                executor: ExecutorView::Native(native),
            }),
    {
        let executor = FunctionExecutor::Native(NativeFunctionExecutor { native });
        Function { argument_count, executor }
    }

    pub fn executor(&self) -> (executor: &FunctionExecutor)
        ensures
            *executor == self.executor,
    {
        &self.executor
    }
}

} // verus!
