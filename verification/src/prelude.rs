//! The reference registry of native functions: their names and arities, and
//! those of them that work on booleans, text and objects alone. The ones that
//! compute with numbers or print are left to the host.

use vstd::prelude::*;
use crate::execution_tree::parser::ParserBuilder;
use crate::execution_tree::routing::plain_globals;
use crate::value::{answer_of, values_of, ObjectRef, Value, ValueView};
use crate::value::function::{ExecutorView, Function, FunctionView, NativeFault, NativeId};
use crate::value::object::ObjectStore;

verus! {

/// The native functions of the reference registry.
#[derive(Debug, Clone, Copy, PartialEq, Eq, Structural)]
pub enum StdNative {
    /// `out(value)`: prints the value and returns it.
    Out,
    /// `add(left, right)`: the sum of two numbers, or the text of both joined.
    Add,
    /// `sub(left, right)`: the difference of two numbers.
    Sub,
    /// `eq(left, right)`: whether two booleans, two numbers or two texts are
    /// equal.
    Eq,
    /// `sup(left, right)`: whether the left number is the greater.
    Sup,
    /// `inf(left, right)`: whether the left number is the smaller.
    Inf,
    /// `and(left, right)`: whether both booleans hold.
    And,
    /// `or(left, right)`: whether one of the booleans holds.
    Or,
    /// `not(value)`: the other boolean.
    Not,
    /// `str(value)`: the value as text.
    Str,
    /// `obj()`: a new object without fields.
    Obj,
    /// `set(object, key, value)`: writes a field and returns the value.
    SetField,
    /// `get(object, key)`: the value of a field, or `false` where the object
    /// has no such field.
    GetField,
}

/// The number of native functions in the registry.
pub const STD_NATIVE_COUNT: u64 = 13;

impl StdNative {
    /// The place of this function in the registry.
    pub open spec fn index(self) -> u64 {
        match self {
            StdNative::Out => 0,
            StdNative::Add => 1,
            StdNative::Sub => 2,
            StdNative::Eq => 3,
            StdNative::Sup => 4,
            StdNative::Inf => 5,
            StdNative::And => 6,
            StdNative::Or => 7,
            StdNative::Not => 8,
            StdNative::Str => 9,
            StdNative::Obj => 10,
            StdNative::SetField => 11,
            StdNative::GetField => 12,
        }
    }

    /// The name under which a program calls this function.
    pub open spec fn name_text(self) -> Seq<char> {
        match self {
            StdNative::Out => "out"@,
            StdNative::Add => "add"@,
            StdNative::Sub => "sub"@,
            StdNative::Eq => "eq"@,
            StdNative::Sup => "sup"@,
            StdNative::Inf => "inf"@,
            StdNative::And => "and"@,
            StdNative::Or => "or"@,
            StdNative::Not => "not"@,
            StdNative::Str => "str"@,
            StdNative::Obj => "obj"@,
            StdNative::SetField => "set"@,
            StdNative::GetField => "get"@,
        }
    }

    /// The number of arguments this function takes.
    pub open spec fn argument_count(self) -> nat {
        match self {
            StdNative::Out => 1,
            StdNative::Add => 2,
            StdNative::Sub => 2,
            StdNative::Eq => 2,
            StdNative::Sup => 2,
            StdNative::Inf => 2,
            StdNative::And => 2,
            StdNative::Or => 2,
            StdNative::Not => 1,
            StdNative::Str => 1,
            StdNative::Obj => 0,
            StdNative::SetField => 3,
            StdNative::GetField => 2,
        }
    }

    /// The value that a program holds for this function.
    pub open spec fn value(self) -> ValueView {
        ValueView::Function(
            FunctionView {
                argument_count: self.argument_count(),
                executor: ExecutorView::Native(NativeId(self.index())),
            },
        )
    }

    /// The identifier under which the host is asked for this function.
    pub fn id(self) -> (id: NativeId)
        ensures
            id == NativeId(self.index()),
    {
        NativeId(
            match self {
                StdNative::Out => 0,
                StdNative::Add => 1,
                StdNative::Sub => 2,
                StdNative::Eq => 3,
                StdNative::Sup => 4,
                StdNative::Inf => 5,
                StdNative::And => 6,
                StdNative::Or => 7,
                StdNative::Not => 8,
                StdNative::Str => 9,
                StdNative::Obj => 10,
                StdNative::SetField => 11,
                StdNative::GetField => 12,
            },
        )
    }

    /// The function of the registry that `id` names, if it names one.
    pub fn from_id(id: NativeId) -> (native: Option<Self>)
        ensures
            match native {
                Some(native) => native.index() == id.0,
                None => id.0 >= STD_NATIVE_COUNT,
            },
    {
        let NativeId(index) = id;
        if index == 0 {
            Some(StdNative::Out)
        } else if index == 1 {
            Some(StdNative::Add)
        } else if index == 2 {
            Some(StdNative::Sub)
        } else if index == 3 {
            Some(StdNative::Eq)
        } else if index == 4 {
            Some(StdNative::Sup)
        } else if index == 5 {
            Some(StdNative::Inf)
        } else if index == 6 {
            Some(StdNative::And)
        } else if index == 7 {
            Some(StdNative::Or)
        } else if index == 8 {
            Some(StdNative::Not)
        } else if index == 9 {
            Some(StdNative::Str)
        } else if index == 10 {
            Some(StdNative::Obj)
        } else if index == 11 {
            Some(StdNative::SetField)
        } else if index == 12 {
            Some(StdNative::GetField)
        } else {
            None
        }
    }

    /// The name under which a program calls this function.
    pub fn name(self) -> (name: String)
        ensures
            name@ == self.name_text(),
    {
        match self {
            StdNative::Out => "out".to_owned(),
            StdNative::Add => "add".to_owned(),
            StdNative::Sub => "sub".to_owned(),
            StdNative::Eq => "eq".to_owned(),
            StdNative::Sup => "sup".to_owned(),
            StdNative::Inf => "inf".to_owned(),
            StdNative::And => "and".to_owned(),
            StdNative::Or => "or".to_owned(),
            StdNative::Not => "not".to_owned(),
            StdNative::Str => "str".to_owned(),
            StdNative::Obj => "obj".to_owned(),
            StdNative::SetField => "set".to_owned(),
            StdNative::GetField => "get".to_owned(),
        }
    }

    /// The number of arguments this function takes.
    pub fn arity(self) -> (count: usize)
        ensures
            count == self.argument_count(),
    {
        match self {
            StdNative::Obj => 0,
            StdNative::Out | StdNative::Not | StdNative::Str => 1,
            StdNative::SetField => 3,
            _ => 2,
        }
    }
}

/// Adds the native functions of the registry to `builder`, in the order of the
/// registry, after the globals that the builder holds already. Each is added
/// under its name, as a function value of its arity that the host executes.
pub fn std_prelude(builder: &mut ParserBuilder)
    ensures
        final(builder)@.len() == old(builder)@.len() + STD_NATIVE_COUNT,
        final(builder)@.take(old(builder)@.len() as int) == old(builder)@,
        forall|native: StdNative|
            (#[trigger] final(builder)@[old(builder)@.len() + native.index()]).0@
                == native.name_text() && final(builder)@[old(builder)@.len() + native.index()].1@
                == native.value(),
        plain_globals(old(builder)@) ==> plain_globals(final(builder)@),
{
    let mut index: u64 = 0;
    while index < STD_NATIVE_COUNT
        invariant
            index <= STD_NATIVE_COUNT,
            plain_globals(old(builder)@) ==> plain_globals(builder@),
            builder@.len() == old(builder)@.len() + index,
            builder@.take(old(builder)@.len() as int) == old(builder)@,
            forall|native: StdNative|
                native.index() < index ==> (#[trigger] builder@[old(builder)@.len()
                    + native.index()]).0@ == native.name_text() && builder@[old(builder)@.len()
                    + native.index()].1@ == native.value(),
        decreases STD_NATIVE_COUNT - index,
    {
        let native = match StdNative::from_id(NativeId(index)) {
            Some(native) => native,
            None => {
                return ;
            },
        };
        let ghost before = builder@;
        let function = Function::new_native(native.arity(), native.id());
        builder.prelude(native.name(), Value::Function(function));
        assert(builder@.take(old(builder)@.len() as int) == before.take(
            old(builder)@.len() as int,
        ));
        assert(plain_globals(before) ==> plain_globals(builder@)) by {
            if plain_globals(before) {
                assert forall|i: int| 0 <= i < builder@.len() implies crate::value::plain(
                    (#[trigger] builder@[i]).1@,
                ) by {
                    if i < before.len() {
                        assert(builder@[i] == before[i]);
                    }
                }
            }
        }
        assert forall|other: StdNative| other.index() < index + 1 implies (#[trigger] builder@[old(
            builder,
        )@.len() + other.index()]).0@ == other.name_text() && builder@[old(builder)@.len()
            + other.index()].1@ == other.value() by {
            if other.index() < index {
                assert(builder@[old(builder)@.len() + other.index()] == before[old(builder)@.len()
                    + other.index()]);
            } else {
                assert(other == native);
            }
        }
        index = index + 1;
    }
}

/// What `and` makes of its arguments.
pub open spec fn and_of(arguments: Seq<ValueView>) -> Result<ValueView, NativeFault> {
    if arguments.len() < 2 {
        Err(NativeFault::MissingArgument)
    } else {
        match (arguments[0], arguments[1]) {
            (ValueView::Bool(left), ValueView::Bool(right)) => Ok(ValueView::Bool(left && right)),
            _ => Err(NativeFault::TypeMismatch),
        }
    }
}

/// What `or` makes of its arguments.
pub open spec fn or_of(arguments: Seq<ValueView>) -> Result<ValueView, NativeFault> {
    if arguments.len() < 2 {
        Err(NativeFault::MissingArgument)
    } else {
        match (arguments[0], arguments[1]) {
            (ValueView::Bool(left), ValueView::Bool(right)) => Ok(ValueView::Bool(left || right)),
            _ => Err(NativeFault::TypeMismatch),
        }
    }
}

/// What `not` makes of its arguments.
pub open spec fn not_of(arguments: Seq<ValueView>) -> Result<ValueView, NativeFault> {
    if arguments.len() < 1 {
        Err(NativeFault::MissingArgument)
    } else {
        match arguments[0] {
            ValueView::Bool(value) => Ok(ValueView::Bool(!value)),
            _ => Err(NativeFault::TypeMismatch),
        }
    }
}

/// What `eq` makes of its arguments, where it can be told without computing
/// with numbers: `None` stands for two numbers, which the host compares.
pub open spec fn eq_of(arguments: Seq<ValueView>) -> Option<Result<ValueView, NativeFault>> {
    if arguments.len() < 2 {
        Some(Err(NativeFault::MissingArgument))
    } else {
        match (arguments[0], arguments[1]) {
            (ValueView::Bool(left), ValueView::Bool(right)) => Some(
                Ok(ValueView::Bool(left == right)),
            ),
            (ValueView::String(left), ValueView::String(right)) => Some(
                Ok(ValueView::Bool(left == right)),
            ),
            (ValueView::Number(_), ValueView::Number(_)) => None,
            _ => Some(Err(NativeFault::TypeMismatch)),
        }
    }
}

/// The text of a value, where it can be told without formatting a number:
/// `None` stands for a number, which the host formats.
pub open spec fn text_of(value: ValueView) -> Option<Seq<char>> {
    match value {
        ValueView::Nil => Some("None"@),
        ValueView::Bool(true) => Some("true"@),
        ValueView::Bool(false) => Some("false"@),
        ValueView::Number(_) => None,
        ValueView::String(text) => Some(text),
        ValueView::Object(_) => Some("[object]"@),
        ValueView::Function(_) => Some("[function]"@),
    }
}

/// What `str` makes of its arguments, where it can be told without formatting
/// a number.
pub open spec fn str_of(arguments: Seq<ValueView>) -> Option<Result<ValueView, NativeFault>> {
    if arguments.len() < 1 {
        Some(Err(NativeFault::MissingArgument))
    } else {
        match text_of(arguments[0]) {
            Some(text) => Some(Ok(ValueView::String(text))),
            None => None,
        }
    }
}

/// What `obj` does to the objects, and what it returns.
pub open spec fn obj_of(objects: Seq<Map<Seq<char>, ValueView>>) -> (
    Result<ValueView, NativeFault>,
    Seq<Map<Seq<char>, ValueView>>,
) {
    if objects.len() > u64::MAX {
        (Err(NativeFault::TooManyObjects), objects)
    } else {
        (Ok(ValueView::Object(ObjectRef(objects.len() as u64))), objects.push(Map::empty()))
    }
}

/// What `set` does to the objects, and what it returns.
pub open spec fn set_of(objects: Seq<Map<Seq<char>, ValueView>>, arguments: Seq<ValueView>) -> (
    Result<ValueView, NativeFault>,
    Seq<Map<Seq<char>, ValueView>>,
) {
    if arguments.len() < 3 {
        (Err(NativeFault::MissingArgument), objects)
    } else {
        match (arguments[0], arguments[1]) {
            (ValueView::Object(object), ValueView::String(key)) => {
                if object.0 < objects.len() {
                    (
                        Ok(arguments[2]),
                        objects.update(
                            object.0 as int,
                            objects[object.0 as int].insert(key, arguments[2]),
                        ),
                    )
                } else {
                    (Err(NativeFault::UnknownObject), objects)
                }
            },
            _ => (Err(NativeFault::TypeMismatch), objects),
        }
    }
}

/// What `get` returns.
pub open spec fn get_of(objects: Seq<Map<Seq<char>, ValueView>>, arguments: Seq<ValueView>) -> Result<
    ValueView,
    NativeFault,
> {
    if arguments.len() < 2 {
        Err(NativeFault::MissingArgument)
    } else {
        match (arguments[0], arguments[1]) {
            (ValueView::Object(object), ValueView::String(key)) => {
                if object.0 < objects.len() {
                    if objects[object.0 as int].contains_key(key) {
                        Ok(objects[object.0 as int][key])
                    } else {
                        Ok(ValueView::Bool(false))
                    }
                } else {
                    Err(NativeFault::UnknownObject)
                }
            },
            _ => Err(NativeFault::TypeMismatch),
        }
    }
}

/// Whether both booleans hold.
pub fn and(args: &Vec<Value>) -> (result: Result<Value, NativeFault>)
    ensures
        answer_of(result) == and_of(values_of(args@)),
{
    if args.len() < 2 {
        return Err(NativeFault::MissingArgument);
    }
    match (&args[0], &args[1]) {
        (Value::Bool(l), Value::Bool(r)) => Ok(Value::Bool(*l && *r)),
        _ => Err(NativeFault::TypeMismatch),
    }
}

/// Whether one of the booleans holds.
pub fn or(args: &Vec<Value>) -> (result: Result<Value, NativeFault>)
    ensures
        answer_of(result) == or_of(values_of(args@)),
{
    if args.len() < 2 {
        return Err(NativeFault::MissingArgument);
    }
    match (&args[0], &args[1]) {
        (Value::Bool(l), Value::Bool(r)) => Ok(Value::Bool(*l || *r)),
        _ => Err(NativeFault::TypeMismatch),
    }
}

/// The other boolean.
pub fn not(args: &Vec<Value>) -> (result: Result<Value, NativeFault>)
    ensures
        answer_of(result) == not_of(values_of(args@)),
{
    if args.len() < 1 {
        return Err(NativeFault::MissingArgument);
    }
    match args[0].as_bool() {
        Some(input) => Ok(Value::Bool(!input)),
        None => Err(NativeFault::TypeMismatch),
    }
}

/// Whether two booleans or two texts are equal. Two numbers are left to the
/// host: `None` is returned for them.
pub fn eq(args: &Vec<Value>) -> (result: Option<Result<Value, NativeFault>>)
    ensures
        match result {
            Some(result) => eq_of(values_of(args@)) == Some(answer_of(result)),
            None => eq_of(values_of(args@)).is_none(),
        },
{
    if args.len() < 2 {
        return Some(Err(NativeFault::MissingArgument));
    }
    match (&args[0], &args[1]) {
        (Value::Bool(l), Value::Bool(r)) => Some(Ok(Value::Bool(*l == *r))),
        (Value::String(l), Value::String(r)) => Some(Ok(Value::Bool(*l == *r))),
        (Value::Number(_), Value::Number(_)) => None,
        _ => Some(Err(NativeFault::TypeMismatch)),
    }
}

/// The text of a value. A number is left to the host: `None` is returned for
/// it.
pub fn value_to_string(input: &Value) -> (text: Option<String>)
    ensures
        match text {
            Some(text) => text_of(input@) == Some(text@),
            None => text_of(input@).is_none(),
        },
{
    match input {
        Value::Nil => Some("None".to_owned()),
        Value::Bool(b) => if *b {
            Some("true".to_owned())
        } else {
            Some("false".to_owned())
        },
        Value::Number(_) => None,
        Value::String(s) => Some(s.clone()),
        Value::Object(_) => Some("[object]".to_owned()),
        Value::Function(_) => Some("[function]".to_owned()),
    }
}

/// The value as text. A number is left to the host: `None` is returned for
/// it.
pub fn str(args: &Vec<Value>) -> (result: Option<Result<Value, NativeFault>>)
    ensures
        match result {
            Some(result) => str_of(values_of(args@)) == Some(answer_of(result)),
            None => str_of(values_of(args@)).is_none(),
        },
{
    if args.len() < 1 {
        return Some(Err(NativeFault::MissingArgument));
    }
    match value_to_string(&args[0]) {
        Some(text) => Some(Ok(Value::String(text))),
        None => None,
    }
}

/// Makes a new object without fields and returns the reference to it.
pub fn obj(objects: &mut ObjectStore) -> (result: Result<Value, NativeFault>)
    ensures
        (answer_of(result), final(objects)@) == obj_of(old(objects)@),
{
    match objects.create() {
        Some(object) => Ok(Value::Object(object)),
        None => Err(NativeFault::TooManyObjects),
    }
}

/// Writes the value to the field of the object and returns the value. Every
/// holder of the object sees the field from now on.
pub fn set(objects: &mut ObjectStore, args: &Vec<Value>) -> (result: Result<Value, NativeFault>)
    ensures
        (answer_of(result), final(objects)@) == set_of(old(objects)@, values_of(args@)),
{
    if args.len() < 3 {
        return Err(NativeFault::MissingArgument);
    }
    match (&args[0], &args[1]) {
        (Value::Object(object), Value::String(name)) => {
            let value = args[2].clone();
            let stored = args[2].clone();
            match objects.set(*object, name.clone(), stored) {
                Ok(_) => Ok(value),
                Err(fault) => Err(fault),
            }
        },
        _ => Err(NativeFault::TypeMismatch),
    }
}

/// The value of the field of the object, or `false` where the object has no
/// such field.
pub fn get(objects: &ObjectStore, args: &Vec<Value>) -> (result: Result<Value, NativeFault>)
    ensures
        answer_of(result) == get_of(objects@, values_of(args@)),
{
    if args.len() < 2 {
        return Err(NativeFault::MissingArgument);
    }
    match (&args[0], &args[1]) {
        (Value::Object(object), Value::String(name)) => {
            match objects.get(*object, name) {
                Ok(Some(value)) => Ok(value),
                Ok(None) => Ok(Value::Bool(false)),
                Err(fault) => Err(fault),
            }
        },
        _ => Err(NativeFault::TypeMismatch),
    }
}

/// A field that was written is read back, by every holder of the object,
/// until it is written again; a field that was never written reads as `false`.
pub proof fn lemma_get_after_set(
    objects: Seq<Map<Seq<char>, ValueView>>,
    object: ObjectRef,
    key: Seq<char>,
    value: ValueView,
    other: Seq<char>,
)
    requires
        object.0 < objects.len(),
    ensures
        set_of(objects, seq![ValueView::Object(object), ValueView::String(key), value]).0 == Ok::<
            ValueView,
            NativeFault,
        >(value),
        get_of(
            set_of(objects, seq![ValueView::Object(object), ValueView::String(key), value]).1,
            seq![ValueView::Object(object), ValueView::String(key)],
        ) == Ok::<ValueView, NativeFault>(value),
        other != key ==> get_of(
            set_of(objects, seq![ValueView::Object(object), ValueView::String(key), value]).1,
            seq![ValueView::Object(object), ValueView::String(other)],
        ) == get_of(objects, seq![ValueView::Object(object), ValueView::String(other)]),
        get_of(
            obj_of(objects).1,
            seq![obj_of(objects).0->Ok_0, ValueView::String(key)],
        ) == Ok::<ValueView, NativeFault>(ValueView::Bool(false)) || obj_of(objects).0 is Err,
{
}

} // verus!
