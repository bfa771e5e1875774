use std::collections::HashMap;

use prout::execution_tree::parser::{Parser, ParserBuilder, ParserScope};
use prout::execution_tree::resolution::ResolveError;
use prout::execution_tree::{
    Expr, ExprInner, FnRet, Id, IdAllocator, Literal, Loop, Program, Scope, VarCall, VarDef,
};
use prout::prelude::{std_prelude, StdNative};
use prout::runtime::semantics::{InternalFault, RuntimeError};
use prout::runtime::{ExecReturn, Frame, FrameBuilder, NativeHost, Runtime, Stack};
use prout::syntax_tree;
use prout::value::function::{Function, FunctionExecutor, NativeFault, NativeId};
use prout::value::object::ObjectStore;
use prout::value::{Number, ObjectRef, Value};

fn number(n: f64) -> Value {
    Value::Number(Number::from_bits(n.to_bits()))
}

fn float(value: &Value) -> f64 {
    f64::from_bits(value.as_number().expect("a number").to_bits())
}

fn text(s: &str) -> Value {
    Value::String(s.to_string())
}

struct NoHost;

impl NativeHost for NoHost {
    fn call_native(&mut self, _native: NativeId, _args: Vec<Value>) -> Result<Value, NativeFault> {
        Err(NativeFault::UnknownNative)
    }
}

struct Doubler {
    asked: Vec<(NativeId, usize)>,
}

impl NativeHost for Doubler {
    fn call_native(&mut self, native: NativeId, args: Vec<Value>) -> Result<Value, NativeFault> {
        self.asked.push((native, args.len()));
        match args.first() {
            Some(value) => Ok(number(2.0 * float(value))),
            None => Err(NativeFault::MissingArgument),
        }
    }
}

#[test]
fn number_keeps_its_bits() {
    let n = Number::from_bits(2.5f64.to_bits());
    assert_eq!(n.to_bits(), 2.5f64.to_bits());
    assert_eq!(f64::from_bits(n.to_bits()), 2.5);
}

#[test]
fn value_accessors_tell_the_variants_apart() {
    assert_eq!(Value::Bool(true).as_bool(), Some(true));
    assert_eq!(number(1.0).as_bool(), None);
    assert_eq!(number(1.5).as_number().map(|n| n.to_bits()), Some(1.5f64.to_bits()));
    assert_eq!(Value::Nil.as_number(), None);
    assert_eq!(text("abc").as_string(), Some("abc"));
    assert_eq!(Value::Bool(false).as_string(), None);
    assert_eq!(Value::Object(ObjectRef(3)).as_object(), Some(ObjectRef(3)));
    assert_eq!(Value::Nil.as_object(), None);
    assert!(Value::Nil.as_function().is_none());
    let function = Value::Function(Function::new_native(2, NativeId(7)));
    assert_eq!(function.as_function().map(|f| f.argument_count), Some(2));
}

#[test]
fn object_reference_is_changed_in_place() {
    let mut value = Value::Object(ObjectRef(1));
    if let Some(object) = value.as_object_mut() {
        *object = ObjectRef(2);
    }
    assert_eq!(value.as_object(), Some(ObjectRef(2)));
    let mut other = Value::Bool(true);
    assert!(other.as_object_mut().is_none());
    assert_eq!(other.as_bool(), Some(true));
}

#[test]
fn values_come_from_plain_data() {
    assert_eq!(Value::from(true).as_bool(), Some(true));
    assert_eq!(Value::from("k".to_string()).as_string(), Some("k"));
    assert_eq!(Value::text("k").as_string(), Some("k"));
    let n = Number::from_bits(7);
    assert_eq!(Value::from(n).as_number(), Some(n));
    let function: Value = Function::new_constructed(vec![Id(4), Id(5)], Id(3)).into();
    let function = function.as_function().expect("a function").clone();
    assert_eq!(function.argument_count, 2);
    match function.executor() {
        FunctionExecutor::Constructed(executor) => {
            assert_eq!(executor.parameter_ids, vec![Id(4), Id(5)]);
            assert_eq!(executor.body_scope_id, Id(3));
        }
        FunctionExecutor::Native(_) => panic!("a constructed function"),
    }
}

#[test]
fn clone_of_a_value_is_the_value() {
    let value = text("hello");
    assert_eq!(value.clone().as_string(), Some("hello"));
    let function = Value::Function(Function::new_native(1, NativeId(9)));
    match function.clone().as_function().unwrap().executor() {
        FunctionExecutor::Native(executor) => assert_eq!(executor.native, NativeId(9)),
        FunctionExecutor::Constructed(_) => panic!("a native function"),
    }
}

#[test]
fn registry_lists_thirteen_functions_in_order() {
    let names = [
        "out", "add", "sub", "eq", "sup", "inf", "and", "or", "not", "str", "obj", "set", "get",
    ];
    let arities = [1, 2, 2, 2, 2, 2, 2, 2, 1, 1, 0, 3, 2];
    for (index, name) in names.iter().enumerate() {
        let native = StdNative::from_id(NativeId(index as u64)).expect("a native function");
        assert_eq!(native.id(), NativeId(index as u64));
        assert_eq!(native.name(), *name);
        assert_eq!(native.arity(), arities[index]);
    }
    assert_eq!(StdNative::from_id(NativeId(13)), None);
}

#[test]
fn registry_globals_resolve_in_their_order() {
    let mut builder = ParserBuilder::new();
    std_prelude(&mut builder);
    let ast = syntax_tree::Program {
        body: syntax_tree::Scope::new(vec![syntax_tree::Expr::new_variable_call("sub")]),
    };
    let program = Parser::parse(ast, builder).unwrap();
    let root = program.scopes.get(&0).unwrap();
    // The root scope is 0; the globals take 1 to 13 in the order of the registry.
    assert_eq!(root.local_variables, (1..=13).map(Id).collect::<Vec<_>>());
    assert_eq!(root.expressions.len(), 14);
    match root.expressions[13].inner() {
        ExprInner::VarCall(call) => assert_eq!(call.variable_id, Id(3)),
        _ => panic!("the last instruction reads a variable"),
    }
    match root.expressions[2].inner() {
        ExprInner::VarDef(definition) => {
            assert_eq!(definition.variable_id, Id(3));
            match definition.value.inner() {
                ExprInner::Literal(Literal(value)) => {
                    let function = value.as_function().expect("a function");
                    assert_eq!(function.argument_count, 2);
                }
                _ => panic!("a global is declared with a literal"),
            }
        }
        _ => panic!("the third instruction declares `sub`"),
    }
}

#[test]
fn globals_of_a_builder_are_declared_in_the_order_given() {
    let mut builder = ParserBuilder::new();
    builder.prelude("first".to_string(), number(1.0));
    builder.prelude("second".to_string(), number(2.0));
    let ast = syntax_tree::Program {
        body: syntax_tree::Scope::new(vec![
            syntax_tree::Expr::new_variable_call("second"),
            syntax_tree::Expr::new_variable_call("first"),
        ]),
    };
    let program = Parser::parse(ast, builder).unwrap();
    let root = program.scopes.get(&0).unwrap();
    match (root.expressions[2].inner(), root.expressions[3].inner()) {
        (ExprInner::VarCall(second), ExprInner::VarCall(first)) => {
            assert_eq!(second.variable_id, Id(2));
            assert_eq!(first.variable_id, Id(1));
        }
        _ => panic!("the program reads two variables"),
    }
    let mut host = NoHost;
    let value = Runtime::new().execute(&program, &mut host, 10).unwrap();
    assert_eq!(float(&value), 1.0);
}

#[test]
fn scope_chain_children_keep_or_take_the_targets() {
    let (root, mut ids) = ParserScope::new_root();
    assert_eq!(root.get_current_id(), Id(0));
    assert_eq!(root.get_parent_id(), None);
    assert_eq!(root.get_current_function_id(), None);
    assert_eq!(root.get_current_loop_id(), None);

    let looping = root.make_child_loop(&mut ids).unwrap();
    assert_eq!(looping.get_current_id(), Id(1));
    assert_eq!(looping.get_parent_id(), Some(Id(0)));
    assert_eq!(looping.get_current_loop_id(), Some(Id(1)));
    assert_eq!(looping.get_current_function_id(), None);

    let function = looping.make_child_function(&mut ids).unwrap();
    assert_eq!(function.get_current_id(), Id(2));
    assert_eq!(function.get_current_function_id(), Some(Id(2)));
    assert_eq!(function.get_current_loop_id(), None);

    let inner_loop = function.make_child_loop(&mut ids).unwrap();
    assert_eq!(inner_loop.get_current_function_id(), Some(Id(2)));
    assert_eq!(inner_loop.get_current_loop_id(), Some(Id(3)));

    let block = inner_loop.make_child_common(&mut ids).unwrap();
    assert_eq!(block.get_current_id(), Id(4));
    assert_eq!(block.get_parent_id(), Some(Id(3)));
    assert_eq!(block.get_current_function_id(), Some(Id(2)));
    assert_eq!(block.get_current_loop_id(), Some(Id(3)));
    assert_eq!(block.add_anonymous(&mut ids), Ok(Id(5)));
}

#[test]
fn names_resolve_from_the_inside_out() {
    let (mut root, mut ids) = ParserScope::new_root();
    let outer = root.add_name("a".to_string(), &mut ids).unwrap();
    let other = root.add_name("b".to_string(), &mut ids).unwrap();
    let mut child = root.make_child_common(&mut ids).unwrap();
    assert_eq!(child.get_variable_id("a"), Some(outer));
    let inner = child.add_name("a".to_string(), &mut ids).unwrap();
    assert_eq!(child.get_variable_id("a"), Some(inner));
    assert_eq!(child.get_variable_id("b"), Some(other));
    assert_eq!(child.get_variable_id("c"), None);
    assert_eq!(child.local_variable_ids(), vec![inner]);
    drop(child);
    assert_eq!(root.get_variable_id("a"), Some(outer));
    assert_eq!(root.local_variable_ids(), vec![outer, other]);
}

#[test]
fn parameters_are_declared_by_the_body_scope() {
    // f: (x, y) => { return x }
    let ast = syntax_tree::Program {
        body: syntax_tree::Scope::new(vec![syntax_tree::Expr::new_variable_definition(
            "f",
            syntax_tree::Expr::new_function_definition(
                vec!["x", "y"],
                syntax_tree::Scope::new(vec![syntax_tree::Expr::new_function_return(
                    syntax_tree::Expr::new_variable_call("x"),
                )]),
            ),
        )]),
    };
    let program = Parser::parse(ast, ParserBuilder::new()).unwrap();
    let root = program.scopes.get(&0).unwrap();
    let definition = match root.expressions[0].inner() {
        ExprInner::VarDef(definition) => definition,
        _ => panic!("the program declares `f`"),
    };
    // The body is resolved before the name of the function is declared.
    assert_eq!(definition.variable_id, Id(4));
    let function = match definition.value.inner() {
        ExprInner::FnDef(function) => function,
        _ => panic!("`f` is a function"),
    };
    assert_eq!(function.body_scope_id, Id(1));
    assert_eq!(function.parameter_ids, vec![Id(2), Id(3)]);
    let body = program.scopes.get(&1).unwrap();
    assert_eq!(body.parent_scope_id, Some(Id(0)));
    assert_eq!(body.local_variables, vec![Id(2), Id(3)]);
    match body.expressions[0].inner() {
        ExprInner::FnRet(ret) => {
            assert_eq!(ret.function_scope_id, Id(1));
            match ret.value.inner() {
                ExprInner::VarCall(call) => assert_eq!(call.variable_id, Id(2)),
                _ => panic!("the function returns a variable"),
            }
        }
        _ => panic!("the body returns"),
    }
}

#[test]
fn resolving_again_gives_the_same_tree() {
    let build = || syntax_tree::Program {
        body: syntax_tree::Scope::new(vec![
            syntax_tree::Expr::new_variable_definition(
                "a",
                syntax_tree::Expr::new_literal(number(1.0)),
            ),
            syntax_tree::Expr::new_loop(syntax_tree::Scope::new(vec![
                syntax_tree::Expr::new_loop_break(syntax_tree::Expr::new_variable_call("a")),
            ])),
        ]),
    };
    let first = Parser::parse(build(), ParserBuilder::new()).unwrap();
    let second = Parser::parse(build(), ParserBuilder::new()).unwrap();
    assert_eq!(format!("{first:?}").len(), format!("{second:?}").len());
    assert_eq!(first.main_scope_id, second.main_scope_id);
    for id in 0..3u64 {
        match (first.scopes.get(&id), second.scopes.get(&id)) {
            (Some(a), Some(b)) => assert_eq!(format!("{a:?}"), format!("{b:?}")),
            (None, None) => {}
            _ => panic!("one resolution has a scope that the other has not"),
        }
    }
}

#[test]
fn frame_starts_with_none_and_takes_the_bindings() {
    let scope = Scope {
        scope_id: Id(1),
        parent_scope_id: None,
        local_variables: vec![Id(2), Id(3)],
        expressions: vec![],
    };
    let mut builder = FrameBuilder::new();
    builder.variable(&Id(3), number(1.0));
    builder.variable(&Id(3), number(2.0));
    let mut stack = Stack::new();
    stack.push_frame(Frame::new(&scope, builder));
    assert!(matches!(stack.get(&Id(2)), Some(Value::Nil)));
    assert_eq!(stack.get(&Id(3)).map(float), Some(2.0));
    assert!(stack.get(&Id(4)).is_none());
}

#[test]
fn stack_reads_and_writes_the_innermost_holder() {
    let outer = Scope {
        scope_id: Id(1),
        parent_scope_id: None,
        local_variables: vec![Id(2), Id(3)],
        expressions: vec![],
    };
    let inner = Scope {
        scope_id: Id(4),
        parent_scope_id: Some(Id(1)),
        local_variables: vec![Id(3)],
        expressions: vec![],
    };
    let mut stack = Stack::new();
    stack.push_frame(Frame::new(&outer, FrameBuilder::new()));
    assert!(stack.set(&Id(3), number(1.0)));
    stack.push_frame(Frame::new(&inner, FrameBuilder::new()));
    assert!(matches!(stack.get(&Id(3)), Some(Value::Nil)));
    assert!(stack.set(&Id(3), number(2.0)));
    assert!(stack.set(&Id(2), number(3.0)));
    assert!(!stack.set(&Id(9), number(4.0)));
    assert_eq!(stack.get(&Id(3)).map(float), Some(2.0));
    stack.pop_frame();
    assert_eq!(stack.get(&Id(3)).map(float), Some(1.0));
    assert_eq!(stack.get(&Id(2)).map(float), Some(3.0));
    stack.pop_frame();
    assert!(stack.get(&Id(2)).is_none());
    stack.pop_frame();
    assert!(stack.get(&Id(2)).is_none());
}

#[test]
fn stack_hands_out_the_place_of_the_innermost_holder() {
    let outer = Scope {
        scope_id: Id(1),
        parent_scope_id: None,
        local_variables: vec![Id(2), Id(3)],
        expressions: vec![],
    };
    let inner = Scope {
        scope_id: Id(4),
        parent_scope_id: Some(Id(1)),
        local_variables: vec![Id(3), Id(3)],
        expressions: vec![],
    };
    let mut stack = Stack::new();
    stack.push_frame(Frame::new(&outer, FrameBuilder::new()));
    stack.push_frame(Frame::new(&inner, FrameBuilder::new()));
    *stack.get_mut(&Id(3)).unwrap() = number(7.0);
    *stack.get_mut(&Id(2)).unwrap() = number(8.0);
    assert!(stack.get_mut(&Id(9)).is_none());
    assert_eq!(stack.get(&Id(3)).map(float), Some(7.0));
    assert_eq!(stack.get(&Id(2)).map(float), Some(8.0));
    stack.pop_frame();
    assert!(matches!(stack.get(&Id(3)), Some(Value::Nil)));
    assert_eq!(stack.get(&Id(2)).map(float), Some(8.0));
}

#[test]
fn values_become_literals_and_results() {
    let literal: syntax_tree::Expr = Value::Bool(true).into();
    match literal.inner() {
        syntax_tree::ExprInner::Literal(held) => assert_eq!(held.0.as_bool(), Some(true)),
        _ => panic!("a literal"),
    }
    let returned: ExecReturn = number(3.0).into();
    assert_eq!(returned.into_value().map(|v| float(&v)), Some(3.0));
}

#[test]
fn exec_return_is_a_value_or_an_unwind() {
    assert_eq!(ExecReturn::new_value(number(1.0)).into_value().map(|v| float(&v)), Some(1.0));
    assert!(ExecReturn::new_value(number(1.0)).into_shortcircuit().is_none());
    let unwind = ExecReturn::new_short_circuit(number(2.0), Id(5)).into_shortcircuit().unwrap();
    assert_eq!(float(&unwind.value), 2.0);
    assert_eq!(unwind.destination_scope_id, Id(5));
    assert!(ExecReturn::new_short_circuit(number(2.0), Id(5)).into_value().is_none());
}

fn expression(inner: ExprInner) -> Expr {
    Expr(Box::new(inner))
}

fn program(main: u64, scopes: Vec<Scope>) -> Program {
    let mut map = HashMap::new();
    for scope in scopes {
        map.insert(scope.scope_id.0, scope);
    }
    Program { main_scope_id: Id(main), scopes: map }
}

#[test]
fn missing_scope_is_an_internal_fault() {
    let tree = program(7, vec![]);
    let value = Runtime::new().execute(&tree, &mut NoHost, 10);
    assert_eq!(value.err(), Some(RuntimeError::Internal(InternalFault::UnknownScope(Id(7)))));

    let tree = program(
        0,
        vec![Scope {
            scope_id: Id(0),
            parent_scope_id: None,
            local_variables: vec![],
            expressions: vec![Expr::new_loop(Loop { body_scope_id: Id(5) })],
        }],
    );
    let value = Runtime::new().execute(&tree, &mut NoHost, 10);
    assert_eq!(value.err(), Some(RuntimeError::Internal(InternalFault::UnknownScope(Id(5)))));
}

#[test]
fn unwind_out_of_the_main_scope_is_an_internal_fault() {
    let tree = program(
        0,
        vec![Scope {
            scope_id: Id(0),
            parent_scope_id: None,
            local_variables: vec![],
            expressions: vec![
                Expr::new_function_return(FnRet {
                    value: Expr::new_literal(Literal(number(1.0))),
                    function_scope_id: Id(9),
                }),
                Expr::new_literal(Literal(number(2.0))),
            ],
        }],
    );
    let value = Runtime::new().execute(&tree, &mut NoHost, 10);
    assert_eq!(value.err(), Some(RuntimeError::Internal(InternalFault::StrayUnwind(Id(9)))));
}

#[test]
fn undeclared_slot_is_an_internal_fault() {
    let tree = program(
        0,
        vec![Scope {
            scope_id: Id(0),
            parent_scope_id: None,
            local_variables: vec![],
            expressions: vec![Expr::new_variable_definition(VarDef {
                variable_id: Id(1),
                value: Expr::new_literal(Literal(number(1.0))),
            })],
        }],
    );
    let value = Runtime::new().execute(&tree, &mut NoHost, 10);
    assert_eq!(value.err(), Some(RuntimeError::Internal(InternalFault::UnknownVariable(Id(1)))));

    let tree = program(
        0,
        vec![Scope {
            scope_id: Id(0),
            parent_scope_id: None,
            local_variables: vec![],
            expressions: vec![expression(ExprInner::VarCall(VarCall { variable_id: Id(1) }))],
        }],
    );
    let value = Runtime::new().execute(&tree, &mut NoHost, 10);
    assert_eq!(value.err(), Some(RuntimeError::Internal(InternalFault::UnknownVariable(Id(1)))));
}

#[test]
fn fuel_bounds_the_depth_of_scopes() {
    // { { 1 } } needs one unit of fuel for each of the three scopes.
    let build = || syntax_tree::Program {
        body: syntax_tree::Scope::new(vec![syntax_tree::Expr::new_scope(vec![
            syntax_tree::Expr::new_scope(vec![syntax_tree::Expr::new_literal(number(1.0))]),
        ])]),
    };
    let tree = Parser::parse(build(), ParserBuilder::new()).unwrap();
    assert_eq!(
        Runtime::new().execute(&tree, &mut NoHost, 0).err(),
        Some(RuntimeError::FuelExhausted)
    );
    assert_eq!(
        Runtime::new().execute(&tree, &mut NoHost, 2).err(),
        Some(RuntimeError::FuelExhausted)
    );
    assert_eq!(Runtime::new().execute(&tree, &mut NoHost, 3).ok().map(|v| float(&v)), Some(1.0));
    assert_eq!(Runtime::new().execute(&tree, &mut NoHost, 99).ok().map(|v| float(&v)), Some(1.0));
}

#[test]
fn host_is_asked_with_the_values_of_the_arguments() {
    let mut builder = ParserBuilder::new();
    builder.prelude("twice".to_string(), Function::new_native(1, NativeId(42)).into());
    let ast = syntax_tree::Program {
        body: syntax_tree::Scope::new(vec![syntax_tree::Expr::new_function_call(
            "twice",
            vec![syntax_tree::Expr::new_function_call(
                "twice",
                vec![syntax_tree::Expr::new_literal(number(3.0))],
            )],
        )]),
    };
    let tree = Parser::parse(ast, builder).unwrap();
    let mut host = Doubler { asked: Vec::new() };
    let value = Runtime::new().execute(&tree, &mut host, 10).unwrap();
    assert_eq!(float(&value), 12.0);
    assert_eq!(host.asked, vec![(NativeId(42), 1), (NativeId(42), 1)]);
}

#[test]
fn failing_host_aborts_the_run() {
    let mut builder = ParserBuilder::new();
    builder.prelude("nothing".to_string(), Function::new_native(0, NativeId(1)).into());
    let ast = syntax_tree::Program {
        body: syntax_tree::Scope::new(vec![
            syntax_tree::Expr::new_function_call("nothing", vec![]),
            syntax_tree::Expr::new_literal(number(1.0)),
        ]),
    };
    let tree = Parser::parse(ast, builder).unwrap();
    let value = Runtime::new().execute(&tree, &mut NoHost, 10);
    assert_eq!(value.err(), Some(RuntimeError::Native(NativeFault::UnknownNative)));
}

#[test]
fn boolean_natives() {
    let t = Value::Bool(true);
    let f = Value::Bool(false);
    let both = |l: &Value, r: &Value| vec![l.clone(), r.clone()];
    assert_eq!(prout::prelude::and(&both(&t, &f)).unwrap().as_bool(), Some(false));
    assert_eq!(prout::prelude::and(&both(&t, &t)).unwrap().as_bool(), Some(true));
    assert_eq!(prout::prelude::or(&both(&t, &f)).unwrap().as_bool(), Some(true));
    assert_eq!(prout::prelude::or(&both(&f, &f)).unwrap().as_bool(), Some(false));
    assert_eq!(prout::prelude::not(&vec![t.clone()]).unwrap().as_bool(), Some(false));
    assert_eq!(prout::prelude::not(&vec![f.clone()]).unwrap().as_bool(), Some(true));
    assert_eq!(prout::prelude::and(&vec![t.clone()]).err(), Some(NativeFault::MissingArgument));
    assert_eq!(prout::prelude::or(&vec![]).err(), Some(NativeFault::MissingArgument));
    assert_eq!(prout::prelude::not(&vec![]).err(), Some(NativeFault::MissingArgument));
    assert_eq!(
        prout::prelude::and(&both(&t, &number(1.0))).err(),
        Some(NativeFault::TypeMismatch)
    );
    assert_eq!(prout::prelude::not(&vec![text("x")]).err(), Some(NativeFault::TypeMismatch));
}

#[test]
fn equality_of_booleans_and_texts_is_decided_by_the_library() {
    let eq = |l: Value, r: Value| prout::prelude::eq(&vec![l, r]);
    assert_eq!(eq(Value::Bool(true), Value::Bool(true)).unwrap().unwrap().as_bool(), Some(true));
    assert_eq!(eq(Value::Bool(true), Value::Bool(false)).unwrap().unwrap().as_bool(), Some(false));
    assert_eq!(eq(text("a"), text("a")).unwrap().unwrap().as_bool(), Some(true));
    assert_eq!(eq(text("a"), text("b")).unwrap().unwrap().as_bool(), Some(false));
    assert!(eq(number(1.0), number(1.0)).is_none());
    assert_eq!(eq(text("a"), number(1.0)).unwrap().err(), Some(NativeFault::TypeMismatch));
    assert_eq!(
        prout::prelude::eq(&vec![text("a")]).unwrap().err(),
        Some(NativeFault::MissingArgument)
    );
}

#[test]
fn text_of_values() {
    let show = |v: Value| prout::prelude::value_to_string(&v);
    assert_eq!(show(Value::Nil), Some("None".to_string()));
    assert_eq!(show(Value::Bool(true)), Some("true".to_string()));
    assert_eq!(show(Value::Bool(false)), Some("false".to_string()));
    assert_eq!(show(text("abc")), Some("abc".to_string()));
    assert_eq!(show(Value::Object(ObjectRef(0))), Some("[object]".to_string()));
    assert_eq!(
        show(Value::Function(Function::new_native(0, NativeId(0)))),
        Some("[function]".to_string())
    );
    assert_eq!(show(number(1.0)), None);
    let shown = prout::prelude::str(&vec![Value::Bool(true)]).unwrap().unwrap();
    assert_eq!(shown.as_string(), Some("true"));
    assert!(prout::prelude::str(&vec![number(1.0)]).is_none());
    assert_eq!(
        prout::prelude::str(&vec![]).unwrap().err(),
        Some(NativeFault::MissingArgument)
    );
}

#[test]
fn object_natives_write_and_read_fields() {
    let mut objects = ObjectStore::new();
    let first = prout::prelude::obj(&mut objects).unwrap();
    let second = prout::prelude::obj(&mut objects).unwrap();
    assert_eq!(first.as_object(), Some(ObjectRef(0)));
    assert_eq!(second.as_object(), Some(ObjectRef(1)));

    let written =
        prout::prelude::set(&mut objects, &vec![first.clone(), text("k"), number(5.0)]).unwrap();
    assert_eq!(float(&written), 5.0);
    let read = prout::prelude::get(&objects, &vec![first.clone(), text("k")]).unwrap();
    assert_eq!(float(&read), 5.0);
    let read = prout::prelude::get(&objects, &vec![first.clone(), text("missing")]).unwrap();
    assert_eq!(read.as_bool(), Some(false));
    let read = prout::prelude::get(&objects, &vec![second.clone(), text("k")]).unwrap();
    assert_eq!(read.as_bool(), Some(false));

    prout::prelude::set(&mut objects, &vec![first.clone(), text("k"), number(6.0)]).unwrap();
    prout::prelude::set(&mut objects, &vec![first.clone(), text("j"), number(7.0)]).unwrap();
    let read = prout::prelude::get(&objects, &vec![first.clone(), text("k")]).unwrap();
    assert_eq!(float(&read), 6.0);
    let read = prout::prelude::get(&objects, &vec![first.clone(), text("j")]).unwrap();
    assert_eq!(float(&read), 7.0);

    let stranger = Value::Object(ObjectRef(9));
    assert_eq!(
        prout::prelude::get(&objects, &vec![stranger.clone(), text("k")]).err(),
        Some(NativeFault::UnknownObject)
    );
    assert_eq!(
        prout::prelude::set(&mut objects, &vec![stranger, text("k"), number(1.0)]).err(),
        Some(NativeFault::UnknownObject)
    );
    assert_eq!(
        prout::prelude::get(&objects, &vec![first.clone(), number(1.0)]).err(),
        Some(NativeFault::TypeMismatch)
    );
    assert_eq!(
        prout::prelude::set(&mut objects, &vec![first.clone(), text("k")]).err(),
        Some(NativeFault::MissingArgument)
    );
    assert_eq!(
        prout::prelude::get(&objects, &vec![first]).err(),
        Some(NativeFault::MissingArgument)
    );
}

#[test]
fn object_store_keeps_one_entry_for_each_key() {
    let mut objects = ObjectStore::new();
    let object = objects.create().unwrap();
    assert_eq!(objects.get(object, &"k".to_string()).unwrap().map(|v| float(&v)), None);
    objects.set(object, "k".to_string(), number(1.0)).unwrap();
    objects.set(object, "k".to_string(), number(2.0)).unwrap();
    assert_eq!(objects.get(object, &"k".to_string()).unwrap().map(|v| float(&v)), Some(2.0));
    assert_eq!(objects.get(ObjectRef(5), &"k".to_string()).err(), Some(NativeFault::UnknownObject));
    assert_eq!(
        objects.set(ObjectRef(5), "k".to_string(), number(1.0)).err(),
        Some(NativeFault::UnknownObject)
    );
}

#[test]
fn allocator_never_repeats() {
    let mut ids = IdAllocator::new();
    let mut last = ids.next().unwrap();
    assert_eq!(last, Id::zero());
    for _ in 0..100 {
        let next = ids.next().unwrap();
        assert!(next.0 > last.0);
        assert_eq!(next, last.next());
        last = next;
    }
}

#[test]
fn first_failure_of_a_resolution_wins() {
    // { missing_a; return 1 }: the undefined variable comes first.
    let ast = syntax_tree::Program {
        body: syntax_tree::Scope::new(vec![
            syntax_tree::Expr::new_variable_call("missing_a"),
            syntax_tree::Expr::new_function_return(syntax_tree::Expr::new_literal(number(1.0))),
        ]),
    };
    match Parser::parse(ast, ParserBuilder::new()) {
        Err(ResolveError::UndefinedVariable(name)) => assert_eq!(name, "missing_a"),
        _ => panic!("the first failure is the undefined variable"),
    }
    // a <- missing: the value is resolved before the assigned name.
    let ast = syntax_tree::Program {
        body: syntax_tree::Scope::new(vec![syntax_tree::Expr::new_variable_assignment(
            "a",
            syntax_tree::Expr::new_variable_call("missing"),
        )]),
    };
    match Parser::parse(ast, ParserBuilder::new()) {
        Err(ResolveError::UndefinedVariable(name)) => assert_eq!(name, "missing"),
        _ => panic!("the value is resolved first"),
    }
    // a: a: the value of a declaration does not see the declared name.
    let ast = syntax_tree::Program {
        body: syntax_tree::Scope::new(vec![syntax_tree::Expr::new_variable_definition(
            "a",
            syntax_tree::Expr::new_variable_call("a"),
        )]),
    };
    assert!(matches!(
        Parser::parse(ast, ParserBuilder::new()),
        Err(ResolveError::UndefinedVariable(_))
    ));
}
