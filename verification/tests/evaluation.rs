use prout::execution_tree::parser::{Parser, ParserBuilder};
use prout::execution_tree::resolution::ResolveError;
use prout::execution_tree::Program;
use prout::prelude::{std_prelude, StdNative};
use prout::runtime::semantics::{InternalFault, RuntimeError};
use prout::runtime::{NativeHost, Runtime};
use prout::syntax_tree;
use prout::syntax_tree::{Expr, Scope};
use prout::value::function::{NativeFault, NativeId};
use prout::value::object::ObjectStore;
use prout::value::{Number, Value};

const FUEL: u64 = 1_000_000;

struct Host {
    objects: ObjectStore,
    printed: Vec<String>,
}

impl Host {
    fn new() -> Self {
        Host { objects: ObjectStore::new(), printed: Vec::new() }
    }
}

fn float(value: &Value) -> Option<f64> {
    value.as_number().map(|n| f64::from_bits(n.to_bits()))
}

fn number(n: f64) -> Value {
    Value::Number(Number::from_bits(n.to_bits()))
}

fn text(value: &Value) -> String {
    match prout::prelude::value_to_string(value) {
        Some(text) => text,
        None => format!("{}", float(value).unwrap()),
    }
}

fn numbers(args: &[Value]) -> Result<(f64, f64), NativeFault> {
    if args.len() < 2 {
        return Err(NativeFault::MissingArgument);
    }
    match (float(&args[0]), float(&args[1])) {
        (Some(l), Some(r)) => Ok((l, r)),
        _ => Err(NativeFault::TypeMismatch),
    }
}

impl NativeHost for Host {
    fn call_native(&mut self, native: NativeId, args: Vec<Value>) -> Result<Value, NativeFault> {
        let native = match StdNative::from_id(native) {
            Some(native) => native,
            None => return Err(NativeFault::UnknownNative),
        };
        match native {
            StdNative::Out => {
                let value = args.first().ok_or(NativeFault::MissingArgument)?;
                self.printed.push(text(value));
                Ok(value.clone())
            }
            StdNative::Add => {
                if args.len() < 2 {
                    return Err(NativeFault::MissingArgument);
                }
                match (&args[0], &args[1]) {
                    (Value::Number(_), Value::Number(_)) => {
                        let (l, r) = numbers(&args)?;
                        Ok(number(l + r))
                    }
                    (Value::Number(_) | Value::String(_), Value::Number(_) | Value::String(_)) => {
                        Ok(Value::String(format!("{}{}", text(&args[0]), text(&args[1]))))
                    }
                    _ => Err(NativeFault::TypeMismatch),
                }
            }
            StdNative::Sub => numbers(&args).map(|(l, r)| number(l - r)),
            StdNative::Sup => numbers(&args).map(|(l, r)| Value::Bool(l > r)),
            StdNative::Inf => numbers(&args).map(|(l, r)| Value::Bool(l < r)),
            StdNative::Eq => match prout::prelude::eq(&args) {
                Some(answer) => answer,
                None => numbers(&args).map(|(l, r)| Value::Bool(l == r)),
            },
            StdNative::And => prout::prelude::and(&args),
            StdNative::Or => prout::prelude::or(&args),
            StdNative::Not => prout::prelude::not(&args),
            StdNative::Str => match prout::prelude::str(&args) {
                Some(answer) => answer,
                None => Ok(Value::String(text(&args[0]))),
            },
            StdNative::Obj => prout::prelude::obj(&mut self.objects),
            StdNative::SetField => prout::prelude::set(&mut self.objects, &args),
            StdNative::GetField => prout::prelude::get(&self.objects, &args),
        }
    }
}

fn resolve(instructions: Vec<Expr>) -> Result<Program, ResolveError> {
    let mut builder = ParserBuilder::new();
    std_prelude(&mut builder);
    Parser::parse(syntax_tree::Program { body: Scope::new(instructions) }, builder)
}

fn run(instructions: Vec<Expr>) -> Result<Value, RuntimeError> {
    let program = resolve(instructions).expect("the program resolves");
    let mut host = Host::new();
    Runtime::new().execute(&program, &mut host, FUEL)
}

fn lit(n: f64) -> Expr {
    Expr::new_literal(number(n))
}

fn as_float(value: Result<Value, RuntimeError>) -> f64 {
    float(&value.expect("the program runs")).expect("the program yields a number")
}

#[test]
fn assignment_is_read_back() {
    let value = run(vec![
        Expr::new_variable_definition("a", lit(3.0)),
        Expr::new_variable_assignment("a", lit(4.0)),
        Expr::new_variable_call("a"),
    ]);
    assert_eq!(as_float(value), 4.0);
}

#[test]
fn return_is_intercepted_before_the_rest_of_the_body() {
    let value = run(vec![
        Expr::new_variable_definition(
            "f",
            Expr::new_function_definition(
                vec![],
                Scope::new(vec![Expr::new_function_return(lit(1.0)), lit(2.0)]),
            ),
        ),
        Expr::new_function_call("f", vec![]),
    ]);
    assert_eq!(as_float(value), 1.0);
}

#[test]
fn loop_ends_with_the_value_of_its_break() {
    let value = run(vec![Expr::new_loop(Scope::new(vec![Expr::new_loop_break(lit(7.0))]))]);
    assert_eq!(as_float(value), 7.0);
}

#[test]
fn inner_break_leaves_the_outer_loop_running() {
    // n: 0; loop { loop { break 1 }; n <- add(n, 1); if eq(n, 3) { break n } }
    let value = run(vec![
        Expr::new_variable_definition("n", lit(0.0)),
        Expr::new_loop(Scope::new(vec![
            Expr::new_loop(Scope::new(vec![Expr::new_loop_break(lit(1.0))])),
            Expr::new_variable_assignment(
                "n",
                Expr::new_function_call("add", vec![Expr::new_variable_call("n"), lit(1.0)]),
            ),
            Expr::new_condition(
                Expr::new_function_call("eq", vec![Expr::new_variable_call("n"), lit(3.0)]),
                Expr::new_scope(vec![Expr::new_loop_break(Expr::new_variable_call("n"))]),
                None,
            ),
        ])),
    ]);
    assert_eq!(as_float(value), 3.0);
}

#[test]
fn return_inside_a_loop_targets_the_function() {
    // f: () => { loop { return 5 }; 6 }; f()
    let value = run(vec![
        Expr::new_variable_definition(
            "f",
            Expr::new_function_definition(
                vec![],
                Scope::new(vec![
                    Expr::new_loop(Scope::new(vec![Expr::new_function_return(lit(5.0))])),
                    lit(6.0),
                ]),
            ),
        ),
        Expr::new_function_call("f", vec![]),
    ]);
    assert_eq!(as_float(value), 5.0);
}

#[test]
fn function_called_in_a_loop_returns_to_its_caller() {
    // n: 0; f: (x) => { return add(x, 1) }; loop { n <- f(n); if sup(n, 2) { break n } }
    let value = run(vec![
        Expr::new_variable_definition("n", lit(0.0)),
        Expr::new_variable_definition(
            "f",
            Expr::new_function_definition(
                vec!["x"],
                Scope::new(vec![Expr::new_function_return(Expr::new_function_call(
                    "add",
                    vec![Expr::new_variable_call("x"), lit(1.0)],
                ))]),
            ),
        ),
        Expr::new_loop(Scope::new(vec![
            Expr::new_variable_assignment(
                "n",
                Expr::new_function_call("f", vec![Expr::new_variable_call("n")]),
            ),
            Expr::new_condition(
                Expr::new_function_call("sup", vec![Expr::new_variable_call("n"), lit(2.0)]),
                Expr::new_loop_break(Expr::new_variable_call("n")),
                None,
            ),
        ])),
    ]);
    assert_eq!(as_float(value), 3.0);
}

#[test]
fn break_in_a_function_does_not_see_the_loop_around_it() {
    let resolved = resolve(vec![Expr::new_loop(Scope::new(vec![Expr::new_variable_definition(
        "f",
        Expr::new_function_definition(vec![], Scope::new(vec![Expr::new_loop_break(lit(1.0))])),
    )]))]);
    assert!(matches!(resolved, Err(ResolveError::BreakOutsideLoop)));
}

#[test]
fn return_outside_a_function_is_refused() {
    let resolved = resolve(vec![Expr::new_function_return(lit(1.0))]);
    assert!(matches!(resolved, Err(ResolveError::ReturnOutsideFunction)));
}

#[test]
fn undefined_function_is_reported_by_name() {
    match resolve(vec![Expr::new_function_call("print", vec![lit(1.0)])]) {
        Err(ResolveError::UndefinedFunction(name)) => assert_eq!(name, "print"),
        _ => panic!("an undefined function was resolved"),
    }
}

#[test]
fn objects_are_shared_by_reference() {
    // o: obj(); p: o; set(o, "k", 5); get(p, "k")
    let value = run(vec![
        Expr::new_variable_definition("o", Expr::new_function_call("obj", vec![])),
        Expr::new_variable_definition("p", Expr::new_variable_call("o")),
        Expr::new_function_call(
            "set",
            vec![
                Expr::new_variable_call("o"),
                Expr::new_literal(Value::String("k".to_string())),
                lit(5.0),
            ],
        ),
        Expr::new_function_call(
            "get",
            vec![Expr::new_variable_call("p"), Expr::new_literal(Value::String("k".to_string()))],
        ),
    ]);
    assert_eq!(as_float(value), 5.0);
}

#[test]
fn missing_field_reads_as_false() {
    let value = run(vec![
        Expr::new_variable_definition("o", Expr::new_function_call("obj", vec![])),
        Expr::new_function_call(
            "set",
            vec![
                Expr::new_variable_call("o"),
                Expr::new_literal(Value::String("k".to_string())),
                lit(5.0),
            ],
        ),
        Expr::new_function_call(
            "get",
            vec![
                Expr::new_variable_call("o"),
                Expr::new_literal(Value::String("missing".to_string())),
            ],
        ),
    ]);
    assert_eq!(value.unwrap().as_bool(), Some(false));
}

#[test]
fn calling_a_number_fails() {
    let value = run(vec![
        Expr::new_variable_definition("a", lit(3.0)),
        Expr::new_function_call("a", vec![]),
    ]);
    assert_eq!(value.err(), Some(RuntimeError::NotAFunction));
}

#[test]
fn condition_must_be_a_boolean() {
    let value = run(vec![Expr::new_condition(lit(1.0), lit(2.0), None)]);
    assert_eq!(value.err(), Some(RuntimeError::NonBooleanCondition));
}

#[test]
fn false_condition_without_second_arm_is_false() {
    let value = run(vec![Expr::new_condition(Expr::new_literal(Value::Bool(false)), lit(2.0), None)]);
    assert_eq!(value.unwrap().as_bool(), Some(false));
    let value = run(vec![Expr::new_condition(
        Expr::new_literal(Value::Bool(false)),
        lit(2.0),
        Some(lit(3.0)),
    )]);
    assert_eq!(as_float(value), 3.0);
    let value = run(vec![Expr::new_condition(
        Expr::new_literal(Value::Bool(true)),
        lit(2.0),
        Some(lit(3.0)),
    )]);
    assert_eq!(as_float(value), 2.0);
}

#[test]
fn native_type_mismatch_aborts_the_run() {
    let value = run(vec![Expr::new_function_call(
        "sub",
        vec![lit(1.0), Expr::new_literal(Value::Bool(true))],
    )]);
    assert_eq!(value.err(), Some(RuntimeError::Native(NativeFault::TypeMismatch)));
    let value = run(vec![Expr::new_function_call("not", vec![lit(1.0)])]);
    assert_eq!(value.err(), Some(RuntimeError::Native(NativeFault::TypeMismatch)));
}

#[test]
fn endless_loop_uses_up_the_fuel() {
    let program = resolve(vec![Expr::new_loop(Scope::new(vec![lit(1.0)]))]).unwrap();
    let mut host = Host::new();
    let value = Runtime::new().execute(&program, &mut host, 50);
    assert_eq!(value.err(), Some(RuntimeError::FuelExhausted));
}

#[test]
fn empty_program_yields_none() {
    let program = Parser::parse(
        syntax_tree::Program { body: Scope::new(vec![]) },
        ParserBuilder::new(),
    )
    .unwrap();
    let mut host = Host::new();
    let value = Runtime::new().execute(&program, &mut host, FUEL).unwrap();
    assert!(matches!(value, Value::Nil));
}

#[test]
fn function_value_called_after_its_scope_ended_finds_no_variable() {
    // f: none; { a: 1; f <- () => { a } }; f()
    let value = run(vec![
        Expr::new_variable_definition("f", Expr::new_literal(Value::Nil)),
        Expr::new_scope(vec![
            Expr::new_variable_definition("a", lit(1.0)),
            Expr::new_variable_assignment(
                "f",
                Expr::new_function_definition(
                    vec![],
                    Scope::new(vec![Expr::new_variable_call("a")]),
                ),
            ),
        ]),
        Expr::new_function_call("f", vec![]),
    ]);
    assert!(matches!(
        value,
        Err(RuntimeError::Internal(InternalFault::UnknownVariable(_)))
    ));
}

#[test]
fn arguments_are_bound_by_position_and_evaluated_from_the_left() {
    // f: (a, b) => { sub(a, b) }; f(out(10), out(4))
    let program = resolve(vec![
        Expr::new_variable_definition(
            "f",
            Expr::new_function_definition(
                vec!["a", "b"],
                Scope::new(vec![Expr::new_function_call(
                    "sub",
                    vec![Expr::new_variable_call("a"), Expr::new_variable_call("b")],
                )]),
            ),
        ),
        Expr::new_function_call(
            "f",
            vec![
                Expr::new_function_call("out", vec![lit(10.0)]),
                Expr::new_function_call("out", vec![lit(4.0)]),
            ],
        ),
    ])
    .unwrap();
    let mut host = Host::new();
    let value = Runtime::new().execute(&program, &mut host, FUEL);
    assert_eq!(as_float(value), 6.0);
    assert_eq!(host.printed, vec!["10".to_string(), "4".to_string()]);
}

#[test]
fn it_works() {
    let ast = syntax_tree::Program {
        body: Scope::new(vec![
            Expr::new_variable_definition("a", lit(3.0)),
            Expr::new_variable_assignment("a", lit(6.0)),
            Expr::new_variable_definition(
                "my_print",
                Expr::new_function_definition(
                    vec!["to_print"],
                    Scope::new(vec![
                        Expr::new_variable_definition("a", Expr::new_variable_call("to_print")),
                        Expr::new_function_call("print", vec![Expr::new_variable_call("a")]),
                    ]),
                ),
            ),
            Expr::new_function_call(
                "my_print",
                vec![Expr::new_literal(Value::String("hello, PROUT".to_string()))],
            ),
            Expr::new_function_call("print", vec![Expr::new_variable_call("a")]),
        ]),
    };
    let mut builder = ParserBuilder::new();
    std_prelude(&mut builder);
    match Parser::parse(ast, builder) {
        Err(ResolveError::UndefinedFunction(name)) => assert_eq!(name, "print"),
        _ => panic!("the registry holds no function `print`"),
    }
}
