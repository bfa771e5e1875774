use prout::execution_tree::parser::{Parser, ParserBuilder, ParserScope};
use prout::execution_tree::resolution::ResolveError;
use prout::execution_tree::{ExprInner, Id, IdAllocator};
use prout::syntax_tree::{Expr, Program, Scope};
use prout::value::{Number, Value};

fn number(n: f64) -> Value {
    Value::Number(Number::from_bits(n.to_bits()))
}

#[test]
fn identifiers_start_at_zero_and_increase() {
    assert_eq!(Id::zero(), Id(0));
    assert_eq!(Id::zero().next(), Id(1));
    let mut ids = IdAllocator::new();
    assert_eq!(ids.next(), Some(Id(0)));
    assert_eq!(ids.next(), Some(Id(1)));
    assert_eq!(ids.next(), Some(Id(2)));
}

#[test]
fn shadowing_keeps_both_slots_and_resolves_to_the_later() {
    let (mut root, mut ids) = ParserScope::new_root();
    let first = root.add_name("a".to_string(), &mut ids).unwrap();
    let second = root.add_name("a".to_string(), &mut ids).unwrap();
    assert_ne!(first, second);
    assert_eq!(root.get_variable_id("a"), Some(second));
    assert_eq!(root.local_variable_ids(), vec![first, second]);
}

#[test]
fn block_reads_resolve_outward() {
    let ast = Program {
        body: Scope::new(vec![
            Expr::new_variable_definition("a", Expr::new_literal(number(3.0))),
            Expr::new_scope(vec![
                Expr::new_variable_assignment("a", Expr::new_literal(number(4.0))),
                Expr::new_variable_definition("a", Expr::new_literal(number(5.0))),
            ]),
        ]),
    };
    let program = Parser::parse(ast, ParserBuilder::new()).unwrap();
    assert_eq!(program.main_scope_id, Id(0));
    let root = program.scopes.get(&0).unwrap();
    assert_eq!(root.parent_scope_id, None);
    assert_eq!(root.local_variables, vec![Id(1)]);
    let inner_id = match root.expressions[1].inner() {
        ExprInner::Scope(id) => *id,
        _ => panic!("the second instruction is a block"),
    };
    assert_eq!(inner_id, Id(2));
    let inner = program.scopes.get(&2).unwrap();
    assert_eq!(inner.parent_scope_id, Some(Id(0)));
    assert_eq!(inner.local_variables, vec![Id(3)]);
    match inner.expressions[0].inner() {
        ExprInner::VarAssign(assignment) => assert_eq!(assignment.variable_id, Id(1)),
        _ => panic!("the first instruction of the block is an assignment"),
    }
}

#[test]
fn undefined_variable_is_reported_by_name() {
    let ast = Program { body: Scope::new(vec![Expr::new_variable_call("missing")]) };
    match Parser::parse(ast, ParserBuilder::new()) {
        Err(ResolveError::UndefinedVariable(name)) => assert_eq!(name, "missing"),
        _ => panic!("an undefined variable was resolved"),
    }
}

fn declared_on_the_way_out(program: &prout::execution_tree::Program, home: Id, variable: Id) -> bool {
    let mut at = Some(home);
    while let Some(id) = at {
        let scope = match program.scopes.get(&id.0) {
            Some(scope) => scope,
            None => return false,
        };
        if scope.local_variables.contains(&variable) {
            return true;
        }
        at = scope.parent_scope_id;
    }
    false
}

fn lies_within(program: &prout::execution_tree::Program, home: Id, target: Id) -> bool {
    let mut at = Some(home);
    while let Some(id) = at {
        if id == target {
            return program.scopes.contains_key(&id.0);
        }
        at = program.scopes.get(&id.0).and_then(|scope| scope.parent_scope_id);
    }
    false
}

fn leads_somewhere(
    program: &prout::execution_tree::Program,
    home: Id,
    expression: &prout::execution_tree::Expr,
) -> bool {
    match expression.inner() {
        ExprInner::Scope(id) => program.scopes.contains_key(&id.0),
        ExprInner::Literal(_) => true,
        ExprInner::VarDef(d) => {
            declared_on_the_way_out(program, home, d.variable_id)
                && leads_somewhere(program, home, &d.value)
        }
        ExprInner::VarAssign(a) => {
            declared_on_the_way_out(program, home, a.variable_id)
                && leads_somewhere(program, home, &a.value)
        }
        ExprInner::VarCall(c) => declared_on_the_way_out(program, home, c.variable_id),
        ExprInner::FnDef(d) => match program.scopes.get(&d.body_scope_id.0) {
            Some(body) => d.parameter_ids.iter().all(|p| body.local_variables.contains(p)),
            None => false,
        },
        ExprInner::FnCall(c) => {
            declared_on_the_way_out(program, home, c.variable_id)
                && c.arguments.iter().all(|a| leads_somewhere(program, home, a))
        }
        ExprInner::FnRet(r) => {
            lies_within(program, home, r.function_scope_id)
                && leads_somewhere(program, home, &r.value)
        }
        ExprInner::Loop(l) => program.scopes.contains_key(&l.body_scope_id.0),
        ExprInner::LoopBr(b) => {
            lies_within(program, home, b.loop_scope_id) && leads_somewhere(program, home, &b.value)
        }
        ExprInner::Cond(c) => {
            leads_somewhere(program, home, &c.condition)
                && leads_somewhere(program, home, &c.arm_true)
                && c.arm_false.as_ref().map_or(true, |e| leads_somewhere(program, home, e))
        }
    }
}

#[test]
fn every_identifier_of_a_resolved_program_leads_somewhere_and_names_one_thing() {
    // a: 1; f: (x, y) => { x: y; loop { if x { break a } else { return { a <- x } } } };
    // { b: f(a, a); b: b }
    let ast = Program {
        body: Scope::new(vec![
            Expr::new_variable_definition("a", Expr::new_literal(number(1.0))),
            Expr::new_variable_definition(
                "f",
                Expr::new_function_definition(
                    vec!["x", "y"],
                    Scope::new(vec![
                        Expr::new_variable_definition("x", Expr::new_variable_call("y")),
                        Expr::new_loop(Scope::new(vec![Expr::new_condition(
                            Expr::new_variable_call("x"),
                            Expr::new_scope(vec![Expr::new_loop_break(Expr::new_variable_call(
                                "a",
                            ))]),
                            Some(Expr::new_function_return(Expr::new_scope(vec![
                                Expr::new_variable_assignment("a", Expr::new_variable_call("x")),
                            ]))),
                        )])),
                    ]),
                ),
            ),
            Expr::new_scope(vec![
                Expr::new_variable_definition(
                    "b",
                    Expr::new_function_call(
                        "f",
                        vec![Expr::new_variable_call("a"), Expr::new_variable_call("a")],
                    ),
                ),
                Expr::new_variable_definition("b", Expr::new_variable_call("b")),
            ]),
        ]),
    };
    let program = Parser::parse(ast, ParserBuilder::new()).unwrap();
    assert!(program.scopes.contains_key(&program.main_scope_id.0));
    assert_eq!(program.scopes.len(), 6);
    let mut seen = Vec::new();
    for (key, scope) in &program.scopes {
        assert_eq!(scope.scope_id, Id(*key));
        if let Some(parent) = scope.parent_scope_id {
            assert!(parent.0 < *key);
            assert!(program.scopes.contains_key(&parent.0));
        }
        for expression in &scope.expressions {
            assert!(leads_somewhere(&program, scope.scope_id, expression));
        }
        seen.push(scope.scope_id);
        seen.extend(scope.local_variables.iter().copied());
    }
    let issued = seen.len();
    seen.sort_by_key(|id| id.0);
    seen.dedup();
    assert_eq!(seen.len(), issued);
    assert_eq!(seen, (0..issued as u64).map(Id).collect::<Vec<_>>());
}
