use chumsky::error::Simple;
use chumsky::primitive::{end, just, none_of, one_of};
use chumsky::recursive::recursive;
use chumsky::text;
use chumsky::text::{whitespace, TextParser};
use chumsky::Parser;
use prout::execution_tree::parser::{Parser as Resolver, ParserBuilder};
use prout::syntax_tree::parser::{
    condition_parser, debugging_expression_parser, expression_parser, function_call_parser,
    function_definition_parser, function_return_parser, is_whitespace, literal_value, loop_break_parser,
    loop_parser, name, number_literals, scope_parser, sugar_parser, variable_assignement_parser,
    variable_call_parser, variable_definition_parser, NumberTable, ParseError, ParserWrapper, Source,
};
use prout::syntax_tree::{
    Cond, Expr, ExprInner, FnCall, FnDef, FnRet, Literal, Loop, LoopBr, Program, Scope, VarAssign,
    VarCall, VarDef,
};
use prout::value::{Number, Value};

fn numbers_of(input: &str) -> NumberTable {
    let mut numbers = NumberTable::new();
    for literal in number_literals(&Source::new(input)) {
        let value: f64 = literal.parse().expect("a number literal is a double");
        numbers.insert(literal, Number::from_bits(value.to_bits()));
    }
    numbers
}

fn parse(input: &str) -> Result<Program, ParseError> {
    ParserWrapper::new(numbers_of(input)).parse(input)
}

fn read(expression: &Expr) -> &str {
    match expression.inner() {
        ExprInner::VarCall(call) => &call.name,
        _ => panic!("a variable is read"),
    }
}

#[test]
fn test_scope_parser() {
    let source = Source::new("{ arbre }");
    let (scope, end) = scope_parser(&source, 0, &NumberTable::new()).unwrap();
    assert_eq!(end, 9);
    assert_eq!(scope.instructions.len(), 1);
    assert_eq!(read(&scope.instructions[0]), "arbre");
}

#[test]
fn test_literal_value() {
    let (value, end) = literal_value(&Source::new("5"), 0, &numbers_of("5")).unwrap();
    assert_eq!(f64::from_bits(value.as_number().unwrap().to_bits()), 5.);
    assert_eq!(end, 1);
}

#[test]
fn test_variable_definition_parser() {
    let source = Source::new("a : b");
    let (definition, end) = variable_definition_parser(&source, 0, &NumberTable::new()).unwrap();
    assert_eq!(definition.name, "a");
    assert_eq!(read(&definition.value), "b");
    assert_eq!(end, 5);
}

#[test]
fn test_variable_assignement_parser() {
    let source = Source::new("arbre <- expr");
    let (assignment, end) = variable_assignement_parser(&source, 0, &NumberTable::new()).unwrap();
    assert_eq!(assignment.name, "arbre");
    assert_eq!(read(&assignment.value), "expr");
    assert_eq!(end, 13);
}

#[test]
fn test_variable_call_parser() {
    let (value, _) = variable_call_parser(&Source::new("arbre"), 0).unwrap();
    assert_eq!(value.name, "arbre".to_string());
}

#[test]
fn test_function_definition_parser() {
    let source = Source::new("(a) => { b }");
    let (definition, end) = function_definition_parser(&source, 0, &NumberTable::new()).unwrap();
    assert_eq!(definition.parameter_names, vec!["a".to_string()]);
    assert_eq!(read(&definition.body.instructions[0]), "b");
    assert_eq!(end, 12);
}

#[test]
fn test_function_call_parser() {
    let source = Source::new("f( a , b )");
    let (call, end) = function_call_parser(&source, 0, &NumberTable::new()).unwrap();
    assert_eq!(call.name, "f");
    assert_eq!(call.arguments.len(), 2);
    assert_eq!(read(&call.arguments[0]), "a");
    assert_eq!(read(&call.arguments[1]), "b");
    assert_eq!(end, 10);
}

#[test]
fn test_function_return_parser() {
    let source = Source::new("return  a");
    let (ret, end) = function_return_parser(&source, 0, &NumberTable::new()).unwrap();
    assert_eq!(read(&ret.value), "a");
    assert_eq!(end, 9);
}

#[test]
fn test_loop_parser() {
    let source = Source::new("loop { a}");
    let (l, end) = loop_parser(&source, 0, &NumberTable::new()).unwrap();
    assert_eq!(read(&l.body.instructions[0]), "a");
    assert_eq!(end, 9);
}

#[test]
fn test_loop_break_parser() {
    let source = Source::new("break  a");
    let (br, end) = loop_break_parser(&source, 0, &NumberTable::new()).unwrap();
    assert_eq!(read(&br.value), "a");
    assert_eq!(end, 8);
}

#[test]
fn test_condition_parser() {
    let source = Source::new("if a t else f");
    let (cond, end) = condition_parser(&source, 0, &NumberTable::new()).unwrap();
    assert_eq!(read(&cond.condition), "a");
    assert_eq!(read(&cond.arm_true), "t");
    assert_eq!(read(cond.arm_false.as_ref().unwrap()), "f");
    assert_eq!(end, 13);
}

#[test]
fn test_expression_parser() {
    let text = r##"if a b"##;
    let (value, end) = expression_parser(&Source::new(text), 0, &NumberTable::new()).unwrap();
    match value.inner() {
        ExprInner::Cond(cond) => {
            assert_eq!(read(&cond.condition), "a");
            assert_eq!(read(&cond.arm_true), "b");
            assert!(cond.arm_false.is_none());
        }
        _ => panic!("a conditional"),
    }
    assert_eq!(end, 6);
}

#[test]
fn test_parser() {
    let example = r##"
print(3);

a: 3;

b: (a) => {
    print("a")
};

f(a)

"##;
    let program = parse(example).unwrap();
    assert_eq!(program.body.instructions.len(), 4);
    match program.body.instructions[3].inner() {
        ExprInner::FnCall(call) => {
            assert_eq!(call.name, "f");
            assert_eq!(read(&call.arguments[0]), "a");
        }
        _ => panic!("the last instruction is a call"),
    }
}

#[test]
fn ast() {
    let text = r#"
	a: 3;
	{
		a <- 4;
		a: 5
	}
	"#;

    let tree = parse(text).unwrap();
    let executable = Resolver::parse(tree, ParserBuilder::new()).unwrap();
    assert_eq!(executable.scopes.len(), 2);
    let root = executable.scopes.get(&executable.main_scope_id.0).unwrap();
    assert_eq!(root.local_variables.len(), 1);
    assert_eq!(root.expressions.len(), 2);
}

#[test]
fn debugging_parser_reads_one_padded_variable() {
    let (expression, end) = debugging_expression_parser(&Source::new("  arbre  ; b"), 0).unwrap();
    assert_eq!(read(&expression), "arbre");
    assert_eq!(end, 9);
    assert!(debugging_expression_parser(&Source::new(" 5"), 0).is_none());
}

#[test]
fn names_begin_with_a_letter() {
    let found = name(&Source::new("a-1_b+c/d*e f"), 0).unwrap();
    assert_eq!(found, ("a-1_b+c/d*e".to_string(), 11));
    assert!(name(&Source::new("1a"), 0).is_none());
    assert!(name(&Source::new("_a"), 0).is_none());
    assert_eq!(name(&Source::new("1a"), 1), Some(("a".to_string(), 2)));
    assert!(name(&Source::new("a"), 1).is_none());
    assert!(name(&Source::new("a"), 7).is_none());
}

#[test]
fn literals_are_read_in_order() {
    let value = |text: &str| literal_value(&Source::new(text), 0, &numbers_of(text));
    assert!(matches!(value("false"), Some((Value::Bool(false), 5))));
    assert!(matches!(value("true"), Some((Value::Bool(true), 4))));
    assert!(matches!(value("none"), Some((Value::Nil, 4))));
    assert!(matches!(value("nonemore"), Some((Value::Nil, 4))));
    match value("\"a b\" c") {
        Some((Value::String(text), 5)) => assert_eq!(text, "a b"),
        _ => panic!("a string"),
    }
    assert!(value("\"open").is_none());
    let number = |text: &str| {
        value(text).map(|(v, end)| (f64::from_bits(v.as_number().unwrap().to_bits()), end))
    };
    assert_eq!(number("-12.5;"), Some((-12.5, 5)));
    assert_eq!(number("0"), Some((0.0, 1)));
    assert_eq!(number("012"), Some((0.0, 1)));
    assert_eq!(number("3."), Some((3.0, 1)));
    assert_eq!(number("3.x"), Some((3.0, 1)));
    assert_eq!(number("-0.25"), Some((-0.25, 5)));
    assert_eq!(number("-"), None);
    assert_eq!(number(".5"), None);
    // A number that the table holds no value for is no literal.
    assert!(literal_value(&Source::new("5"), 0, &NumberTable::new()).is_none());
}

#[test]
fn number_literals_are_found_wherever_they_begin() {
    let literals = number_literals(&Source::new("a: -1.5; b12"));
    assert_eq!(literals, vec!["-1.5", "1.5", "5", "12", "2"]);
}

#[test]
fn white_space_is_what_unicode_says() {
    for c in ['\t', '\n', '\u{b}', '\u{c}', '\r', ' ', '\u{85}', '\u{a0}', '\u{1680}', '\u{2000}',
        '\u{200a}', '\u{2028}', '\u{2029}', '\u{202f}', '\u{205f}', '\u{3000}']
    {
        assert!(is_whitespace(c));
    }
    for code in 0..0x3100u32 {
        if let Some(c) = char::from_u32(code) {
            assert_eq!(is_whitespace(c), c.is_whitespace());
        }
    }
}

// The same grammar, written with parser combinators.

trait AbstractParser<T>: Parser<char, T, Error = Simple<char>> {}

impl<T, U: Parser<char, T, Error = Simple<char>>> AbstractParser<T> for U {}

fn expr(inner: ExprInner) -> Expr {
    Expr(Box::new(inner))
}

fn combined_scope(expression: impl AbstractParser<Expr> + Clone) -> impl AbstractParser<Scope> {
    let open_list = expression.separated_by(just(';'));
    let closed_list = open_list.clone().then_ignore(just(';').then(whitespace()));
    open_list
        .map(|instructions| Scope { instructions })
        .or(closed_list.map(|mut instructions| {
            instructions.push(Expr::new_literal(Value::Nil));
            Scope { instructions }
        }))
        .padded()
        .delimited_by(just('{'), just('}'))
}

fn combined_literal() -> impl AbstractParser<Value> {
    let bool = just("false")
        .map(|_| Value::Bool(false))
        .or(just("true").map(|_| Value::Bool(true)));

    let none = just("none").map(|_| Value::Nil);

    let string = just('\"')
        .ignore_then(none_of("\"").repeated())
        .then_ignore(just('\"'))
        .map(|v| Value::String(String::from_iter(&v)));

    let frac = just::<char, _, Simple<char>>('.').chain::<char, String, _>(text::digits(10));
    let number = just::<char, _, Simple<char>>('-')
        .or_not()
        .chain::<char, String, _>(text::int(10))
        .chain::<char, Vec<char>, _>(frac.or_not().flatten::<char, Vec<char>>())
        .collect::<String>()
        .from_str::<f64>()
        .unwrapped()
        .map(|n: f64| Value::Number(Number::from_bits(n.to_bits())));

    bool.or(none).or(string).or(number)
}

fn combined_name() -> impl AbstractParser<String> + Clone {
    let first = one_of("abcdefghijklmnopqrstuvwxyzABCDEFGHIJKLMNOPQRSTUVWXYZ");
    let rest = first.clone().or(one_of("1234567890-_+/*"));

    first.then(rest.repeated()).map(|(f, v)| {
        let rest = String::from_iter(&v);
        format!("{f}{rest}")
    })
}

fn combined_expression() -> impl AbstractParser<Expr> {
    recursive(|expression| {
        let condition = just("if ")
            .ignore_then(expression.clone())
            .then(expression.clone())
            .then(just("else ").ignore_then(expression.clone()).or_not())
            .map(|((condition, arm_true), arm_false)| {
                expr(ExprInner::Cond(Cond { condition, arm_true, arm_false }))
            });
        let function_definition = combined_name()
            .separated_by(just(',').padded())
            .padded()
            .delimited_by(just('('), just(')'))
            .then_ignore(just("=>").padded())
            .then(combined_scope(expression.clone()))
            .map(|(parameter_names, body)| expr(ExprInner::FnDef(FnDef { body, parameter_names })));
        let function_return = just("return")
            .ignore_then(expression.clone().or_not())
            .map(|value| value.unwrap_or_else(|| Expr::new_literal(Value::Bool(true))))
            .map(|value| expr(ExprInner::FnRet(FnRet { value })));
        let loop_ = just("loop")
            .then(whitespace())
            .ignore_then(combined_scope(expression.clone()))
            .map(|body| expr(ExprInner::Loop(Loop { body })));
        let loop_break = just("break")
            .ignore_then(just(" ").then(whitespace()).ignore_then(expression.clone()))
            .map(|value| expr(ExprInner::LoopBr(LoopBr { value })));
        let scope = combined_scope(expression.clone()).map(|i| expr(ExprInner::Scope(i)));
        let litteral = combined_literal().map(|v| expr(ExprInner::Literal(Literal(v))));
        let variable_definition = combined_name()
            .then_ignore(just(":").padded())
            .then(expression.clone())
            .map(|(name, value)| expr(ExprInner::VarDef(VarDef { name, value })));
        let variable_assignment = combined_name()
            .then_ignore(just("<-").padded())
            .then(expression.clone())
            .map(|(name, value)| expr(ExprInner::VarAssign(VarAssign { name, value })));
        let function_call = combined_name()
            .then(
                expression
                    .clone()
                    .separated_by(just(',').padded())
                    .padded()
                    .delimited_by(just('('), just(')'))
                    .padded(),
            )
            .map(|(name, arguments)| expr(ExprInner::FnCall(FnCall { arguments, name })));
        let variable_call = combined_name().map(|name| expr(ExprInner::VarCall(VarCall { name })));

        condition
            .or(function_definition)
            .or(function_return)
            .or(loop_)
            .or(loop_break)
            .or(scope)
            .or(litteral)
            .or(variable_definition)
            .or(variable_assignment)
            .or(function_call)
            .or(variable_call)
            .padded()
    })
}

fn combined_program() -> impl AbstractParser<Program> {
    combined_expression()
        .separated_by(just(';').padded())
        .then_ignore(just(';').padded().or_not())
        .then_ignore(end())
        .map(|instructions| Program { body: Scope { instructions } })
}

fn agree(input: &str) {
    let ours = parse(input).ok().map(|program| format!("{program:?}"));
    let theirs = combined_program().parse(input).ok().map(|program| format!("{program:?}"));
    assert_eq!(ours, theirs, "on {input:?}");
}

#[test]
fn parser_agrees_with_combinators_on_programs() {
    for input in [
        "",
        "  ",
        "a",
        "a;",
        "a;;",
        ";",
        "a: 3; a <- 4; a",
        "a:3;a<-4;a",
        "\n\ta: 3;\n\t{\n\t\ta <- 4;\n\t\ta: 5\n\t}\n\t",
        "print(3);\n\na: 3;\n\nb: (a) => {\n    print(\"a\")\n};\n\nf(a)\n\n",
        "f: () => { return 1; 2 }; f()",
        "loop { break 7 }",
        "loop{break 7}",
        "loop { loop { break 1 }; break 2 }",
        "if true 1 else 2",
        "if true 1",
        "if a b else c; d",
        "if a { b } else { c }",
        "if eq(n, 3) { break n }",
        "o: obj(); set(o, \"k\", 5); get(o, \"k\")",
        "f ( a , b ) ; g( )",
        "f(a,)",
        "f(a b)",
        "f(",
        "(a, b) => { add(a, b) }",
        "( a , b ) => { a }",
        "() => {}",
        "(a,) => { a }",
        "(a) { a }",
        "{ a; b }",
        "{ a; }",
        "{ a ; b ; }",
        "{}",
        "{ }",
        "{ { } }",
        "{",
        "return",
        "return;",
        "return 1",
        "returned",
        "return(1)",
        "break 1",
        "break",
        "break  1",
        "breaker",
        "loopy",
        "iffy",
        "if",
        "if a",
        "elsewhere",
        "none",
        "nonexistent",
        "truest",
        "falsehood",
        "true",
        "\"text\"",
        "\"te xt\" ; \"\"",
        "\"open",
        "-1",
        "- 1",
        "-1.5",
        "1.",
        "1.5.2",
        "012",
        "0.5",
        "a-1",
        "a - 1",
        "a: -1",
        "a+b*c/d_e",
        "a\u{a0}:\u{2003}1",
        "a <- b <- c",
        "a: b: c",
        "a : b ; c <- d",
        "f(g(h(1)))",
        "f(1, \"two\", three, { 4 })",
        "x: if a b else c",
        "loop { if sup(n, 2) break n; n <- add(n, 1) }",
        "a;b;c;",
        "a ; b ; c ; ",
        "a b",
        "1 2",
        "é",
        "a: é",
    ] {
        agree(input);
    }
}

fn combined_sugar(expression: impl AbstractParser<Expr> + Clone) -> impl AbstractParser<Expr> {
    let operation = |sign: &'static str, function: &'static str| {
        expression
            .clone()
            .then_ignore(just(sign))
            .then(expression.clone())
            .map(move |(l, r)| {
                expr(ExprInner::FnCall(FnCall { name: function.into(), arguments: vec![l, r] }))
            })
    };
    operation(" == ", "eq")
        .or(operation(" + ", "add"))
        .or(operation(" - ", "sub"))
        .or(operation(" > ", "sup"))
        .or(operation(" < ", "inf"))
        .or(operation(" || ", "or"))
        .or(operation(" && ", "and"))
}

#[test]
fn operation_between_operands_matches_nothing() {
    for input in ["a + b", "a == b", "1 - 2", "a > b", "a < b", "a || b", "a && b", "a  + b", "a+b", "a"]
    {
        let ours = sugar_parser(&Source::new(input), 0, &numbers_of(input))
            .map(|(call, _)| format!("{call:?}"));
        let theirs = combined_sugar(combined_expression().boxed())
            .parse(input)
            .ok()
            .map(|call| format!("{call:?}"));
        assert_eq!(ours, theirs, "on {input:?}");
        assert_eq!(ours, None);
    }
}
