//! The syntax tree: the program as written, which speaks of names.

use vstd::prelude::*;
use crate::value::{plain, Value, ValueView};

pub mod grammar;
pub mod parser;

verus! {

/// A whole program as written: one block of instructions.
#[derive(Debug)]
pub struct Program {
    pub body: Scope,
}

/// One expression as written. It refers to variables and functions by name.
#[derive(Debug)]
pub struct Expr(pub Box<ExprInner>);

#[derive(Debug)]
pub enum ExprInner {
    Scope(Scope),
    Literal(Literal),
    VarDef(VarDef),
    VarAssign(VarAssign),
    VarCall(VarCall),
    FnDef(FnDef),
    FnCall(FnCall),
    FnRet(FnRet),
    Loop(Loop),
    LoopBr(LoopBr),
    Cond(Cond),
}

#[derive(Debug)]
pub struct Scope {
    pub instructions: Vec<Expr>,
}

#[derive(Debug)]
pub struct Literal(pub Value);

#[derive(Debug)]
pub struct VarDef {
    pub name: String,
    pub value: Expr,
}

#[derive(Debug)]
pub struct VarAssign {
    pub name: String,
    pub value: Expr,
}

#[derive(Debug)]
pub struct VarCall {
    pub name: String,
}

#[derive(Debug)]
pub struct FnDef {
    pub parameter_names: Vec<String>,
    pub body: Scope,
}

#[derive(Debug)]
pub struct FnCall {
    pub name: String,
    pub arguments: Vec<Expr>,
}

#[derive(Debug)]
pub struct FnRet {
    pub value: Expr,
}

#[derive(Debug)]
pub struct Loop {
    pub body: Scope,
}

#[derive(Debug)]
pub struct LoopBr {
    pub value: Expr,
}

#[derive(Debug)]
pub struct Cond {
    pub condition: Expr,
    pub arm_true: Expr,
    pub arm_false: Option<Expr>,
}

/// What an [`Expr`] stands for: names as their text, a block as its
/// instructions.
pub enum ExprView {
    Scope(Seq<ExprView>),
    Literal(ValueView),
    VarDef { name: Seq<char>, value: Box<ExprView> },
    VarAssign { name: Seq<char>, value: Box<ExprView> },
    VarCall { name: Seq<char> },
    FnDef { parameter_names: Seq<Seq<char>>, body: Seq<ExprView> },
    FnCall { name: Seq<char>, arguments: Seq<ExprView> },
    FnRet { value: Box<ExprView> },
    Loop { body: Seq<ExprView> },
    LoopBr { value: Box<ExprView> },
    Cond { condition: Box<ExprView>, arm_true: Box<ExprView>, arm_false: Option<Box<ExprView>> },
}

impl View for Expr {
    type V = ExprView;

    open spec fn view(&self) -> ExprView
        decreases self,
    {
        match *self.0 {
            ExprInner::Scope(scope) => ExprView::Scope(views_of(scope.instructions@)),
            ExprInner::Literal(literal) => ExprView::Literal(literal.0@),
            ExprInner::VarDef(d) => ExprView::VarDef { name: d.name@, value: Box::new(d.value@) },
            ExprInner::VarAssign(a) => ExprView::VarAssign {
                name: a.name@,
                value: Box::new(a.value@),
            },
            ExprInner::VarCall(c) => ExprView::VarCall { name: c.name@ },
            ExprInner::FnDef(d) => ExprView::FnDef {
                parameter_names: texts_of(d.parameter_names@),
                body: views_of(d.body.instructions@),
            },
            ExprInner::FnCall(c) => ExprView::FnCall {
                name: c.name@,
                arguments: views_of(c.arguments@),
            },
            ExprInner::FnRet(r) => ExprView::FnRet { value: Box::new(r.value@) },
            ExprInner::Loop(l) => ExprView::Loop { body: views_of(l.body.instructions@) },
            ExprInner::LoopBr(b) => ExprView::LoopBr { value: Box::new(b.value@) },
            ExprInner::Cond(c) => ExprView::Cond {
                condition: Box::new(c.condition@),
                arm_true: Box::new(c.arm_true@),
                arm_false: match c.arm_false {
                    Some(e) => Some(Box::new(e@)),
                    None => None,
                },
            },
        }
    }
}

/// The views of a run of expressions, in order.
pub open spec fn views_of(expressions: Seq<Expr>) -> Seq<ExprView>
    decreases expressions,
{
    if expressions.len() == 0 {
        Seq::empty()
    } else {
        views_of(expressions.drop_last()).push(expressions.last()@)
    }
}

/// Appending an expression appends its view.
pub proof fn lemma_views_of_push(expressions: Seq<Expr>, last: Expr)
    ensures
        views_of(expressions.push(last)) == views_of(expressions).push(last@),
{
    assert(expressions.push(last).drop_last() == expressions);
}

/// Whether no literal in `expression` is a function defined in the language.
pub open spec fn plain_ast(expression: Expr) -> bool
    decreases expression,
{
    match *expression.0 {
        ExprInner::Scope(block) => plain_all(block.instructions@),
        ExprInner::Literal(literal) => plain(literal.0@),
        ExprInner::VarDef(definition) => plain_ast(definition.value),
        ExprInner::VarAssign(assignment) => plain_ast(assignment.value),
        ExprInner::VarCall(call) => true,
        ExprInner::FnDef(definition) => plain_all(definition.body.instructions@),
        ExprInner::FnCall(call) => plain_all(call.arguments@),
        ExprInner::FnRet(ret) => plain_ast(ret.value),
        ExprInner::Loop(l) => plain_all(l.body.instructions@),
        ExprInner::LoopBr(br) => plain_ast(br.value),
        ExprInner::Cond(cond) => plain_ast(cond.condition) && plain_ast(cond.arm_true)
            && match cond.arm_false {
            Some(otherwise) => plain_ast(otherwise),
            None => true,
        },
    }
}

/// Whether no literal in `expressions` is a function defined in the language.
pub open spec fn plain_all(expressions: Seq<Expr>) -> bool
    decreases expressions,
{
    if expressions.len() == 0 {
        true
    } else {
        plain_all(expressions.drop_last()) && plain_ast(expressions.last())
    }
}

/// Whether no literal in `expression` is a function defined in the language.
pub open spec fn plain_view(expression: ExprView) -> bool
    decreases expression,
{
    match expression {
        ExprView::Scope(instructions) => plain_views(instructions),
        ExprView::Literal(value) => plain(value),
        ExprView::VarDef { name, value } => plain_view(*value),
        ExprView::VarAssign { name, value } => plain_view(*value),
        ExprView::VarCall { name } => true,
        ExprView::FnDef { parameter_names, body } => plain_views(body),
        ExprView::FnCall { name, arguments } => plain_views(arguments),
        ExprView::FnRet { value } => plain_view(*value),
        ExprView::Loop { body } => plain_views(body),
        ExprView::LoopBr { value } => plain_view(*value),
        ExprView::Cond { condition, arm_true, arm_false } => plain_view(*condition) && plain_view(
            *arm_true,
        ) && match arm_false {
            Some(otherwise) => plain_view(*otherwise),
            None => true,
        },
    }
}

/// Whether no literal in `expressions` is a function defined in the language.
pub open spec fn plain_views(expressions: Seq<ExprView>) -> bool
    decreases expressions,
{
    if expressions.len() == 0 {
        true
    } else {
        plain_views(expressions.drop_last()) && plain_view(expressions.last())
    }
}

/// An expression is plain where its view is.
pub proof fn lemma_plain_from_view(expression: Expr)
    requires
        plain_view(expression@),
    ensures
        plain_ast(expression),
    decreases expression,
{
    match *expression.0 {
        ExprInner::Scope(scope) => {
            lemma_plain_from_views(scope.instructions@);
        },
        ExprInner::Literal(literal) => {},
        ExprInner::VarDef(d) => {
            lemma_plain_from_view(d.value);
        },
        ExprInner::VarAssign(a) => {
            lemma_plain_from_view(a.value);
        },
        ExprInner::VarCall(c) => {},
        ExprInner::FnDef(d) => {
            lemma_plain_from_views(d.body.instructions@);
        },
        ExprInner::FnCall(c) => {
            lemma_plain_from_views(c.arguments@);
        },
        ExprInner::FnRet(r) => {
            lemma_plain_from_view(r.value);
        },
        ExprInner::Loop(l) => {
            lemma_plain_from_views(l.body.instructions@);
        },
        ExprInner::LoopBr(b) => {
            lemma_plain_from_view(b.value);
        },
        ExprInner::Cond(c) => {
            lemma_plain_from_view(c.condition);
            lemma_plain_from_view(c.arm_true);
            match c.arm_false {
                Some(e) => {
                    lemma_plain_from_view(e);
                },
                None => {},
            }
        },
    }
}

/// Expressions are plain where their views are.
pub proof fn lemma_plain_from_views(expressions: Seq<Expr>)
    requires
        plain_views(views_of(expressions)),
    ensures
        plain_all(expressions),
    decreases expressions,
{
    if expressions.len() > 0 {
        let before = views_of(expressions.drop_last());
        assert(views_of(expressions) == before.push(expressions.last()@));
        assert(before.push(expressions.last()@).drop_last() == before);
        lemma_plain_from_views(expressions.drop_last());
        lemma_plain_from_view(expressions.last());
    }
}

impl View for Scope {
    type V = Seq<ExprView>;

    open spec fn view(&self) -> Seq<ExprView> {
        views_of(self.instructions@)
    }
}

impl View for Program {
    type V = Seq<ExprView>;

    open spec fn view(&self) -> Seq<ExprView> {
        self.body@
    }
}

impl Scope {
    pub fn new(instructions: Vec<Expr>) -> (scope: Self)
        ensures
            scope.instructions == instructions,
    {
        Scope { instructions }
    }
}

/// The expression that consists of `inner`.
pub open spec fn expr_of(inner: ExprInner) -> Expr {
    Expr(Box::new(inner))
}

/// The texts of a run of names, in order.
pub open spec fn texts_of(names: Seq<String>) -> Seq<Seq<char>> {
    Seq::new(names.len(), |i: int| names[i]@)
}

impl Expr {
    pub fn inner(&self) -> (inner: &ExprInner)
        ensures
            *inner == *self.0,
    {
        &*self.0
    }

    pub fn into_inner(self) -> (inner: ExprInner)
        ensures
            inner == *self.0,
    {
        *self.0
    }

    pub fn new_scope(instructions: Vec<Expr>) -> (expression: Self)
        ensures
            *expression.0 == ExprInner::Scope(Scope { instructions }),
    {
        Expr(Box::new(ExprInner::Scope(Scope { instructions })))
    }

    pub fn new_literal(value: Value) -> (expression: Self)
        ensures
            *expression.0 == ExprInner::Literal(Literal(value)),
    {
        Expr(Box::new(ExprInner::Literal(Literal(value))))
    }

    pub fn new_variable_definition(name: &str, value: Expr) -> (expression: Self)
        ensures
            *expression.0 matches ExprInner::VarDef(d) && d.name@ == name@ && d.value == value,
    {
        let name = name.to_owned();
        Expr(Box::new(ExprInner::VarDef(VarDef { name, value })))
    }

    pub fn new_variable_assignment(name: &str, value: Expr) -> (expression: Self)
        ensures
            *expression.0 matches ExprInner::VarAssign(a) && a.name@ == name@ && a.value == value,
    {
        let name = name.to_owned();
        Expr(Box::new(ExprInner::VarAssign(VarAssign { name, value })))
    }

    pub fn new_variable_call(name: &str) -> (expression: Self)
        ensures
            *expression.0 matches ExprInner::VarCall(c) && c.name@ == name@,
    {
        let name = name.to_owned();
        Expr(Box::new(ExprInner::VarCall(VarCall { name })))
    }

    pub fn new_function_definition(parameter_names: Vec<&str>, body: Scope) -> (expression: Self)
        ensures
            *expression.0 matches ExprInner::FnDef(d) && d.body == body
                && texts_of(d.parameter_names@) == Seq::new(
                parameter_names@.len(),
                |i: int| parameter_names@[i]@,
            ),
    {
        let mut names: Vec<String> = Vec::new();
        let mut i: usize = 0;
        while i < parameter_names.len()
            invariant
                i <= parameter_names.len(),
                names@.len() == i,
                forall|j: int| 0 <= j < i ==> (#[trigger] names@[j])@ == parameter_names@[j]@,
            decreases parameter_names.len() - i,
        {
            names.push(parameter_names[i].to_owned());
            i = i + 1;
        }
        assert(texts_of(names@) =~= Seq::new(
            parameter_names@.len(),
            |i: int| parameter_names@[i]@,
        ));
        Expr(Box::new(ExprInner::FnDef(FnDef { body, parameter_names: names })))
    }

    pub fn new_function_call(name: &str, arguments: Vec<Expr>) -> (expression: Self)
        ensures
            *expression.0 matches ExprInner::FnCall(c) && c.name@ == name@ && c.arguments
                == arguments,
    {
        let name = name.to_owned();
        Expr(Box::new(ExprInner::FnCall(FnCall { name, arguments })))
    }

    pub fn new_function_return(value: Expr) -> (expression: Self)
        ensures
            *expression.0 == ExprInner::FnRet(FnRet { value }),
    {
        Expr(Box::new(ExprInner::FnRet(FnRet { value })))
    }

    pub fn new_loop(body: Scope) -> (expression: Self)
        ensures
            *expression.0 == ExprInner::Loop(Loop { body }),
    {
        Expr(Box::new(ExprInner::Loop(Loop { body })))
    }

    pub fn new_loop_break(value: Expr) -> (expression: Self)
        ensures
            *expression.0 == ExprInner::LoopBr(LoopBr { value }),
    {
        Expr(Box::new(ExprInner::LoopBr(LoopBr { value })))
    }

    pub fn new_condition(condition: Expr, arm_true: Expr, arm_false: Option<Expr>) -> (expression:
        Self)
        ensures
            *expression.0 == ExprInner::Cond(Cond { condition, arm_true, arm_false }),
    {
        Expr(Box::new(ExprInner::Cond(Cond { condition, arm_true, arm_false })))
    }
}

impl From<Value> for Expr {
    fn from(value: Value) -> (expression: Self) {
        Expr(Box::new(ExprInner::Literal(Literal(value))))
    }
}

impl vstd::std_specs::convert::FromSpecImpl<Value> for Expr {
    open spec fn obeys_from_spec() -> bool {
        true
    }

    open spec fn from_spec(value: Value) -> Self {
        Expr(Box::new(ExprInner::Literal(Literal(value))))
    }
}

} // verus!
