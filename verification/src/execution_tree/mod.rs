//! The execution tree: the resolved program, which speaks of identifiers only.

use vstd::prelude::*;
use std::collections::HashMap;
use crate::value::{Value, ValueView};

pub mod numbering;
pub mod parser;
pub mod renumbering;
pub mod resolution;
pub mod routing;
pub mod scoping;

verus! {

/// A unique token naming one scope or one variable slot.
///
/// Identifiers are issued in strictly increasing order and never reused; only
/// their distinctness carries meaning.
#[derive(Debug, Clone, Copy, PartialEq, Eq, Hash, Structural)]
pub struct Id(pub u64);

impl Id {
    /// The first identifier ever issued.
    pub fn zero() -> (id: Self)
        ensures
            id == Id(0),
    {
        Id(0)
    }

    /// The identifier issued right after `self`.
    pub fn next(self) -> (id: Self)
        requires
            self.0 < u64::MAX,
        ensures
            id == Id((self.0 + 1) as u64),
    {
        Id(self.0 + 1)
    }
}

/// Issues identifiers: each one once, in strictly increasing order, starting at
/// zero. One allocator serves every scope of a program.
#[derive(Debug)]
pub struct IdAllocator {
    next: u64,
}

impl View for IdAllocator {
    type V = u64;

    /// The number of the identifier that is issued next.
    closed spec fn view(&self) -> u64 {
        self.next
    }
}

impl IdAllocator {
    /// An allocator that has issued nothing yet.
    pub fn new() -> (ids: Self)
        ensures
            ids@ == 0,
    {
        IdAllocator { next: 0 }
    }

    /// Issues the next identifier, or `None` when none is left. An identifier
    /// that was issued before is never issued again: each is larger than all
    /// before it.
    pub fn next(&mut self) -> (issued: Option<Id>)
        ensures
            old(self)@ < u64::MAX ==> issued == Some(Id(old(self)@)) && final(self)@ == old(self)@
                + 1,
            old(self)@ == u64::MAX ==> issued.is_none() && final(self)@ == old(self)@,
    {
        if self.next < u64::MAX {
            let id = Id(self.next);
            self.next = self.next + 1;
            Some(id)
        } else {
            None
        }
    }
}

/// The resolved program: every scope of the source under its identifier, and
/// the scope at which evaluation starts.
#[derive(Debug)]
pub struct Program {
    pub main_scope_id: Id,
    pub scopes: HashMap<u64, Scope>,
}

/// One resolved expression. It holds identifiers only, never names.
#[derive(Debug)]
pub struct Expr(pub Box<ExprInner>);

#[derive(Debug)]
pub enum ExprInner {
    Scope(Id),
    Literal(Literal),
    VarDef(VarDef),
    VarAssign(VarAssign),
    VarCall(VarCall),
    FnDef(FnDef),
    FnCall(FnCall),
    FnRet(FnRet),
    Loop(Loop),
    LoopBr(LoopBr),
    Cond(Cond),
}

/// One lexical block: the variables it declares and its statements in order.
#[derive(Debug)]
pub struct Scope {
    pub scope_id: Id,
    pub parent_scope_id: Option<Id>,
    pub local_variables: Vec<Id>,
    pub expressions: Vec<Expr>,
}

#[derive(Debug)]
pub struct Literal(pub Value);

#[derive(Debug)]
pub struct VarDef {
    pub variable_id: Id,
    pub value: Expr,
}

#[derive(Debug)]
pub struct VarAssign {
    pub variable_id: Id,
    pub value: Expr,
}

#[derive(Debug)]
pub struct VarCall {
    pub variable_id: Id,
}

#[derive(Debug)]
pub struct FnDef {
    pub parameter_ids: Vec<Id>,
    pub body_scope_id: Id,
}

#[derive(Debug)]
pub struct FnCall {
    pub variable_id: Id,
    pub arguments: Vec<Expr>,
}

#[derive(Debug)]
pub struct FnRet {
    pub value: Expr,
    pub function_scope_id: Id,
}

#[derive(Debug)]
pub struct Loop {
    pub body_scope_id: Id,
}

#[derive(Debug)]
pub struct LoopBr {
    pub value: Expr,
    pub loop_scope_id: Id,
}

#[derive(Debug)]
pub struct Cond {
    pub condition: Expr,
    pub arm_true: Expr,
    pub arm_false: Option<Expr>,
}

/// What an [`Expr`] stands for.
pub enum ExprView {
    Scope(Id),
    Literal(ValueView),
    VarDef { variable_id: Id, value: Box<ExprView> },
    VarAssign { variable_id: Id, value: Box<ExprView> },
    VarCall { variable_id: Id },
    FnDef { parameter_ids: Seq<Id>, body_scope_id: Id },
    FnCall { variable_id: Id, arguments: Seq<ExprView> },
    FnRet { value: Box<ExprView>, function_scope_id: Id },
    Loop { body_scope_id: Id },
    LoopBr { value: Box<ExprView>, loop_scope_id: Id },
    Cond { condition: Box<ExprView>, arm_true: Box<ExprView>, arm_false: Option<Box<ExprView>> },
}

/// What a [`Scope`] stands for.
pub struct ScopeView {
    pub scope_id: Id,
    pub parent_scope_id: Option<Id>,
    pub local_variables: Seq<Id>,
    pub expressions: Seq<ExprView>,
}

/// What a [`Program`] stands for.
pub struct ProgramView {
    pub main_scope_id: Id,
    pub scopes: Map<Id, ScopeView>,
}

impl View for Expr {
    type V = ExprView;

    open spec fn view(&self) -> ExprView
        decreases self,
    {
        match *self.0 {
            ExprInner::Scope(id) => ExprView::Scope(id),
            ExprInner::Literal(l) => ExprView::Literal(l.0@),
            ExprInner::VarDef(d) => ExprView::VarDef {
                variable_id: d.variable_id,
                value: Box::new(d.value@),
            },
            ExprInner::VarAssign(a) => ExprView::VarAssign {
                variable_id: a.variable_id,
                value: Box::new(a.value@),
            },
            ExprInner::VarCall(c) => ExprView::VarCall { variable_id: c.variable_id },
            ExprInner::FnDef(d) => ExprView::FnDef {
                parameter_ids: d.parameter_ids@,
                body_scope_id: d.body_scope_id,
            },
            ExprInner::FnCall(c) => ExprView::FnCall {
                variable_id: c.variable_id,
                arguments: views_of(c.arguments@),
            },
            ExprInner::FnRet(r) => ExprView::FnRet {
                value: Box::new(r.value@),
                function_scope_id: r.function_scope_id,
            },
            ExprInner::Loop(l) => ExprView::Loop { body_scope_id: l.body_scope_id },
            ExprInner::LoopBr(b) => ExprView::LoopBr {
                value: Box::new(b.value@),
                loop_scope_id: b.loop_scope_id,
            },
            ExprInner::Cond(c) => ExprView::Cond {
                condition: Box::new(c.condition@),
                arm_true: Box::new(c.arm_true@),
                arm_false: match c.arm_false {
                    Some(e) => Some(Box::new(e@)),
                    None => None,
                },
            },
        }
    }
}

/// The expression that consists of `inner`.
pub open spec fn expr_of(inner: ExprInner) -> Expr {
    Expr(Box::new(inner))
}

/// The views of a run of expressions, in order.
pub open spec fn views_of(expressions: Seq<Expr>) -> Seq<ExprView>
    decreases expressions,
{
    if expressions.len() == 0 {
        Seq::empty()
    } else {
        views_of(expressions.drop_last()).push(expressions.last()@)
    }
}

impl View for Scope {
    type V = ScopeView;

    open spec fn view(&self) -> ScopeView {
        ScopeView {
            scope_id: self.scope_id,
            parent_scope_id: self.parent_scope_id,
            local_variables: self.local_variables@,
            expressions: views_of(self.expressions@),
        }
    }
}

impl View for Program {
    type V = ProgramView;

    open spec fn view(&self) -> ProgramView {
        ProgramView {
            main_scope_id: self.main_scope_id,
            scopes: Map::new(
                |id: Id| self.scopes@.contains_key(id.0),
                |id: Id| self.scopes@[id.0]@,
            ),
        }
    }
}

/// The views of a run of expressions are as many as the expressions, each the
/// view of the expression at its place.
pub proof fn lemma_views_of(expressions: Seq<Expr>)
    ensures
        views_of(expressions).len() == expressions.len(),
        forall|i: int| 0 <= i < expressions.len() ==> views_of(expressions)[i] == expressions[i]@,
    decreases expressions.len(),
{
    if expressions.len() > 0 {
        lemma_views_of(expressions.drop_last());
        assert(views_of(expressions) == views_of(expressions.drop_last()).push(
            expressions.last()@,
        ));
        assert forall|i: int| 0 <= i < expressions.len() implies views_of(expressions)[i]
            == expressions[i]@ by {
            if i < expressions.len() - 1 {
                assert(expressions.drop_last()[i] == expressions[i]);
            }
        }
    } else {
        assert(views_of(expressions) == Seq::<ExprView>::empty());
    }
}

/// Appending an expression appends its view.
pub proof fn lemma_views_of_push(expressions: Seq<Expr>, last: Expr)
    ensures
        views_of(expressions.push(last)) == views_of(expressions).push(last@),
{
    assert(expressions.push(last).drop_last() == expressions);
}

impl Expr {
    pub fn inner(&self) -> (inner: &ExprInner)
        ensures
            *inner == *self.0,
    {
        &*self.0
    }

    pub fn new_scope(scope_id: Id) -> (expression: Self)
        ensures
            expression == expr_of(ExprInner::Scope(scope_id)),
    {
        Expr(Box::new(ExprInner::Scope(scope_id)))
    }

    pub fn new_literal(literal: Literal) -> (expression: Self)
        ensures
            expression == expr_of(ExprInner::Literal(literal)),
    {
        Expr(Box::new(ExprInner::Literal(literal)))
    }

    pub fn new_variable_definition(variable_definition: VarDef) -> (expression: Self)
        ensures
            expression == expr_of(ExprInner::VarDef(variable_definition)),
    {
        Expr(Box::new(ExprInner::VarDef(variable_definition)))
    }

    pub fn new_variable_assignment(variable_assignment: VarAssign) -> (expression: Self)
        ensures
            expression == expr_of(ExprInner::VarAssign(variable_assignment)),
    {
        Expr(Box::new(ExprInner::VarAssign(variable_assignment)))
    }

    pub fn new_variable_call(variable_call: VarCall) -> (expression: Self)
        ensures
            expression == expr_of(ExprInner::VarCall(variable_call)),
    {
        Expr(Box::new(ExprInner::VarCall(variable_call)))
    }

    pub fn new_function_definition(function_definition: FnDef) -> (expression: Self)
        ensures
            expression == expr_of(ExprInner::FnDef(function_definition)),
    {
        Expr(Box::new(ExprInner::FnDef(function_definition)))
    }

    pub fn new_function_call(function_call: FnCall) -> (expression: Self)
        ensures
            expression == expr_of(ExprInner::FnCall(function_call)),
    {
        Expr(Box::new(ExprInner::FnCall(function_call)))
    }

    pub fn new_function_return(function_return: FnRet) -> (expression: Self)
        ensures
            expression == expr_of(ExprInner::FnRet(function_return)),
    {
        Expr(Box::new(ExprInner::FnRet(function_return)))
    }

    pub fn new_loop(loop_: Loop) -> (expression: Self)
        ensures
            expression == expr_of(ExprInner::Loop(loop_)),
    {
        Expr(Box::new(ExprInner::Loop(loop_)))
    }

    pub fn new_loop_break(loop_break: LoopBr) -> (expression: Self)
        ensures
            expression == expr_of(ExprInner::LoopBr(loop_break)),
    {
        Expr(Box::new(ExprInner::LoopBr(loop_break)))
    }

    pub fn new_condition(condition: Cond) -> (expression: Self)
        ensures
            expression == expr_of(ExprInner::Cond(condition)),
    {
        Expr(Box::new(ExprInner::Cond(condition)))
    }
}

} // verus!
