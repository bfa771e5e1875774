//! What resolution means: the mathematical description that the resolver is
//! proved against.

use vstd::prelude::*;
use crate::execution_tree::{ExprView, Id, ScopeView, ProgramView};
use crate::syntax_tree;
use crate::value::Value;

verus! {

/// Why a syntax tree could not be resolved. Resolution stops at the first
/// failure and yields no execution tree.
#[derive(Debug, Clone, PartialEq, Eq)]
pub enum ResolveError {
    /// A variable was read or assigned under a name that no enclosing scope
    /// declares.
    UndefinedVariable(String),
    /// A function was called under a name that no enclosing scope declares.
    UndefinedFunction(String),
    /// A `return` stands outside every function body.
    ReturnOutsideFunction,
    /// A `break` stands outside every loop body of its function.
    BreakOutsideLoop,
    /// The program needs more identifiers than there are.
    IdentifiersExhausted,
}

/// The names that one scope under resolution has declared so far, in the order
/// of their declaration.
pub struct LevelView {
    pub scope_id: Id,
    pub bindings: Seq<(Seq<char>, Id)>,
}

/// What a resolver-time scope stands for.
pub struct ParserScopeView {
    /// The scopes around this one, outermost first.
    pub enclosing: Seq<LevelView>,
    /// This scope.
    pub current: LevelView,
    pub parent_id: Option<Id>,
    /// The scope that a `return` found here unwinds to.
    pub function_id: Option<Id>,
    /// The scope that a `break` found here unwinds to.
    pub loop_id: Option<Id>,
}

/// What a resolver stands for: the next identifier it will issue and the scopes
/// it has finished.
pub struct ParserView {
    pub next_id: u64,
    pub scopes: Map<Id, ScopeView>,
}

/// The identifier that `name` is bound to among `bindings`: that of its latest
/// declaration.
pub open spec fn find_in_level(bindings: Seq<(Seq<char>, Id)>, name: Seq<char>) -> Option<Id>
    decreases bindings.len(),
{
    if bindings.len() == 0 {
        None
    } else if bindings.last().0 == name {
        Some(bindings.last().1)
    } else {
        find_in_level(bindings.drop_last(), name)
    }
}

/// The identifier that `name` is bound to in the innermost of `levels` that
/// declares it.
pub open spec fn find_in_chain(levels: Seq<LevelView>, name: Seq<char>) -> Option<Id>
    decreases levels.len(),
{
    if levels.len() == 0 {
        None
    } else {
        match find_in_level(levels.last().bindings, name) {
            Some(id) => Some(id),
            None => find_in_chain(levels.drop_last(), name),
        }
    }
}

/// The identifiers that `bindings` declares, in order. An identifier whose name
/// was declared again later is still among them.
pub open spec fn ids_of(bindings: Seq<(Seq<char>, Id)>) -> Seq<Id> {
    Seq::new(bindings.len(), |i: int| bindings[i].1)
}

impl ParserScopeView {
    /// The scope at the root of a program, under the identifier `id`.
    pub open spec fn root(id: Id) -> Self {
        ParserScopeView {
            enclosing: Seq::empty(),
            current: LevelView { scope_id: id, bindings: Seq::empty() },
            parent_id: None,
            function_id: None,
            loop_id: None,
        }
    }

    /// The identifier that `name` resolves to here: this scope is searched
    /// first, then the scopes around it from the inside out.
    pub open spec fn lookup(self, name: Seq<char>) -> Option<Id> {
        match find_in_level(self.current.bindings, name) {
            Some(id) => Some(id),
            None => find_in_chain(self.enclosing, name),
        }
    }

    /// This scope after it has declared `name` under `id`.
    pub open spec fn declare(self, name: Seq<char>, id: Id) -> Self {
        ParserScopeView {
            current: LevelView {
                scope_id: self.current.scope_id,
                bindings: self.current.bindings.push((name, id)),
            },
            ..self
        }
    }

    /// A scope nested directly in this one.
    pub open spec fn child(self, id: Id, function_id: Option<Id>, loop_id: Option<Id>) -> Self {
        ParserScopeView {
            enclosing: self.enclosing.push(self.current),
            current: LevelView { scope_id: id, bindings: Seq::empty() },
            parent_id: Some(self.current.scope_id),
            function_id,
            loop_id,
        }
    }

    /// The child that a plain block opens: `return` and `break` keep their
    /// targets.
    pub open spec fn child_common(self, id: Id) -> Self {
        self.child(id, self.function_id, self.loop_id)
    }

    /// The child that a function body opens: it is the target of `return`, and
    /// no loop around the function can be broken from inside it.
    pub open spec fn child_function(self, id: Id) -> Self {
        self.child(id, Some(id), None)
    }

    /// The child that a loop body opens: it is the target of `break`, and
    /// `return` keeps its target.
    pub open spec fn child_loop(self, id: Id) -> Self {
        self.child(id, self.function_id, Some(id))
    }

    /// The record of this scope once its instructions have become
    /// `expressions`.
    pub open spec fn finished(self, expressions: Seq<ExprView>) -> ScopeView {
        ScopeView {
            scope_id: self.current.scope_id,
            parent_scope_id: self.parent_id,
            local_variables: ids_of(self.current.bindings),
            expressions,
        }
    }
}

impl ParserView {
    /// A resolver that has issued no identifier and finished no scope.
    pub open spec fn fresh() -> Self {
        ParserView { next_id: 0, scopes: Map::empty() }
    }

    /// Whether an identifier is left to issue.
    pub open spec fn can_issue(self) -> bool {
        self.next_id < u64::MAX
    }

    /// The identifier issued next.
    pub open spec fn issued(self) -> Id {
        Id(self.next_id)
    }

    /// This resolver after it has issued one identifier.
    pub open spec fn advanced(self) -> Self {
        ParserView { next_id: (self.next_id + 1) as u64, ..self }
    }

    /// This resolver after it has recorded the finished scope `scope`.
    pub open spec fn recorded(self, scope: ScopeView) -> Self {
        ParserView { scopes: self.scopes.insert(scope.scope_id, scope), ..self }
    }
}

/// The resolution of one expression found in `scope`: the resolved expression,
/// the scope with the names that the expression declared, and the resolver
/// with the identifiers it issued and the scopes it finished on the way.
pub open spec fn resolve_expr(
    expression: syntax_tree::Expr,
    scope: ParserScopeView,
    parser: ParserView,
) -> Result<(ExprView, ParserScopeView, ParserView), ResolveError>
    decreases expression, 0int,
{
    match *expression.0 {
        syntax_tree::ExprInner::Scope(block) => {
            if !parser.can_issue() {
                Err(ResolveError::IdentifiersExhausted)
            } else {
                let id = parser.issued();
                match resolve_scope(
                    block.instructions@,
                    scope.child_common(id),
                    parser.advanced(),
                ) {
                    Err(e) => Err(e),
                    Ok(parser) => Ok((ExprView::Scope(id), scope, parser)),
                }
            }
        },
        syntax_tree::ExprInner::Literal(literal) => Ok(
            (ExprView::Literal(literal.0@), scope, parser),
        ),
        syntax_tree::ExprInner::VarDef(definition) => {
            match resolve_expr(definition.value, scope, parser) {
                Err(e) => Err(e),
                Ok((value, scope, parser)) => {
                    if !parser.can_issue() {
                        Err(ResolveError::IdentifiersExhausted)
                    } else {
                        let id = parser.issued();
                        Ok(
                            (
                                ExprView::VarDef { variable_id: id, value: Box::new(value) },
                                scope.declare(definition.name@, id),
                                parser.advanced(),
                            ),
                        )
                    }
                },
            }
        },
        syntax_tree::ExprInner::VarAssign(assignment) => {
            match resolve_expr(assignment.value, scope, parser) {
                Err(e) => Err(e),
                Ok((value, scope, parser)) => match scope.lookup(assignment.name@) {
                    None => Err(ResolveError::UndefinedVariable(assignment.name)),
                    Some(id) => Ok(
                        (
                            ExprView::VarAssign { variable_id: id, value: Box::new(value) },
                            scope,
                            parser,
                        ),
                    ),
                },
            }
        },
        syntax_tree::ExprInner::VarCall(call) => match scope.lookup(call.name@) {
            None => Err(ResolveError::UndefinedVariable(call.name)),
            Some(id) => Ok((ExprView::VarCall { variable_id: id }, scope, parser)),
        },
        syntax_tree::ExprInner::FnDef(definition) => {
            if !parser.can_issue() {
                Err(ResolveError::IdentifiersExhausted)
            } else {
                let id = parser.issued();
                match declare_all(
                    definition.parameter_names@,
                    scope.child_function(id),
                    parser.advanced(),
                ) {
                    Err(e) => Err(e),
                    Ok((parameter_ids, body_scope, parser)) => match resolve_scope(
                        definition.body.instructions@,
                        body_scope,
                        parser,
                    ) {
                        Err(e) => Err(e),
                        Ok(parser) => Ok(
                            (ExprView::FnDef { parameter_ids, body_scope_id: id }, scope, parser),
                        ),
                    },
                }
            }
        },
        syntax_tree::ExprInner::FnCall(call) => match scope.lookup(call.name@) {
            None => Err(ResolveError::UndefinedFunction(call.name)),
            Some(id) => match resolve_exprs(call.arguments@, scope, parser) {
                Err(e) => Err(e),
                Ok((arguments, scope, parser)) => Ok(
                    (ExprView::FnCall { variable_id: id, arguments }, scope, parser),
                ),
            },
        },
        syntax_tree::ExprInner::FnRet(ret) => match resolve_expr(ret.value, scope, parser) {
            Err(e) => Err(e),
            Ok((value, scope, parser)) => match scope.function_id {
                None => Err(ResolveError::ReturnOutsideFunction),
                Some(function_scope_id) => Ok(
                    (
                        ExprView::FnRet { value: Box::new(value), function_scope_id },
                        scope,
                        parser,
                    ),
                ),
            },
        },
        syntax_tree::ExprInner::Loop(l) => {
            if !parser.can_issue() {
                Err(ResolveError::IdentifiersExhausted)
            } else {
                let id = parser.issued();
                match resolve_scope(l.body.instructions@, scope.child_loop(id), parser.advanced()) {
                    Err(e) => Err(e),
                    Ok(parser) => Ok((ExprView::Loop { body_scope_id: id }, scope, parser)),
                }
            }
        },
        syntax_tree::ExprInner::LoopBr(br) => match resolve_expr(br.value, scope, parser) {
            Err(e) => Err(e),
            Ok((value, scope, parser)) => match scope.loop_id {
                None => Err(ResolveError::BreakOutsideLoop),
                Some(loop_scope_id) => Ok(
                    (ExprView::LoopBr { value: Box::new(value), loop_scope_id }, scope, parser),
                ),
            },
        },
        syntax_tree::ExprInner::Cond(cond) => match resolve_expr(cond.condition, scope, parser) {
            Err(e) => Err(e),
            Ok((condition, scope, parser)) => match resolve_expr(cond.arm_true, scope, parser) {
                Err(e) => Err(e),
                Ok((arm_true, scope, parser)) => match cond.arm_false {
                    None => Ok(
                        (
                            ExprView::Cond {
                                condition: Box::new(condition),
                                arm_true: Box::new(arm_true),
                                arm_false: None,
                            },
                            scope,
                            parser,
                        ),
                    ),
                    Some(otherwise) => match resolve_expr(otherwise, scope, parser) {
                        Err(e) => Err(e),
                        Ok((arm_false, scope, parser)) => Ok(
                            (
                                ExprView::Cond {
                                    condition: Box::new(condition),
                                    arm_true: Box::new(arm_true),
                                    arm_false: Some(Box::new(arm_false)),
                                },
                                scope,
                                parser,
                            ),
                        ),
                    },
                },
            },
        },
    }
}

/// The resolution of a run of expressions, one after the other from the left.
pub open spec fn resolve_exprs(
    expressions: Seq<syntax_tree::Expr>,
    scope: ParserScopeView,
    parser: ParserView,
) -> Result<(Seq<ExprView>, ParserScopeView, ParserView), ResolveError>
    decreases expressions, 0int,
{
    if expressions.len() == 0 {
        Ok((Seq::empty(), scope, parser))
    } else {
        match resolve_exprs(expressions.drop_last(), scope, parser) {
            Err(e) => Err(e),
            Ok((resolved, scope, parser)) => match resolve_expr(expressions.last(), scope, parser) {
                Err(e) => Err(e),
                Ok((last, scope, parser)) => Ok((resolved.push(last), scope, parser)),
            },
        }
    }
}

/// The resolution of the body of the freshly opened `scope`: its instructions
/// are resolved in order, then the scope is recorded with every identifier it
/// declared.
pub open spec fn resolve_scope(
    instructions: Seq<syntax_tree::Expr>,
    scope: ParserScopeView,
    parser: ParserView,
) -> Result<ParserView, ResolveError>
    decreases instructions, 1int,
{
    match resolve_exprs(instructions, scope, parser) {
        Err(e) => Err(e),
        Ok((expressions, scope, parser)) => Ok(parser.recorded(scope.finished(expressions))),
    }
}

/// The declaration of `names` in `scope`, in order, each under a fresh
/// identifier.
pub open spec fn declare_all(names: Seq<String>, scope: ParserScopeView, parser: ParserView) -> Result<
    (Seq<Id>, ParserScopeView, ParserView),
    ResolveError,
>
    decreases names.len(),
{
    if names.len() == 0 {
        Ok((Seq::empty(), scope, parser))
    } else {
        match declare_all(names.drop_last(), scope, parser) {
            Err(e) => Err(e),
            Ok((ids, scope, parser)) => {
                if !parser.can_issue() {
                    Err(ResolveError::IdentifiersExhausted)
                } else {
                    let id = parser.issued();
                    Ok((ids.push(id), scope.declare(names.last()@, id), parser.advanced()))
                }
            },
        }
    }
}

/// The instruction that declares the global `name` with the value `value`.
pub open spec fn global_definition(name: String, value: Value) -> syntax_tree::Expr {
    syntax_tree::Expr(
        Box::new(
            syntax_tree::ExprInner::VarDef(
                syntax_tree::VarDef {
                    name,
                    value: syntax_tree::Expr(
                        Box::new(syntax_tree::ExprInner::Literal(syntax_tree::Literal(value))),
                    ),
                },
            ),
        ),
    )
}

/// The instructions of a program whose globals are `globals`: one declaration
/// for each global, in order, then the program's own instructions.
pub open spec fn with_globals(
    globals: Seq<(String, Value)>,
    instructions: Seq<syntax_tree::Expr>,
) -> Seq<syntax_tree::Expr> {
    Seq::new(globals.len(), |i: int| global_definition(globals[i].0, globals[i].1)) + instructions
}

/// The resolution of a whole program: its instructions, after the declarations
/// of the globals, form the root scope, which gets the first identifier.
pub open spec fn resolve_program(
    globals: Seq<(String, Value)>,
    instructions: Seq<syntax_tree::Expr>,
) -> Result<ProgramView, ResolveError> {
    let parser = ParserView::fresh();
    let root = parser.issued();
    match resolve_scope(
        with_globals(globals, instructions),
        ParserScopeView::root(root),
        parser.advanced(),
    ) {
        Err(e) => Err(e),
        Ok(parser) => Ok(ProgramView { main_scope_id: root, scopes: parser.scopes }),
    }
}

impl ParserScopeView {
    /// Whether `later` is this scope after more declarations: the same scope
    /// in the same place, whose declarations begin with those of `self`.
    pub open spec fn grown_into(self, later: ParserScopeView) -> bool {
        &&& later.enclosing == self.enclosing
        &&& later.current.scope_id == self.current.scope_id
        &&& later.parent_id == self.parent_id
        &&& later.function_id == self.function_id
        &&& later.loop_id == self.loop_id
        &&& self.current.bindings.len() <= later.current.bindings.len()
        &&& later.current.bindings.take(self.current.bindings.len() as int)
            == self.current.bindings
    }
}

/// Resolving an expression leaves its scope where it is and only appends to
/// the scope's declarations; the resolver never takes an identifier back.
pub proof fn lemma_resolve_expr_grows(
    expression: syntax_tree::Expr,
    scope: ParserScopeView,
    parser: ParserView,
)
    ensures
        resolve_expr(expression, scope, parser) matches Ok((_, later, after)) ==> scope.grown_into(
            later,
        ) && parser.next_id <= after.next_id,
    decreases expression, 0int,
{
    lemma_grown_into_itself(scope);
    match *expression.0 {
        syntax_tree::ExprInner::Scope(block) => {
            if parser.can_issue() {
                lemma_resolve_scope_grows(
                    block.instructions@,
                    scope.child_common(parser.issued()),
                    parser.advanced(),
                );
            }
        },
        syntax_tree::ExprInner::Literal(literal) => {},
        syntax_tree::ExprInner::VarDef(definition) => {
            lemma_resolve_expr_grows(definition.value, scope, parser);
            match resolve_expr(definition.value, scope, parser) {
                Err(e) => {},
                Ok((value, scope1, parser1)) => {
                    if parser1.can_issue() {
                        lemma_declare_grows(scope1, definition.name@, parser1.issued());
                        lemma_grown_into_chains(
                            scope,
                            scope1,
                            scope1.declare(definition.name@, parser1.issued()),
                        );
                    }
                },
            }
        },
        syntax_tree::ExprInner::VarAssign(assignment) => {
            lemma_resolve_expr_grows(assignment.value, scope, parser);
        },
        syntax_tree::ExprInner::VarCall(call) => {},
        syntax_tree::ExprInner::FnDef(definition) => {
            if parser.can_issue() {
                let id = parser.issued();
                lemma_declare_all_grows(
                    definition.parameter_names@,
                    scope.child_function(id),
                    parser.advanced(),
                );
                match declare_all(
                    definition.parameter_names@,
                    scope.child_function(id),
                    parser.advanced(),
                ) {
                    Err(e) => {},
                    Ok((parameter_ids, body_scope, parser)) => {
                        lemma_resolve_scope_grows(
                            definition.body.instructions@,
                            body_scope,
                            parser,
                        );
                    },
                }
            }
        },
        syntax_tree::ExprInner::FnCall(call) => {
            lemma_resolve_exprs_grows(call.arguments@, scope, parser);
        },
        syntax_tree::ExprInner::FnRet(ret) => {
            lemma_resolve_expr_grows(ret.value, scope, parser);
        },
        syntax_tree::ExprInner::Loop(l) => {
            if parser.can_issue() {
                lemma_resolve_scope_grows(
                    l.body.instructions@,
                    scope.child_loop(parser.issued()),
                    parser.advanced(),
                );
            }
        },
        syntax_tree::ExprInner::LoopBr(br) => {
            lemma_resolve_expr_grows(br.value, scope, parser);
        },
        syntax_tree::ExprInner::Cond(cond) => {
            lemma_resolve_expr_grows(cond.condition, scope, parser);
            match resolve_expr(cond.condition, scope, parser) {
                Err(e) => {},
                Ok((condition, scope1, parser1)) => {
                    lemma_resolve_expr_grows(cond.arm_true, scope1, parser1);
                    match resolve_expr(cond.arm_true, scope1, parser1) {
                        Err(e) => {},
                        Ok((arm_true, scope2, parser2)) => {
                            lemma_grown_into_chains(scope, scope1, scope2);
                            match cond.arm_false {
                                None => {},
                                Some(otherwise) => {
                                    lemma_resolve_expr_grows(otherwise, scope2, parser2);
                                    match resolve_expr(otherwise, scope2, parser2) {
                                        Err(e) => {},
                                        Ok((arm_false, scope3, parser3)) => {
                                            lemma_grown_into_chains(scope, scope2, scope3);
                                        },
                                    }
                                },
                            }
                        },
                    }
                },
            }
        },
    }
}

/// A scope has grown into itself.
pub proof fn lemma_grown_into_itself(scope: ParserScopeView)
    ensures
        scope.grown_into(scope),
{
    assert(scope.current.bindings.take(scope.current.bindings.len() as int)
        == scope.current.bindings);
}

/// A scope grows into what it is after one more declaration.
pub proof fn lemma_declare_grows(scope: ParserScopeView, name: Seq<char>, id: Id)
    ensures
        scope.grown_into(scope.declare(name, id)),
{
    assert(scope.declare(name, id).current.bindings.take(scope.current.bindings.len() as int)
        == scope.current.bindings);
}

/// Growth composes.
pub proof fn lemma_grown_into_chains(
    first: ParserScopeView,
    second: ParserScopeView,
    third: ParserScopeView,
)
    requires
        first.grown_into(second),
        second.grown_into(third),
    ensures
        first.grown_into(third),
{
    let n = first.current.bindings.len() as int;
    let m = second.current.bindings.len() as int;
    assert(third.current.bindings.take(n) == third.current.bindings.take(m).take(n));
}

/// Resolving a run of expressions leaves their scope where it is and only
/// appends to the scope's declarations.
pub proof fn lemma_resolve_exprs_grows(
    expressions: Seq<syntax_tree::Expr>,
    scope: ParserScopeView,
    parser: ParserView,
)
    ensures
        resolve_exprs(expressions, scope, parser) matches Ok((resolved, later, after))
            ==> scope.grown_into(later) && parser.next_id <= after.next_id && resolved.len()
            == expressions.len(),
    decreases expressions, 0int,
{
    if expressions.len() == 0 {
        lemma_grown_into_itself(scope);
    } else {
        lemma_resolve_exprs_grows(expressions.drop_last(), scope, parser);
        match resolve_exprs(expressions.drop_last(), scope, parser) {
            Err(e) => {},
            Ok((resolved, scope1, parser1)) => {
                lemma_resolve_expr_grows(expressions.last(), scope1, parser1);
                match resolve_expr(expressions.last(), scope1, parser1) {
                    Err(e) => {},
                    Ok((last, scope2, parser2)) => {
                        lemma_grown_into_chains(scope, scope1, scope2);
                    },
                }
            },
        }
    }
}

/// Resolving the body of a scope never takes an identifier back.
pub proof fn lemma_resolve_scope_grows(
    instructions: Seq<syntax_tree::Expr>,
    scope: ParserScopeView,
    parser: ParserView,
)
    ensures
        resolve_scope(instructions, scope, parser) matches Ok(after) ==> parser.next_id
            <= after.next_id,
    decreases instructions, 1int,
{
    lemma_resolve_exprs_grows(instructions, scope, parser);
}

/// Declaring names leaves the scope where it is, appends one declaration for
/// each name, and issues one identifier for each.
pub proof fn lemma_declare_all_grows(names: Seq<String>, scope: ParserScopeView, parser: ParserView)
    ensures
        declare_all(names, scope, parser) matches Ok((ids, later, after)) ==> scope.grown_into(
            later,
        ) && after.next_id == parser.next_id + names.len() && after.scopes == parser.scopes
            && ids.len() == names.len(),
    decreases names.len(),
{
    if names.len() == 0 {
        lemma_grown_into_itself(scope);
    } else {
        lemma_declare_all_grows(names.drop_last(), scope, parser);
        match declare_all(names.drop_last(), scope, parser) {
            Err(e) => {},
            Ok((ids, scope1, parser1)) => {
                if parser1.can_issue() {
                    let scope2 = scope1.declare(names.last()@, parser1.issued());
                    lemma_declare_grows(scope1, names.last()@, parser1.issued());
                    lemma_grown_into_chains(scope, scope1, scope2);
                }
            },
        }
    }
}

/// The latest declaration of a name is the one that is found.
pub proof fn lemma_find_declared(bindings: Seq<(Seq<char>, Id)>, name: Seq<char>, id: Id)
    ensures
        find_in_level(bindings.push((name, id)), name) == Some(id),
        forall|other: Seq<char>|
            other != name ==> find_in_level(bindings.push((name, id)), other) == find_in_level(
                bindings,
                other,
            ),
{
    assert(bindings.push((name, id)).drop_last() == bindings);
}

/// Shadowing. When a scope declares the same name twice, reads that follow in
/// the scope find the later declaration only. The identifier of the earlier
/// one stays among the identifiers that the scope declares, but no name leads
/// to it any more, unless one did before. Other names resolve as they did.
pub proof fn lemma_shadowing(scope: ParserScopeView, name: Seq<char>, first: Id, second: Id)
    requires
        first != second,
    ensures
        ({
            let twice = scope.declare(name, first).declare(name, second);
            &&& twice.lookup(name) == Some(second)
            &&& ids_of(twice.current.bindings).contains(first)
            &&& ids_of(twice.current.bindings).contains(second)
            &&& forall|other: Seq<char>| other != name ==> twice.lookup(other) == scope.lookup(other)
            &&& forall|other: Seq<char>| #[trigger]
                twice.lookup(other) == Some(first) ==> other != name && scope.lookup(other) == Some(
                    first,
                )
        }),
{
    let once = scope.declare(name, first);
    let twice = once.declare(name, second);
    lemma_find_declared(scope.current.bindings, name, first);
    lemma_find_declared(once.current.bindings, name, second);
    let n = scope.current.bindings.len() as int;
    assert(ids_of(twice.current.bindings)[n] == first);
    assert(ids_of(twice.current.bindings)[n + 1] == second);
}

/// A declaration is seen from every scope nested in the declaring one, until
/// the nested scope declares the name itself.
pub proof fn lemma_child_sees_parent(scope: ParserScopeView, id: Id, name: Seq<char>)
    ensures
        scope.child_common(id).lookup(name) == scope.lookup(name),
        scope.child_function(id).lookup(name) == scope.lookup(name),
        scope.child_loop(id).lookup(name) == scope.lookup(name),
{
    assert(scope.enclosing.push(scope.current).drop_last() == scope.enclosing);
}

/// Where `return` and `break` lead. In a plain block both lead where they lead
/// around it. A function body is the target of the `return`s in it, and hides
/// every loop around the function from the `break`s in it. A loop body is the
/// target of the `break`s in it, and leaves `return` its target.
pub proof fn lemma_unwind_targets(scope: ParserScopeView, id: Id)
    ensures
        scope.child_common(id).function_id == scope.function_id,
        scope.child_common(id).loop_id == scope.loop_id,
        scope.child_function(id).function_id == Some(id),
        scope.child_function(id).loop_id.is_none(),
        scope.child_loop(id).function_id == scope.function_id,
        scope.child_loop(id).loop_id == Some(id),
{
}

} // verus!
