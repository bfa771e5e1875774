//! The resolver: from a syntax tree, which speaks of names, to an execution
//! tree, which speaks of identifiers.

use vstd::prelude::*;
use std::collections::HashMap;
use crate::execution_tree;
use crate::execution_tree::{Id, IdAllocator};
use crate::execution_tree::{lemma_views_of_push, views_of, ExprView, ProgramView};
use crate::execution_tree::numbering::{lemma_resolved_is_well_numbered, well_numbered};
use crate::execution_tree::routing::{lemma_resolved_is_well_routed, plain_globals, well_routed};
use crate::syntax_tree::plain_all;
use crate::execution_tree::scoping::{lemma_resolved_is_well_scoped, well_scoped};
use crate::execution_tree::resolution::{
    declare_all,
    find_in_chain,
    find_in_level,
    global_definition,
    ids_of,
    lemma_declare_all_grows,
    lemma_resolve_exprs_grows,
    resolve_expr,
    resolve_exprs,
    resolve_program,
    resolve_scope,
    with_globals,
    LevelView,
    ParserScopeView,
    ParserView,
    ResolveError,
};
use crate::syntax_tree;
use crate::value::Value;

verus! {

broadcast use vstd::std_specs::hash::group_hash_axioms;

/// The names one scope has declared, and the scope around it.
#[derive(Debug)]
pub struct ParserScopeVariables<'a> {
    parent_scope: Option<&'a ParserScopeVariables<'a>>,
    scope_id: Id,
    local_variables: Vec<(String, Id)>,
}

/// The declarations held in `entries`, with each name as its text.
pub open spec fn bindings_of(entries: Seq<(String, Id)>) -> Seq<(Seq<char>, Id)> {
    Seq::new(entries.len(), |i: int| (entries[i].0@, entries[i].1))
}

impl<'a> ParserScopeVariables<'a> {
    /// This scope's own declarations.
    pub closed spec fn level(self) -> LevelView {
        LevelView { scope_id: self.scope_id, bindings: bindings_of(self.local_variables@) }
    }

    /// The declarations of the scopes around this one, outermost first.
    pub closed spec fn enclosing(self) -> Seq<LevelView>
        decreases self,
    {
        match self.parent_scope {
            None => Seq::empty(),
            Some(parent) => parent.enclosing().push(parent.level()),
        }
    }

    /// The identifier that `name` resolves to: this scope is searched first,
    /// then the scopes around it from the inside out.
    pub fn get_id(&self, name: &str) -> (id: Option<Id>)
        ensures
            id == (match find_in_level(self.level().bindings, name@) {
                Some(id) => Some(id),
                None => find_in_chain(self.enclosing(), name@),
            }),
        decreases self, 1int,
    {
        match self.get_id_in_local(name) {
            Some(id) => Some(id),
            None => self.get_id_in_parents(name),
        }
    }

    fn get_id_in_local(&self, name: &str) -> (id: Option<Id>)
        ensures
            id == find_in_level(self.level().bindings, name@),
    {
        let wanted = name.to_owned();
        let mut i: usize = self.local_variables.len();
        assert(self.level().bindings.take(i as int) == self.level().bindings);
        while i > 0
            invariant
                i <= self.local_variables.len(),
                wanted@ == name@,
                find_in_level(self.level().bindings, name@) == find_in_level(
                    self.level().bindings.take(i as int),
                    name@,
                ),
            decreases i,
        {
            i = i - 1;
            proof {
                let before = self.level().bindings.take(i + 1);
                assert(before.drop_last() == self.level().bindings.take(i as int));
                assert(before.last() == self.level().bindings[i as int]);
            }
            if self.local_variables[i].0 == wanted {
                return Some(self.local_variables[i].1);
            }
        }
        None
    }

    fn get_id_in_parents(&self, name: &str) -> (id: Option<Id>)
        ensures
            id == find_in_chain(self.enclosing(), name@),
        decreases self, 0int,
    {
        match self.parent_scope {
            None => None,
            Some(parent) => {
                proof {
                    let levels = self.enclosing();
                    assert(levels.drop_last() == parent.enclosing());
                    assert(levels.last() == parent.level());
                }
                parent.get_id(name)
            },
        }
    }

    /// Every identifier this scope has declared, in the order of declaration;
    /// one whose name was declared again later is still among them.
    fn local_variable_ids(&self) -> (ids: Vec<Id>)
        ensures
            ids@ == ids_of(self.level().bindings),
    {
        let mut ids: Vec<Id> = Vec::new();
        let mut i: usize = 0;
        while i < self.local_variables.len()
            invariant
                i <= self.local_variables.len(),
                ids@ == ids_of(self.level().bindings).take(i as int),
            decreases self.local_variables.len() - i,
        {
            ids.push(self.local_variables[i].1);
            i = i + 1;
        }
        ids
    }

    /// Declares `name` under `id`. An earlier declaration of the same name
    /// keeps its identifier but can no longer be found by name.
    fn add_name(&mut self, name: String, id: Id)
        ensures
            final(self).level() == (LevelView {
                scope_id: old(self).level().scope_id,
                bindings: old(self).level().bindings.push((name@, id)),
            }),
            final(self).enclosing() == old(self).enclosing(),
    {
        self.local_variables.push((name, id));
        assert(bindings_of(self.local_variables@) == bindings_of(old(self).local_variables@).push(
            (name@, id),
        ));
    }
}

/// A scope under resolution. It knows the names declared in it and around it,
/// and where a `return` or a `break` found in it unwinds to.
#[derive(Debug)]
pub struct ParserScope<'a> {
    variables: ParserScopeVariables<'a>,
    parent_id: Option<Id>,
    current_function_scope_id: Option<Id>,
    current_loop_scope_id: Option<Id>,
}

impl<'a> View for ParserScope<'a> {
    type V = ParserScopeView;

    closed spec fn view(&self) -> ParserScopeView {
        ParserScopeView {
            enclosing: self.variables.enclosing(),
            current: self.variables.level(),
            parent_id: self.parent_id,
            function_id: self.current_function_scope_id,
            loop_id: self.current_loop_scope_id,
        }
    }
}

/// What `ids` issues next, as the resolution of the request.
fn request_new_id(ids: &mut IdAllocator) -> (issued: Result<Id, ResolveError>)
    ensures
        old(ids)@ < u64::MAX ==> issued == Ok::<Id, ResolveError>(Id(old(ids)@)) && final(ids)@
            == old(ids)@ + 1,
        old(ids)@ == u64::MAX ==> issued == Err::<Id, ResolveError>(
            ResolveError::IdentifiersExhausted,
        ) && final(ids)@ == old(ids)@,
{
    match ids.next() {
        Some(id) => Ok(id),
        None => Err(ResolveError::IdentifiersExhausted),
    }
}

impl<'a> ParserScope<'a> {
    /// The scope at the root of a program, and the allocator that serves the
    /// whole program. The root takes the first identifier.
    pub fn new_root() -> (root: (ParserScope<'static>, IdAllocator))
        ensures
            root.0@ == ParserScopeView::root(Id(0)),
            root.1@ == 1,
    {
        let mut ids = IdAllocator::new();
        let current_id = match ids.next() {
            Some(id) => id,
            None => Id::zero(),
        };
        let variables = ParserScopeVariables {
            parent_scope: None,
            scope_id: current_id,
            local_variables: Vec::new(),
        };
        assert(bindings_of(variables.local_variables@) == Seq::<(Seq<char>, Id)>::empty());
        (
            ParserScope {
                variables,
                parent_id: None,
                current_function_scope_id: None,
                current_loop_scope_id: None,
            },
            ids,
        )
    }

    /// A scope nested directly in this one, under a fresh identifier.
    fn make_child<'b>(
        &'b self,
        ids: &mut IdAllocator,
        function: Option<Option<Id>>,
        in_loop: Option<Option<Id>>,
    ) -> (child: Result<ParserScope<'b>, ResolveError>)
        ensures
            old(ids)@ < u64::MAX ==> final(ids)@ == old(ids)@ + 1 && child is Ok
                && child->Ok_0@ == self@.child(
                Id(old(ids)@),
                match function {
                    Some(f) => f,
                    None => Some(Id(old(ids)@)),
                },
                match in_loop {
                    Some(l) => l,
                    None => Some(Id(old(ids)@)),
                },
            ),
            old(ids)@ == u64::MAX ==> final(ids)@ == old(ids)@ && (child matches Err(e) && e
                == ResolveError::IdentifiersExhausted),
    {
        let current_id = match request_new_id(ids) {
            Ok(id) => id,
            Err(e) => { return Err(e); },
        };
        let variables = ParserScopeVariables {
            parent_scope: Some(&self.variables),
            scope_id: current_id,
            local_variables: Vec::new(),
        };
        assert(bindings_of(variables.local_variables@) == Seq::<(Seq<char>, Id)>::empty());
        Ok(
            ParserScope {
                variables,
                parent_id: Some(self.get_current_id()),
                current_function_scope_id: match function {
                    Some(f) => f,
                    None => Some(current_id),
                },
                current_loop_scope_id: match in_loop {
                    Some(l) => l,
                    None => Some(current_id),
                },
            },
        )
    }

    /// The child that a plain block opens. `return` and `break` keep the
    /// targets they have here.
    pub fn make_child_common<'b>(&'b self, ids: &mut IdAllocator) -> (child: Result<
        ParserScope<'b>,
        ResolveError,
    >)
        ensures
            old(ids)@ < u64::MAX ==> final(ids)@ == old(ids)@ + 1 && child is Ok
                && child->Ok_0@ == self@.child_common(Id(old(ids)@)),
            old(ids)@ == u64::MAX ==> final(ids)@ == old(ids)@ && (child matches Err(e) && e
                == ResolveError::IdentifiersExhausted),
    {
        self.make_child(
            ids,
            Some(self.get_current_function_id()),
            Some(self.get_current_loop_id()),
        )
    }

    /// The child that a function body opens. It becomes the target of
    /// `return`; a `break` inside it finds no loop until one is opened there.
    pub fn make_child_function<'b>(&'b self, ids: &mut IdAllocator) -> (child: Result<
        ParserScope<'b>,
        ResolveError,
    >)
        ensures
            old(ids)@ < u64::MAX ==> final(ids)@ == old(ids)@ + 1 && child is Ok
                && child->Ok_0@ == self@.child_function(Id(old(ids)@)),
            old(ids)@ == u64::MAX ==> final(ids)@ == old(ids)@ && (child matches Err(e) && e
                == ResolveError::IdentifiersExhausted),
    {
        self.make_child(ids, None, Some(None))
    }

    /// The child that a loop body opens. It becomes the target of `break`;
    /// `return` keeps the target it has here.
    pub fn make_child_loop<'b>(&'b self, ids: &mut IdAllocator) -> (child: Result<
        ParserScope<'b>,
        ResolveError,
    >)
        ensures
            old(ids)@ < u64::MAX ==> final(ids)@ == old(ids)@ + 1 && child is Ok
                && child->Ok_0@ == self@.child_loop(Id(old(ids)@)),
            old(ids)@ == u64::MAX ==> final(ids)@ == old(ids)@ && (child matches Err(e) && e
                == ResolveError::IdentifiersExhausted),
    {
        self.make_child(ids, Some(self.get_current_function_id()), None)
    }

    pub fn get_current_id(&self) -> (id: Id)
        ensures
            id == self@.current.scope_id,
    {
        self.variables.scope_id
    }

    pub fn get_current_function_id(&self) -> (id: Option<Id>)
        ensures
            id == self@.function_id,
    {
        self.current_function_scope_id
    }

    pub fn get_current_loop_id(&self) -> (id: Option<Id>)
        ensures
            id == self@.loop_id,
    {
        self.current_loop_scope_id
    }

    pub fn get_parent_id(&self) -> (id: Option<Id>)
        ensures
            id == self@.parent_id,
    {
        self.parent_id
    }

    /// The identifier that `name` resolves to in this scope, if any scope on
    /// the way out to the root declares it.
    pub fn get_variable_id(&self, name: &str) -> (id: Option<Id>)
        ensures
            id == self@.lookup(name@),
    {
        self.variables.get_id(name)
    }

    /// Declares `name` in this scope under a fresh identifier, which is
    /// returned. From now on `name` resolves to it here and in the scopes
    /// nested in this one.
    pub fn add_name(&mut self, name: String, ids: &mut IdAllocator) -> (issued: Result<
        Id,
        ResolveError,
    >)
        ensures
            old(ids)@ < u64::MAX ==> issued == Ok::<Id, ResolveError>(Id(old(ids)@)) && final(ids)@
                == old(ids)@ + 1 && final(self)@ == old(self)@.declare(name@, Id(old(ids)@)),
            old(ids)@ == u64::MAX ==> issued == Err::<Id, ResolveError>(
                ResolveError::IdentifiersExhausted,
            ) && final(ids)@ == old(ids)@ && final(self)@ == old(self)@,
    {
        let new_id = match request_new_id(ids) {
            Ok(id) => id,
            Err(e) => { return Err(e); },
        };
        self.variables.add_name(name, new_id);
        Ok(new_id)
    }

    /// Issues an identifier that no name is bound to.
    pub fn add_anonymous(&self, ids: &mut IdAllocator) -> (issued: Result<Id, ResolveError>)
        ensures
            old(ids)@ < u64::MAX ==> issued == Ok::<Id, ResolveError>(Id(old(ids)@)) && final(ids)@
                == old(ids)@ + 1,
            old(ids)@ == u64::MAX ==> issued == Err::<Id, ResolveError>(
                ResolveError::IdentifiersExhausted,
            ) && final(ids)@ == old(ids)@,
    {
        request_new_id(ids)
    }

    /// Every identifier declared in this scope so far, in the order of
    /// declaration, shadowed ones included.
    pub fn local_variable_ids(&self) -> (ids: Vec<Id>)
        ensures
            ids@ == ids_of(self@.current.bindings),
    {
        self.variables.local_variable_ids()
    }
}

/// Collects the globals that a program is resolved with.
pub struct ParserBuilder {
    prelude: Vec<(String, Value)>,
}

impl View for ParserBuilder {
    type V = Seq<(String, Value)>;

    /// The globals collected so far, in the order in which they were given.
    closed spec fn view(&self) -> Seq<(String, Value)> {
        self.prelude@
    }
}

impl ParserBuilder {
    /// A builder that holds no global.
    pub fn new() -> (builder: Self)
        ensures
            builder@ == Seq::<(String, Value)>::empty(),
    {
        ParserBuilder { prelude: Vec::new() }
    }

    /// Adds the global `name` with the value `value`, after those given
    /// before.
    pub fn prelude(&mut self, name: String, value: Value)
        ensures
            final(self)@ == old(self)@.push((name, value)),
    {
        self.prelude.push((name, value));
    }
}

/// The resolver of one program: the scopes it has finished and the allocator
/// that every scope of the program draws its identifiers from.
pub struct Parser {
    scopes: HashMap<u64, execution_tree::Scope>,
    ids: IdAllocator,
}

impl View for Parser {
    type V = ParserView;

    closed spec fn view(&self) -> ParserView {
        ParserView {
            next_id: self.ids@,
            scopes: Map::new(
                |id: Id| self.scopes@.contains_key(id.0),
                |id: Id| self.scopes@[id.0]@,
            ),
        }
    }
}

/// Whether `outcome`, with the scope and the resolver as they are left, is what
/// `expected` says.
pub open spec fn resolved_as<T>(
    outcome: Result<T, ResolveError>,
    scope: ParserScopeView,
    parser: ParserView,
    expected: Result<(T, ParserScopeView, ParserView), ResolveError>,
) -> bool {
    match outcome {
        Ok(resolved) => expected == Ok::<(T, ParserScopeView, ParserView), ResolveError>(
            (resolved, scope, parser),
        ),
        Err(e) => expected == Err::<(T, ParserScopeView, ParserView), ResolveError>(e),
    }
}

/// The view of what was resolved, or the failure.
pub open spec fn viewed(outcome: Result<execution_tree::Expr, ResolveError>) -> Result<
    ExprView,
    ResolveError,
> {
    match outcome {
        Ok(resolved) => Ok(resolved@),
        Err(e) => Err(e),
    }
}

impl Parser {
    /// Resolves the program `ast` with the globals that `builder` holds.
    ///
    /// The globals are declared first, in the order in which the builder got
    /// them, as if the program began with one declaration for each. On
    /// success the execution tree is returned; the first failure met on the
    /// way through the tree is returned otherwise.
    ///
    /// In the execution tree every identifier leads somewhere and names one
    /// thing. Where no literal and no global is a function defined in the
    /// language, every `return` targets the function around it and every
    /// `break` the loop around it.
    pub fn parse(ast: syntax_tree::Program, builder: ParserBuilder) -> (program: Result<
        execution_tree::Program,
        ResolveError,
    >)
        ensures
            match program {
                Ok(program) => resolve_program(builder@, ast.body.instructions@) == Ok::<
                    ProgramView,
                    ResolveError,
                >(program@),
                Err(e) => resolve_program(builder@, ast.body.instructions@) == Err::<
                    ProgramView,
                    ResolveError,
                >(e),
            },
            program matches Ok(program) ==> well_scoped(program@) && well_numbered(program@),
            program matches Ok(program) ==> (plain_globals(builder@) && plain_all(
                ast.body.instructions@,
            ) ==> well_routed(program@)),
    {
        proof {
            lemma_resolved_is_well_scoped(builder@, ast.body.instructions@);
            lemma_resolved_is_well_numbered(builder@, ast.body.instructions@);
            if plain_globals(builder@) && plain_all(ast.body.instructions@) {
                lemma_resolved_is_well_routed(builder@, ast.body.instructions@);
            }
        }
        let syntax_tree::Program { body } = ast;
        let syntax_tree::Scope { instructions } = body;
        let ParserBuilder { prelude } = builder;
        let ghost globals = prelude@;
        let ghost own = instructions@;

        let mut all: Vec<syntax_tree::Expr> = Vec::new();
        for global in it: prelude
            invariant
                it.seq() == globals,
                all@ == Seq::new(
                    it.index() as nat,
                    |i: int| global_definition(globals[i].0, globals[i].1),
                ),
        {
            let (name, value) = global;
            let value = syntax_tree::Expr::new_literal(value);
            let expression = syntax_tree::Expr(
                Box::new(syntax_tree::ExprInner::VarDef(syntax_tree::VarDef { name, value })),
            );
            all.push(expression);
        }
        let mut instructions = instructions;
        all.append(&mut instructions);
        assert(all@ == with_globals(globals, own));

        let (mut parser_scope, ids) = ParserScope::new_root();
        let mut parser = Parser { scopes: HashMap::new(), ids };
        assert(parser@.scopes == Map::<Id, execution_tree::ScopeView>::empty());
        assert(parser@ == ParserView::fresh().advanced());
        let body = syntax_tree::Scope { instructions: all };
        match parser.parse_ast_scope(body, &mut parser_scope) {
            Ok(body_scope_id) => {
                let Parser { scopes, ids: _ } = parser;
                Ok(execution_tree::Program { main_scope_id: body_scope_id, scopes })
            },
            Err(e) => Err(e),
        }
    }

    /// Resolves the instructions of a block whose scope `parser_scope` was
    /// opened for, then records the scope with every identifier it declared.
    /// Returns the scope's identifier.
    pub fn parse_ast_scope(
        &mut self,
        ast_scope: syntax_tree::Scope,
        parser_scope: &mut ParserScope<'_>,
    ) -> (scope_id: Result<Id, ResolveError>)
        ensures
            match scope_id {
                Ok(id) => id == old(parser_scope)@.current.scope_id && resolve_scope(
                    ast_scope.instructions@,
                    old(parser_scope)@,
                    old(self)@,
                ) == Ok::<ParserView, ResolveError>(final(self)@),
                Err(e) => resolve_scope(ast_scope.instructions@, old(parser_scope)@, old(self)@)
                    == Err::<ParserView, ResolveError>(e),
            },
        decreases ast_scope, 1int,
    {
        let syntax_tree::Scope { instructions } = ast_scope;

        let scope_id = parser_scope.get_current_id();
        let parent_scope_id = parser_scope.get_parent_id();
        proof {
            lemma_resolve_exprs_grows(instructions@, parser_scope@, self@);
        }
        let expressions = match self.parse_expressions(instructions, parser_scope) {
            Ok(expressions) => expressions,
            Err(e) => { return Err(e); },
        };
        let local_variables = parser_scope.local_variable_ids();

        let scope = execution_tree::Scope {
            parent_scope_id,
            scope_id,
            expressions,
            local_variables,
        };
        let ghost before = self@;
        let ghost record = scope@;
        assert(record == parser_scope@.finished(views_of(expressions@)));
        self.scopes.insert(scope_id.0, scope);
        assert(self@.scopes == before.scopes.insert(scope_id, record));
        assert(self@ == before.recorded(record));
        Ok(scope_id)
    }

    /// Resolves a run of expressions in order, each in the scope as the ones
    /// before it left it.
    #[verifier::loop_isolation(false)]
    fn parse_expressions(
        &mut self,
        expressions: Vec<syntax_tree::Expr>,
        parser_scope: &mut ParserScope<'_>,
    ) -> (resolved: Result<Vec<execution_tree::Expr>, ResolveError>)
        ensures
            match resolved {
                Ok(resolved) => resolve_exprs(expressions@, old(parser_scope)@, old(self)@) == Ok::<
                    (Seq<ExprView>, ParserScopeView, ParserView),
                    ResolveError,
                >((views_of(resolved@), final(parser_scope)@, final(self)@)),
                Err(e) => resolve_exprs(expressions@, old(parser_scope)@, old(self)@) == Err::<
                    (Seq<ExprView>, ParserScopeView, ParserView),
                    ResolveError,
                >(e),
            },
        decreases expressions, 0int,
    {
        let ghost all = expressions@;
        let ghost scope_before = parser_scope@;
        let ghost parser_before = self@;
        let mut resolved: Vec<execution_tree::Expr> = Vec::new();
        assert(all.take(0) == Seq::<syntax_tree::Expr>::empty());
        for expression in it: expressions
            invariant
                it.seq() == all,
                all == expressions@,
                resolve_exprs(all.take(it.index() as int), scope_before, parser_before) == Ok::<
                    (Seq<ExprView>, ParserScopeView, ParserView),
                    ResolveError,
                >((views_of(resolved@), parser_scope@, self@)),
        {
            let ghost done = all.take(it.index() as int);
            let ghost next = all.take(it.index() + 1);
            proof {
                assert(next.drop_last() == done);
                assert(next.last() == expression);
                lemma_resolve_exprs_fails_on(all, it.index() + 1, scope_before, parser_before);
            }
            match self.parse_expression(expression, parser_scope) {
                Ok(expression) => {
                    proof {
                        lemma_views_of_push(resolved@, expression);
                    }
                    resolved.push(expression);
                },
                Err(e) => {
                    assert(resolve_exprs(next, scope_before, parser_before) == Err::<
                        (Seq<ExprView>, ParserScopeView, ParserView),
                        ResolveError,
                    >(e));
                    return Err(e);
                },
            }
        }
        assert(all.take(all.len() as int) == all);
        Ok(resolved)
    }

    /// Resolves one expression found in the scope `parser_scope`.
    pub fn parse_expression(
        &mut self,
        expression: syntax_tree::Expr,
        parser_scope: &mut ParserScope<'_>,
    ) -> (resolved: Result<execution_tree::Expr, ResolveError>)
        ensures
            resolved_as(
                viewed(resolved),
                final(parser_scope)@,
                final(self)@,
                resolve_expr(expression, old(parser_scope)@, old(self)@),
            ),
        decreases expression, 0int,
    {
        let inner = expression.into_inner();
        assert(expression == syntax_tree::expr_of(inner));
        match inner {
            syntax_tree::ExprInner::Scope(scope) => {
                let ghost scope_before = parser_scope@;
                let mut child = match parser_scope.make_child_common(&mut self.ids) {
                    Ok(child) => child,
                    Err(e) => { return Err(e); },
                };
                match self.parse_ast_scope(scope, &mut child) {
                    Ok(scope) => Ok(execution_tree::Expr::new_scope(scope)),
                    Err(e) => Err(e),
                }
            },
            syntax_tree::ExprInner::Literal(literal) => {
                let literal = self.parse_literal(literal);
                Ok(execution_tree::Expr::new_literal(literal))
            },
            syntax_tree::ExprInner::VarDef(variable_definition) => {
                match self.parse_variable_definition(variable_definition, parser_scope) {
                    Ok(resolved) => Ok(execution_tree::Expr::new_variable_definition(resolved)),
                    Err(e) => Err(e),
                }
            },
            syntax_tree::ExprInner::VarAssign(variable_assignment) => {
                match self.parse_variable_assignment(variable_assignment, parser_scope) {
                    Ok(resolved) => Ok(execution_tree::Expr::new_variable_assignment(resolved)),
                    Err(e) => Err(e),
                }
            },
            syntax_tree::ExprInner::VarCall(variable_call) => {
                match self.parse_variable_call(variable_call, parser_scope) {
                    Ok(resolved) => Ok(execution_tree::Expr::new_variable_call(resolved)),
                    Err(e) => Err(e),
                }
            },
            syntax_tree::ExprInner::FnDef(function_definition) => {
                match self.parse_function_definition(function_definition, parser_scope) {
                    Ok(resolved) => Ok(execution_tree::Expr::new_function_definition(resolved)),
                    Err(e) => Err(e),
                }
            },
            syntax_tree::ExprInner::FnCall(function_call) => {
                match self.parse_function_call(function_call, parser_scope) {
                    Ok(resolved) => Ok(execution_tree::Expr::new_function_call(resolved)),
                    Err(e) => Err(e),
                }
            },
            syntax_tree::ExprInner::FnRet(function_return) => {
                match self.parse_function_return(function_return, parser_scope) {
                    Ok(resolved) => Ok(execution_tree::Expr::new_function_return(resolved)),
                    Err(e) => Err(e),
                }
            },
            syntax_tree::ExprInner::Loop(loop_) => {
                match self.parse_loop(loop_, parser_scope) {
                    Ok(resolved) => Ok(execution_tree::Expr::new_loop(resolved)),
                    Err(e) => Err(e),
                }
            },
            syntax_tree::ExprInner::LoopBr(loop_break) => {
                match self.parse_loop_break(loop_break, parser_scope) {
                    Ok(resolved) => Ok(execution_tree::Expr::new_loop_break(resolved)),
                    Err(e) => Err(e),
                }
            },
            syntax_tree::ExprInner::Cond(condition) => {
                match self.parse_condition(condition, parser_scope) {
                    Ok(resolved) => Ok(execution_tree::Expr::new_condition(resolved)),
                    Err(e) => Err(e),
                }
            },
        }
    }

    /// A literal resolves to itself.
    pub fn parse_literal(&mut self, literal: syntax_tree::Literal) -> (resolved:
        execution_tree::Literal)
        ensures
            resolved.0 == literal.0,
            *final(self) == *old(self),
    {
        let syntax_tree::Literal(value) = literal;
        execution_tree::Literal(value)
    }

    /// Resolves the value, then declares the name in `parser_scope` under a
    /// fresh identifier. The value cannot see the name it is given.
    pub fn parse_variable_definition(
        &mut self,
        variable_definition: syntax_tree::VarDef,
        parser_scope: &mut ParserScope<'_>,
    ) -> (resolved: Result<execution_tree::VarDef, ResolveError>)
        ensures
            resolved_as(
                viewed(
                    match resolved {
                        Ok(d) => Ok(execution_tree::expr_of(execution_tree::ExprInner::VarDef(d))),
                        Err(e) => Err(e),
                    },
                ),
                final(parser_scope)@,
                final(self)@,
                resolve_expr(
                    syntax_tree::expr_of(syntax_tree::ExprInner::VarDef(variable_definition)),
                    old(parser_scope)@,
                    old(self)@,
                ),
            ),
        decreases variable_definition, 0int,
    {
        let syntax_tree::VarDef { name, value } = variable_definition;
        let value = match self.parse_expression(value, parser_scope) {
            Ok(value) => value,
            Err(e) => { return Err(e); },
        };
        let variable_id = match parser_scope.add_name(name, &mut self.ids) {
            Ok(id) => id,
            Err(e) => { return Err(e); },
        };
        Ok(execution_tree::VarDef { value, variable_id })
    }

    /// Resolves the value, then the name, which some enclosing scope must
    /// declare.
    pub fn parse_variable_assignment(
        &mut self,
        variable_assignment: syntax_tree::VarAssign,
        parser_scope: &mut ParserScope<'_>,
    ) -> (resolved: Result<execution_tree::VarAssign, ResolveError>)
        ensures
            resolved_as(
                viewed(
                    match resolved {
                        Ok(a) => Ok(
                            execution_tree::expr_of(execution_tree::ExprInner::VarAssign(a)),
                        ),
                        Err(e) => Err(e),
                    },
                ),
                final(parser_scope)@,
                final(self)@,
                resolve_expr(
                    syntax_tree::expr_of(syntax_tree::ExprInner::VarAssign(variable_assignment)),
                    old(parser_scope)@,
                    old(self)@,
                ),
            ),
        decreases variable_assignment, 0int,
    {
        let syntax_tree::VarAssign { name, value } = variable_assignment;
        let value = match self.parse_expression(value, parser_scope) {
            Ok(value) => value,
            Err(e) => { return Err(e); },
        };
        match parser_scope.get_variable_id(name.as_str()) {
            Some(variable_id) => Ok(execution_tree::VarAssign { value, variable_id }),
            None => Err(ResolveError::UndefinedVariable(name)),
        }
    }

    /// Resolves the name of a variable that is read.
    pub fn parse_variable_call(
        &mut self,
        variable_call: syntax_tree::VarCall,
        parser_scope: &mut ParserScope<'_>,
    ) -> (resolved: Result<execution_tree::VarCall, ResolveError>)
        ensures
            resolved_as(
                viewed(
                    match resolved {
                        Ok(c) => Ok(execution_tree::expr_of(execution_tree::ExprInner::VarCall(c))),
                        Err(e) => Err(e),
                    },
                ),
                final(parser_scope)@,
                final(self)@,
                resolve_expr(
                    syntax_tree::expr_of(syntax_tree::ExprInner::VarCall(variable_call)),
                    old(parser_scope)@,
                    old(self)@,
                ),
            ),
    {
        let syntax_tree::VarCall { name } = variable_call;
        match parser_scope.get_variable_id(name.as_str()) {
            Some(variable_id) => Ok(execution_tree::VarCall { variable_id }),
            None => Err(ResolveError::UndefinedVariable(name)),
        }
    }

    /// Opens the scope of the function's body, declares the parameters in it
    /// in order, and resolves the body there.
    #[verifier::loop_isolation(false)]
    pub fn parse_function_definition(
        &mut self,
        function_definition: syntax_tree::FnDef,
        parser_scope: &mut ParserScope<'_>,
    ) -> (resolved: Result<execution_tree::FnDef, ResolveError>)
        ensures
            resolved_as(
                viewed(
                    match resolved {
                        Ok(d) => Ok(execution_tree::expr_of(execution_tree::ExprInner::FnDef(d))),
                        Err(e) => Err(e),
                    },
                ),
                final(parser_scope)@,
                final(self)@,
                resolve_expr(
                    syntax_tree::expr_of(syntax_tree::ExprInner::FnDef(function_definition)),
                    old(parser_scope)@,
                    old(self)@,
                ),
            ),
        decreases function_definition, 0int,
    {
        let syntax_tree::FnDef { body, parameter_names } = function_definition;

        let mut child = match parser_scope.make_child_function(&mut self.ids) {
            Ok(child) => child,
            Err(e) => { return Err(e); },
        };
        let ghost names = parameter_names@;
        let ghost child_before = child@;
        let ghost parser_before = self@;
        let mut parameter_ids: Vec<Id> = Vec::new();
        assert(names.take(0) == Seq::<String>::empty());
        for name in it: parameter_names
            invariant
                it.seq() == names,
                self@.scopes == parser_before.scopes,
                declare_all(names.take(it.index() as int), child_before, parser_before) == Ok::<
                    (Seq<Id>, ParserScopeView, ParserView),
                    ResolveError,
                >((parameter_ids@, child@, self@)),
        {
            let ghost next = names.take(it.index() + 1);
            proof {
                assert(next.drop_last() == names.take(it.index() as int));
                assert(next.last() == name);
                lemma_declare_all_fails_on(names, it.index() + 1, child_before, parser_before);
            }
            match child.add_name(name, &mut self.ids) {
                Ok(id) => { parameter_ids.push(id); },
                Err(e) => {
                    assert(declare_all(next, child_before, parser_before) == Err::<
                        (Seq<Id>, ParserScopeView, ParserView),
                        ResolveError,
                    >(e));
                    return Err(e);
                },
            }
        }
        assert(names.take(names.len() as int) == names);
        proof {
            lemma_declare_all_grows(names, child_before, parser_before);
        }
        match self.parse_ast_scope(body, &mut child) {
            Ok(body_scope_id) => Ok(execution_tree::FnDef { body_scope_id, parameter_ids }),
            Err(e) => Err(e),
        }
    }

    /// Resolves the name of the function, then the arguments in order.
    pub fn parse_function_call(
        &mut self,
        function_call: syntax_tree::FnCall,
        parser_scope: &mut ParserScope<'_>,
    ) -> (resolved: Result<execution_tree::FnCall, ResolveError>)
        ensures
            resolved_as(
                viewed(
                    match resolved {
                        Ok(c) => Ok(execution_tree::expr_of(execution_tree::ExprInner::FnCall(c))),
                        Err(e) => Err(e),
                    },
                ),
                final(parser_scope)@,
                final(self)@,
                resolve_expr(
                    syntax_tree::expr_of(syntax_tree::ExprInner::FnCall(function_call)),
                    old(parser_scope)@,
                    old(self)@,
                ),
            ),
        decreases function_call, 0int,
    {
        let syntax_tree::FnCall { name, arguments } = function_call;

        let variable_id = match parser_scope.get_variable_id(name.as_str()) {
            Some(id) => id,
            None => { return Err(ResolveError::UndefinedFunction(name)); },
        };
        match self.parse_expressions(arguments, parser_scope) {
            Ok(parameters) => Ok(execution_tree::FnCall { arguments: parameters, variable_id }),
            Err(e) => Err(e),
        }
    }

    /// Resolves the returned value, then the function that the `return`
    /// leaves: the innermost function body around it.
    pub fn parse_function_return(
        &mut self,
        function_return: syntax_tree::FnRet,
        parser_scope: &mut ParserScope<'_>,
    ) -> (resolved: Result<execution_tree::FnRet, ResolveError>)
        ensures
            resolved_as(
                viewed(
                    match resolved {
                        Ok(r) => Ok(execution_tree::expr_of(execution_tree::ExprInner::FnRet(r))),
                        Err(e) => Err(e),
                    },
                ),
                final(parser_scope)@,
                final(self)@,
                resolve_expr(
                    syntax_tree::expr_of(syntax_tree::ExprInner::FnRet(function_return)),
                    old(parser_scope)@,
                    old(self)@,
                ),
            ),
        decreases function_return, 0int,
    {
        let syntax_tree::FnRet { value } = function_return;

        let value = match self.parse_expression(value, parser_scope) {
            Ok(value) => value,
            Err(e) => { return Err(e); },
        };
        match parser_scope.get_current_function_id() {
            Some(function_scope_id) => Ok(execution_tree::FnRet { value, function_scope_id }),
            None => Err(ResolveError::ReturnOutsideFunction),
        }
    }

    /// Opens the scope of the loop's body and resolves the body there.
    pub fn parse_loop(&mut self, loop_: syntax_tree::Loop, parser_scope: &mut ParserScope<'_>) -> (resolved:
        Result<execution_tree::Loop, ResolveError>)
        ensures
            resolved_as(
                viewed(
                    match resolved {
                        Ok(l) => Ok(execution_tree::expr_of(execution_tree::ExprInner::Loop(l))),
                        Err(e) => Err(e),
                    },
                ),
                final(parser_scope)@,
                final(self)@,
                resolve_expr(
                    syntax_tree::expr_of(syntax_tree::ExprInner::Loop(loop_)),
                    old(parser_scope)@,
                    old(self)@,
                ),
            ),
        decreases loop_, 0int,
    {
        let syntax_tree::Loop { body } = loop_;

        let mut child = match parser_scope.make_child_loop(&mut self.ids) {
            Ok(child) => child,
            Err(e) => { return Err(e); },
        };
        match self.parse_ast_scope(body, &mut child) {
            Ok(body_scope_id) => Ok(execution_tree::Loop { body_scope_id }),
            Err(e) => Err(e),
        }
    }

    /// Resolves the value that the loop yields, then the loop that the
    /// `break` leaves: the innermost loop body around it in its function.
    pub fn parse_loop_break(
        &mut self,
        loop_break: syntax_tree::LoopBr,
        parser_scope: &mut ParserScope<'_>,
    ) -> (resolved: Result<execution_tree::LoopBr, ResolveError>)
        ensures
            resolved_as(
                viewed(
                    match resolved {
                        Ok(b) => Ok(execution_tree::expr_of(execution_tree::ExprInner::LoopBr(b))),
                        Err(e) => Err(e),
                    },
                ),
                final(parser_scope)@,
                final(self)@,
                resolve_expr(
                    syntax_tree::expr_of(syntax_tree::ExprInner::LoopBr(loop_break)),
                    old(parser_scope)@,
                    old(self)@,
                ),
            ),
        decreases loop_break, 0int,
    {
        let syntax_tree::LoopBr { value } = loop_break;

        let value = match self.parse_expression(value, parser_scope) {
            Ok(value) => value,
            Err(e) => { return Err(e); },
        };
        match parser_scope.get_current_loop_id() {
            Some(loop_scope_id) => Ok(execution_tree::LoopBr { value, loop_scope_id }),
            None => Err(ResolveError::BreakOutsideLoop),
        }
    }

    /// Resolves the condition, the arm taken when it holds, and the other arm
    /// if there is one, in this order.
    pub fn parse_condition(
        &mut self,
        condition: syntax_tree::Cond,
        parser_scope: &mut ParserScope<'_>,
    ) -> (resolved: Result<execution_tree::Cond, ResolveError>)
        ensures
            resolved_as(
                viewed(
                    match resolved {
                        Ok(c) => Ok(execution_tree::expr_of(execution_tree::ExprInner::Cond(c))),
                        Err(e) => Err(e),
                    },
                ),
                final(parser_scope)@,
                final(self)@,
                resolve_expr(
                    syntax_tree::expr_of(syntax_tree::ExprInner::Cond(condition)),
                    old(parser_scope)@,
                    old(self)@,
                ),
            ),
        decreases condition, 0int,
    {
        let syntax_tree::Cond { condition, arm_true, arm_false } = condition;

        let condition = match self.parse_expression(condition, parser_scope) {
            Ok(resolved) => resolved,
            Err(e) => { return Err(e); },
        };
        let arm_true = match self.parse_expression(arm_true, parser_scope) {
            Ok(resolved) => resolved,
            Err(e) => { return Err(e); },
        };
        let arm_false = match arm_false {
            Some(arm_false) => match self.parse_expression(arm_false, parser_scope) {
                Ok(resolved) => Some(resolved),
                Err(e) => { return Err(e); },
            },
            None => None,
        };
        Ok(execution_tree::Cond { condition, arm_true, arm_false })
    }
}

/// A failure in a prefix of a run of names is the failure of the whole run.
pub proof fn lemma_declare_all_fails_on(
    names: Seq<String>,
    n: int,
    scope: ParserScopeView,
    parser: ParserView,
)
    requires
        0 <= n <= names.len(),
    ensures
        declare_all(names.take(n), scope, parser) matches Err(e) ==> declare_all(
            names,
            scope,
            parser,
        ) == Err::<(Seq<Id>, ParserScopeView, ParserView), ResolveError>(e),
    decreases names.len() - n,
{
    if n < names.len() {
        assert(names.take(n + 1).drop_last() == names.take(n));
        lemma_declare_all_fails_on(names, n + 1, scope, parser);
    } else {
        assert(names.take(n) == names);
    }
}

/// A failure in a prefix of a run of expressions is the failure of the whole
/// run.
pub proof fn lemma_resolve_exprs_fails_on(
    expressions: Seq<syntax_tree::Expr>,
    n: int,
    scope: ParserScopeView,
    parser: ParserView,
)
    requires
        0 <= n <= expressions.len(),
    ensures
        resolve_exprs(expressions.take(n), scope, parser) matches Err(e) ==> resolve_exprs(
            expressions,
            scope,
            parser,
        ) == Err::<(Seq<ExprView>, ParserScopeView, ParserView), ResolveError>(e),
    decreases expressions.len() - n,
{
    if n < expressions.len() {
        assert(expressions.take(n + 1).drop_last() == expressions.take(n));
        lemma_resolve_exprs_fails_on(expressions, n + 1, scope, parser);
    } else {
        assert(expressions.take(n) == expressions);
    }
}

} // verus!
