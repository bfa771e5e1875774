//! A small interpreted language, from text to value.
//!
//! The text of a program is parsed into a syntax tree ([`syntax_tree`]), which
//! speaks of variables and functions by name. The syntax tree is resolved into
//! an execution tree ([`execution_tree`]), in which every name has become a
//! unique identifier and every `return` and `break` carries the scope that it
//! unwinds to. The execution tree is evaluated directly by a tree-walking
//! [`runtime`], which keeps a stack of frames and hands the calls of native
//! functions to a host. The [`prelude`] names the native functions of the
//! reference registry; a [`value`] is what a program computes with.
//!
//! Each stage is proved against a description of what it means: the grammar
//! ([`syntax_tree::grammar`]), resolution ([`execution_tree::resolution`]) and
//! evaluation ([`runtime::semantics`]). What holds of every resolved program
//! and of every evaluation is proved beside them.

pub mod execution_tree;
pub mod prelude;
pub mod runtime;
pub mod syntax_tree;
pub mod value;
