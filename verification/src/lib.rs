//! A structural index and refactoring engine for a tree of Python source
//! files organized as a dotted-name module hierarchy.
//!
//! The crate models the project's files as an explicit value ([`fs_model`]);
//! the caller that owns the real disk loads that value, hands it to the
//! operations here, and applies the changed value back. On top of it the
//! crate extracts symbol tables from parsed source files ([`py_ast`],
//! [`ast`], [`python_def`]), composes them into a navigable module tree
//! that it can build, query, print and relocate ([`module_manager`]),
//! rewriting dotted-name references project-wide on a move ([`text`]), and
//! exposes the four operations of the tool ([`command_options`]).

pub mod ast;
pub mod command_options;
pub mod error;
pub mod fs_model;
pub mod module_manager;
pub mod py_ast;
pub mod python_def;
pub mod text;
