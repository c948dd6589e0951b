//! Analysis of a tree-structured project for `require`-style module
//! dependencies.
//!
//! The library walks a project tree of named, typed nodes, extracts
//! `require(...)` calls from each module's parsed source, resolves their
//! argument paths against the tree, and assembles the edges into a
//! dependency map that can be presented as a depth-bounded tree or as a
//! flat node/edge graph.

pub mod ast;
pub mod ast_parse;
pub mod builder;
pub mod function_parse;
pub mod require_map;
pub mod sourcemap;
pub mod structurize;
pub mod util;
