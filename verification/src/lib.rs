//! Parsing and expansion of einsum expressions.
pub mod tokens;
pub mod outside;
pub mod text;
pub mod grammar;
pub mod parse;
pub mod expand_spec;
pub mod expand;
pub mod laws;
pub mod scope;
pub mod free;
pub mod form;
