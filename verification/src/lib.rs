//! A front end for rule books written in a constrained, English-like
//! language: type declarations, and provisions that resolve a value from
//! typed parameters.
//!
//! [`program::parse_program`] turns a text into a resolved rule book, or
//! into a structured error. The grammar is defined in [`grammar`] over the
//! tokens of [`lexer`], the resolution pass in [`resolution`]; the parsers in
//! [`types`], [`values`], [`provisions`] and [`program`] and the pass in
//! [`resolve`] are proved to compute exactly what these define. [`laws`],
//! [`wellformed`], [`bare`], [`resolved`] and [`complete`] hold what is proved
//! of the grammar and of resolution.
//!
//! Two small companions share the crate: [`relay`], the computing parts of a
//! message relay, and [`sink`], a fan-out collection of writers.

pub mod ast;
pub mod bare;
pub mod complete;
pub mod copy;
pub mod error;
pub mod grammar;
pub mod laws;
pub mod lexer;
pub mod offsets;
pub mod program;
pub mod provisions;
pub mod query;
pub mod relay;
pub mod resolution;
pub mod resolve;
pub mod resolved;
pub mod sink;
pub mod types;
pub mod values;
pub mod wellformed;
