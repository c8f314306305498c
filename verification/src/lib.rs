//! Lumber: a logic programming language, its module system and its unification engine.
//!
//! - [`atom`], [`scope`], [`arity`], [`handle`]: the names of things in a program.
//! - [`identifier`], [`variable`], [`literal`], [`pattern`]: the patterns that rules are
//!   made of.
//! - [`binding`], [`unify`], [`apply`], [`unify_laws`]: bindings of variables, unification
//!   of patterns under a binding, and what unification promises.
//! - [`matching`]: unifying a template with a complete value, and what both sides apply to.
//! - [`joining`]: unifying two templates with no variable in common, and what both sides
//!   apply to.
//! - [`handle_set`], [`module_header`], [`resolution`], [`header_errors`], [`context`]: the
//!   module system: what each module declares, how a handle is resolved, and the checks made
//!   while a program is compiled.
//! - [`database`]: the definitions of a compiled program, keyed by handle.
//! - [`module`]: compiling the directives and clauses of a module.
//! - [`evaluate`]: the answers of queries, bodies and terms under the rules of a program.
//! - [`limits`]: asking for fewer answers gives the first of those a greater ask gives.
//! - [`operation`]: the term that operands joined by infix operators stand for.
//! - [`text`]: the textual form of patterns.
//! - [`value`]: the values of the host and the patterns they stand for.
pub mod atom;
pub mod scope;
pub mod arity;
pub mod handle;
pub mod identifier;
pub mod variable;
pub mod literal;
pub mod pattern;
pub mod binding;
pub mod unify;
pub mod apply;
pub mod unify_laws;
pub mod matching;
pub mod joining;
pub mod handle_set;
pub mod module_header;
pub mod resolution;
pub mod header_errors;
pub mod context;
pub mod database;
pub mod evaluate;
pub mod limits;
pub mod module;
pub mod operation;
pub mod text;
pub mod value;
