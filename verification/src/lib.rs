//! A tree-walking interpreter for a small dynamically typed, lexically scoped,
//! class-based scripting language.
//!
//! Source text passes through four stages: the scanner turns characters into
//! tokens, the parser turns tokens into a syntax tree, the resolver writes
//! into each variable use the number of environments to walk at run time,
//! and the interpreter evaluates the tree.
//!
//! The interpreter is a machine that is driven one transition at a time.
//! Whatever lies outside the library it asks of its host: to print, to read
//! the wall clock, and to compute on doubles, which the library holds as
//! their bits and never rounds itself. A transition returns an
//! [`interpreter::Action`], and the next one takes the host's answer as a
//! [`machine::Event`].
//!
//! What each stage computes is stated as a function on mathematical values
//! ([`scanner::scan_tokens_model`], [`grammar::parse_program`],
//! [`resolver::resolve_stmts_model`], [`machine::step_model`]), and the
//! executable code is proved to compute it. On top of that stand the laws of
//! the language: what the machine's transitions guarantee ([`machine`]),
//! that the heap only grows ([`growth`]), and that the resolver's slots lead
//! the interpreter to the right frames ([`scoping`], [`soundness`],
//! [`shape`]).
pub mod callable;
pub mod env;
pub mod error;
pub mod expr;
pub mod grammar;
pub mod growth;
pub mod heap;
pub mod interpreter;
pub mod lox_class;
pub mod lox_function;
pub mod lox_instance;
pub mod lox_value;
pub mod machine;
pub mod native_fn;
pub mod number;
pub mod parser;
pub mod resolver;
pub mod scanner;
pub mod scoping;
pub mod shape;
pub mod sharing;
pub mod soundness;
pub mod stmt;
pub mod table;
pub mod text;
pub mod token;
