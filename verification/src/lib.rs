//! Lexical front end for a small programming language: a character-level
//! scanner that turns source text into classified, located tokens, expands
//! user-declared text macros inline, and keeps precise source locations for
//! diagnostics. The scanner's behaviour is specified by a mathematical step
//! model (`model`) and every scanning routine is proved to follow it.
//! Around it stand the small pieces of the syntax layer that need no
//! grammar engine: identifiers, spans, the type-name registry, and their
//! errors.

pub mod chars;
pub mod context;
pub mod err;
pub mod expr_operator;
pub mod function_parameter;
pub mod ident;
pub mod lexer;
pub mod model;
pub mod parse_error;
pub mod pos;
pub mod span;
pub mod tok;
