//! A compiler for a small stack-oriented concatenative language in the
//! Forth family.  Source text is parsed to an abstract syntax tree, the
//! tree is lowered to a low-level intermediate representation of basic
//! blocks, and the generated module can be executed against a model of
//! the runtime that owns the data stack, return stack and variable memory.

use vstd::prelude::*;

pub mod ast;
pub mod ir;
pub mod names;
pub mod lower;
pub mod parser;
pub mod prelude;
pub mod compiler;
pub mod fmt;
pub mod props;
pub mod run;


