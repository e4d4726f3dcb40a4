//! A front end for a small indentation-sensitive expression language.
//!
//! Source text passes through two stages. [`sprinkle_blocks`] turns changes of
//! indentation into explicit `{` and `}` delimiters, and [`parse_program`]
//! reads delimiter-annotated text into a sequence of [`Expr`] trees or reports
//! where the text stops being a program.
//!
//! Both stages classify every character once (white space, alphanumeric) and
//! then work on the classified [`Cell`]s alone, so each has an entry point on
//! text and one on cells.
pub mod ast;
pub mod glyph;
pub mod grammar;
pub mod grammar_laws;
pub mod layout;
pub mod layout_laws;
pub mod parser;
pub mod token;

pub use ast::Expr;
pub use glyph::{classify, Cell};
pub use layout::{delimit, sprinkle_blocks};
pub use parser::{parse_cells, parse_program, SyntaxError, NESTING_LIMIT};
pub use token::{Token, TokenSet};
