//! The front end of the RK compiler.
//!
//! A [`Lexer`] turns source text into tokens, each with the line it stands
//! on. A [`Parser`] walks the tokens, makes a syntax node of every numeric
//! literal, translates the node into a value of the code-generation backend
//! and says what the backend is to dump. The backend itself is not part of
//! this crate: the parser hands out requests, and the caller carries them
//! out.

pub mod ast;
pub mod chars;
pub mod lexer;
pub mod numeral;
pub mod parser;
pub mod token;

pub use ast::{AstNode, NativeValue};
pub use lexer::Lexer;
pub use numeral::Numeral;
pub use parser::{Dump, Parser, Reason, Warning};
pub use token::{Token, TokenType};
