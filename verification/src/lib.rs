//! A verified lexical scanner for the Lox language.
//!
//! The scanner turns a complete source text into an ordered sequence of
//! classified tokens, always terminated by exactly one end-of-input token.
//! Lexical errors are recorded through an error sink and never abort a scan.
//!
//! The behaviour of the executable scanner is pinned, token for token, to a
//! specification-level scanner over character sequences (`model::scan_spec`);
//! general laws about that specification are proved in `laws`.

pub mod laws;
pub mod lox;
pub mod model;
pub mod scanner;
pub mod token;

pub use lox::LexError;
pub use lox::Lox;
pub use scanner::Scanner;
pub use token::Literal;
pub use token::Token;
pub use token::TokenType;
