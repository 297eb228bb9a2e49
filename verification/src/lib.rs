//! A small filter query language for selecting audio tracks.
//!
//! A query is text such as `!t{blue} & !!{!f{flac} | !brgt{256}}`. Each
//! predicate starts with `!` and a mnemonic and, where it holds a value, has
//! the value's text between `{` and `}`. `&` and `|` join predicates; chains
//! associate to the right, and `!!{ .. }` groups a sub-query. `*` matches
//! every track.
//!
//! [`lexer::lex_query`] turns the text into [`Token`]s, and
//! [`parser::parse_token_stream`] turns the tokens into a [`Bang`] tree or
//! an [`Error`]; [`query::parse_query`] does both. What the two compute is
//! stated by the functions [`lexer::lex`] and [`parser::parse`]; [`laws`]
//! and [`form`] hold what is proved of them.

pub mod argument;
pub mod bang;
pub mod error;
pub mod form;
pub mod laws;
pub mod lexer;
pub mod mnemonic;
pub mod number;
pub mod parser;
pub mod query;
pub mod text;
pub mod token;
pub mod track;

pub use bang::Bang;
pub use error::Error;
pub use token::Token;
pub use track::TrackFileType;
