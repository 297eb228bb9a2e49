//! From the text of a query to its tree in one step.

use vstd::prelude::*;
use crate::bang::Bang;
use crate::error::Result;
use crate::lexer::{lex, lex_query};
use crate::parser::{outcome, parse, parse_token_stream};
use crate::token::TokenCursor;

verus! {

/// Lexes and parses `query`.
pub fn parse_query(query: &str) -> (result: Result<Bang>)
    ensures
        outcome(result) == parse(lex(query@)).result,
{
    let tokens = lex_query(query);
    let mut cursor = TokenCursor::new(tokens.as_slice());
    assert(cursor.remaining() =~= lex(query@));
    parse_token_stream(&mut cursor)
}

} // verus!
