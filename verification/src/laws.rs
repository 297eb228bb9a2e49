//! What holds of parsing for every sequence of tokens.

use vstd::prelude::*;
use crate::bang::BangView;
use crate::error::ErrorView;
use crate::lexer::{lemma_lex_from_ends_once, lex};
use crate::mnemonic::{lemma_resolve_unknown, resolve, BangTypeView};
use crate::number::decimal;
use crate::parser::{
    coerce, done, fail, lemma_balance_length_bound, parse, parse_grouping, parse_predicate,
    starts_with_argument, takes_argument,
};
use crate::token::TokenView;

verus! {

/// The match-all literal parses to the tree that matches every track,
/// whatever follows it, and nothing behind it is read.
pub proof fn lemma_match_all(tokens: Seq<TokenView>)
    requires
        tokens.len() > 0,
        tokens[0] == TokenView::MatchAll,
    ensures
        parse(tokens) == done(BangView::All, 1),
{
}

/// A mnemonic that the language does not have is reported as an unknown bang
/// with its text, whatever follows it.
pub proof fn lemma_unknown_mnemonic(tokens: Seq<TokenView>, text: Seq<char>)
    requires
        tokens.len() >= 2,
        tokens[0] == TokenView::BangPrefix,
        tokens[1] == TokenView::BangIdentifier(text),
        resolve(text) is Unknown,
    ensures
        parse(tokens) == fail(ErrorView::ParserUnknownBang(text), 2),
{
    reveal(parse_predicate);
    lemma_resolve_unknown(text);
}

/// An argument whose text does not read as its predicate's value is reported
/// as invalid input with that text, whatever follows it.
pub proof fn lemma_invalid_input(tokens: Seq<TokenView>, mnemonic: Seq<char>, text: Seq<char>)
    requires
        tokens.len() >= 5,
        tokens[0] == TokenView::BangPrefix,
        tokens[1] == TokenView::BangIdentifier(mnemonic),
        tokens[2] == TokenView::ArgumentBegin,
        tokens[3] == TokenView::Argument(text),
        tokens[4] == TokenView::ArgumentEnd,
        takes_argument(resolve(mnemonic)),
        coerce(resolve(mnemonic), text) is None,
    ensures
        parse(tokens) == fail(ErrorView::ParserInvalidInput(text), 5),
{
    reveal(parse_predicate);
    let behind = tokens.skip(2);
    assert(behind[0] == tokens[2]);
    assert(behind[1] == tokens[3]);
    assert(behind[2] == tokens[4]);
    assert(starts_with_argument(behind));
}

/// Whether `kind` is one of the six numeric bounds.
pub open spec fn is_numeric(kind: BangTypeView) -> bool {
    match kind {
        BangTypeView::BitrateLessThan
        | BangTypeView::BitrateGreaterThan
        | BangTypeView::CoverArtWidthLessThan
        | BangTypeView::CoverArtWidthGreaterThan
        | BangTypeView::CoverArtHeightLessThan
        | BangTypeView::CoverArtHeightGreaterThan => true,
        _ => false,
    }
}

/// A numeric bound whose argument is no signed decimal number within 64 bits
/// is reported as invalid input with the argument's text, whatever follows
/// it.
pub proof fn lemma_invalid_number(tokens: Seq<TokenView>, mnemonic: Seq<char>, text: Seq<char>)
    requires
        tokens.len() >= 5,
        tokens[0] == TokenView::BangPrefix,
        tokens[1] == TokenView::BangIdentifier(mnemonic),
        tokens[2] == TokenView::ArgumentBegin,
        tokens[3] == TokenView::Argument(text),
        tokens[4] == TokenView::ArgumentEnd,
        is_numeric(resolve(mnemonic)),
        decimal(text) is None,
    ensures
        parse(tokens) == fail(ErrorView::ParserInvalidInput(text), 5),
{
    lemma_invalid_input(tokens, mnemonic, text);
}

/// Parsing never reads past the tokens, and where it succeeds, the last token
/// that it reads is `InputEnd`, or a match-all literal, behind which nothing
/// is read.
pub proof fn lemma_parse_stops(tokens: Seq<TokenView>)
    ensures
        parse(tokens).consumed <= tokens.len(),
        parse(tokens).result is Ok ==> parse(tokens).consumed >= 1 && (tokens[parse(
            tokens,
        ).consumed - 1] == TokenView::InputEnd || tokens[parse(tokens).consumed - 1]
            == TokenView::MatchAll),
    decreases tokens.len(),
{
    reveal(parse_predicate);
    if tokens.len() >= 2 && tokens[0] == TokenView::BangPrefix && tokens[1] is BangIdentifier {
        let kind = resolve(tokens[1]->BangIdentifier_0);
        let behind = tokens.skip(2);
        let lhs = if kind is Grouping {
            parse_grouping(behind)
        } else {
            parse_predicate(kind, behind)
        };
        assert(lhs.consumed <= behind.len()) by {
            if kind is Grouping && behind.len() > 0 {
                lemma_balance_length_bound(behind.skip(1), 1);
            }
        }
        if let Ok(bang) = lhs.result {
            let at = 2 + lhs.consumed;
            if at < tokens.len() {
                if let TokenView::LogicalOperator(operator) = tokens[at as int] {
                    if operator == '|' || operator == '&' {
                        let rest = tokens.skip(at as int + 1);
                        lemma_parse_stops(rest);
                        let rhs = parse(rest);
                        if rhs.result is Ok {
                            assert(rest[rhs.consumed - 1] == tokens[at as int + rhs.consumed]);
                        }
                    }
                }
            }
        }
    }
}

/// A query that parses is read to its end: through the `InputEnd` that ends
/// its tokens, with no token left over, unless parsing stopped at a match-all
/// literal.
pub proof fn lemma_query_read_to_end(query: Seq<char>)
    ensures
        parse(lex(query)).result is Ok ==> parse(lex(query)).consumed == lex(query).len() || lex(
            query,
        )[parse(lex(query)).consumed - 1] == TokenView::MatchAll,
{
    lemma_lex_from_ends_once(query, 0);
    lemma_parse_stops(lex(query));
}

} // verus!
