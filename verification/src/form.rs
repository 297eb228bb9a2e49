//! The tokens that write a tree, and the trees that parse back from them.

use vstd::prelude::*;
use crate::bang::BangView;
use crate::error::ErrorView;
use crate::lexer::{
    closed, is_special, lemma_argument_end_of, lemma_closed_without_braces,
    lemma_mnemonic_end_of, lemma_occurs_split, lex, lex_from, occurs,
};
use crate::mnemonic::{
    lemma_mnemonic_alphanumeric, lemma_resolve_mnemonic, mnemonic, BangTypeView,
};
use crate::number::{decimal_text, lemma_decimal_text, lemma_decimal_text_plain};
use crate::parser::{
    balance_length, coerce, depth_behind, group_tokens, join, parse, parse_chain,
    parse_grouping, parse_predicate, shifted, starts_with_argument, takes_argument,
};
use crate::text::is_alphanumeric;
use crate::token::TokenView;

verus! {

/// The kind of a predicate that holds a value, and the text that writes the
/// value. `None` for every other tree.
pub open spec fn written(bang: BangView) -> Option<(BangTypeView, Seq<char>)> {
    match bang {
        BangView::TitleSearch(text) => Some((BangTypeView::TitleSearch, text)),
        BangView::TitleSearchExact(text) => Some((BangTypeView::TitleSearchExact, text)),
        BangView::FullTextSearch(text) => Some((BangTypeView::FullTextSearch, text)),
        BangView::FullTextSearchExact(text) => Some((BangTypeView::FullTextSearchExact, text)),
        BangView::AlbumTitle(text) => Some((BangTypeView::AlbumTitle, text)),
        BangView::AlbumTitleExact(text) => Some((BangTypeView::AlbumTitleExact, text)),
        BangView::AlbumArtists(text) => Some((BangTypeView::AlbumArtists, text)),
        BangView::AlbumArtistsExact(text) => Some((BangTypeView::AlbumArtistsExact, text)),
        BangView::Artist(text) => Some((BangTypeView::Artist, text)),
        BangView::ArtistExact(text) => Some((BangTypeView::ArtistExact, text)),
        BangView::Format(format) => Some((BangTypeView::Format, format.text())),
        BangView::BitrateLessThan(bound) => Some(
            (BangTypeView::BitrateLessThan, decimal_text(bound)),
        ),
        BangView::BitrateGreaterThan(bound) => Some(
            (BangTypeView::BitrateGreaterThan, decimal_text(bound)),
        ),
        BangView::CoverArtWidthLessThan(bound) => Some(
            (BangTypeView::CoverArtWidthLessThan, decimal_text(bound)),
        ),
        BangView::CoverArtWidthGreaterThan(bound) => Some(
            (BangTypeView::CoverArtWidthGreaterThan, decimal_text(bound)),
        ),
        BangView::CoverArtHeightLessThan(bound) => Some(
            (BangTypeView::CoverArtHeightLessThan, decimal_text(bound)),
        ),
        BangView::CoverArtHeightGreaterThan(bound) => Some(
            (BangTypeView::CoverArtHeightGreaterThan, decimal_text(bound)),
        ),
        _ => None,
    }
}

/// The tokens of a predicate of kind `kind` with the argument `text`.
pub open spec fn with_argument(kind: BangTypeView, text: Seq<char>) -> Seq<TokenView> {
    seq![
        TokenView::BangPrefix,
        TokenView::BangIdentifier(mnemonic(kind)),
        TokenView::ArgumentBegin,
        TokenView::Argument(text),
        TokenView::ArgumentEnd,
    ]
}

/// The tokens of a predicate of kind `kind` without argument.
pub open spec fn without_argument(kind: BangTypeView) -> Seq<TokenView> {
    seq![TokenView::BangPrefix, TokenView::BangIdentifier(mnemonic(kind))]
}

/// The tokens that write `bang`, without `InputEnd`.
pub open spec fn token_form(bang: BangView) -> Seq<TokenView>
    decreases bang,
{
    match bang {
        BangView::All => seq![TokenView::MatchAll],
        BangView::HasCoverArt => without_argument(BangTypeView::HasCoverArt),
        BangView::HasMusicbrainzId => without_argument(BangTypeView::HasMusicbrainzId),
        BangView::Duplicates => without_argument(BangTypeView::Duplicates),
        BangView::Grouping(inner) => without_argument(BangTypeView::Grouping).push(
            TokenView::ArgumentBegin,
        ) + token_form(*inner) + seq![TokenView::ArgumentEnd],
        BangView::LogicalAnd(lhs, rhs) => token_form(*lhs) + seq![TokenView::LogicalOperator('&')]
            + token_form(*rhs),
        BangView::LogicalOr(lhs, rhs) => token_form(*lhs) + seq![TokenView::LogicalOperator('|')]
            + token_form(*rhs),
        _ => match written(bang) {
            Some((kind, text)) => with_argument(kind, text),
            None => seq![],
        },
    }
}

/// Whether `bang` can stand to the left of an operator: a predicate that
/// holds a value, or a grouping.
pub open spec fn is_unit(bang: BangView) -> bool {
    written(bang) is Some || bang is Grouping
}

/// Whether parsing can yield `bang` from its own tokens.
///
/// A predicate without value cannot come back: it parses into the tree that
/// matches every track. Nor can a combinator whose left side is a combinator
/// or matches every track: chains associate to the right, and nothing behind
/// a match-all literal is read.
pub open spec fn round_trips(bang: BangView) -> bool
    decreases bang,
{
    match bang {
        BangView::HasCoverArt | BangView::HasMusicbrainzId | BangView::Duplicates => false,
        BangView::Grouping(inner) => round_trips(*inner),
        BangView::LogicalAnd(lhs, rhs) => is_unit(*lhs) && round_trips(*lhs) && round_trips(*rhs),
        BangView::LogicalOr(lhs, rhs) => is_unit(*lhs) && round_trips(*lhs) && round_trips(*rhs),
        _ => true,
    }
}

/// Looking for the closing delimiter from `token` on is looking for it behind
/// `token`, one token further.
proof fn lemma_balance_step(token: TokenView, rest: Seq<TokenView>, depth: nat)
    requires
        depth >= 1,
    ensures
        balance_length(seq![token] + rest, depth) == shifted(
            balance_length(rest, depth_behind(token, depth)),
            1,
        ),
{
    let tokens = seq![token] + rest;
    assert(tokens[0] == token);
    assert(tokens.drop_first() =~= rest);
}

/// The tokens of a predicate with argument open no delimiter that they do not
/// close.
proof fn lemma_balance_argument(kind: BangTypeView, text: Seq<char>, rest: Seq<TokenView>, depth: nat)
    requires
        depth >= 1,
    ensures
        balance_length(with_argument(kind, text) + rest, depth) == shifted(
            balance_length(rest, depth),
            5,
        ),
{
    let t4 = seq![TokenView::ArgumentEnd] + rest;
    let t3 = seq![TokenView::Argument(text)] + t4;
    let t2 = seq![TokenView::ArgumentBegin] + t3;
    let t1 = seq![TokenView::BangIdentifier(mnemonic(kind))] + t2;
    let t0 = seq![TokenView::BangPrefix] + t1;
    assert(t0 =~= with_argument(kind, text) + rest);
    lemma_balance_step(TokenView::BangPrefix, t1, depth);
    lemma_balance_step(TokenView::BangIdentifier(mnemonic(kind)), t2, depth);
    lemma_balance_step(TokenView::ArgumentBegin, t3, depth);
    lemma_balance_step(TokenView::Argument(text), t4, depth + 1);
    lemma_balance_step(TokenView::ArgumentEnd, rest, depth + 1);
}

/// The tokens of a tree open no delimiter that they do not close: the
/// delimiter that closes `depth` open ones stands behind them.
pub proof fn lemma_balance_token_form(bang: BangView, rest: Seq<TokenView>, depth: nat)
    requires
        depth >= 1,
    ensures
        balance_length(token_form(bang) + rest, depth) == shifted(
            balance_length(rest, depth),
            token_form(bang).len(),
        ),
    decreases bang,
{
    match bang {
        BangView::All => {
            lemma_balance_step(TokenView::MatchAll, rest, depth);
        },
        BangView::HasCoverArt | BangView::HasMusicbrainzId | BangView::Duplicates => {
            let name = token_form(bang)[1];
            let t1 = seq![name] + rest;
            assert(token_form(bang) + rest =~= seq![TokenView::BangPrefix] + t1);
            lemma_balance_step(TokenView::BangPrefix, t1, depth);
            lemma_balance_step(name, rest, depth);
        },
        BangView::Grouping(inner) => {
            let name = TokenView::BangIdentifier(mnemonic(BangTypeView::Grouping));
            let t3 = seq![TokenView::ArgumentEnd] + rest;
            let t2 = token_form(*inner) + t3;
            let t1 = seq![TokenView::ArgumentBegin] + t2;
            let t0 = seq![name] + t1;
            assert(token_form(bang) + rest =~= seq![TokenView::BangPrefix] + t0);
            lemma_balance_step(TokenView::BangPrefix, t0, depth);
            lemma_balance_step(name, t1, depth);
            lemma_balance_step(TokenView::ArgumentBegin, t2, depth);
            lemma_balance_token_form(*inner, t3, depth + 1);
            lemma_balance_step(TokenView::ArgumentEnd, rest, depth + 1);
        },
        BangView::LogicalAnd(lhs, rhs) => {
            let t2 = token_form(*rhs) + rest;
            let t1 = seq![TokenView::LogicalOperator('&')] + t2;
            assert(token_form(bang) + rest =~= token_form(*lhs) + t1);
            lemma_balance_token_form(*lhs, t1, depth);
            lemma_balance_step(TokenView::LogicalOperator('&'), t2, depth);
            lemma_balance_token_form(*rhs, rest, depth);
        },
        BangView::LogicalOr(lhs, rhs) => {
            let t2 = token_form(*rhs) + rest;
            let t1 = seq![TokenView::LogicalOperator('|')] + t2;
            assert(token_form(bang) + rest =~= token_form(*lhs) + t1);
            lemma_balance_token_form(*lhs, t1, depth);
            lemma_balance_step(TokenView::LogicalOperator('|'), t2, depth);
            lemma_balance_token_form(*rhs, rest, depth);
        },
        _ => {
            let (kind, text) = written(bang)->0;
            lemma_balance_argument(kind, text, rest, depth);
        },
    }
}

/// The text that writes a predicate's value reads as that value.
pub proof fn lemma_written_reads_back(bang: BangView)
    ensures
        written(bang) matches Some((kind, text)) ==> takes_argument(kind) && coerce(kind, text)
            == Some(bang),
{
    match bang {
        BangView::Format(format) => {
            format.lemma_named_text();
        },
        BangView::BitrateLessThan(bound)
        | BangView::BitrateGreaterThan(bound)
        | BangView::CoverArtWidthLessThan(bound)
        | BangView::CoverArtWidthGreaterThan(bound)
        | BangView::CoverArtHeightLessThan(bound)
        | BangView::CoverArtHeightGreaterThan(bound) => {
            lemma_decimal_text(bound);
        },
        _ => {},
    }
}

/// Behind the tokens of a predicate with value or of a grouping, parsing goes
/// on with what follows them.
pub proof fn lemma_parse_unit(unit: BangView, rest: Seq<TokenView>)
    requires
        is_unit(unit),
        round_trips(unit),
    ensures
        parse(token_form(unit) + rest) == parse_chain(
            unit,
            token_form(unit) + rest,
            token_form(unit).len(),
        ),
    decreases unit, 0int,
{
    reveal(parse_predicate);
    let tokens = token_form(unit) + rest;
    match unit {
        BangView::Grouping(inner) => {
            let inner = *inner;
            let name = mnemonic(BangTypeView::Grouping);
            lemma_resolve_mnemonic(BangTypeView::Grouping);
            assert(tokens[0] == TokenView::BangPrefix);
            assert(tokens[1] == TokenView::BangIdentifier(name));
            let behind = tokens.skip(2);
            let closing = seq![TokenView::ArgumentEnd] + rest;
            assert(behind[0] == TokenView::ArgumentBegin);
            assert(behind.skip(1) =~= token_form(inner) + closing);
            lemma_balance_token_form(inner, closing, 1);
            lemma_balance_step(TokenView::ArgumentEnd, rest, 1);
            let n = token_form(inner).len() + 1;
            assert(balance_length(behind.skip(1), 1) == Some(n));
            let group = token_form(inner) + seq![TokenView::InputEnd];
            assert(behind.subrange(1, n as int).push(TokenView::InputEnd) =~= group);
            assert(group_tokens(behind) == Some(group));
            lemma_round_trip_before(inner, seq![TokenView::InputEnd]);
            assert(parse_grouping(behind).result == Ok::<BangView, ErrorView>(unit));
            assert(parse_grouping(behind).consumed == n + 1);
        },
        _ => {
            let (kind, text) = written(unit)->0;
            lemma_written_reads_back(unit);
            lemma_resolve_mnemonic(kind);
            assert(tokens[0] == TokenView::BangPrefix);
            assert(tokens[1] == TokenView::BangIdentifier(mnemonic(kind)));
            let behind = tokens.skip(2);
            assert(behind[0] == TokenView::ArgumentBegin);
            assert(behind[1] == TokenView::Argument(text));
            assert(behind[2] == TokenView::ArgumentEnd);
            assert(starts_with_argument(behind));
            assert(parse_predicate(kind, behind).result == Ok::<BangView, ErrorView>(unit));
        },
    }
}

/// The tokens that write a tree parse back to it, whatever follows the
/// `InputEnd` behind them.
pub proof fn lemma_round_trip_before(bang: BangView, rest: Seq<TokenView>)
    requires
        round_trips(bang),
        rest.len() > 0,
        rest[0] == TokenView::InputEnd,
    ensures
        parse(token_form(bang) + rest).result == Ok::<BangView, ErrorView>(bang),
    decreases bang, 1int,
{
    let tokens = token_form(bang) + rest;
    match bang {
        BangView::All => {
            assert(tokens[0] == TokenView::MatchAll);
        },
        BangView::LogicalAnd(lhs, rhs) => {
            let behind = token_form(*rhs) + rest;
            lemma_chain(*lhs, '&', behind);
            assert(tokens =~= token_form(*lhs) + seq![TokenView::LogicalOperator('&')] + behind);
            lemma_round_trip_before(*rhs, rest);
        },
        BangView::LogicalOr(lhs, rhs) => {
            let behind = token_form(*rhs) + rest;
            lemma_chain(*lhs, '|', behind);
            assert(tokens =~= token_form(*lhs) + seq![TokenView::LogicalOperator('|')] + behind);
            lemma_round_trip_before(*rhs, rest);
        },
        _ => {
            lemma_parse_unit(bang, rest);
            assert(tokens[token_form(bang).len() as int] == rest[0]);
        },
    }
}

/// Chains associate to the right: behind a unit and `&` or `|`, all that
/// follows is parsed as one query and becomes the right side of the
/// combinator, with the unit as its left side.
pub proof fn lemma_chain(unit: BangView, operator: char, rest: Seq<TokenView>)
    requires
        operator == '&' || operator == '|',
        is_unit(unit),
        round_trips(unit),
    ensures
        parse(token_form(unit) + seq![TokenView::LogicalOperator(operator)] + rest).result == (
        match parse(rest).result {
            Ok(rhs) => Ok::<BangView, ErrorView>(join(operator, unit, rhs)),
            Err(error) => Err(error),
        }),
    decreases unit, 1int,
{
    let behind = seq![TokenView::LogicalOperator(operator)] + rest;
    let tokens = token_form(unit) + seq![TokenView::LogicalOperator(operator)] + rest;
    let at = token_form(unit).len();
    assert(tokens =~= token_form(unit) + behind);
    lemma_parse_unit(unit, behind);
    assert(tokens[at as int] == TokenView::LogicalOperator(operator));
    assert(tokens.skip(at as int + 1) =~= rest);
}

/// The tokens that write a tree, with `InputEnd` behind them, parse back to
/// the tree, for every tree that parsing can yield from its own tokens.
pub proof fn lemma_round_trip(bang: BangView)
    requires
        round_trips(bang),
    ensures
        parse(token_form(bang).push(TokenView::InputEnd)).result == Ok::<BangView, ErrorView>(bang),
{
    lemma_round_trip_before(bang, seq![TokenView::InputEnd]);
    assert(token_form(bang).push(TokenView::InputEnd) =~= token_form(bang) + seq![
        TokenView::InputEnd,
    ]);
}

/// The text that writes `bang` as a query, without blanks.
pub open spec fn query_text(bang: BangView) -> Seq<char>
    decreases bang,
{
    match bang {
        BangView::All => seq!['*'],
        BangView::HasCoverArt => seq!['!'] + mnemonic(BangTypeView::HasCoverArt),
        BangView::HasMusicbrainzId => seq!['!'] + mnemonic(BangTypeView::HasMusicbrainzId),
        BangView::Duplicates => seq!['!'] + mnemonic(BangTypeView::Duplicates),
        BangView::Grouping(inner) => seq!['!', '!', '{'] + query_text(*inner) + seq!['}'],
        BangView::LogicalAnd(lhs, rhs) => query_text(*lhs) + seq!['&'] + query_text(*rhs),
        BangView::LogicalOr(lhs, rhs) => query_text(*lhs) + seq!['|'] + query_text(*rhs),
        _ => match written(bang) {
            Some((kind, text)) => seq!['!'] + mnemonic(kind) + seq!['{'] + text + seq!['}'],
            None => seq![],
        },
    }
}

/// Whether the text of every text predicate in `bang` is closed, so that the
/// `}` behind it ends it.
pub open spec fn texts_closed(bang: BangView) -> bool
    decreases bang,
{
    match bang {
        BangView::TitleSearch(text)
        | BangView::TitleSearchExact(text)
        | BangView::FullTextSearch(text)
        | BangView::FullTextSearchExact(text)
        | BangView::AlbumTitle(text)
        | BangView::AlbumTitleExact(text)
        | BangView::AlbumArtists(text)
        | BangView::AlbumArtistsExact(text)
        | BangView::Artist(text)
        | BangView::ArtistExact(text) => closed(text),
        BangView::Grouping(inner) => texts_closed(*inner),
        BangView::LogicalAnd(lhs, rhs) => texts_closed(*lhs) && texts_closed(*rhs),
        BangView::LogicalOr(lhs, rhs) => texts_closed(*lhs) && texts_closed(*rhs),
        _ => true,
    }
}

/// The text that writes a predicate's value is closed: that of a format or a
/// number always, that of a text predicate where the tree's texts are.
proof fn lemma_written_closed(bang: BangView)
    requires
        texts_closed(bang),
    ensures
        written(bang) matches Some((_, text)) ==> closed(text),
{
    match bang {
        BangView::Format(format) => {
            format.lemma_text_alphanumeric();
            lemma_closed_without_braces(format.text());
        },
        BangView::BitrateLessThan(bound)
        | BangView::BitrateGreaterThan(bound)
        | BangView::CoverArtWidthLessThan(bound)
        | BangView::CoverArtWidthGreaterThan(bound)
        | BangView::CoverArtHeightLessThan(bound)
        | BangView::CoverArtHeightGreaterThan(bound) => {
            lemma_decimal_text_plain(bound);
            lemma_closed_without_braces(decimal_text(bound));
        },
        _ => {},
    }
}

/// A mnemonic in a query is lexed as a whole: a prefix and the mnemonic that
/// selects `kind`, with a special character or the end of the query behind
/// them, are two tokens.
proof fn lemma_lex_mnemonic(kind: BangTypeView, query: Seq<char>, at: int)
    requires
        !(kind is Unknown),
        !(kind is Grouping),
        occurs(query, at, seq!['!'] + mnemonic(kind)),
        at + 1 + mnemonic(kind).len() == query.len() || is_special(
            query[at + 1 + mnemonic(kind).len()],
        ),
    ensures
        lex_from(query, at) == without_argument(kind) + lex_from(
            query,
            at + 1 + mnemonic(kind).len(),
        ),
{
    reveal(lex_from);
    let name = mnemonic(kind);
    lemma_mnemonic_alphanumeric(kind);
    lemma_occurs_split(query, at, seq!['!'], name);
    assert(query[at + 0] == seq!['!'][0]);
    assert(query[at + 1 + 0] == name[0]);
    assert(is_alphanumeric(name[0]));
    assert forall|i: int| 0 <= i < name.len() implies !is_special(#[trigger] name[i]) by {
        assert(is_alphanumeric(name[i]));
    }
    lemma_mnemonic_end_of(query, at + 1, name, 0);
    assert(query.subrange(at + 1, at + 1 + name.len()) =~= name);
}

/// A predicate with value in a query is lexed as it was written: where its
/// text stands in the query, lexing yields its five tokens and goes on behind
/// the text.
proof fn lemma_lex_written(bang: BangView, query: Seq<char>, at: int)
    requires
        written(bang) is Some,
        texts_closed(bang),
        occurs(query, at, query_text(bang)),
    ensures
        lex_from(query, at) == token_form(bang) + lex_from(query, at + query_text(bang).len()),
{
    reveal(lex_from);
    let (kind, text) = written(bang)->0;
    let name = mnemonic(kind);
    lemma_written_closed(bang);
    let head = seq!['!'] + name;
    lemma_occurs_split(query, at, head + seq!['{'] + text, seq!['}']);
    lemma_occurs_split(query, at, head + seq!['{'], text);
    lemma_occurs_split(query, at, head, seq!['{']);
    let open = at + 1 + name.len();
    let close = open + 1 + text.len();
    assert(query[open + 0] == seq!['{'][0]);
    assert(query[close + 0] == seq!['}'][0]);
    lemma_lex_mnemonic(kind, query, at);
    let sealed = text.push('}');
    assert forall|i: int| 0 <= i < sealed.len() implies query[open + 1 + i]
        == #[trigger] sealed[i] by {
        if i < text.len() {
            assert(sealed[i] == text[i]);
        }
    }
    lemma_argument_end_of(query, open + 1, sealed, 0, 0);
    assert(query.subrange(open + 1, close) =~= text);
    let tail = lex_from(query, close + 1);
    assert(lex_from(query, open) == seq![
        TokenView::ArgumentBegin,
        TokenView::Argument(text),
        TokenView::ArgumentEnd,
    ] + tail);
    assert(without_argument(kind) + (seq![
        TokenView::ArgumentBegin,
        TokenView::Argument(text),
        TokenView::ArgumentEnd,
    ] + tail) =~= with_argument(kind, text) + tail);
}

/// The delimiters of a grouping in a query are lexed as tokens of their own:
/// where a sub-query stands between `!!{` and `}`, the three characters in
/// front of it are three tokens, and the one behind it is one.
proof fn lemma_lex_grouping(inner: BangView, query: Seq<char>, at: int)
    requires
        occurs(query, at, seq!['!', '!', '{'] + query_text(inner) + seq!['}']),
    ensures
        occurs(query, at + 3, query_text(inner)),
        is_special(query[at + 3 + query_text(inner).len()]),
        lex_from(query, at) == without_argument(BangTypeView::Grouping).push(
            TokenView::ArgumentBegin,
        ) + lex_from(query, at + 3),
        lex_from(query, at + 3 + query_text(inner).len()) == seq![TokenView::ArgumentEnd]
            + lex_from(query, at + 4 + query_text(inner).len()),
{
    reveal(lex_from);
    let opening = seq!['!', '!', '{'];
    lemma_occurs_split(query, at, opening + query_text(inner), seq!['}']);
    lemma_occurs_split(query, at, opening, query_text(inner));
    assert(query[at + 0] == opening[0]);
    assert(query[at + 1] == opening[1]);
    assert(query[at + 2] == opening[2]);
    let close = at + 3 + query_text(inner).len();
    assert(query[close + 0] == seq!['}'][0]);
    reveal_strlit("!");
    assert(query.subrange(at + 1, at + 2) =~= mnemonic(BangTypeView::Grouping));
    assert(seq![
        TokenView::BangPrefix,
        TokenView::BangIdentifier(mnemonic(BangTypeView::Grouping)),
        TokenView::ArgumentBegin,
    ] =~= without_argument(BangTypeView::Grouping).push(TokenView::ArgumentBegin));
}

/// Three runs of tokens in front of a fourth are the three as one in front of
/// it.
proof fn lemma_three_parts(
    first: Seq<TokenView>,
    second: Seq<TokenView>,
    third: Seq<TokenView>,
    tail: Seq<TokenView>,
)
    ensures
        first + (second + (third + tail)) == first + second + third + tail,
{
    assert(first + (second + (third + tail)) =~= first + second + third + tail);
}

/// Where the text that writes a tree stands in a query, with a special
/// character or the end of the query behind it, lexing yields the tokens that
/// write the tree and goes on behind the text.
pub proof fn lemma_lex_query_text(bang: BangView, query: Seq<char>, at: int)
    requires
        texts_closed(bang),
        occurs(query, at, query_text(bang)),
        at + query_text(bang).len() == query.len() || is_special(
            query[at + query_text(bang).len()],
        ),
    ensures
        lex_from(query, at) == token_form(bang) + lex_from(query, at + query_text(bang).len()),
    decreases bang,
{
    let tail = lex_from(query, at + query_text(bang).len());
    match bang {
        BangView::All => {
            reveal(lex_from);
            assert(query[at + 0] == query_text(bang)[0]);
            assert(lex_from(query, at) =~= token_form(bang) + tail);
        },
        BangView::HasCoverArt => {
            lemma_lex_mnemonic(BangTypeView::HasCoverArt, query, at);
        },
        BangView::HasMusicbrainzId => {
            lemma_lex_mnemonic(BangTypeView::HasMusicbrainzId, query, at);
        },
        BangView::Duplicates => {
            lemma_lex_mnemonic(BangTypeView::Duplicates, query, at);
        },
        BangView::Grouping(inner) => {
            lemma_lex_grouping(*inner, query, at);
            lemma_lex_query_text(*inner, query, at + 3);
            lemma_three_parts(
                without_argument(BangTypeView::Grouping).push(TokenView::ArgumentBegin),
                token_form(*inner),
                seq![TokenView::ArgumentEnd],
                tail,
            );
        },
        BangView::LogicalAnd(lhs, rhs) => {
            lemma_lex_joined('&', *lhs, *rhs, query, at);
            lemma_lex_query_text(*lhs, query, at);
            lemma_lex_query_text(*rhs, query, at + query_text(*lhs).len() + 1);
            lemma_three_parts(
                token_form(*lhs),
                seq![TokenView::LogicalOperator('&')],
                token_form(*rhs),
                tail,
            );
        },
        BangView::LogicalOr(lhs, rhs) => {
            lemma_lex_joined('|', *lhs, *rhs, query, at);
            lemma_lex_query_text(*lhs, query, at);
            lemma_lex_query_text(*rhs, query, at + query_text(*lhs).len() + 1);
            lemma_three_parts(
                token_form(*lhs),
                seq![TokenView::LogicalOperator('|')],
                token_form(*rhs),
                tail,
            );
        },
        _ => {
            lemma_lex_written(bang, query, at);
        },
    }
}

/// Where two texts stand in a query with `&` or `|` between them, each stands
/// in front of a special character or the end of the query, and the operator
/// is lexed as one token.
proof fn lemma_lex_joined(operator: char, lhs: BangView, rhs: BangView, query: Seq<char>, at: int)
    requires
        operator == '&' || operator == '|',
        occurs(query, at, query_text(lhs) + seq![operator] + query_text(rhs)),
    ensures
        occurs(query, at, query_text(lhs)),
        occurs(query, at + query_text(lhs).len() + 1, query_text(rhs)),
        is_special(query[at + query_text(lhs).len()]),
        lex_from(query, at + query_text(lhs).len()) == seq![TokenView::LogicalOperator(operator)]
            + lex_from(query, at + query_text(lhs).len() + 1),
{
    reveal(lex_from);
    lemma_occurs_split(query, at, query_text(lhs) + seq![operator], query_text(rhs));
    lemma_occurs_split(query, at, query_text(lhs), seq![operator]);
    assert(query[at + query_text(lhs).len() + 0] == seq![operator][0]);
}

/// Lexing the text that writes a tree yields the tokens that write it, with
/// `InputEnd` behind them.
pub proof fn lemma_lex_round_trip(bang: BangView)
    requires
        texts_closed(bang),
    ensures
        lex(query_text(bang)) == token_form(bang).push(TokenView::InputEnd),
{
    let query = query_text(bang);
    lemma_lex_query_text(bang, query, 0);
    assert(lex_from(query, query.len() as int) =~= seq![TokenView::InputEnd]) by {
        reveal(lex_from);
    }
    assert(token_form(bang) + seq![TokenView::InputEnd] =~= token_form(bang).push(
        TokenView::InputEnd,
    ));
}

/// Round trip: the text that writes a tree parses back to the tree, for every
/// tree that parsing can yield from its own tokens and whose texts are
/// closed.
pub proof fn lemma_query_round_trip(bang: BangView)
    requires
        round_trips(bang),
        texts_closed(bang),
    ensures
        parse(lex(query_text(bang))).result == Ok::<BangView, ErrorView>(bang),
{
    lemma_lex_round_trip(bang);
    lemma_round_trip(bang);
}

} // verus!
