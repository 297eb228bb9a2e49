//! Recursive descent from a token sequence to a [`Bang`] tree.

use vstd::prelude::*;
use crate::argument::FromArgument;
use crate::bang::{Bang, BangView};
use crate::error::{Error, ErrorView, Result};
use crate::mnemonic::{resolve, BangIdentifier, BangType, BangTypeView};
use crate::number::decimal;
use crate::text::char_text;
use crate::token::{token_views, Token, TokenCursor, TokenView};
use crate::track::TrackFileType;

verus! {

/// What parsing yields, and how many tokens it reads to get there.
pub ghost struct Parse {
    pub result: std::result::Result<BangView, ErrorView>,
    pub consumed: nat,
}

/// Parsing that ends in `bang` after `consumed` tokens.
pub open spec fn done(bang: BangView, consumed: nat) -> Parse {
    Parse { result: Ok(bang), consumed }
}

/// Parsing that fails with `error` after `consumed` tokens.
pub open spec fn fail(error: ErrorView, consumed: nat) -> Parse {
    Parse { result: Err(error), consumed }
}

/// Whether `tokens` starts with a delimited argument: begin, text, end.
pub open spec fn starts_with_argument(tokens: Seq<TokenView>) -> bool {
    &&& tokens.len() >= 3
    &&& tokens[0] == TokenView::ArgumentBegin
    &&& tokens[1] is Argument
    &&& tokens[2] == TokenView::ArgumentEnd
}

/// The predicate of kind `kind` that holds what `text` reads as; `None` where
/// `text` cannot be read as the kind's value, or the kind holds no value.
pub open spec fn coerce(kind: BangTypeView, text: Seq<char>) -> Option<BangView> {
    match kind {
        BangTypeView::TitleSearch => Some(BangView::TitleSearch(text)),
        BangTypeView::TitleSearchExact => Some(BangView::TitleSearchExact(text)),
        BangTypeView::FullTextSearch => Some(BangView::FullTextSearch(text)),
        BangTypeView::FullTextSearchExact => Some(BangView::FullTextSearchExact(text)),
        BangTypeView::AlbumTitle => Some(BangView::AlbumTitle(text)),
        BangTypeView::AlbumTitleExact => Some(BangView::AlbumTitleExact(text)),
        BangTypeView::AlbumArtists => Some(BangView::AlbumArtists(text)),
        BangTypeView::AlbumArtistsExact => Some(BangView::AlbumArtistsExact(text)),
        BangTypeView::Artist => Some(BangView::Artist(text)),
        BangTypeView::ArtistExact => Some(BangView::ArtistExact(text)),
        BangTypeView::Format => match TrackFileType::named(text) {
            Some(format) => Some(BangView::Format(format)),
            None => None,
        },
        BangTypeView::BitrateLessThan => match decimal(text) {
            Some(bound) => Some(BangView::BitrateLessThan(bound)),
            None => None,
        },
        BangTypeView::BitrateGreaterThan => match decimal(text) {
            Some(bound) => Some(BangView::BitrateGreaterThan(bound)),
            None => None,
        },
        BangTypeView::CoverArtWidthLessThan => match decimal(text) {
            Some(bound) => Some(BangView::CoverArtWidthLessThan(bound)),
            None => None,
        },
        BangTypeView::CoverArtWidthGreaterThan => match decimal(text) {
            Some(bound) => Some(BangView::CoverArtWidthGreaterThan(bound)),
            None => None,
        },
        BangTypeView::CoverArtHeightLessThan => match decimal(text) {
            Some(bound) => Some(BangView::CoverArtHeightLessThan(bound)),
            None => None,
        },
        BangTypeView::CoverArtHeightGreaterThan => match decimal(text) {
            Some(bound) => Some(BangView::CoverArtHeightGreaterThan(bound)),
            None => None,
        },
        _ => None,
    }
}

/// Whether predicates of kind `kind` hold a value.
pub open spec fn takes_argument(kind: BangTypeView) -> bool {
    match kind {
        BangTypeView::HasCoverArt
        | BangTypeView::HasMusicbrainzId
        | BangTypeView::Duplicates
        | BangTypeView::Grouping
        | BangTypeView::Unknown(_) => false,
        _ => true,
    }
}

/// A predicate of kind `kind` read from the tokens `rest` that follow its
/// mnemonic.
///
/// A kind that holds a value wants `rest` to start with a delimited argument
/// and reads the value from its text. Any other kind that the language has
/// matches every track and reads no token. An unknown mnemonic is an error.
#[verifier::opaque]
pub open spec fn parse_predicate(kind: BangTypeView, rest: Seq<TokenView>) -> Parse {
    if kind is Unknown {
        fail(ErrorView::ParserUnknownBang(kind->Unknown_0), 0)
    } else if !takes_argument(kind) {
        done(BangView::All, 0)
    } else if starts_with_argument(rest) {
        let text = rest[1]->Argument_0;
        match coerce(kind, text) {
            Some(bang) => done(bang, 3),
            None => fail(ErrorView::ParserInvalidInput(text), 3),
        }
    } else {
        fail(ErrorView::LexerUnexpectedEndOfInput, 0)
    }
}

/// A predicate is read from the tokens that are there.
pub proof fn lemma_parse_predicate_within(kind: BangTypeView, rest: Seq<TokenView>)
    ensures
        parse_predicate(kind, rest).consumed <= rest.len(),
{
    reveal(parse_predicate);
}

/// The depth of open delimiters behind `token`, where it was `depth` before.
pub open spec fn depth_behind(token: TokenView, depth: nat) -> nat {
    match token {
        TokenView::ArgumentBegin => depth + 1,
        TokenView::ArgumentEnd => (depth - 1) as nat,
        _ => depth,
    }
}

/// How many tokens of `tokens` it takes to close `depth` open delimiters: the
/// count runs up to the `ArgumentEnd` that brings the depth to zero, that one
/// included. `None` where the tokens end before.
pub open spec fn balance_length(tokens: Seq<TokenView>, depth: nat) -> Option<nat>
    decreases tokens.len(),
{
    if depth == 0 {
        Some(0)
    } else if tokens.len() == 0 {
        None
    } else {
        match balance_length(tokens.drop_first(), depth_behind(tokens[0], depth)) {
            Some(n) => Some(n + 1),
            None => None,
        }
    }
}

/// `length` with `offset` added, where there is a length.
pub open spec fn shifted(length: Option<nat>, offset: nat) -> Option<nat> {
    match length {
        Some(n) => Some(n + offset),
        None => None,
    }
}

/// The closing delimiter is among the tokens.
pub proof fn lemma_balance_length_bound(tokens: Seq<TokenView>, depth: nat)
    ensures
        balance_length(tokens, depth) matches Some(n) ==> n <= tokens.len() && (depth > 0 ==> n > 0),
    decreases tokens.len(),
{
    if depth > 0 && tokens.len() > 0 {
        lemma_balance_length_bound(tokens.drop_first(), depth_behind(tokens[0], depth));
    }
}

/// The sub-query of a grouping whose opening delimiter is `rest[0]`: the
/// tokens strictly between that delimiter and the one that closes it, then
/// `InputEnd`. `None` where nothing closes it.
pub open spec fn group_tokens(rest: Seq<TokenView>) -> Option<Seq<TokenView>> {
    match balance_length(rest.skip(1), 1) {
        Some(n) => Some(rest.subrange(1, n as int).push(TokenView::InputEnd)),
        None => None,
    }
}

/// The tree that a token sequence parses into, or the error, and the number
/// of tokens read.
///
/// A query is the match-all literal, or a prefix and a mnemonic with what the
/// mnemonic's kind wants behind it; after the latter, `InputEnd` ends the
/// query, and `&` or `|` joins it to the query that the remaining tokens
/// hold. Nothing behind a match-all literal is read.
pub open spec fn parse(tokens: Seq<TokenView>) -> Parse
    decreases tokens.len(), 1nat,
{
    if tokens.len() == 0 {
        fail(ErrorView::LexerUnexpectedEndOfInput, 0)
    } else if tokens[0] == TokenView::MatchAll {
        done(BangView::All, 1)
    } else if tokens[0] != TokenView::BangPrefix {
        fail(ErrorView::ParserUnexpectedToken(tokens[0]), 1)
    } else if tokens.len() == 1 {
        fail(ErrorView::LexerUnexpectedEndOfInput, 1)
    } else if !(tokens[1] is BangIdentifier) {
        fail(ErrorView::LexerUnexpectedEndOfInput, 2)
    } else {
        let kind = resolve(tokens[1]->BangIdentifier_0);
        let lhs = if kind is Grouping {
            parse_grouping(tokens.skip(2))
        } else {
            parse_predicate(kind, tokens.skip(2))
        };
        match lhs.result {
            Err(error) => fail(error, 2 + lhs.consumed),
            Ok(bang) => parse_chain(bang, tokens, 2 + lhs.consumed),
        }
    }
}

/// A grouping read from the tokens `rest` that follow its mnemonic: `rest`
/// starts with the opening delimiter, and what stands between it and the
/// delimiter that closes it parses as a query of its own.
pub open spec fn parse_grouping(rest: Seq<TokenView>) -> Parse
    decreases rest.len(), 2nat,
{
    if rest.len() == 0 || rest[0] != TokenView::ArgumentBegin {
        fail(ErrorView::LexerUnexpectedEndOfInput, 0)
    } else {
        match group_tokens(rest) {
            None => fail(ErrorView::LexerUnexpectedEndOfInput, rest.len()),
            Some(group) => {
                proof {
                    lemma_balance_length_bound(rest.skip(1), 1);
                }
                match parse(group).result {
                    Ok(inner) => done(BangView::Grouping(Box::new(inner)), group.len() + 1),
                    Err(error) => fail(error, group.len() + 1),
                }
            },
        }
    }
}

/// What follows a parsed `lhs`, from the token at index `at` of `tokens` on:
/// `InputEnd` ends the query; `&` or `|` joins `lhs` to the query in the
/// tokens behind the operator. The count of tokens read starts at `tokens[0]`.
pub open spec fn parse_chain(lhs: BangView, tokens: Seq<TokenView>, at: nat) -> Parse
    decreases tokens.len(), 0nat,
{
    if at >= tokens.len() {
        fail(ErrorView::LexerUnexpectedEndOfInput, at)
    } else {
        match tokens[at as int] {
            TokenView::InputEnd => done(lhs, at + 1),
            TokenView::LogicalOperator(operator) => {
                if operator == '|' || operator == '&' {
                    let rhs = parse(tokens.skip(at as int + 1));
                    match rhs.result {
                        Ok(bang) => done(join(operator, lhs, bang), at + 1 + rhs.consumed),
                        Err(error) => fail(error, at + 1 + rhs.consumed),
                    }
                } else {
                    fail(ErrorView::ParserUnknownBang(seq![operator]), at + 1)
                }
            },
            token => fail(ErrorView::ParserUnexpectedToken(token), at + 1),
        }
    }
}

/// What follows a parsed tree depends on the tokens from index `at` on alone.
pub proof fn lemma_parse_chain_from(lhs: BangView, tokens: Seq<TokenView>, at: nat)
    requires
        at <= tokens.len(),
    ensures
        parse_chain(lhs, tokens, at).result == parse_chain(lhs, tokens.skip(at as int), 0).result,
        parse_chain(lhs, tokens, at).consumed == at + parse_chain(
            lhs,
            tokens.skip(at as int),
            0,
        ).consumed,
{
    let rest = tokens.skip(at as int);
    if at < tokens.len() {
        assert(rest[0] == tokens[at as int]);
        assert(rest.skip(1) =~= tokens.skip(at as int + 1));
    }
}

/// Two trees under the combinator that `operator` writes: `|` is "or", and
/// `&` is "and".
pub open spec fn join(operator: char, lhs: BangView, rhs: BangView) -> BangView {
    if operator == '|' {
        BangView::LogicalOr(Box::new(lhs), Box::new(rhs))
    } else {
        BangView::LogicalAnd(Box::new(lhs), Box::new(rhs))
    }
}

/// A parsing step's outcome with each text as a sequence of characters.
pub open spec fn outcome(result: Result<Bang>) -> std::result::Result<BangView, ErrorView> {
    match result {
        Ok(bang) => Ok(bang@),
        Err(error) => Err(error@),
    }
}

/// Takes three tokens, or the two that are left, and hands back the middle
/// one: where a delimited argument starts, its text.
pub fn extract_argument(tokens: &mut TokenCursor) -> (argument: Token)
    requires
        old(tokens).remaining().len() >= 2,
    ensures
        final(tokens).all() == old(tokens).all(),
        argument@ == old(tokens).remaining()[1],
        final(tokens).position() == old(tokens).position() + (if old(tokens).remaining().len() == 2 {
            2nat
        } else {
            3nat
        }),
{
    tokens.next();
    let argument = tokens.next().unwrap().clone();
    tokens.next();
    argument
}

/// Reads the text of `argument` as a `T` and hands the value to `producer`.
///
/// Text that does not read as a `T` is invalid input; a token that is no
/// argument stands for a query that ended too early.
pub fn parse_bang<F, T>(producer: F, argument: Token) -> (result: Result<Bang>) where
    T: FromArgument,
    F: Fn(T) -> Bang,

    requires
        forall|value: T| call_requires(producer, (value,)),
    ensures
        match argument@ {
            TokenView::Argument(text) => match T::read(text) {
                Some(read) => result matches Ok(bang) && exists|value: T|
                    value@ == read && call_ensures(producer, (value,), bang),
                None => result matches Err(error) && error@ == ErrorView::ParserInvalidInput(text),
            },
            _ => result matches Err(error) && error@ == ErrorView::LexerUnexpectedEndOfInput,
        },
{
    if let Token::Argument(argument) = argument {
        match T::from_argument(argument.as_str()) {
            Some(parsed) => Ok(producer(parsed)),
            None => Err(Error::ParserInvalidInput(argument)),
        }
    } else {
        Err(Error::LexerUnexpectedEndOfInput)
    }
}

/// Takes the sub-query of a grouping: consumes the opening delimiter and all
/// tokens up to the delimiter that closes it, and hands back the tokens
/// between the two with `InputEnd` behind them.
///
/// The next token must be the opening delimiter. Where nothing closes it, all
/// tokens are consumed and the query has ended too early.
pub fn take_until_braces_balanced(tokens: &mut TokenCursor) -> (result: Result<Vec<Token>>)
    requires
        old(tokens).remaining().len() > 0,
        old(tokens).remaining()[0] == TokenView::ArgumentBegin,
    ensures
        final(tokens).all() == old(tokens).all(),
        match group_tokens(old(tokens).remaining()) {
            Some(group) => {
                &&& result matches Ok(taken)
                &&& token_views(taken@) == group
                &&& final(tokens).position() == old(tokens).position() + group.len() + 1
            },
            None => {
                &&& result matches Err(error)
                &&& error@ == ErrorView::LexerUnexpectedEndOfInput
                &&& final(tokens).position() == old(tokens).all().len()
            },
        },
{
    let ghost rest = old(tokens).remaining();
    let ghost start = old(tokens).position();
    let mut group: Vec<Token> = Vec::new();
    tokens.next();
    let mut counter: usize = 1;
    assert(token_views(group@) =~= rest.subrange(1, 1));
    loop
        invariant
            tokens.all() == old(tokens).all(),
            rest == old(tokens).remaining(),
            start == old(tokens).position(),
            start < tokens.position() <= tokens.all().len(),
            1 <= counter <= tokens.position() - start,
            token_views(group@) == rest.subrange(1, tokens.position() - start),
            balance_length(rest.skip(1), 1) == shifted(
                balance_length(rest.skip(tokens.position() - start), counter as nat),
                (tokens.position() - start - 1) as nat,
            ),
        decreases tokens.all().len() - tokens.position(),
    {
        let ghost k = tokens.position() - start;
        match tokens.next() {
            None => {
                assert(rest.skip(k).len() == 0);
                return Err(Error::LexerUnexpectedEndOfInput);
            },
            Some(token) => {
                assert(token@ == rest[k]);
                assert(rest.skip(k)[0] == rest[k]);
                assert(rest.skip(k).drop_first() =~= rest.skip(k + 1));
                match token {
                    Token::ArgumentBegin => {
                        counter += 1;
                    },
                    Token::ArgumentEnd => {
                        counter -= 1;
                    },
                    _ => {},
                }
                if counter != 0 {
                    let ghost before = group@;
                    group.push(token.clone());
                    assert(token_views(group@) =~= token_views(before).push(token@));
                    assert(rest.subrange(1, k).push(rest[k]) =~= rest.subrange(1, k + 1));
                } else {
                    let ghost before = group@;
                    group.push(Token::InputEnd);
                    assert(token_views(group@) =~= token_views(before).push(TokenView::InputEnd));
                    return Ok(group);
                }
            },
        }
    }
}

/// Whether a delimited argument is next: begin, text, end.
fn has_argument(tokens: &TokenCursor) -> (yes: bool)
    ensures
        tokens.position() <= tokens.all().len(),
        yes == starts_with_argument(tokens.remaining()),
{
    let begins = match tokens.peek(0) {
        Some(Token::ArgumentBegin) => true,
        _ => false,
    };
    let holds = match tokens.peek(1) {
        Some(Token::Argument(_)) => true,
        _ => false,
    };
    let ends = match tokens.peek(2) {
        Some(Token::ArgumentEnd) => true,
        _ => false,
    };
    begins && holds && ends
}

/// Whether an opening delimiter is next.
fn has_argument_begin(tokens: &TokenCursor) -> (yes: bool)
    ensures
        tokens.position() <= tokens.all().len(),
        yes == (tokens.remaining().len() > 0 && tokens.remaining()[0] == TokenView::ArgumentBegin),
{
    match tokens.peek(0) {
        Some(Token::ArgumentBegin) => true,
        _ => false,
    }
}

/// Reads a delimited argument as a `T` and hands the value to `producer`;
/// where no delimited argument is next, nothing is consumed and the query has
/// ended too early.
fn parse_argument<F, T>(producer: F, tokens: &mut TokenCursor) -> (result: Result<Bang>) where
    T: FromArgument,
    F: Fn(T) -> Bang,

    requires
        forall|value: T| call_requires(producer, (value,)),
    ensures
        final(tokens).all() == old(tokens).all(),
        old(tokens).position() <= old(tokens).all().len(),
        if starts_with_argument(old(tokens).remaining()) {
            let text = old(tokens).remaining()[1]->Argument_0;
            &&& final(tokens).position() == old(tokens).position() + 3
            &&& match T::read(text) {
                Some(read) => result matches Ok(bang) && exists|value: T|
                    value@ == read && call_ensures(producer, (value,), bang),
                None => result matches Err(error) && error@ == ErrorView::ParserInvalidInput(text),
            }
        } else {
            &&& final(tokens).position() == old(tokens).position()
            &&& result matches Err(error)
            &&& error@ == ErrorView::LexerUnexpectedEndOfInput
        },
{
    if has_argument(tokens) {
        let argument = extract_argument(tokens);
        parse_bang(producer, argument)
    } else {
        Err(Error::LexerUnexpectedEndOfInput)
    }
}

/// Reads a predicate of kind `kind` from the tokens that follow its mnemonic:
/// its value, where the kind holds one.
fn read_predicate(kind: BangType, tokens: &mut TokenCursor) -> (result: Result<Bang>)
    ensures
        final(tokens).all() == old(tokens).all(),
        outcome(result) == parse_predicate(kind@, old(tokens).remaining()).result,
        final(tokens).position() == old(tokens).position() + parse_predicate(
            kind@,
            old(tokens).remaining(),
        ).consumed,
{
    reveal(parse_predicate);
    match kind {
        BangType::TitleSearch => parse_argument(
            |text: String| -> (bang: Bang)
                ensures bang@ == BangView::TitleSearch(text@)
                { Bang::TitleSearch(text) },
            tokens,
        ),
        BangType::TitleSearchExact => parse_argument(
            |text: String| -> (bang: Bang)
                ensures bang@ == BangView::TitleSearchExact(text@)
                { Bang::TitleSearchExact(text) },
            tokens,
        ),
        BangType::FullTextSearch => parse_argument(
            |text: String| -> (bang: Bang)
                ensures bang@ == BangView::FullTextSearch(text@)
                { Bang::FullTextSearch(text) },
            tokens,
        ),
        BangType::FullTextSearchExact => parse_argument(
            |text: String| -> (bang: Bang)
                ensures bang@ == BangView::FullTextSearchExact(text@)
                { Bang::FullTextSearchExact(text) },
            tokens,
        ),
        BangType::AlbumTitle => parse_argument(
            |text: String| -> (bang: Bang)
                ensures bang@ == BangView::AlbumTitle(text@)
                { Bang::AlbumTitle(text) },
            tokens,
        ),
        BangType::AlbumTitleExact => parse_argument(
            |text: String| -> (bang: Bang)
                ensures bang@ == BangView::AlbumTitleExact(text@)
                { Bang::AlbumTitleExact(text) },
            tokens,
        ),
        BangType::AlbumArtists => parse_argument(
            |text: String| -> (bang: Bang)
                ensures bang@ == BangView::AlbumArtists(text@)
                { Bang::AlbumArtists(text) },
            tokens,
        ),
        BangType::AlbumArtistsExact => parse_argument(
            |text: String| -> (bang: Bang)
                ensures bang@ == BangView::AlbumArtistsExact(text@)
                { Bang::AlbumArtistsExact(text) },
            tokens,
        ),
        BangType::Artist => parse_argument(
            |text: String| -> (bang: Bang)
                ensures bang@ == BangView::Artist(text@)
                { Bang::Artist(text) },
            tokens,
        ),
        BangType::ArtistExact => parse_argument(
            |text: String| -> (bang: Bang)
                ensures bang@ == BangView::ArtistExact(text@)
                { Bang::ArtistExact(text) },
            tokens,
        ),
        BangType::Format => parse_argument(
            |format: TrackFileType| -> (bang: Bang)
                ensures bang@ == BangView::Format(format)
                { Bang::Format(format) },
            tokens,
        ),
        BangType::BitrateLessThan => parse_argument(
            |bound: i64| -> (bang: Bang)
                ensures bang@ == BangView::BitrateLessThan(bound)
                { Bang::BitrateLessThan(bound) },
            tokens,
        ),
        BangType::BitrateGreaterThan => parse_argument(
            |bound: i64| -> (bang: Bang)
                ensures bang@ == BangView::BitrateGreaterThan(bound)
                { Bang::BitrateGreaterThan(bound) },
            tokens,
        ),
        BangType::CoverArtWidthLessThan => parse_argument(
            |bound: i64| -> (bang: Bang)
                ensures bang@ == BangView::CoverArtWidthLessThan(bound)
                { Bang::CoverArtWidthLessThan(bound) },
            tokens,
        ),
        BangType::CoverArtWidthGreaterThan => parse_argument(
            |bound: i64| -> (bang: Bang)
                ensures bang@ == BangView::CoverArtWidthGreaterThan(bound)
                { Bang::CoverArtWidthGreaterThan(bound) },
            tokens,
        ),
        BangType::CoverArtHeightLessThan => parse_argument(
            |bound: i64| -> (bang: Bang)
                ensures bang@ == BangView::CoverArtHeightLessThan(bound)
                { Bang::CoverArtHeightLessThan(bound) },
            tokens,
        ),
        BangType::CoverArtHeightGreaterThan => parse_argument(
            |bound: i64| -> (bang: Bang)
                ensures bang@ == BangView::CoverArtHeightGreaterThan(bound)
                { Bang::CoverArtHeightGreaterThan(bound) },
            tokens,
        ),
        BangType::Unknown(unknown) => Err(Error::ParserUnknownBang(unknown)),
        BangType::HasCoverArt | BangType::HasMusicbrainzId | BangType::Duplicates
        | BangType::Grouping => Ok(Bang::All),
    }
}

/// Parses the query that starts at the cursor.
///
/// The cursor moves past every token that the query takes; nothing behind a
/// match-all literal is looked at.
pub fn parse_token_stream(tokens: &mut TokenCursor) -> (result: Result<Bang>)
    ensures
        final(tokens).all() == old(tokens).all(),
        outcome(result) == parse(old(tokens).remaining()).result,
        final(tokens).position() == old(tokens).position() + parse(old(tokens).remaining()).consumed,
    decreases old(tokens).remaining().len(), 1nat,
{
    let ghost input = old(tokens).remaining();
    let ghost start = old(tokens).position();
    match tokens.next() {
        Some(Token::BangPrefix) => {},
        Some(Token::MatchAll) => {
            return Ok(Bang::All);
        },
        Some(token) => {
            return Err(Error::ParserUnexpectedToken(token.clone()));
        },
        None => {
            return Err(Error::LexerUnexpectedEndOfInput);
        },
    }
    let kind = match tokens.next() {
        Some(Token::BangIdentifier(mnemonic)) => mnemonic.as_str().as_bang_type(),
        _ => {
            return Err(Error::LexerUnexpectedEndOfInput);
        },
    };
    assert(tokens.remaining() =~= input.skip(2));
    proof {
        lemma_parse_predicate_within(kind@, input.skip(2));
    }
    let lhs = match kind {
        BangType::Grouping => read_grouping(tokens),
        kind => read_predicate(kind, tokens),
    };
    let lhs = match lhs {
        Ok(bang) => bang,
        Err(error) => {
            return Err(error);
        },
    };
    proof {
        let at = (tokens.position() - start) as nat;
        assert(tokens.remaining() =~= input.skip(at as int));
        lemma_parse_chain_from(lhs@, input, at);
    }
    parse_continuation(lhs, tokens)
}

/// Reads a grouping from the tokens that follow its mnemonic: takes the
/// tokens between its delimiters and parses them as a query of their own.
fn read_grouping(tokens: &mut TokenCursor) -> (result: Result<Bang>)
    ensures
        final(tokens).all() == old(tokens).all(),
        outcome(result) == parse_grouping(old(tokens).remaining()).result,
        final(tokens).position() == old(tokens).position() + parse_grouping(
            old(tokens).remaining(),
        ).consumed,
        final(tokens).position() <= final(tokens).all().len(),
    decreases old(tokens).remaining().len(), 2nat,
{
    if !has_argument_begin(tokens) {
        return Err(Error::LexerUnexpectedEndOfInput);
    }
    proof {
        lemma_balance_length_bound(old(tokens).remaining().skip(1), 1);
    }
    let group = match take_until_braces_balanced(tokens) {
        Ok(group) => group,
        Err(error) => {
            return Err(error);
        },
    };
    let mut inner = TokenCursor::new(group.as_slice());
    assert(inner.remaining() =~= token_views(group@));
    match parse_token_stream(&mut inner) {
        Ok(bang) => Ok(Bang::Grouping(Box::new(bang))),
        Err(error) => Err(error),
    }
}

/// Reads what follows a parsed `lhs`: `InputEnd`, which ends the query, or
/// `&` or `|` and the query that is joined to `lhs`.
fn parse_continuation(lhs: Bang, tokens: &mut TokenCursor) -> (result: Result<Bang>)
    ensures
        final(tokens).all() == old(tokens).all(),
        outcome(result) == parse_chain(lhs@, old(tokens).remaining(), 0).result,
        final(tokens).position() == old(tokens).position() + parse_chain(
            lhs@,
            old(tokens).remaining(),
            0,
        ).consumed,
    decreases old(tokens).remaining().len(), 0nat,
{
    let ghost rest = old(tokens).remaining();
    match tokens.next() {
        Some(Token::InputEnd) => Ok(lhs),
        Some(Token::LogicalOperator(operator)) => {
            assert(tokens.remaining() =~= rest.skip(1));
            if *operator == '|' {
                match parse_token_stream(tokens) {
                    Ok(rhs) => Ok(Bang::LogicalOr(Box::new(lhs), Box::new(rhs))),
                    Err(error) => Err(error),
                }
            } else if *operator == '&' {
                match parse_token_stream(tokens) {
                    Ok(rhs) => Ok(Bang::LogicalAnd(Box::new(lhs), Box::new(rhs))),
                    Err(error) => Err(error),
                }
            } else {
                Err(Error::ParserUnknownBang(char_text(*operator)))
            }
        },
        Some(token) => Err(Error::ParserUnexpectedToken(token.clone())),
        None => Err(Error::LexerUnexpectedEndOfInput),
    }
}

} // verus!
