use bangs::bang::Bang;
use bangs::error::Error;
use bangs::lexer::lex_query;
use bangs::parser::{extract_argument, parse_bang, parse_token_stream, take_until_braces_balanced};
use bangs::query::parse_query;
use bangs::token::{Token, TokenCursor};
use bangs::track::TrackFileType;

fn title(text: &str) -> Bang {
    Bang::TitleSearch(text.to_owned())
}

fn ident(text: &str) -> Token {
    Token::BangIdentifier(text.to_owned())
}

fn arg(text: &str) -> Token {
    Token::Argument(text.to_owned())
}

fn parse_all(tokens: &[Token]) -> (Result<Bang, Error>, usize) {
    let mut cursor = TokenCursor::new(tokens);
    let result = parse_token_stream(&mut cursor);
    (result, cursor.consumed())
}

#[test]
fn title_search_holds_its_argument() {
    assert_eq!(parse_query("!t{foo}"), Ok(title("foo")));
}

#[test]
fn every_text_predicate_holds_its_argument() {
    assert_eq!(parse_query("!T{a b}"), Ok(Bang::TitleSearchExact("a b".to_owned())));
    assert_eq!(parse_query("!q{x}"), Ok(Bang::FullTextSearch("x".to_owned())));
    assert_eq!(parse_query("!Q{x}"), Ok(Bang::FullTextSearchExact("x".to_owned())));
    assert_eq!(parse_query("!al{x}"), Ok(Bang::AlbumTitle("x".to_owned())));
    assert_eq!(parse_query("!AL{x}"), Ok(Bang::AlbumTitleExact("x".to_owned())));
    assert_eq!(parse_query("!alar{x}"), Ok(Bang::AlbumArtists("x".to_owned())));
    assert_eq!(parse_query("!ALAR{x}"), Ok(Bang::AlbumArtistsExact("x".to_owned())));
    assert_eq!(parse_query("!ar{x}"), Ok(Bang::Artist("x".to_owned())));
    assert_eq!(parse_query("!AR{x}"), Ok(Bang::ArtistExact("x".to_owned())));
    assert_eq!(parse_query("!t{}"), Ok(title("")));
}

#[test]
fn format_holds_the_named_format() {
    assert_eq!(parse_query("!f{flac}"), Ok(Bang::Format(TrackFileType::Flac)));
    assert_eq!(parse_query("!f{opus}"), Ok(Bang::Format(TrackFileType::Opus)));
}

#[test]
fn format_rejects_an_unknown_name() {
    assert_eq!(parse_query("!f{tape}"), Err(Error::ParserInvalidInput("tape".to_owned())));
}

#[test]
fn numeric_bounds_hold_their_number() {
    assert_eq!(parse_query("!brlt{320}"), Ok(Bang::BitrateLessThan(320)));
    assert_eq!(parse_query("!brgt{128}"), Ok(Bang::BitrateGreaterThan(128)));
    assert_eq!(parse_query("!cwlt{500}"), Ok(Bang::CoverArtWidthLessThan(500)));
    assert_eq!(parse_query("!cwgt{-1}"), Ok(Bang::CoverArtWidthGreaterThan(-1)));
    assert_eq!(parse_query("!chlt{+7}"), Ok(Bang::CoverArtHeightLessThan(7)));
    assert_eq!(parse_query("!chgt{0}"), Ok(Bang::CoverArtHeightGreaterThan(0)));
}

#[test]
fn numeric_bound_rejects_text_that_is_no_number() {
    assert_eq!(parse_query("!brlt{fast}"), Err(Error::ParserInvalidInput("fast".to_owned())));
    assert_eq!(parse_query("!chgt{}"), Err(Error::ParserInvalidInput("".to_owned())));
    assert_eq!(
        parse_query("!cwlt{9223372036854775808}"),
        Err(Error::ParserInvalidInput("9223372036854775808".to_owned()))
    );
}

#[test]
fn invalid_input_comes_before_what_follows_it() {
    assert_eq!(parse_query("!brlt{x} !t{a}"), Err(Error::ParserInvalidInput("x".to_owned())));
}

#[test]
fn and_joins_two_predicates_in_source_order() {
    assert_eq!(
        parse_query("!t{a} & !ar{b}"),
        Ok(Bang::LogicalAnd(Box::new(title("a")), Box::new(Bang::Artist("b".to_owned()))))
    );
}

#[test]
fn or_joins_two_predicates_in_source_order() {
    assert_eq!(
        parse_query("!t{a}|!t{b}"),
        Ok(Bang::LogicalOr(Box::new(title("a")), Box::new(title("b"))))
    );
}

#[test]
fn chains_associate_to_the_right() {
    assert_eq!(
        parse_query("!t{a} | !t{b} | !t{c}"),
        Ok(Bang::LogicalOr(
            Box::new(title("a")),
            Box::new(Bang::LogicalOr(Box::new(title("b")), Box::new(title("c"))))
        ))
    );
}

#[test]
fn and_and_or_have_no_precedence() {
    assert_eq!(
        parse_query("!t{a} & !t{b} | !t{c}"),
        Ok(Bang::LogicalAnd(
            Box::new(title("a")),
            Box::new(Bang::LogicalOr(Box::new(title("b")), Box::new(title("c"))))
        ))
    );
}

#[test]
fn grouping_wraps_its_sub_query() {
    assert_eq!(
        parse_query("!!{!t{a} & !t{b}}"),
        Ok(Bang::Grouping(Box::new(Bang::LogicalAnd(
            Box::new(title("a")),
            Box::new(title("b"))
        ))))
    );
}

#[test]
fn grouping_overrides_the_chaining_order() {
    assert_eq!(
        parse_query("!!{!t{a} | !t{b}} & !t{c}"),
        Ok(Bang::LogicalAnd(
            Box::new(Bang::Grouping(Box::new(Bang::LogicalOr(
                Box::new(title("a")),
                Box::new(title("b"))
            )))),
            Box::new(title("c"))
        ))
    );
}

#[test]
fn nested_groupings_balance() {
    assert_eq!(
        parse_query("!!{!!{!t{a}} | !t{b}} & !t{c}"),
        Ok(Bang::LogicalAnd(
            Box::new(Bang::Grouping(Box::new(Bang::LogicalOr(
                Box::new(Bang::Grouping(Box::new(title("a")))),
                Box::new(title("b"))
            )))),
            Box::new(title("c"))
        ))
    );
}

#[test]
fn match_all_parses_to_all() {
    assert_eq!(parse_query("*"), Ok(Bang::All));
}

#[test]
fn match_all_ignores_what_follows() {
    assert_eq!(parse_query("* & !zz{x}"), Ok(Bang::All));
    let tokens = vec![Token::MatchAll, Token::ArgumentEnd, Token::BangPrefix];
    assert_eq!(parse_all(&tokens), (Ok(Bang::All), 1));
}

#[test]
fn match_all_can_end_a_chain() {
    assert_eq!(
        parse_query("!t{a} | *"),
        Ok(Bang::LogicalOr(Box::new(title("a")), Box::new(Bang::All)))
    );
}

#[test]
fn unknown_mnemonic_is_reported_with_its_text() {
    assert_eq!(parse_query("!zz"), Err(Error::ParserUnknownBang("zz".to_owned())));
    assert_eq!(parse_query("!zz{foo}"), Err(Error::ParserUnknownBang("zz".to_owned())));
    assert_eq!(parse_query("!t{a} & !Zz{b}"), Err(Error::ParserUnknownBang("Zz".to_owned())));
}

#[test]
fn unknown_operator_is_reported_with_its_character() {
    assert_eq!(parse_query("!t{a} ^ !t{b}"), Err(Error::ParserUnknownBang("^".to_owned())));
    let tokens = vec![
        Token::BangPrefix,
        ident("c"),
        Token::LogicalOperator('\u{e9}'),
        Token::InputEnd,
    ];
    assert_eq!(parse_all(&tokens), (Err(Error::ParserUnknownBang("\u{e9}".to_owned())), 3));
}

#[test]
fn predicates_without_value_match_everything() {
    assert_eq!(parse_query("!c"), Ok(Bang::All));
    assert_eq!(parse_query("!mb"), Ok(Bang::All));
    assert_eq!(parse_query("!dup"), Ok(Bang::All));
    assert_eq!(
        parse_query("!c & !t{a}"),
        Ok(Bang::LogicalAnd(Box::new(Bang::All), Box::new(title("a"))))
    );
}

#[test]
fn empty_query_is_an_unexpected_token() {
    assert_eq!(parse_query(""), Err(Error::ParserUnexpectedToken(Token::InputEnd)));
}

#[test]
fn no_tokens_at_all_is_an_unexpected_end() {
    assert_eq!(parse_all(&[]), (Err(Error::LexerUnexpectedEndOfInput), 0));
}

#[test]
fn first_token_must_start_a_query() {
    assert_eq!(
        parse_query("& !t{a}"),
        Err(Error::ParserUnexpectedToken(Token::LogicalOperator('&')))
    );
    assert_eq!(parse_query("{a}"), Err(Error::ParserUnexpectedToken(Token::ArgumentBegin)));
}

#[test]
fn prefix_without_mnemonic_is_an_unexpected_end() {
    assert_eq!(parse_query("!"), Err(Error::LexerUnexpectedEndOfInput));
    assert_eq!(parse_all(&[Token::BangPrefix]), (Err(Error::LexerUnexpectedEndOfInput), 1));
    assert_eq!(
        parse_all(&[Token::BangPrefix, Token::MatchAll, Token::InputEnd]),
        (Err(Error::LexerUnexpectedEndOfInput), 2)
    );
}

#[test]
fn missing_argument_is_an_unexpected_end() {
    assert_eq!(parse_query("!t"), Err(Error::LexerUnexpectedEndOfInput));
    assert_eq!(parse_query("!t{foo"), Err(Error::LexerUnexpectedEndOfInput));
    assert_eq!(parse_query("!t & !t{a}"), Err(Error::LexerUnexpectedEndOfInput));
    let tokens = vec![Token::BangPrefix, ident("t"), Token::ArgumentBegin, arg("a"), Token::InputEnd];
    assert_eq!(parse_all(&tokens), (Err(Error::LexerUnexpectedEndOfInput), 2));
}

#[test]
fn grouping_without_delimiters_is_an_unexpected_end() {
    assert_eq!(parse_query("!!"), Err(Error::LexerUnexpectedEndOfInput));
    assert_eq!(parse_query("!! & !t{a}"), Err(Error::LexerUnexpectedEndOfInput));
    assert_eq!(parse_query("!!{!t{a}"), Err(Error::LexerUnexpectedEndOfInput));
}

#[test]
fn error_inside_a_grouping_is_reported() {
    assert_eq!(parse_query("!!{!zz{a}}"), Err(Error::ParserUnknownBang("zz".to_owned())));
    assert_eq!(parse_query("!!{}"), Err(Error::ParserUnexpectedToken(Token::InputEnd)));
}

#[test]
fn token_after_a_predicate_must_end_or_join() {
    assert_eq!(parse_query("!t{a} !t{b}"), Err(Error::ParserUnexpectedToken(Token::BangPrefix)));
    assert_eq!(parse_query("!t{a} *"), Err(Error::ParserUnexpectedToken(Token::MatchAll)));
    let tokens = vec![Token::BangPrefix, ident("t"), Token::ArgumentBegin, arg("a"), Token::ArgumentEnd];
    assert_eq!(parse_all(&tokens), (Err(Error::LexerUnexpectedEndOfInput), 5));
}

#[test]
fn operator_without_right_hand_side_is_an_error() {
    assert_eq!(parse_query("!t{a} &"), Err(Error::ParserUnexpectedToken(Token::InputEnd)));
}

#[test]
fn valid_query_is_read_through_input_end() {
    for query in ["!t{a}", "!t{a} & !f{mp3}", "!!{!t{a} | !brlt{3}} & !c", "!dup"] {
        let tokens = lex_query(query);
        let (result, consumed) = parse_all(&tokens);
        assert!(result.is_ok());
        assert_eq!(consumed, tokens.len());
        assert_eq!(tokens[consumed - 1], Token::InputEnd);
    }
}

#[test]
fn parsing_is_deterministic() {
    let tokens = lex_query("!!{!t{a} | !t{b}} & !ar{c}");
    assert_eq!(parse_all(&tokens), parse_all(&tokens));
}

#[test]
fn token_form_of_a_tree_parses_back_to_it() {
    let tree = Bang::LogicalOr(
        Box::new(Bang::Grouping(Box::new(Bang::LogicalAnd(
            Box::new(Bang::BitrateGreaterThan(-320)),
            Box::new(Bang::Format(TrackFileType::Vorbis)),
        )))),
        Box::new(Bang::LogicalAnd(Box::new(title("a{b}")), Box::new(Bang::All))),
    );
    let tokens = vec![
        Token::BangPrefix,
        ident("!"),
        Token::ArgumentBegin,
        Token::BangPrefix,
        ident("brgt"),
        Token::ArgumentBegin,
        arg("-320"),
        Token::ArgumentEnd,
        Token::LogicalOperator('&'),
        Token::BangPrefix,
        ident("f"),
        Token::ArgumentBegin,
        arg("vorbis"),
        Token::ArgumentEnd,
        Token::ArgumentEnd,
        Token::LogicalOperator('|'),
        Token::BangPrefix,
        ident("t"),
        Token::ArgumentBegin,
        arg("a{b}"),
        Token::ArgumentEnd,
        Token::LogicalOperator('&'),
        Token::MatchAll,
        Token::InputEnd,
    ];
    assert_eq!(parse_all(&tokens), (Ok(tree.clone()), 23));
    assert_eq!(parse_query("!!{!brgt{-320}&!f{vorbis}}|!t{a{b}}&*"), Ok(tree));
}

#[test]
fn extract_argument_takes_three_and_returns_the_middle() {
    let tokens = vec![Token::ArgumentBegin, arg("x"), Token::ArgumentEnd, Token::InputEnd];
    let mut cursor = TokenCursor::new(&tokens);
    assert_eq!(extract_argument(&mut cursor), arg("x"));
    assert_eq!(cursor.consumed(), 3);
    assert_eq!(cursor.next(), Some(&Token::InputEnd));
}

#[test]
fn extract_argument_does_not_look_at_the_tokens() {
    let tokens = vec![Token::MatchAll, Token::BangPrefix, Token::InputEnd];
    let mut cursor = TokenCursor::new(&tokens);
    assert_eq!(extract_argument(&mut cursor), Token::BangPrefix);
    assert_eq!(cursor.consumed(), 3);
}

#[test]
fn extract_argument_stops_where_the_tokens_end() {
    let tokens = vec![Token::ArgumentBegin, arg("x")];
    let mut cursor = TokenCursor::new(&tokens);
    assert_eq!(extract_argument(&mut cursor), arg("x"));
    assert_eq!(cursor.consumed(), 2);
}

#[test]
fn parse_bang_reads_the_argument_as_the_producer_wants() {
    assert_eq!(parse_bang(|text: String| Bang::Artist(text), arg("x")), Ok(Bang::Artist("x".to_owned())));
    assert_eq!(parse_bang(|n: i64| Bang::BitrateLessThan(n), arg("-12")), Ok(Bang::BitrateLessThan(-12)));
    assert_eq!(
        parse_bang(|f: TrackFileType| Bang::Format(f), arg("aac")),
        Ok(Bang::Format(TrackFileType::Aac))
    );
}

#[test]
fn parse_bang_reports_text_that_does_not_read() {
    assert_eq!(
        parse_bang(|n: i64| Bang::BitrateLessThan(n), arg("12k")),
        Err(Error::ParserInvalidInput("12k".to_owned()))
    );
    assert_eq!(
        parse_bang(|f: TrackFileType| Bang::Format(f), arg("FLAC")),
        Err(Error::ParserInvalidInput("FLAC".to_owned()))
    );
}

#[test]
fn parse_bang_wants_an_argument_token() {
    assert_eq!(
        parse_bang(|text: String| Bang::Artist(text), Token::ArgumentEnd),
        Err(Error::LexerUnexpectedEndOfInput)
    );
    assert_eq!(
        parse_bang(|text: String| Bang::Artist(text), ident("x")),
        Err(Error::LexerUnexpectedEndOfInput)
    );
}

#[test]
fn take_until_braces_balanced_takes_what_is_between() {
    let tokens = vec![Token::ArgumentBegin, Token::MatchAll, Token::ArgumentEnd, Token::InputEnd];
    let mut cursor = TokenCursor::new(&tokens);
    assert_eq!(take_until_braces_balanced(&mut cursor), Ok(vec![Token::MatchAll, Token::InputEnd]));
    assert_eq!(cursor.consumed(), 3);
}

#[test]
fn take_until_braces_balanced_keeps_nested_delimiters() {
    let tokens = lex_query("{x}");
    assert_eq!(tokens, vec![Token::ArgumentBegin, arg("x"), Token::ArgumentEnd, Token::InputEnd]);
    let tokens = vec![
        Token::ArgumentBegin,
        Token::BangPrefix,
        ident("t"),
        Token::ArgumentBegin,
        arg("a"),
        Token::ArgumentEnd,
        Token::ArgumentEnd,
        Token::LogicalOperator('&'),
        Token::ArgumentEnd,
    ];
    let mut cursor = TokenCursor::new(&tokens);
    assert_eq!(
        take_until_braces_balanced(&mut cursor),
        Ok(vec![
            Token::BangPrefix,
            ident("t"),
            Token::ArgumentBegin,
            arg("a"),
            Token::ArgumentEnd,
            Token::InputEnd,
        ])
    );
    assert_eq!(cursor.consumed(), 7);
}

#[test]
fn take_until_braces_balanced_takes_an_empty_group() {
    let tokens = vec![Token::ArgumentBegin, Token::ArgumentEnd];
    let mut cursor = TokenCursor::new(&tokens);
    assert_eq!(take_until_braces_balanced(&mut cursor), Ok(vec![Token::InputEnd]));
    assert_eq!(cursor.consumed(), 2);
}

#[test]
fn take_until_braces_balanced_fails_where_nothing_closes() {
    let tokens = vec![Token::ArgumentBegin, Token::ArgumentBegin, Token::ArgumentEnd, Token::InputEnd];
    let mut cursor = TokenCursor::new(&tokens);
    assert_eq!(take_until_braces_balanced(&mut cursor), Err(Error::LexerUnexpectedEndOfInput));
    assert_eq!(cursor.consumed(), 4);
}
