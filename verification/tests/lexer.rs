use bangs::lexer::lex_query;
use bangs::token::{Token, TokenCursor};

fn ident(text: &str) -> Token {
    Token::BangIdentifier(text.to_owned())
}

fn arg(text: &str) -> Token {
    Token::Argument(text.to_owned())
}

#[test]
fn empty_query_lexes_to_input_end() {
    assert_eq!(lex_query(""), vec![Token::InputEnd]);
    assert_eq!(lex_query(" \t\r\n"), vec![Token::InputEnd]);
}

#[test]
fn predicate_with_argument_lexes_to_five_tokens() {
    assert_eq!(
        lex_query("!t{foo}"),
        vec![
            Token::BangPrefix,
            ident("t"),
            Token::ArgumentBegin,
            arg("foo"),
            Token::ArgumentEnd,
            Token::InputEnd,
        ]
    );
}

#[test]
fn argument_text_is_taken_as_it_stands() {
    assert_eq!(
        lex_query("!t{ a & b | !c * }"),
        vec![
            Token::BangPrefix,
            ident("t"),
            Token::ArgumentBegin,
            arg(" a & b | !c * "),
            Token::ArgumentEnd,
            Token::InputEnd,
        ]
    );
}

#[test]
fn argument_ends_at_its_matching_delimiter() {
    assert_eq!(
        lex_query("!t{a{b}c{{}}}|"),
        vec![
            Token::BangPrefix,
            ident("t"),
            Token::ArgumentBegin,
            arg("a{b}c{{}}"),
            Token::ArgumentEnd,
            Token::LogicalOperator('|'),
            Token::InputEnd,
        ]
    );
}

#[test]
fn argument_without_end_runs_to_the_end_of_the_query() {
    assert_eq!(
        lex_query("!t{a{b}"),
        vec![Token::BangPrefix, ident("t"), Token::ArgumentBegin, arg("a{b}"), Token::InputEnd]
    );
    assert_eq!(
        lex_query("!t{"),
        vec![Token::BangPrefix, ident("t"), Token::ArgumentBegin, arg(""), Token::InputEnd]
    );
}

#[test]
fn argument_keeps_characters_beyond_ascii() {
    assert_eq!(
        lex_query("!ar{Bj\u{f6}rk}"),
        vec![
            Token::BangPrefix,
            ident("ar"),
            Token::ArgumentBegin,
            arg("Bj\u{f6}rk"),
            Token::ArgumentEnd,
            Token::InputEnd,
        ]
    );
}

#[test]
fn grouping_is_lexed_like_the_query_around_it() {
    assert_eq!(
        lex_query("!!{!t{a} & *}"),
        vec![
            Token::BangPrefix,
            ident("!"),
            Token::ArgumentBegin,
            Token::BangPrefix,
            ident("t"),
            Token::ArgumentBegin,
            arg("a"),
            Token::ArgumentEnd,
            Token::LogicalOperator('&'),
            Token::MatchAll,
            Token::ArgumentEnd,
            Token::InputEnd,
        ]
    );
}

#[test]
fn grouping_mnemonic_stands_alone() {
    assert_eq!(lex_query("!!"), vec![Token::BangPrefix, ident("!"), Token::InputEnd]);
    assert_eq!(
        lex_query("!!t"),
        vec![Token::BangPrefix, ident("!"), Token::LogicalOperator('t'), Token::InputEnd]
    );
    assert_eq!(
        lex_query("!! {a}"),
        vec![
            Token::BangPrefix,
            ident("!"),
            Token::ArgumentBegin,
            arg("a"),
            Token::ArgumentEnd,
            Token::InputEnd,
        ]
    );
}

#[test]
fn mnemonic_runs_to_the_next_special_character() {
    assert_eq!(lex_query("!alar"), vec![Token::BangPrefix, ident("alar"), Token::InputEnd]);
    assert_eq!(
        lex_query("!no-such&"),
        vec![Token::BangPrefix, ident("no-such"), Token::LogicalOperator('&'), Token::InputEnd]
    );
    assert_eq!(
        lex_query("!a !b*"),
        vec![
            Token::BangPrefix,
            ident("a"),
            Token::BangPrefix,
            ident("b"),
            Token::MatchAll,
            Token::InputEnd,
        ]
    );
}

#[test]
fn prefix_without_mnemonic_stands_alone() {
    assert_eq!(lex_query("!"), vec![Token::BangPrefix, Token::InputEnd]);
    assert_eq!(
        lex_query("! {x}"),
        vec![Token::BangPrefix, Token::ArgumentBegin, arg("x"), Token::ArgumentEnd, Token::InputEnd]
    );
}

#[test]
fn other_characters_are_operators() {
    assert_eq!(
        lex_query("& | ^ x }"),
        vec![
            Token::LogicalOperator('&'),
            Token::LogicalOperator('|'),
            Token::LogicalOperator('^'),
            Token::LogicalOperator('x'),
            Token::ArgumentEnd,
            Token::InputEnd,
        ]
    );
}

#[test]
fn match_all_is_one_token() {
    assert_eq!(lex_query("*"), vec![Token::MatchAll, Token::InputEnd]);
    assert_eq!(lex_query("**"), vec![Token::MatchAll, Token::MatchAll, Token::InputEnd]);
}

#[test]
fn input_end_is_last_and_only_last() {
    for query in ["", "!t{a}", "!t{a", "!!{!!{*}}", "}}}{", "!q{\u{1F3B5}} & !dup"] {
        let tokens = lex_query(query);
        assert_eq!(tokens.last(), Some(&Token::InputEnd));
        assert!(tokens[..tokens.len() - 1].iter().all(|t| *t != Token::InputEnd));
    }
}

#[test]
fn cursor_walks_forward_only() {
    let tokens = vec![Token::BangPrefix, Token::MatchAll];
    let mut cursor = TokenCursor::new(&tokens);
    assert_eq!(cursor.consumed(), 0);
    assert_eq!(cursor.peek(0), Some(&Token::BangPrefix));
    assert_eq!(cursor.peek(1), Some(&Token::MatchAll));
    assert_eq!(cursor.peek(2), None);
    assert_eq!(cursor.consumed(), 0);
    assert_eq!(cursor.next(), Some(&Token::BangPrefix));
    assert_eq!(cursor.peek(0), Some(&Token::MatchAll));
    assert_eq!(cursor.peek(1), None);
    assert_eq!(cursor.next(), Some(&Token::MatchAll));
    assert_eq!(cursor.consumed(), 2);
    assert_eq!(cursor.next(), None);
    assert_eq!(cursor.peek(0), None);
    assert_eq!(cursor.consumed(), 2);
}

#[test]
fn token_clone_is_equal() {
    for token in [ident("al"), arg("x y"), Token::LogicalOperator('&'), Token::InputEnd] {
        assert_eq!(token.clone(), token);
    }
}
