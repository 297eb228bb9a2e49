//! From the text of a query to its tokens.
//!
//! `!` starts a predicate or a grouping and is followed by the mnemonic. `{`
//! and `}` hold a predicate's argument, whose text is taken as it stands, or,
//! directly behind the grouping mnemonic `!`, a sub-query, which is lexed
//! like the query around it. `*` is the match-all literal. Blanks between
//! tokens are skipped, and any other character is read as an operator.

use vstd::prelude::*;
use crate::text::{chars_of, text_between};
use crate::token::{token_views, Token, TokenView};

verus! {

/// Whether `c` is a blank between tokens.
pub open spec fn is_space(c: char) -> bool {
    c == ' ' || c == '\t' || c == '\n' || c == '\r'
}

/// Whether `c` ends a mnemonic: a blank, or a character with a meaning of its
/// own outside an argument.
pub open spec fn is_special(c: char) -> bool {
    is_space(c) || c == '!' || c == '{' || c == '}' || c == '&' || c == '|' || c == '*'
}

/// Where the mnemonic that starts at index `from` ends: at the first special
/// character, or with the query.
pub open spec fn mnemonic_end(query: Seq<char>, from: int) -> int
    decreases query.len() - from,
{
    if from >= query.len() || is_special(query[from]) {
        from
    } else {
        mnemonic_end(query, from + 1)
    }
}

/// Where the argument text that starts at index `from` ends: the index of the
/// `}` that closes it, given that `depth` more `{` are open inside it. `None`
/// where the query ends before.
pub open spec fn argument_end(query: Seq<char>, from: int, depth: nat) -> Option<int>
    decreases query.len() - from,
{
    if from >= query.len() {
        None
    } else if query[from] == '}' {
        if depth == 0 {
            Some(from)
        } else {
            argument_end(query, from + 1, (depth - 1) as nat)
        }
    } else if query[from] == '{' {
        argument_end(query, from + 1, depth + 1)
    } else {
        argument_end(query, from + 1, depth)
    }
}

/// A mnemonic ends at or behind its start, within the query.
pub proof fn lemma_mnemonic_end_bounds(query: Seq<char>, from: int)
    ensures
        from <= mnemonic_end(query, from),
        from <= query.len() ==> mnemonic_end(query, from) <= query.len(),
    decreases query.len() - from,
{
    if !(from >= query.len() || is_special(query[from])) {
        lemma_mnemonic_end_bounds(query, from + 1);
    }
}

/// The `}` that closes an argument stands at or behind its start, within the
/// query.
pub proof fn lemma_argument_end_bounds(query: Seq<char>, from: int, depth: nat)
    ensures
        argument_end(query, from, depth) matches Some(end) ==> from <= end < query.len()
            && query[end] == '}',
    decreases query.len() - from,
{
    if from < query.len() {
        if query[from] == '}' {
            if depth > 0 {
                lemma_argument_end_bounds(query, from + 1, (depth - 1) as nat);
            }
        } else if query[from] == '{' {
            lemma_argument_end_bounds(query, from + 1, depth + 1);
        } else {
            lemma_argument_end_bounds(query, from + 1, depth);
        }
    }
}

/// Whether `part` stands in `query` from index `at` on.
pub open spec fn occurs(query: Seq<char>, at: int, part: Seq<char>) -> bool {
    &&& 0 <= at
    &&& at + part.len() <= query.len()
    &&& forall|i: int| 0 <= i < part.len() ==> query[at + i] == #[trigger] part[i]
}

/// Where two texts stand one behind the other, each of them stands.
pub proof fn lemma_occurs_split(query: Seq<char>, at: int, front: Seq<char>, back: Seq<char>)
    requires
        occurs(query, at, front + back),
    ensures
        occurs(query, at, front),
        occurs(query, at + front.len(), back),
{
    let whole = front + back;
    assert forall|i: int| 0 <= i < front.len() implies query[at + i] == #[trigger] front[i] by {
        assert(whole[i] == front[i]);
    }
    assert forall|i: int| 0 <= i < back.len() implies query[at + front.len() + i]
        == #[trigger] back[i] by {
        assert(whole[front.len() + i] == back[i]);
    }
}

/// A run of characters that are not special, with a special character or the
/// end of the query behind it, is a mnemonic from its first character to its
/// last.
pub proof fn lemma_mnemonic_end_of(query: Seq<char>, at: int, word: Seq<char>, seen: int)
    requires
        occurs(query, at, word),
        forall|i: int| 0 <= i < word.len() ==> !is_special(#[trigger] word[i]),
        at + word.len() == query.len() || is_special(query[at + word.len()]),
        0 <= seen <= word.len(),
    ensures
        mnemonic_end(query, at + seen) == at + word.len(),
    decreases word.len() - seen,
{
    if seen < word.len() {
        assert(query[at + seen] == word[seen]);
        lemma_mnemonic_end_of(query, at, word, seen + 1);
    }
}

/// Whether a `}` behind `text` closes it: every `{` in `text` has its `}` in
/// `text`, and every `}` in `text` its `{`.
pub open spec fn closed(text: Seq<char>) -> bool {
    argument_end(text.push('}'), 0, 0) == Some(text.len() as int)
}

/// Where the `}` that closes an argument stands depends on the characters up
/// to it alone.
pub proof fn lemma_argument_end_of(
    query: Seq<char>,
    at: int,
    part: Seq<char>,
    from: int,
    depth: nat,
)
    requires
        occurs(query, at, part),
        0 <= from,
        argument_end(part, from, depth) is Some,
    ensures
        argument_end(query, at + from, depth) == Some(at + argument_end(part, from, depth)->0),
    decreases part.len() - from,
{
    if from < part.len() {
        assert(query[at + from] == part[from]);
        if part[from] == '}' {
            if depth > 0 {
                lemma_argument_end_of(query, at, part, from + 1, (depth - 1) as nat);
            }
        } else if part[from] == '{' {
            lemma_argument_end_of(query, at, part, from + 1, depth + 1);
        } else {
            lemma_argument_end_of(query, at, part, from + 1, depth);
        }
    }
}

/// Text without `{` and `}` is closed.
pub proof fn lemma_closed_without_braces(text: Seq<char>)
    requires
        forall|i: int| 0 <= i < text.len() ==> #[trigger] text[i] != '{' && text[i] != '}',
    ensures
        closed(text),
{
    lemma_plain_run(text.push('}'), 0);
}

/// Behind a run of characters other than `{` and `}`, the first `}` closes
/// the argument.
proof fn lemma_plain_run(text: Seq<char>, from: int)
    requires
        text.len() > 0,
        text.last() == '}',
        0 <= from < text.len(),
        forall|i: int| 0 <= i < text.len() - 1 ==> #[trigger] text[i] != '{' && text[i] != '}',
    ensures
        argument_end(text, from, 0) == Some(text.len() - 1),
    decreases text.len() - from,
{
    if from < text.len() - 1 {
        assert(text[from] != '{' && text[from] != '}');
        lemma_plain_run(text, from + 1);
    }
}

/// The character at index `at` of `query`.
pub open spec fn char_at(query: Seq<char>, at: int) -> char {
    query[at]
}

/// The tokens of the part of `query` from index `at` on, with `InputEnd`
/// behind them.
#[verifier::opaque]
pub open spec fn lex_from(query: Seq<char>, at: int) -> Seq<TokenView>
    decreases query.len() - at,
{
    if at >= query.len() {
        seq![TokenView::InputEnd]
    } else {
        let c = char_at(query, at);
        if is_space(c) {
            lex_from(query, at + 1)
        } else if c == '!' {
            if at + 1 < query.len() && query[at + 1] == '!' {
                let grouping = TokenView::BangIdentifier(query.subrange(at + 1, at + 2));
                if at + 2 < query.len() && query[at + 2] == '{' {
                    seq![TokenView::BangPrefix, grouping, TokenView::ArgumentBegin] + lex_from(
                        query,
                        at + 3,
                    )
                } else {
                    seq![TokenView::BangPrefix, grouping] + lex_from(query, at + 2)
                }
            } else {
                let end = mnemonic_end(query, at + 1);
                proof {
                    lemma_mnemonic_end_bounds(query, at + 1);
                }
                if end == at + 1 {
                    seq![TokenView::BangPrefix] + lex_from(query, end)
                } else {
                    seq![
                        TokenView::BangPrefix,
                        TokenView::BangIdentifier(query.subrange(at + 1, end)),
                    ] + lex_from(query, end)
                }
            }
        } else if c == '{' {
            match argument_end(query, at + 1, 0) {
                Some(end) => {
                    proof {
                        lemma_argument_end_bounds(query, at + 1, 0);
                    }
                    seq![
                        TokenView::ArgumentBegin,
                        TokenView::Argument(query.subrange(at + 1, end)),
                        TokenView::ArgumentEnd,
                    ] + lex_from(query, end + 1)
                },
                None => seq![
                    TokenView::ArgumentBegin,
                    TokenView::Argument(query.subrange(at + 1, query.len() as int)),
                    TokenView::InputEnd,
                ],
            }
        } else if c == '}' {
            seq![TokenView::ArgumentEnd] + lex_from(query, at + 1)
        } else if c == '*' {
            seq![TokenView::MatchAll] + lex_from(query, at + 1)
        } else {
            seq![TokenView::LogicalOperator(c)] + lex_from(query, at + 1)
        }
    }
}

/// The tokens of `query`, with `InputEnd` behind them.
pub open spec fn lex(query: Seq<char>) -> Seq<TokenView> {
    lex_from(query, 0)
}

/// Whether `InputEnd` is the last of `tokens` and stands nowhere else.
pub open spec fn ends_once(tokens: Seq<TokenView>) -> bool {
    &&& tokens.len() > 0
    &&& tokens.last() == TokenView::InputEnd
    &&& forall|i: int| 0 <= i < tokens.len() - 1 ==> #[trigger] tokens[i] != TokenView::InputEnd
}

/// Tokens other than `InputEnd` in front of a sequence that ends once leave a
/// sequence that ends once.
proof fn lemma_ends_once_behind(front: Seq<TokenView>, rest: Seq<TokenView>)
    requires
        ends_once(rest),
        forall|i: int| 0 <= i < front.len() ==> #[trigger] front[i] != TokenView::InputEnd,
    ensures
        ends_once(front + rest),
{
    let all = front + rest;
    assert(all.last() == rest.last());
    assert forall|i: int| 0 <= i < all.len() - 1 implies #[trigger] all[i] != TokenView::InputEnd by {
        if i >= front.len() {
            assert(all[i] == rest[i - front.len()]);
        }
    }
}

/// Lexing ends in `InputEnd` and puts it nowhere else.
pub proof fn lemma_lex_from_ends_once(query: Seq<char>, at: int)
    requires
        0 <= at,
    ensures
        ends_once(lex_from(query, at)),
    decreases query.len() - at,
{
    reveal(lex_from);
    if at < query.len() {
        let c = query[at];
        if is_space(c) {
            lemma_lex_from_ends_once(query, at + 1);
        } else if c == '!' {
            if at + 1 < query.len() && query[at + 1] == '!' {
                let grouping = TokenView::BangIdentifier(query.subrange(at + 1, at + 2));
                if at + 2 < query.len() && query[at + 2] == '{' {
                    lemma_lex_from_ends_once(query, at + 3);
                    lemma_ends_once_behind(
                        seq![TokenView::BangPrefix, grouping, TokenView::ArgumentBegin],
                        lex_from(query, at + 3),
                    );
                } else {
                    lemma_lex_from_ends_once(query, at + 2);
                    lemma_ends_once_behind(
                        seq![TokenView::BangPrefix, grouping],
                        lex_from(query, at + 2),
                    );
                }
            } else {
                let end = mnemonic_end(query, at + 1);
                lemma_mnemonic_end_bounds(query, at + 1);
                lemma_lex_from_ends_once(query, end);
                if end == at + 1 {
                    lemma_ends_once_behind(seq![TokenView::BangPrefix], lex_from(query, end));
                } else {
                    lemma_ends_once_behind(
                        seq![
                            TokenView::BangPrefix,
                            TokenView::BangIdentifier(query.subrange(at + 1, end)),
                        ],
                        lex_from(query, end),
                    );
                }
            }
        } else if c == '{' {
            match argument_end(query, at + 1, 0) {
                Some(end) => {
                    lemma_argument_end_bounds(query, at + 1, 0);
                    lemma_lex_from_ends_once(query, end + 1);
                    lemma_ends_once_behind(
                        seq![
                            TokenView::ArgumentBegin,
                            TokenView::Argument(query.subrange(at + 1, end)),
                            TokenView::ArgumentEnd,
                        ],
                        lex_from(query, end + 1),
                    );
                },
                None => {},
            }
        } else if c == '}' {
            lemma_lex_from_ends_once(query, at + 1);
            lemma_ends_once_behind(seq![TokenView::ArgumentEnd], lex_from(query, at + 1));
        } else if c == '*' {
            lemma_lex_from_ends_once(query, at + 1);
            lemma_ends_once_behind(seq![TokenView::MatchAll], lex_from(query, at + 1));
        } else {
            lemma_lex_from_ends_once(query, at + 1);
            lemma_ends_once_behind(
                seq![TokenView::LogicalOperator(char_at(query, at))],
                lex_from(query, at + 1),
            );
        }
    }
}

/// Whether `c` is a blank between tokens.
fn space(c: char) -> (yes: bool)
    ensures
        yes == is_space(c),
{
    c == ' ' || c == '\t' || c == '\n' || c == '\r'
}

/// Whether `c` ends a mnemonic.
fn special(c: char) -> (yes: bool)
    ensures
        yes == is_special(c),
{
    space(c) || c == '!' || c == '{' || c == '}' || c == '&' || c == '|' || c == '*'
}

/// Finds where the mnemonic that starts at index `from` ends.
fn scan_mnemonic(chars: &Vec<char>, from: usize) -> (end: usize)
    requires
        from <= chars.len(),
    ensures
        end == mnemonic_end(chars@, from as int),
        from <= end <= chars.len(),
{
    let mut end: usize = from;
    while end < chars.len() && !special(chars[end])
        invariant
            from <= end <= chars.len(),
            mnemonic_end(chars@, from as int) == mnemonic_end(chars@, end as int),
        decreases chars.len() - end,
    {
        end += 1;
    }
    end
}

/// Finds the `}` that closes the argument text that starts at index `from`.
fn scan_argument(chars: &Vec<char>, from: usize) -> (end: Option<usize>)
    requires
        from <= chars.len(),
    ensures
        match end {
            Some(end) => argument_end(chars@, from as int, 0) == Some(end as int) && from <= end
                < chars.len(),
            None => argument_end(chars@, from as int, 0) is None,
        },
{
    let mut at: usize = from;
    let mut depth: usize = 0;
    while at < chars.len()
        invariant
            from <= at <= chars.len(),
            depth <= at - from,
            argument_end(chars@, from as int, 0) == argument_end(chars@, at as int, depth as nat),
        decreases chars.len() - at,
    {
        let c = chars[at];
        if c == '}' {
            if depth == 0 {
                return Some(at);
            }
            depth -= 1;
        } else if c == '{' {
            depth += 1;
        }
        at += 1;
    }
    None
}

/// Turns the text of a query into its tokens, with `InputEnd` behind them.
///
/// Every text has tokens: what is wrong with a query shows when it is parsed.
pub fn lex_query(query: &str) -> (tokens: Vec<Token>)
    ensures
        token_views(tokens@) == lex(query@),
        ends_once(token_views(tokens@)),
{
    let chars = chars_of(query);
    let n: usize = chars.len();
    let mut tokens: Vec<Token> = Vec::new();
    let mut i: usize = 0;
    assert(token_views(tokens@) + lex_from(query@, 0) =~= lex(query@));
    while i < n
        invariant
            chars@ == query@,
            n == chars.len(),
            i <= n,
            token_views(tokens@) + lex_from(query@, i as int) == lex(query@),
        decreases n - i,
    {
        let c = chars[i];
        let ghost before = token_views(tokens@);
        let ghost rest = lex_from(query@, i as int);
        let ghost added: Seq<TokenView>;
        let next: usize;
        if space(c) {
            next = i + 1;
            proof {
                added = seq![];
            }
        } else if c == '!' {
            tokens.push(Token::BangPrefix);
            if i + 1 < n && chars[i + 1] == '!' {
                tokens.push(Token::BangIdentifier(text_between(query, i + 1, i + 2)));
                if i + 2 < n && chars[i + 2] == '{' {
                    tokens.push(Token::ArgumentBegin);
                    next = i + 3;
                    proof {
                        added = seq![
                            TokenView::BangPrefix,
                            TokenView::BangIdentifier(query@.subrange(i + 1, i + 2)),
                            TokenView::ArgumentBegin,
                        ];
                    }
                } else {
                    next = i + 2;
                    proof {
                        added = seq![
                            TokenView::BangPrefix,
                            TokenView::BangIdentifier(query@.subrange(i + 1, i + 2)),
                        ];
                    }
                }
            } else {
                next = scan_mnemonic(&chars, i + 1);
                if next > i + 1 {
                    tokens.push(Token::BangIdentifier(text_between(query, i + 1, next)));
                    proof {
                        added = seq![
                            TokenView::BangPrefix,
                            TokenView::BangIdentifier(query@.subrange(i + 1, next as int)),
                        ];
                    }
                } else {
                    proof {
                        added = seq![TokenView::BangPrefix];
                    }
                }
            }
        } else if c == '{' {
            tokens.push(Token::ArgumentBegin);
            match scan_argument(&chars, i + 1) {
                Some(end) => {
                    tokens.push(Token::Argument(text_between(query, i + 1, end)));
                    tokens.push(Token::ArgumentEnd);
                    next = end + 1;
                    proof {
                        added = seq![
                            TokenView::ArgumentBegin,
                            TokenView::Argument(query@.subrange(i + 1, end as int)),
                            TokenView::ArgumentEnd,
                        ];
                    }
                },
                None => {
                    tokens.push(Token::Argument(text_between(query, i + 1, n)));
                    next = n;
                    proof {
                        added = seq![
                            TokenView::ArgumentBegin,
                            TokenView::Argument(query@.subrange(i + 1, n as int)),
                        ];
                    }
                },
            }
        } else if c == '}' {
            tokens.push(Token::ArgumentEnd);
            next = i + 1;
            proof {
                added = seq![TokenView::ArgumentEnd];
            }
        } else if c == '*' {
            tokens.push(Token::MatchAll);
            next = i + 1;
            proof {
                added = seq![TokenView::MatchAll];
            }
        } else {
            tokens.push(Token::LogicalOperator(c));
            next = i + 1;
            proof {
                added = seq![TokenView::LogicalOperator(c)];
            }
        }
        proof {
            reveal(lex_from);
            assert(token_views(tokens@) =~= before + added);
            assert(rest =~= added + lex_from(query@, next as int));
            assert((before + added) + lex_from(query@, next as int) =~= before + (added + lex_from(
                query@,
                next as int,
            )));
        }
        i = next;
    }
    let ghost before = token_views(tokens@);
    tokens.push(Token::InputEnd);
    proof {
        reveal(lex_from);
        assert(token_views(tokens@) =~= before + seq![TokenView::InputEnd]);
        lemma_lex_from_ends_once(query@, 0);
    }
    tokens
}

} // verus!
