//! Lexical units of a query, and a forward-only cursor over them.

use vstd::prelude::*;

verus! {

/// A lexical unit of a query.
#[derive(Debug, PartialEq, Eq)]
pub enum Token {
    /// Starts a predicate or a grouping.
    BangPrefix,
    /// The mnemonic that follows a prefix.
    BangIdentifier(String),
    /// Opens a predicate's argument or a grouping's sub-query.
    ArgumentBegin,
    /// Closes what `ArgumentBegin` opened.
    ArgumentEnd,
    /// The raw text between the two delimiters.
    Argument(String),
    /// A connective between two query fragments.
    LogicalOperator(char),
    /// The literal that selects everything.
    MatchAll,
    /// Sentinel after the last real token.
    InputEnd,
}

/// What a [`Token`] is, with text as a sequence of characters.
pub ghost enum TokenView {
    BangPrefix,
    BangIdentifier(Seq<char>),
    ArgumentBegin,
    ArgumentEnd,
    Argument(Seq<char>),
    LogicalOperator(char),
    MatchAll,
    InputEnd,
}

impl View for Token {
    type V = TokenView;

    open spec fn view(&self) -> TokenView {
        match self {
            Token::BangPrefix => TokenView::BangPrefix,
            Token::BangIdentifier(text) => TokenView::BangIdentifier(text@),
            Token::ArgumentBegin => TokenView::ArgumentBegin,
            Token::ArgumentEnd => TokenView::ArgumentEnd,
            Token::Argument(text) => TokenView::Argument(text@),
            Token::LogicalOperator(c) => TokenView::LogicalOperator(*c),
            Token::MatchAll => TokenView::MatchAll,
            Token::InputEnd => TokenView::InputEnd,
        }
    }
}

impl Clone for Token {
    fn clone(&self) -> (copy: Token)
        ensures
            copy@ == self@,
    {
        match self {
            Token::BangPrefix => Token::BangPrefix,
            Token::BangIdentifier(text) => Token::BangIdentifier(text.clone()),
            Token::ArgumentBegin => Token::ArgumentBegin,
            Token::ArgumentEnd => Token::ArgumentEnd,
            Token::Argument(text) => Token::Argument(text.clone()),
            Token::LogicalOperator(c) => Token::LogicalOperator(*c),
            Token::MatchAll => Token::MatchAll,
            Token::InputEnd => Token::InputEnd,
        }
    }
}

/// The views of a sequence of tokens, in order.
pub open spec fn token_views(tokens: Seq<Token>) -> Seq<TokenView> {
    tokens.map_values(|t: Token| t@)
}

/// A position in an immutable token sequence that only moves forward.
pub struct TokenCursor<'a> {
    tokens: &'a [Token],
    pos: usize,
}

impl<'a> TokenCursor<'a> {
    #[verifier::type_invariant]
    spec fn in_bounds(self) -> bool {
        self.pos <= self.tokens@.len()
    }

    /// The whole sequence that the cursor walks.
    pub closed spec fn all(self) -> Seq<TokenView> {
        token_views(self.tokens@)
    }

    /// How many tokens have been consumed.
    pub closed spec fn position(self) -> nat {
        self.pos as nat
    }

    /// The tokens that have not been consumed yet.
    pub open spec fn remaining(self) -> Seq<TokenView> {
        self.all().skip(self.position() as int)
    }

    /// A cursor at the start of `tokens`.
    pub fn new(tokens: &'a [Token]) -> (cursor: TokenCursor<'a>)
        ensures
            cursor.all() == token_views(tokens@),
            cursor.position() == 0,
    {
        TokenCursor { tokens, pos: 0 }
    }

    /// How many tokens have been consumed.
    pub fn consumed(&self) -> (count: usize)
        ensures
            count == self.position(),
            self.position() <= self.all().len(),
    {
        proof {
            use_type_invariant(self);
        }
        self.pos
    }

    /// Consumes one token, if any is left.
    pub fn next(&mut self) -> (token: Option<&'a Token>)
        ensures
            final(self).all() == old(self).all(),
            old(self).position() <= old(self).all().len() <= usize::MAX,
            match token {
                Some(t) => {
                    &&& old(self).position() < old(self).all().len()
                    &&& t@ == old(self).all()[old(self).position() as int]
                    &&& final(self).position() == old(self).position() + 1
                },
                None => {
                    &&& old(self).position() == old(self).all().len()
                    &&& final(self).position() == old(self).position()
                },
            },
    {
        proof {
            use_type_invariant(&*self);
        }
        if self.pos < self.tokens.len() {
            let token = &self.tokens[self.pos];
            self.pos = self.pos + 1;
            Some(token)
        } else {
            None
        }
    }

    /// The token `offset` places ahead, if there is one; nothing is consumed.
    pub fn peek(&self, offset: usize) -> (token: Option<&'a Token>)
        ensures
            self.position() <= self.all().len() <= usize::MAX,
            match token {
                Some(t) => {
                    &&& self.position() + offset < self.all().len()
                    &&& t@ == self.all()[self.position() + offset]
                },
                None => self.position() + offset >= self.all().len(),
            },
    {
        proof {
            use_type_invariant(self);
        }
        if offset < self.tokens.len() - self.pos {
            Some(&self.tokens[self.pos + offset])
        } else {
            None
        }
    }
}

} // verus!
