//! The kinds of token the grammar looks for, and sets of them.
use vstd::prelude::*;

verus! {

/// What the parser can be waiting for at some offset.
#[derive(Clone, Copy, Debug, PartialEq, Eq)]
pub enum Token {
    /// A decimal digit, `0` to `9`.
    Digit,
    /// A character of a name: alphanumeric, `-` or `_`.
    NameChar,
    /// `(`
    LeftParen,
    /// `)`
    RightParen,
    /// `{`
    LeftBrace,
    /// `}`
    RightBrace,
    /// `:`
    Colon,
    /// `=`
    Equals,
    /// `+`
    Plus,
    /// `-`
    Minus,
    /// `*`
    Star,
    /// `/`
    Slash,
    /// `~`
    Tilde,
    /// The end of the input.
    EndOfInput,
}

/// A set of tokens, one flag for each.
#[derive(Clone, Copy, Debug, PartialEq, Eq)]
pub struct TokenSet {
    pub digit: bool,
    pub name_char: bool,
    pub left_paren: bool,
    pub right_paren: bool,
    pub left_brace: bool,
    pub right_brace: bool,
    pub colon: bool,
    pub equals: bool,
    pub plus: bool,
    pub minus: bool,
    pub star: bool,
    pub slash: bool,
    pub tilde: bool,
    pub end_of_input: bool,
}

impl TokenSet {
    /// Whether `t` is in the set.
    pub open spec fn has(self, t: Token) -> bool {
        match t {
            Token::Digit => self.digit,
            Token::NameChar => self.name_char,
            Token::LeftParen => self.left_paren,
            Token::RightParen => self.right_paren,
            Token::LeftBrace => self.left_brace,
            Token::RightBrace => self.right_brace,
            Token::Colon => self.colon,
            Token::Equals => self.equals,
            Token::Plus => self.plus,
            Token::Minus => self.minus,
            Token::Star => self.star,
            Token::Slash => self.slash,
            Token::Tilde => self.tilde,
            Token::EndOfInput => self.end_of_input,
        }
    }

    /// The set with no token.
    pub open spec fn none() -> TokenSet {
        TokenSet {
            digit: false,
            name_char: false,
            left_paren: false,
            right_paren: false,
            left_brace: false,
            right_brace: false,
            colon: false,
            equals: false,
            plus: false,
            minus: false,
            star: false,
            slash: false,
            tilde: false,
            end_of_input: false,
        }
    }

    /// The set that holds `t` alone.
    pub open spec fn only(t: Token) -> TokenSet {
        TokenSet {
            digit: t == Token::Digit,
            name_char: t == Token::NameChar,
            left_paren: t == Token::LeftParen,
            right_paren: t == Token::RightParen,
            left_brace: t == Token::LeftBrace,
            right_brace: t == Token::RightBrace,
            colon: t == Token::Colon,
            equals: t == Token::Equals,
            plus: t == Token::Plus,
            minus: t == Token::Minus,
            star: t == Token::Star,
            slash: t == Token::Slash,
            tilde: t == Token::Tilde,
            end_of_input: t == Token::EndOfInput,
        }
    }

    /// The tokens of either set.
    pub open spec fn or(self, other: TokenSet) -> TokenSet {
        TokenSet {
            digit: self.digit || other.digit,
            name_char: self.name_char || other.name_char,
            left_paren: self.left_paren || other.left_paren,
            right_paren: self.right_paren || other.right_paren,
            left_brace: self.left_brace || other.left_brace,
            right_brace: self.right_brace || other.right_brace,
            colon: self.colon || other.colon,
            equals: self.equals || other.equals,
            plus: self.plus || other.plus,
            minus: self.minus || other.minus,
            star: self.star || other.star,
            slash: self.slash || other.slash,
            tilde: self.tilde || other.tilde,
            end_of_input: self.end_of_input || other.end_of_input,
        }
    }

    /// What the three ways to make a set hold: [`TokenSet::none`] nothing,
    /// [`TokenSet::only`] its token and no other, [`TokenSet::or`] what either
    /// side holds.
    pub proof fn lemma_has(self, other: TokenSet, t: Token, u: Token)
        ensures
            !TokenSet::none().has(t),
            TokenSet::only(u).has(t) == (t == u),
            self.or(other).has(t) == (self.has(t) || other.has(t)),
    {
    }

    /// The set with no token.
    pub fn empty() -> (set: TokenSet)
        ensures
            set == TokenSet::none(),
    {
        TokenSet {
            digit: false,
            name_char: false,
            left_paren: false,
            right_paren: false,
            left_brace: false,
            right_brace: false,
            colon: false,
            equals: false,
            plus: false,
            minus: false,
            star: false,
            slash: false,
            tilde: false,
            end_of_input: false,
        }
    }

    /// The set that holds `t` alone.
    pub fn single(t: Token) -> (set: TokenSet)
        ensures
            set == TokenSet::only(t),
    {
        let mut set = TokenSet::empty();
        match t {
            Token::Digit => { set.digit = true; },
            Token::NameChar => { set.name_char = true; },
            Token::LeftParen => { set.left_paren = true; },
            Token::RightParen => { set.right_paren = true; },
            Token::LeftBrace => { set.left_brace = true; },
            Token::RightBrace => { set.right_brace = true; },
            Token::Colon => { set.colon = true; },
            Token::Equals => { set.equals = true; },
            Token::Plus => { set.plus = true; },
            Token::Minus => { set.minus = true; },
            Token::Star => { set.star = true; },
            Token::Slash => { set.slash = true; },
            Token::Tilde => { set.tilde = true; },
            Token::EndOfInput => { set.end_of_input = true; },
        }
        set
    }

    /// The tokens of either set.
    pub fn union(self, other: TokenSet) -> (set: TokenSet)
        ensures
            set == self.or(other),
    {
        TokenSet {
            digit: self.digit || other.digit,
            name_char: self.name_char || other.name_char,
            left_paren: self.left_paren || other.left_paren,
            right_paren: self.right_paren || other.right_paren,
            left_brace: self.left_brace || other.left_brace,
            right_brace: self.right_brace || other.right_brace,
            colon: self.colon || other.colon,
            equals: self.equals || other.equals,
            plus: self.plus || other.plus,
            minus: self.minus || other.minus,
            star: self.star || other.star,
            slash: self.slash || other.slash,
            tilde: self.tilde || other.tilde,
            end_of_input: self.end_of_input || other.end_of_input,
        }
    }

    /// Whether `t` is in the set.
    pub fn contains(&self, t: Token) -> (found: bool)
        ensures
            found == self.has(t),
    {
        match t {
            Token::Digit => self.digit,
            Token::NameChar => self.name_char,
            Token::LeftParen => self.left_paren,
            Token::RightParen => self.right_paren,
            Token::LeftBrace => self.left_brace,
            Token::RightBrace => self.right_brace,
            Token::Colon => self.colon,
            Token::Equals => self.equals,
            Token::Plus => self.plus,
            Token::Minus => self.minus,
            Token::Star => self.star,
            Token::Slash => self.slash,
            Token::Tilde => self.tilde,
            Token::EndOfInput => self.end_of_input,
        }
    }

    /// Whether the set holds no token.
    pub fn is_empty(&self) -> (empty: bool)
        ensures
            empty == (*self == TokenSet::none()),
    {
        !(self.digit || self.name_char || self.left_paren || self.right_paren || self.left_brace
            || self.right_brace || self.colon || self.equals || self.plus || self.minus
            || self.star || self.slash || self.tilde || self.end_of_input)
    }
}

} // verus!
