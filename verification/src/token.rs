//! Tokens and their mathematical model.

use vstd::prelude::*;

verus! {

/// A half-open interval `[start, end)` of byte offsets into the source text.
pub type Slice = (usize, usize);

/// The lexical category of a token.
#[derive(Debug, Clone, Copy, PartialEq, Eq, Structural)]
pub enum Category {
    RightCaret,
    Hash,
    Dash,
    Asterisk,
    Plus,
    NumDot,
    NumParen,
    Plaintext,
    Whitespace,
    Newline,
}

/// The model of a token: its category and the interval of offsets it covers.
pub struct Lexeme {
    pub category: Category,
    pub start: int,
    pub end: int,
}

/// A classified lexical unit over a slice of the source.
#[derive(Debug, Clone, Copy, PartialEq, Eq)]
pub enum Token {
    /// A single `>`.
    RightCaret(Slice),
    /// A run of `#`.
    Hash(Slice),
    /// A single `-`.
    Dash(Slice),
    /// A single `*`.
    Asterisk(Slice),
    /// A single `+`.
    Plus(Slice),
    /// A run of decimal digits and the `.` that follows it.
    NumDot(Slice),
    /// A run of decimal digits and the `)` that follows it.
    NumParen(Slice),
    /// A run of bytes that belong to no other category.
    Plaintext(Slice),
    /// A run of spaces and tabs.
    Whitespace(Slice),
    /// A single line feed.
    Newline(Slice),
}

impl Token {
    /// The category of this token.
    pub open spec fn category(self) -> Category {
        match self {
            Token::RightCaret(_) => Category::RightCaret,
            Token::Hash(_) => Category::Hash,
            Token::Dash(_) => Category::Dash,
            Token::Asterisk(_) => Category::Asterisk,
            Token::Plus(_) => Category::Plus,
            Token::NumDot(_) => Category::NumDot,
            Token::NumParen(_) => Category::NumParen,
            Token::Plaintext(_) => Category::Plaintext,
            Token::Whitespace(_) => Category::Whitespace,
            Token::Newline(_) => Category::Newline,
        }
    }

    /// The slice this token covers.
    pub open spec fn slice(self) -> Slice {
        match self {
            Token::RightCaret(s) => s,
            Token::Hash(s) => s,
            Token::Dash(s) => s,
            Token::Asterisk(s) => s,
            Token::Plus(s) => s,
            Token::NumDot(s) => s,
            Token::NumParen(s) => s,
            Token::Plaintext(s) => s,
            Token::Whitespace(s) => s,
            Token::Newline(s) => s,
        }
    }
}

impl View for Token {
    type V = Lexeme;

    open spec fn view(&self) -> Lexeme {
        Lexeme {
            category: self.category(),
            start: self.slice().0 as int,
            end: self.slice().1 as int,
        }
    }
}

impl DeepView for Token {
    type V = Lexeme;

    open spec fn deep_view(&self) -> Lexeme {
        self.view()
    }
}

/// Two tokens with the same model are the same token.
pub proof fn lemma_view_injective(a: Token, b: Token)
    requires
        a@ == b@,
    ensures
        a == b,
{
}

} // verus!
