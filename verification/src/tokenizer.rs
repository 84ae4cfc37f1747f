//! The tokenizer: a cursor over a source text that yields one token per call.

use crate::lexis::{
    ends_plaintext, is_blank, is_digit, lemma_lexeme_advances, lemma_lexemes_tile, lexeme_at,
    lexemes_from, number_lexeme, run_end, tiles, Run, ASTERISK, DASH, DOT, HASH, LINE_FEED, PLUS,
    RIGHT_CARET, RIGHT_PAREN,
};
use crate::token::{lemma_view_injective, Category, Lexeme, Token};
use vstd::prelude::*;
use vstd::string::StringSliceAdditionalSpecFns;
use vstd::utf8::{encode_utf8_valid_utf8, valid_utf8};

verus! {

/// The states of the scanning automaton.
#[derive(Debug, Clone, Copy, PartialEq, Eq, Structural)]
enum State {
    /// No byte of the token has been read.
    Unset,
    /// The token is complete.
    Done,
    /// Inside a run of `#`.
    Hash,
    /// Inside plaintext.
    Plaintext,
    /// Inside a run of spaces and tabs.
    Whitespace,
    /// Inside a run of digits whose category is still open.
    Number,
}

/// A pull-based scanner over a source text.
pub struct Tokenizer<'a> {
    start: usize,
    source: &'a str,
}

/// What the automaton knows in `state`, with its cursor at `p`, of the token
/// that begins at `start`.
spec fn scanned(s: Seq<u8>, start: int, state: State, p: int, result: Option<Token>) -> bool {
    let goal = lexeme_at(s, start);
    match state {
        State::Unset => p == start && result is None,
        State::Whitespace => start < p <= s.len() && goal == Some(
            Lexeme { category: Category::Whitespace, start, end: run_end(s, Run::Blank, p) },
        ),
        State::Hash => start < p <= s.len() && goal == Some(
            Lexeme { category: Category::Hash, start, end: run_end(s, Run::Hash, p) },
        ),
        State::Number => start < p <= s.len() && goal == Some(
            number_lexeme(s, start, run_end(s, Run::Digit, p)),
        ),
        State::Plaintext => start < p <= s.len() && goal == Some(
            Lexeme { category: Category::Plaintext, start, end: run_end(s, Run::Plain, p) },
        ),
        State::Done => result.deep_view() == goal && p == match goal {
            Some(l) => l.end,
            None => start,
        },
    }
}

/// The number of steps the automaton may still take.
spec fn steps_left(len: int, state: State, p: int) -> int {
    if state == State::Done {
        0
    } else if p < len {
        1 + len - p
    } else {
        1
    }
}

impl<'a> Tokenizer<'a> {
    /// The bytes of the source text.
    pub closed spec fn bytes(&self) -> Seq<u8> {
        self.source.spec_bytes()
    }

    /// The offset at which the next token begins.
    pub closed spec fn cursor(&self) -> int {
        self.start as int
    }

    /// The lexemes that are still to come.
    pub open spec fn remaining(&self) -> Seq<Lexeme> {
        lexemes_from(self.bytes(), self.cursor())
    }

    /// The source is a `str`, so its bytes are valid UTF-8.
    pub proof fn lemma_bytes_are_utf8(&self)
        ensures
            valid_utf8(self.bytes()),
    {
        encode_utf8_valid_utf8(self.source@);
    }

    /// A tokenizer over `source` whose first token begins at offset `start`.
    pub fn new(start: usize, source: &'a str) -> (tokenizer: Self)
        ensures
            tokenizer.cursor() == start,
            tokenizer.bytes() == source.spec_bytes(),
    {
        Tokenizer { start, source }
    }

    /// Scans one token and moves the cursor to its end. At or past the end of
    /// the source there is no token, and the cursor stays.
    pub fn next(&mut self) -> (token: Option<Token>)
        ensures
            final(self).bytes() == old(self).bytes(),
            token.deep_view() == lexeme_at(old(self).bytes(), old(self).cursor()),
            token is None <==> old(self).cursor() >= old(self).bytes().len(),
            token matches Some(t) ==> old(self).cursor() == t@.start < t@.end <= old(
                self,
            ).bytes().len(),
            final(self).cursor() == match token {
                Some(t) => t@.end,
                None => old(self).cursor(),
            },
    {
        proof {
            if lexeme_at(self.bytes(), self.cursor()) is Some {
                lemma_lexeme_advances(self.bytes(), self.cursor());
            }
        }
        let src: &[u8] = self.source.as_bytes();
        let len: usize = src.len();
        let start: usize = self.start;
        let mut p: usize = start;
        let mut state = State::Unset;
        let mut result: Option<Token> = None;

        while state != State::Done
            invariant
                len == src@.len(),
                scanned(src@, start as int, state, p as int, result),
            decreases steps_left(len as int, state, p as int),
        {
            let c: Option<u8> = if p < len {
                Some(src[p])
            } else {
                None
            };
            let (new_state, new_p): (State, usize) = match (state, c) {
                // Whitespace
                (State::Whitespace, Some(b)) if is_blank(b) => (State::Whitespace, p + 1),
                (State::Whitespace, _) => {
                    result = Some(Token::Whitespace((start, p)));
                    (State::Done, p)
                },
                // Plaintext
                (State::Plaintext, Some(b)) if ends_plaintext(b) => {
                    result = Some(Token::Plaintext((start, p)));
                    (State::Done, p)
                },
                (State::Plaintext, Some(_)) => (State::Plaintext, p + 1),
                (State::Plaintext, None) => {
                    result = Some(Token::Plaintext((start, p)));
                    (State::Done, p)
                },
                // Number
                (State::Number, Some(b)) if is_digit(b) => (State::Number, p + 1),
                (State::Number, Some(b)) if b == DOT => {
                    result = Some(Token::NumDot((start, p + 1)));
                    (State::Done, p + 1)
                },
                (State::Number, Some(b)) if b == RIGHT_PAREN => {
                    result = Some(Token::NumParen((start, p + 1)));
                    (State::Done, p + 1)
                },
                (State::Number, Some(_)) => (State::Plaintext, p + 1),
                (State::Number, None) => {
                    result = Some(Token::Plaintext((start, p)));
                    (State::Done, p)
                },
                // Hash
                (State::Hash, Some(b)) if b == HASH => (State::Hash, p + 1),
                (State::Hash, _) => {
                    result = Some(Token::Hash((start, p)));
                    (State::Done, p)
                },
                // Unset
                (State::Unset, Some(b)) if b == DASH => {
                    result = Some(Token::Dash((start, p + 1)));
                    (State::Done, p + 1)
                },
                (State::Unset, Some(b)) if b == ASTERISK => {
                    result = Some(Token::Asterisk((start, p + 1)));
                    (State::Done, p + 1)
                },
                (State::Unset, Some(b)) if b == PLUS => {
                    result = Some(Token::Plus((start, p + 1)));
                    (State::Done, p + 1)
                },
                (State::Unset, Some(b)) if is_blank(b) => (State::Whitespace, p + 1),
                (State::Unset, Some(b)) if is_digit(b) => (State::Number, p + 1),
                (State::Unset, Some(b)) if b == LINE_FEED => {
                    result = Some(Token::Newline((start, p + 1)));
                    (State::Done, p + 1)
                },
                (State::Unset, Some(b)) if b == RIGHT_CARET => {
                    result = Some(Token::RightCaret((start, p + 1)));
                    (State::Done, p + 1)
                },
                (State::Unset, Some(b)) if b == HASH => (State::Hash, p + 1),
                (State::Unset, Some(_)) => (State::Plaintext, p + 1),
                // End of input before any byte
                _ => (State::Done, p),
            };
            state = new_state;
            p = new_p;
        }

        self.start = p;
        result
    }

    /// Scans the rest of the source and returns its tokens in order.
    pub fn collect(self) -> (tokens: Vec<Token>)
        ensures
            tokens.deep_view() == self.remaining(),
            self.cursor() <= self.bytes().len() ==> tiles(
                tokens.deep_view(),
                self.cursor(),
                self.bytes().len() as int,
            ),
            self.cursor() >= self.bytes().len() ==> tokens@.len() == 0,
    {
        let ghost whole = self.remaining();
        proof {
            if self.cursor() <= self.bytes().len() {
                lemma_lexemes_tile(self.bytes(), self.cursor());
            }
        }
        let mut rest = self;
        let mut tokens: Vec<Token> = Vec::new();
        assert(tokens.deep_view() + rest.remaining() == whole);
        loop
            invariant
                tokens.deep_view() + rest.remaining() == whole,
            ensures
                tokens.deep_view() == whole,
            decreases rest.bytes().len() - rest.cursor(),
        {
            let ghost seen = tokens.deep_view();
            let ghost at = rest.cursor();
            match rest.next() {
                Some(token) => {
                    tokens.push(token);
                    proof {
                        lemma_lexeme_advances(rest.bytes(), at);
                        assert(tokens.deep_view() == seen + seq![token@]);
                        assert(lexemes_from(rest.bytes(), at) == seq![token@] + rest.remaining());
                    }
                },
                None => {
                    break ;
                },
            }
        }
        tokens
    }
}

/// Determinism: the tokens of a source from an offset depend on nothing but
/// the bytes and the offset. Two tokenizers over equal bytes at equal offsets
/// have the same tokens still to come, and any two sequences of tokens with
/// those models are equal, token for token.
pub proof fn lemma_tokens_determined(
    a: Tokenizer<'_>,
    b: Tokenizer<'_>,
    tokens_a: Seq<Token>,
    tokens_b: Seq<Token>,
)
    requires
        a.bytes() == b.bytes(),
        a.cursor() == b.cursor(),
        tokens_a.map_values(|t: Token| t@) == a.remaining(),
        tokens_b.map_values(|t: Token| t@) == b.remaining(),
    ensures
        a.remaining() == b.remaining(),
        tokens_a == tokens_b,
{
    let models_a = tokens_a.map_values(|t: Token| t@);
    let models_b = tokens_b.map_values(|t: Token| t@);
    assert(tokens_a.len() == models_a.len() == models_b.len() == tokens_b.len());
    assert forall|i: int| 0 <= i < tokens_a.len() implies tokens_a[i] == tokens_b[i] by {
        assert(models_a[i] == tokens_a[i]@);
        assert(models_b[i] == tokens_b[i]@);
        lemma_view_injective(tokens_a[i], tokens_b[i]);
    }
    assert(tokens_a =~= tokens_b);
}

} // verus!
