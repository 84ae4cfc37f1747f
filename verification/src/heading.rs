//! The heading rule: when a heading opens at the start of a line, and where
//! it ends.

use crate::lexis::{is_blank, lemma_run_end_unique, lexeme_at, run_end, Run, HASH};
use crate::node::{Kind, Link, Node, MAX_HEADING_LEVEL};
use crate::token::{Category, Lexeme, Token};
use vstd::prelude::*;

verus! {

/// What the heading rule makes of a line that opens a heading.
pub struct Opening {
    /// The level of the heading: the length of the run of `#`.
    pub level: int,
    /// Where the heading begins: the offset of the first `#`.
    pub start: int,
    /// Where the heading's text begins: the end of the white space after the `#`.
    pub consumed: int,
}

/// The heading rule on two lookahead lexemes: a run of one to six `#`
/// followed by white space opens a heading, and nothing else does.
pub open spec fn opening(a: Option<Lexeme>, b: Option<Lexeme>) -> Option<Opening> {
    match (a, b) {
        (Some(hashes), Some(gap)) => {
            if hashes.category == Category::Hash && gap.category == Category::Whitespace && 1
                <= hashes.end - hashes.start <= MAX_HEADING_LEVEL {
                Some(
                    Opening {
                        level: hashes.end - hashes.start,
                        start: hashes.start,
                        consumed: gap.end,
                    },
                )
            } else {
                None
            }
        },
        _ => None,
    }
}

/// Tries to open a heading on the lookahead `a`, `b`, `c`. On a match the new
/// node is open and unattached, and comes with the offset up to which the
/// line has been consumed. The third token plays no part.
pub fn open(_parent: &Node, a: &Option<Token>, b: &Option<Token>, c: &Option<Token>) -> (r: Option<
    (Link, usize),
>)
    ensures
        match r {
            Some((node, consumed)) => {
                &&& node.kind is Heading
                &&& node.kind.wf()
                &&& node.is_open()
                &&& node.children@ == Seq::<Node>::empty()
                &&& opening(a.deep_view(), b.deep_view()) == Some(
                    Opening {
                        level: node.kind->Heading_0 as int,
                        start: node.start as int,
                        consumed: consumed as int,
                    },
                )
            },
            None => opening(a.deep_view(), b.deep_view()) is None,
        },
{
    match (a, b, c) {
        (Some(Token::Hash((start, end))), Some(Token::Whitespace((_, gap_end))), _)
            if *start < *end && *end - *start <= MAX_HEADING_LEVEL => {
            Some((Node::new(Kind::Heading(*end - *start), *start), *gap_end))
        },
        _ => None,
    }
}

/// Closes a heading with the outcome of scanning its line for inline content
/// from `start`: at the offset that the scan reached, or at `start` if the
/// scan consumed nothing. A heading never goes on to a second line, so one
/// call always closes it. Returns the outcome.
pub fn consume(node: &mut Node, start: usize, scanned: Option<usize>) -> (r: Option<usize>)
    ensures
        r == scanned,
        final(node).is_closed(),
        final(node).end == Some(
            match scanned {
                Some(p) => p,
                None => start,
            },
        ),
        final(node).kind == old(node).kind,
        final(node).start == old(node).start,
        final(node).children == old(node).children,
{
    if let Some(p) = scanned {
        // Headings cannot be continued onto the next line,
        // so the node is closed at once.
        node.end = Some(p);
        Some(p)
    } else {
        node.end = Some(start);
        None
    }
}

/// Heading level bound: where exactly `n` `#` stand at `at` and a space or a
/// tab follows them, the tokenizer yields the run of `#` and then the white
/// space, and on those two the heading rule opens a heading of level `n` if
/// `n` is at most six, and none if `n` is seven or more.
pub proof fn lemma_heading_line(s: Seq<u8>, at: int, n: int)
    requires
        0 <= at,
        1 <= n,
        at + n < s.len(),
        forall|i: int| at <= i < at + n ==> (#[trigger] s[i]) == HASH,
        is_blank(s[at + n]),
    ensures
        lexeme_at(s, at) == Some(Lexeme { category: Category::Hash, start: at, end: at + n }),
        lexeme_at(s, at + n) == Some(
            Lexeme {
                category: Category::Whitespace,
                start: at + n,
                end: run_end(s, Run::Blank, at + n),
            },
        ),
        n <= MAX_HEADING_LEVEL ==> opening(lexeme_at(s, at), lexeme_at(s, at + n)) == Some(
            Opening { level: n, start: at, consumed: run_end(s, Run::Blank, at + n) },
        ),
        n > MAX_HEADING_LEVEL ==> opening(lexeme_at(s, at), lexeme_at(s, at + n)) is None,
{
    assert(s[at] == HASH);
    assert forall|i: int| at <= i < at + n implies Run::Hash.admits(#[trigger] s[i]) by {
        assert(s[i] == HASH);
    }
    lemma_run_end_unique(s, Run::Hash, at, at + n);
}

} // verus!
