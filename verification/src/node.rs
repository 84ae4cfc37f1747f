//! Tree nodes: structural blocks and the inline content they hold.

use crate::token::{Category, Token};
use vstd::prelude::*;

verus! {

/// The deepest heading level.
pub const MAX_HEADING_LEVEL: usize = 6;

/// What a node is.
#[derive(Debug, Clone, Copy, PartialEq, Eq, Structural)]
pub enum Kind {
    /// A heading block of the given level, from 1 to `MAX_HEADING_LEVEL`.
    Heading(usize),
    /// Inline text.
    Plaintext,
    /// Inline white space, line breaks included.
    Whitespace,
}

impl Kind {
    /// A heading's level lies between 1 and `MAX_HEADING_LEVEL`.
    pub open spec fn wf(self) -> bool {
        self matches Kind::Heading(level) ==> 1 <= level <= MAX_HEADING_LEVEL
    }

    /// The kind of the inline leaf that stands for a token of `category`.
    pub open spec fn of_inline(category: Category) -> Kind {
        match category {
            Category::Whitespace | Category::Newline => Kind::Whitespace,
            _ => Kind::Plaintext,
        }
    }
}

/// An element of the tree. It covers the source from `start` to `end`; while
/// `end` is `None` the node is still open. A node owns its children.
#[derive(Debug, PartialEq, Eq)]
pub struct Node {
    pub kind: Kind,
    pub start: usize,
    pub end: Option<usize>,
    pub children: Vec<Node>,
}

/// A node that has been created and not yet attached to a parent.
pub type Link = Node;

impl Node {
    /// The node's extent is not yet known.
    pub open spec fn is_open(&self) -> bool {
        self.end is None
    }

    /// The node's extent has been set.
    pub open spec fn is_closed(&self) -> bool {
        self.end is Some
    }

    /// An open node of `kind` that begins at `start` and has no children.
    pub fn new(kind: Kind, start: usize) -> (node: Link)
        ensures
            node.kind == kind,
            node.start == start,
            node.is_open(),
            node.children@ == Seq::<Node>::empty(),
    {
        Node { kind, start, end: None, children: Vec::new() }
    }

    /// A closed node of `kind` over `[start, end)` that has no children.
    pub fn new_inline(kind: Kind, start: usize, end: usize) -> (node: Link)
        ensures
            node.kind == kind,
            node.start == start,
            node.end == Some(end),
            node.children@ == Seq::<Node>::empty(),
    {
        Node { kind, start, end: Some(end), children: Vec::new() }
    }

    /// Makes `child` the last child of this node, which owns it from then on.
    pub fn attach(&mut self, child: Link)
        ensures
            final(self).children@ == old(self).children@.push(child),
            final(self).kind == old(self).kind,
            final(self).start == old(self).start,
            final(self).end == old(self).end,
    {
        self.children.push(child);
    }
}

impl Token {
    /// The inline leaf that stands for this token: white space for
    /// `Whitespace` and `Newline`, plaintext for every other token, over the
    /// token's own slice.
    pub fn into(self) -> (node: Link)
        ensures
            node.kind == Kind::of_inline(self@.category),
            node.start == self@.start,
            node.end == Some(self.slice().1),
            node.children@ == Seq::<Node>::empty(),
    {
        match self {
            Token::RightCaret((start, end)) => Node::new_inline(Kind::Plaintext, start, end),
            Token::Hash((start, end)) => Node::new_inline(Kind::Plaintext, start, end),
            Token::Dash((start, end)) => Node::new_inline(Kind::Plaintext, start, end),
            Token::Asterisk((start, end)) => Node::new_inline(Kind::Plaintext, start, end),
            Token::Plus((start, end)) => Node::new_inline(Kind::Plaintext, start, end),
            Token::NumParen((start, end)) => Node::new_inline(Kind::Plaintext, start, end),
            Token::NumDot((start, end)) => Node::new_inline(Kind::Plaintext, start, end),
            Token::Plaintext((start, end)) => Node::new_inline(Kind::Plaintext, start, end),
            Token::Whitespace((start, end)) => Node::new_inline(Kind::Whitespace, start, end),
            Token::Newline((start, end)) => Node::new_inline(Kind::Whitespace, start, end),
        }
    }
}

} // verus!
