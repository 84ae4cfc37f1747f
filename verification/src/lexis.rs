//! The lexical grammar, stated over the bytes of the source.
//!
//! Offsets are byte offsets. Every byte of a multi-byte character is an
//! ordinary plaintext byte, so any byte sequence has exactly one reading.

use crate::token::{Category, Lexeme};
use vstd::prelude::*;

verus! {

pub const TAB: u8 = 0x09;

pub const LINE_FEED: u8 = 0x0a;

pub const SPACE: u8 = 0x20;

pub const HASH: u8 = 0x23;

pub const RIGHT_PAREN: u8 = 0x29;

pub const ASTERISK: u8 = 0x2a;

pub const PLUS: u8 = 0x2b;

pub const DASH: u8 = 0x2d;

pub const DOT: u8 = 0x2e;

pub const DIGIT_ZERO: u8 = 0x30;

pub const DIGIT_NINE: u8 = 0x39;

pub const RIGHT_CARET: u8 = 0x3e;

/// A space or a tab.
#[verifier::allow_in_spec]
pub fn is_blank(b: u8) -> bool
    returns
        b == SPACE || b == TAB,
{
    b == SPACE || b == TAB
}

/// A decimal digit.
#[verifier::allow_in_spec]
pub fn is_digit(b: u8) -> bool
    returns
        DIGIT_ZERO <= b && b <= DIGIT_NINE,
{
    DIGIT_ZERO <= b && b <= DIGIT_NINE
}

/// A byte that closes a plaintext token: a space, a tab or a line feed.
#[verifier::allow_in_spec]
pub fn ends_plaintext(b: u8) -> bool
    returns
        is_blank(b) || b == LINE_FEED,
{
    is_blank(b) || b == LINE_FEED
}

/// The kinds of bytes that accumulate into one token.
pub enum Run {
    /// Spaces and tabs.
    Blank,
    /// Decimal digits.
    Digit,
    /// `#` characters.
    Hash,
    /// Everything but spaces, tabs and line feeds.
    Plain,
}

impl Run {
    /// Whether a run of this kind goes on over the byte `b`.
    pub open spec fn admits(self, b: u8) -> bool {
        match self {
            Run::Blank => is_blank(b),
            Run::Digit => is_digit(b),
            Run::Hash => b == HASH,
            Run::Plain => !ends_plaintext(b),
        }
    }
}

/// The offset at which the longest run of `run` bytes that begins at `from`
/// ends: the first offset at or after `from` whose byte the run does not
/// admit, or the length of `s`.
pub open spec fn run_end(s: Seq<u8>, run: Run, from: int) -> int
    decreases s.len() - from,
{
    if 0 <= from < s.len() && run.admits(s[from]) {
        run_end(s, run, from + 1)
    } else {
        from
    }
}

/// A lexeme of one byte at `at`.
pub open spec fn single(category: Category, at: int) -> Lexeme {
    Lexeme { category, start: at, end: at + 1 }
}

/// The lexeme that begins with the digits `[at, digits_end)`: an ordered-list
/// marker if `.` or `)` follows them, otherwise plaintext that takes in the
/// byte after the digits and goes on to the end of the plaintext run.
pub open spec fn number_lexeme(s: Seq<u8>, at: int, digits_end: int) -> Lexeme {
    if digits_end >= s.len() {
        Lexeme { category: Category::Plaintext, start: at, end: digits_end }
    } else if s[digits_end] == DOT {
        Lexeme { category: Category::NumDot, start: at, end: digits_end + 1 }
    } else if s[digits_end] == RIGHT_PAREN {
        Lexeme { category: Category::NumParen, start: at, end: digits_end + 1 }
    } else {
        Lexeme {
            category: Category::Plaintext,
            start: at,
            end: run_end(s, Run::Plain, digits_end + 1),
        }
    }
}

/// The lexeme that begins at offset `at` of `s`, or `None` at or past the end.
pub open spec fn lexeme_at(s: Seq<u8>, at: int) -> Option<Lexeme> {
    if !(0 <= at < s.len()) {
        None
    } else if s[at] == DASH {
        Some(single(Category::Dash, at))
    } else if s[at] == ASTERISK {
        Some(single(Category::Asterisk, at))
    } else if s[at] == PLUS {
        Some(single(Category::Plus, at))
    } else if s[at] == LINE_FEED {
        Some(single(Category::Newline, at))
    } else if s[at] == RIGHT_CARET {
        Some(single(Category::RightCaret, at))
    } else if is_blank(s[at]) {
        Some(Lexeme { category: Category::Whitespace, start: at, end: run_end(s, Run::Blank, at) })
    } else if s[at] == HASH {
        Some(Lexeme { category: Category::Hash, start: at, end: run_end(s, Run::Hash, at) })
    } else if is_digit(s[at]) {
        Some(number_lexeme(s, at, run_end(s, Run::Digit, at)))
    } else {
        Some(Lexeme { category: Category::Plaintext, start: at, end: run_end(s, Run::Plain, at + 1) })
    }
}

/// All lexemes of `s` from offset `at` to the end, in order.
pub open spec fn lexemes_from(s: Seq<u8>, at: int) -> Seq<Lexeme>
    decreases s.len() - at,
    via lexemes_from_terminates
{
    match lexeme_at(s, at) {
        Some(l) => seq![l] + lexemes_from(s, l.end),
        None => Seq::empty(),
    }
}

#[via_fn]
proof fn lexemes_from_terminates(s: Seq<u8>, at: int) {
    if lexeme_at(s, at) is Some {
        lemma_lexeme_advances(s, at);
    }
}

/// A run ends between its starting offset and the end of the source.
pub proof fn lemma_run_end_bounds(s: Seq<u8>, run: Run, from: int)
    requires
        0 <= from <= s.len(),
    ensures
        from <= run_end(s, run, from) <= s.len(),
    decreases s.len() - from,
{
    if from < s.len() && run.admits(s[from]) {
        lemma_run_end_bounds(s, run, from + 1);
    }
}

/// Every byte of a run is admitted, and the byte after it, if any, is not.
pub proof fn lemma_run_end_maximal(s: Seq<u8>, run: Run, from: int)
    requires
        0 <= from <= s.len(),
    ensures
        forall|i: int| from <= i < run_end(s, run, from) ==> run.admits(#[trigger] s[i]),
        run_end(s, run, from) < s.len() ==> !run.admits(s[run_end(s, run, from)]),
    decreases s.len() - from,
{
    if from < s.len() && run.admits(s[from]) {
        lemma_run_end_maximal(s, run, from + 1);
    }
}

/// An offset that every byte from `from` leads up to, and at which the run
/// cannot go on, is where the run ends.
pub proof fn lemma_run_end_unique(s: Seq<u8>, run: Run, from: int, end: int)
    requires
        0 <= from <= end <= s.len(),
        forall|i: int| from <= i < end ==> run.admits(#[trigger] s[i]),
        end < s.len() ==> !run.admits(s[end]),
    ensures
        run_end(s, run, from) == end,
    decreases end - from,
{
    if from < end {
        assert(run.admits(s[from]));
        lemma_run_end_unique(s, run, from + 1, end);
    }
}

/// A lexeme is never empty and never reaches past the end of the source.
pub proof fn lemma_lexeme_advances(s: Seq<u8>, at: int)
    requires
        lexeme_at(s, at) is Some,
    ensures
        lexeme_at(s, at)->0.start == at,
        at < lexeme_at(s, at)->0.end <= s.len(),
{
    lemma_run_end_bounds(s, Run::Blank, at + 1);
    lemma_run_end_bounds(s, Run::Hash, at + 1);
    lemma_run_end_bounds(s, Run::Digit, at + 1);
    lemma_run_end_bounds(s, Run::Plain, at + 1);
    let d = run_end(s, Run::Digit, at);
    if is_digit(s[at]) && d < s.len() {
        lemma_run_end_bounds(s, Run::Plain, d + 1);
    }
}

/// Whether the lexemes `ls` tile the offsets from `from` to `to`: none is
/// empty, the first begins at `from`, each begins where the one before it
/// ends, and the last ends at `to`.
pub open spec fn tiles(ls: Seq<Lexeme>, from: int, to: int) -> bool {
    &&& from <= to
    &&& ls.len() == 0 ==> from == to
    &&& ls.len() > 0 ==> ls.first().start == from && ls.last().end == to
    &&& forall|i: int| 0 <= i < ls.len() ==> (#[trigger] ls[i]).start < ls[i].end
    &&& forall|i: int, j: int|
        0 <= i && j == i + 1 && j < ls.len() ==> (#[trigger] ls[i]).end == (#[trigger] ls[j]).start
}

/// The bytes of `s` under the lexemes `ls`, one slice after the other.
pub open spec fn covered(s: Seq<u8>, ls: Seq<Lexeme>) -> Seq<u8>
    decreases ls.len(),
{
    if ls.len() == 0 {
        Seq::empty()
    } else {
        s.subrange(ls.first().start, ls.first().end) + covered(s, ls.drop_first())
    }
}

/// Putting a lexeme that ends at `mid` before lexemes that tile `[mid, to)`
/// gives lexemes that tile from its start to `to`.
proof fn lemma_tiles_prepend(l: Lexeme, rest: Seq<Lexeme>, mid: int, to: int)
    requires
        l.start < l.end == mid,
        tiles(rest, mid, to),
    ensures
        tiles(seq![l] + rest, l.start, to),
{
    let all = seq![l] + rest;
    assert(all.first() == l);
    if rest.len() > 0 {
        assert(all.last() == rest.last());
    } else {
        assert(all.last() == l);
    }
    assert forall|i: int| 0 <= i < all.len() implies (#[trigger] all[i]).start < all[i].end by {
        if i > 0 {
            assert(all[i] == rest[i - 1]);
        }
    }
    assert forall|i: int, j: int| 0 <= i && j == i + 1 && j < all.len() implies (#[trigger] all[i]).end
        == (#[trigger] all[j]).start by {
        assert(all[j] == rest[j - 1]);
        if i > 0 {
            assert(all[i] == rest[i - 1]);
        } else {
            assert(rest[0] == rest.first());
        }
    }
}

/// Coverage and contiguity: the lexemes of a source from any offset tile the
/// rest of the source without gap or overlap, and their slices, put end to
/// end, are the rest of the source. From offset 0 they are the whole source.
pub proof fn lemma_lexemes_tile(s: Seq<u8>, at: int)
    requires
        0 <= at <= s.len(),
    ensures
        tiles(lexemes_from(s, at), at, s.len() as int),
        covered(s, lexemes_from(s, at)) == s.subrange(at, s.len() as int),
        at == 0 ==> covered(s, lexemes_from(s, at)) == s,
    decreases s.len() - at,
{
    let all = lexemes_from(s, at);
    let next = lexeme_at(s, at);
    if next is Some {
        let l = next->0;
        lemma_lexeme_advances(s, at);
        lemma_lexemes_tile(s, l.end);
        let rest = lexemes_from(s, l.end);
        assert(all == seq![l] + rest);
        lemma_tiles_prepend(l, rest, l.end, s.len() as int);
        assert(all.first() == l);
        assert(all.drop_first() =~= rest);
        assert(s.subrange(at, l.end) + s.subrange(l.end, s.len() as int) =~= s.subrange(
            at,
            s.len() as int,
        ));
    } else {
        assert(at == s.len());
        assert(all =~= Seq::<Lexeme>::empty());
        assert(s.subrange(at, s.len() as int) =~= Seq::<u8>::empty());
    }
    if at == 0 {
        assert(s.subrange(0, s.len() as int) =~= s);
    }
}

/// Number disambiguation: if the bytes from `at` up to `digits_end` are
/// digits and the byte at `digits_end` is not, the lexeme at `at` is
/// - `NumDot` up to and with a `.` at `digits_end`,
/// - `NumParen` up to and with a `)` at `digits_end`,
/// - otherwise one `Plaintext` over the digits, the byte at `digits_end` and
///   the plaintext run after it; at the end of the source, over the digits.
pub proof fn lemma_number_disambiguation(s: Seq<u8>, at: int, digits_end: int)
    requires
        0 <= at < digits_end <= s.len(),
        forall|i: int| at <= i < digits_end ==> is_digit(#[trigger] s[i]),
        digits_end < s.len() ==> !is_digit(s[digits_end]),
    ensures
        digits_end < s.len() && s[digits_end] == DOT ==> lexeme_at(s, at) == Some(
            Lexeme { category: Category::NumDot, start: at, end: digits_end + 1 },
        ),
        digits_end < s.len() && s[digits_end] == RIGHT_PAREN ==> lexeme_at(s, at) == Some(
            Lexeme { category: Category::NumParen, start: at, end: digits_end + 1 },
        ),
        digits_end < s.len() && s[digits_end] != DOT && s[digits_end] != RIGHT_PAREN ==> lexeme_at(
            s,
            at,
        ) == Some(
            Lexeme {
                category: Category::Plaintext,
                start: at,
                end: run_end(s, Run::Plain, digits_end + 1),
            },
        ) && digits_end < run_end(s, Run::Plain, digits_end + 1) <= s.len(),
        digits_end == s.len() ==> lexeme_at(s, at) == Some(
            Lexeme { category: Category::Plaintext, start: at, end: digits_end },
        ),
{
    assert(is_digit(s[at]));
    assert forall|i: int| at <= i < digits_end implies Run::Digit.admits(#[trigger] s[i]) by {
        assert(is_digit(s[i]));
    }
    lemma_run_end_unique(s, Run::Digit, at, digits_end);
    if digits_end < s.len() {
        lemma_run_end_bounds(s, Run::Plain, digits_end + 1);
    }
}

} // verus!
