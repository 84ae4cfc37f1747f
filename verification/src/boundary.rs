//! Tokens and character boundaries: in a source that is valid UTF-8, every
//! token ends where a character ends, so its slice can be cut out of the text.

use crate::lexis::{
    ends_plaintext, is_blank, is_digit, lemma_lexeme_advances, lemma_run_end_bounds,
    lemma_run_end_maximal, lexeme_at, lexemes_from, run_end, Run, ASTERISK, DASH, DOT, HASH, PLUS,
    RIGHT_CARET, RIGHT_PAREN,
};
use vstd::prelude::*;
use vstd::utf8::{
    is_char_boundary, is_char_boundary_iff_not_is_continuation_byte,
    is_char_boundary_start_end_of_seq, valid_utf8, valid_utf8_split,
};

verus! {

/// In valid UTF-8 a byte below `0x80` is a character of its own: the offsets
/// before and after it are character boundaries.
pub proof fn lemma_ascii_between_boundaries(s: Seq<u8>, k: int)
    requires
        valid_utf8(s),
        0 <= k < s.len(),
        s[k] < 0x80,
    ensures
        is_char_boundary(s, k),
        is_char_boundary(s, k + 1),
{
    is_char_boundary_iff_not_is_continuation_byte(s, k);
    valid_utf8_split(s, k);
    let rest = s.subrange(k, s.len() as int);
    assert(rest[0] == s[k]);
    if k + 1 < s.len() {
        assert(is_char_boundary(rest, 1)) by {
            reveal_with_fuel(valid_utf8, 2);
            reveal_with_fuel(is_char_boundary, 2);
        }
        is_char_boundary_iff_not_is_continuation_byte(rest, 1);
        assert(rest[1] == s[k + 1]);
        is_char_boundary_iff_not_is_continuation_byte(s, k + 1);
    } else {
        is_char_boundary_start_end_of_seq(s);
    }
}

/// The end of a run that begins at `from` and is not empty is a character
/// boundary, if the run admits bytes below `0x80` only.
proof fn lemma_run_ends_on_boundary(s: Seq<u8>, run: Run, from: int)
    requires
        valid_utf8(s),
        0 <= from < s.len(),
        run.admits(s[from]),
        run != Run::Plain,
    ensures
        is_char_boundary(s, run_end(s, run, from)),
{
    lemma_run_end_bounds(s, run, from + 1);
    lemma_run_end_maximal(s, run, from);
    let end = run_end(s, run, from);
    assert(run.admits(s[end - 1]));
    lemma_ascii_between_boundaries(s, end - 1);
}

/// The end of a plaintext run is a character boundary: it is the end of the
/// source, or the offset of a space, a tab or a line feed.
proof fn lemma_plain_run_ends_on_boundary(s: Seq<u8>, from: int)
    requires
        valid_utf8(s),
        0 <= from <= s.len(),
    ensures
        is_char_boundary(s, run_end(s, Run::Plain, from)),
{
    lemma_run_end_bounds(s, Run::Plain, from);
    lemma_run_end_maximal(s, Run::Plain, from);
    let end = run_end(s, Run::Plain, from);
    if end < s.len() {
        assert(ends_plaintext(s[end]));
        lemma_ascii_between_boundaries(s, end);
    } else {
        is_char_boundary_start_end_of_seq(s);
    }
}

/// In valid UTF-8 every lexeme ends on a character boundary, wherever it
/// begins.
pub proof fn lemma_lexeme_ends_on_boundary(s: Seq<u8>, at: int)
    requires
        valid_utf8(s),
        lexeme_at(s, at) is Some,
    ensures
        is_char_boundary(s, lexeme_at(s, at)->0.end),
{
    if is_blank(s[at]) {
        lemma_run_ends_on_boundary(s, Run::Blank, at);
    } else if s[at] == HASH {
        lemma_run_ends_on_boundary(s, Run::Hash, at);
    } else if is_digit(s[at]) {
        lemma_run_end_bounds(s, Run::Digit, at + 1);
        let digits_end = run_end(s, Run::Digit, at);
        if digits_end >= s.len() {
            is_char_boundary_start_end_of_seq(s);
        } else if s[digits_end] == DOT || s[digits_end] == RIGHT_PAREN {
            lemma_ascii_between_boundaries(s, digits_end);
        } else {
            lemma_plain_run_ends_on_boundary(s, digits_end + 1);
        }
    } else if ends_plaintext(s[at]) || s[at] == DASH || s[at] == ASTERISK || s[at] == PLUS
        || s[at] == RIGHT_CARET {
        lemma_ascii_between_boundaries(s, at);
    } else {
        lemma_plain_run_ends_on_boundary(s, at + 1);
    }
}

/// In valid UTF-8 the lexemes from a character boundary all begin and end on
/// character boundaries.
pub proof fn lemma_lexemes_on_boundaries(s: Seq<u8>, at: int)
    requires
        valid_utf8(s),
        0 <= at <= s.len(),
        is_char_boundary(s, at),
    ensures
        forall|i: int|
            0 <= i < lexemes_from(s, at).len() ==> is_char_boundary(
                s,
                (#[trigger] lexemes_from(s, at)[i]).start,
            ) && is_char_boundary(s, lexemes_from(s, at)[i].end),
    decreases s.len() - at,
{
    let all = lexemes_from(s, at);
    let next = lexeme_at(s, at);
    if next is Some {
        let l = next->0;
        lemma_lexeme_advances(s, at);
        lemma_lexeme_ends_on_boundary(s, at);
        lemma_lexemes_on_boundaries(s, l.end);
        let rest = lexemes_from(s, l.end);
        assert(all == seq![l] + rest);
        assert forall|i: int| 0 <= i < all.len() implies is_char_boundary(
            s,
            (#[trigger] all[i]).start,
        ) && is_char_boundary(s, all[i].end) by {
            if i > 0 {
                assert(all[i] == rest[i - 1]);
            }
        }
    }
}

} // verus!
