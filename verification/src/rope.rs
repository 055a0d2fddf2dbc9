//! The editor keeps each open document in a `ropey::Rope`. What the rope
//! holds is named by `rope_text`; how Ropey cuts that text into lines is
//! stated by `rope_lines`, after Ropey's own documentation.
use ropey::Rope;
use vstd::prelude::*;

verus! {

#[verifier::external_type_specification]
#[verifier::external_body]
pub struct ExRope(ropey::Rope);

/// The characters a rope holds, in order.
pub uninterp spec fn rope_text(r: Rope) -> Seq<char>;

/// The line breaks Ropey recognises with its default features
/// (`unicode_lines`): LF, CR, VT, FF, NEL, LINE SEPARATOR and PARAGRAPH
/// SEPARATOR; a CR directly followed by LF is one break.
pub open spec fn is_line_break(c: char) -> bool {
    c == '\n' || c == '\r' || c == '\u{0B}' || c == '\u{0C}' || c == '\u{85}' || c == '\u{2028}'
        || c == '\u{2029}'
}

/// The length of the line break that starts at `i`: 2 for CRLF, 1 for any
/// other break, 0 where none starts.
pub open spec fn break_len(s: Seq<char>, i: int) -> int {
    if s[i] == '\r' && i + 1 < s.len() && s[i + 1] == '\n' {
        2
    } else if is_line_break(s[i]) {
        1
    } else {
        0
    }
}

/// The lines of `s` from the line that starts at `start`, scanning at `i`.
pub open spec fn lines_from(s: Seq<char>, start: int, i: int) -> Seq<Seq<char>>
    decreases s.len() - i,
{
    if i >= s.len() || i < 0 {
        seq![s.subrange(start, s.len() as int)]
    } else if break_len(s, i) > 0 {
        seq![s.subrange(start, i + break_len(s, i))] + lines_from(
            s,
            i + break_len(s, i),
            i + break_len(s, i),
        )
    } else {
        lines_from(s, start, i + 1)
    }
}

/// Ropey's lines: a line starts at the start of the text and right after
/// each line break, and keeps the break that ends it. A text that ends
/// with a break has an empty last line.
pub open spec fn rope_lines(s: Seq<char>) -> Seq<Seq<char>> {
    lines_from(s, 0, 0)
}

/// Every line is a piece of the text, and there is at least one line and
/// at most one more than there are characters.
pub proof fn lemma_lines_from_bounds(s: Seq<char>, start: int, i: int)
    requires
        0 <= start <= i <= s.len(),
    ensures
        lines_from(s, start, i).len() >= 1,
        lines_from(s, start, i).len() <= s.len() - i + 1,
        forall|k: int|
            0 <= k < lines_from(s, start, i).len() ==> #[trigger] lines_from(
                s,
                start,
                i,
            )[k].len() <= s.len() - start,
    decreases s.len() - i,
{
    if i < s.len() {
        if break_len(s, i) > 0 {
            let e = i + break_len(s, i);
            lemma_lines_from_bounds(s, e, e);
        } else {
            lemma_lines_from_bounds(s, start, i + 1);
        }
    }
}

pub proof fn lemma_rope_lines_bounds(s: Seq<char>)
    ensures
        rope_lines(s).len() >= 1,
        rope_lines(s).len() <= s.len() + 1,
        forall|k: int| 0 <= k < rope_lines(s).len() ==> #[trigger] rope_lines(s)[k].len() <= s.len(),
{
    lemma_lines_from_bounds(s, 0, 0);
}

/// `Rope::from_str`: the rope holds exactly the characters of `text`.
#[verifier::external_body]
pub(crate) fn rope_from_str(text: &str) -> (r: Rope)
    ensures
        rope_text(r) == text@,
{
    Rope::from_str(text)
}

/// A rope holding `text`: the way for callers outside the crate to get a
/// rope whose text they know, as the rope-taking LSP functions require.
pub fn rope_of_text(text: &str) -> (r: Rope)
    ensures
        rope_text(r) == text@,
{
    rope_from_str(text)
}

/// `Rope::len_lines`: one more than the number of line breaks, which is the
/// number of lines `rope_lines` cuts.
#[verifier::external_body]
pub(crate) fn rope_len_lines(r: &Rope) -> (n: usize)
    ensures
        n == rope_lines(rope_text(*r)).len(),
{
    r.len_lines()
}

/// `Rope::line`, its characters collected: line `i`, with the break that
/// ends it. `Rope::line` panics past the last line.
#[verifier::external_body]
pub(crate) fn rope_line(r: &Rope, i: usize) -> (v: Vec<char>)
    requires
        i < rope_lines(rope_text(*r)).len(),
    ensures
        v@ == rope_lines(rope_text(*r))[i as int],
{
    r.line(i).chars().collect()
}

} // verus!
