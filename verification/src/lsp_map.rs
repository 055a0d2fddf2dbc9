//! Positions between Huzi and the editor. Huzi counts 1-based lines and
//! 1-based character columns; the editor counts 0-based lines and 0-based
//! UTF-16 columns, so a character above the Basic Multilingual Plane takes
//! two columns there.
use crate::lsp_text::{
    exact_col, is_word_char, utf16_exact_col, utf16_len, utf16_prefix, word_char, word_start,
    word_start_before,
};
use crate::rope::{lemma_rope_lines_bounds, rope_len_lines, rope_line, rope_lines, rope_text};
use crate::text::{slice_copy, string_of};
use ropey::Rope;
use vstd::prelude::*;

verus! {

/// An editor position: 0-based line, 0-based UTF-16 column.
#[derive(Debug, Clone, Copy, PartialEq, Eq, Structural)]
pub struct LspPosition {
    pub line: u32,
    pub character: u32,
}

/// An editor range.
#[derive(Debug, Clone, Copy, PartialEq, Eq, Structural)]
pub struct LspRange {
    pub start: LspPosition,
    pub end: LspPosition,
}

/// `a` comes before `b`, line first.
pub open spec fn pos_before(a: LspPosition, b: LspPosition) -> bool {
    a.line < b.line || (a.line == b.line && a.character < b.character)
}

/// Where the text of a line ends: at its first LF or CR.
pub open spec fn body_end(l: Seq<char>, i: int) -> int
    decreases l.len() - i,
{
    if i >= l.len() || i < 0 {
        l.len() as int
    } else if l[i] == '\n' || l[i] == '\r' {
        i
    } else {
        body_end(l, i + 1)
    }
}

/// A line up to its first LF or CR.
pub open spec fn line_body(l: Seq<char>) -> Seq<char> {
    l.take(body_end(l, 0))
}

proof fn lemma_body_end(l: Seq<char>, i: int)
    requires
        0 <= i <= l.len(),
    ensures
        i <= body_end(l, i) <= l.len(),
        forall|k: int| i <= k < body_end(l, i) ==> l[k] != '\n' && l[k] != '\r',
        body_end(l, i) < l.len() ==> (l[body_end(l, i)] == '\n' || l[body_end(l, i)] == '\r'),
    decreases l.len() - i,
{
    if i < l.len() && l[i] != '\n' && l[i] != '\r' {
        lemma_body_end(l, i + 1);
    }
}

/// The line's characters up to its first LF or CR.
pub fn body_of(line: &[char]) -> (r: Vec<char>)
    ensures
        r@ == line_body(line@),
{
    proof {
        lemma_body_end(line@, 0);
    }
    let mut r: Vec<char> = Vec::new();
    let mut i: usize = 0;
    while i < line.len() && line[i] != '\n' && line[i] != '\r'
        invariant
            0 <= i <= body_end(line@, 0) <= line.len(),
            r@ == line@.take(i as int),
            forall|k: int| 0 <= k < body_end(line@, 0) ==> line@[k] != '\n' && line@[k] != '\r',
            body_end(line@, 0) < line.len() ==> (line@[body_end(line@, 0)] == '\n'
                || line@[body_end(line@, 0)] == '\r'),
        decreases line.len() - i,
    {
        r.push(line[i]);
        i += 1;
        assert(r@ =~= line@.take(i as int));
    }
    r
}

/// The 0-based line a 1-based Huzi line lands on: line 0 (a global error)
/// and line 1 both go to the first line, lines past the end to the last.
pub open spec fn clamp_line(n_lines: int, line_1b: int) -> int {
    let want = if line_1b > 0 {
        line_1b - 1
    } else {
        0
    };
    if want < n_lines - 1 {
        want
    } else {
        n_lines - 1
    }
}

/// `min(col_1b - 1, len)`, with column 0 read as column 1.
pub open spec fn clamp_col(len: int, col_1b: int) -> int {
    let want = if col_1b > 0 {
        col_1b - 1
    } else {
        0
    };
    if want < len {
        want
    } else {
        len
    }
}

/// The editor position of Huzi's `(line_1b, col_1b)` in `text`. Lines and
/// columns out of range are clamped; the column may reach the line break.
pub open spec fn huzi_pos(text: Seq<char>, line_1b: int, col_1b: int) -> LspPosition {
    let ls = rope_lines(text);
    let li = clamp_line(ls.len() as int, line_1b);
    let off = clamp_col(ls[li].len() as int, col_1b);
    LspPosition { line: li as u32, character: utf16_len(ls[li].take(off)) as u32 }
}

/// A document the editor can address: its lines and UTF-16 columns fit in
/// `u32`, the width of an LSP position. A character takes at most two
/// UTF-16 units, so fewer than 2^31 characters keep every column, and
/// every line number, below 2^32.
pub open spec fn addressable(text: Seq<char>) -> bool {
    text.len() < 0x8000_0000
}

/// Huzi's 1-based `(line_1b, col_1b)` as an editor position.
pub fn huzi_pos_to_lsp(rope: &Rope, line_1b: usize, col_1b: usize) -> (r: LspPosition)
    requires
        addressable(rope_text(*rope)),
    ensures
        r == huzi_pos(rope_text(*rope), line_1b as int, col_1b as int),
{
    proof {
        lemma_rope_lines_bounds(rope_text(*rope));
    }
    let total = rope_len_lines(rope);
    let want = if line_1b > 0 {
        line_1b - 1
    } else {
        0
    };
    let line_idx = if want < total - 1 {
        want
    } else {
        total - 1
    };
    let line = rope_line(rope, line_idx);
    let cwant = if col_1b > 0 {
        col_1b - 1
    } else {
        0
    };
    let char_off = if cwant < line.len() {
        cwant
    } else {
        line.len()
    };
    let units = utf16_prefix(line.as_slice(), char_off);
    LspPosition { line: line_idx as u32, character: units as u32 }
}

/// A Huzi span as an editor range; an end before the start is pulled back
/// to the start.
pub fn huzi_range_to_lsp(
    rope: &Rope,
    start_line: usize,
    start_col: usize,
    end_line: usize,
    end_col: usize,
) -> (r: LspRange)
    requires
        addressable(rope_text(*rope)),
    ensures
        r.start == huzi_pos(rope_text(*rope), start_line as int, start_col as int),
        pos_before(
            huzi_pos(rope_text(*rope), end_line as int, end_col as int),
            r.start,
        ) ==> r.end == r.start,
        !pos_before(huzi_pos(rope_text(*rope), end_line as int, end_col as int), r.start)
            ==> r.end == huzi_pos(rope_text(*rope), end_line as int, end_col as int),
        !pos_before(r.end, r.start),
{
    let start = huzi_pos_to_lsp(rope, start_line, start_col);
    let mut end = huzi_pos_to_lsp(rope, end_line, end_col);
    if end.line < start.line || (end.line == start.line && end.character < start.character) {
        end = start;
    }
    LspRange { start, end }
}

/// The character column of an editor position inside its line's text
/// (before the break): `None` past the last line, past the end of the
/// line, or inside a surrogate pair.
pub open spec fn lsp_col(text: Seq<char>, pos: LspPosition) -> Option<int> {
    if pos.line >= rope_lines(text).len() {
        None
    } else {
        exact_col(line_body(rope_lines(text)[pos.line as int]), pos.character as int)
    }
}

/// The text of the line a position is on, when the line exists.
pub fn body_at(rope: &Rope, line: u32) -> (r: Option<Vec<char>>)
    requires
        addressable(rope_text(*rope)),
    ensures
        match r {
            Some(b) => line < rope_lines(rope_text(*rope)).len() && b@ == line_body(
                rope_lines(rope_text(*rope))[line as int],
            ) && b@.len() < 0x8000_0000,
            None => line >= rope_lines(rope_text(*rope)).len(),
        },
{
    proof {
        lemma_rope_lines_bounds(rope_text(*rope));
    }
    let line_idx = line as usize;
    if line_idx >= rope_len_lines(rope) {
        return None;
    }
    let l = rope_line(rope, line_idx);
    proof {
        lemma_body_end(l@, 0);
    }
    Some(body_of(l.as_slice()))
}

/// An editor position as a character column of its line.
pub fn lsp_pos_to_char_col(rope: &Rope, pos: LspPosition) -> (r: Option<usize>)
    requires
        addressable(rope_text(*rope)),
    ensures
        match r {
            Some(c) => lsp_col(rope_text(*rope), pos) == Some(c as int),
            None => lsp_col(rope_text(*rope), pos) is None,
        },
{
    match body_at(rope, pos.line) {
        None => None,
        Some(body) => utf16_exact_col(body.as_slice(), pos.character as usize),
    }
}

/// An editor position as Huzi's 1-based `(line, column)`.
pub fn lsp_pos_to_huzi(rope: &Rope, pos: LspPosition) -> (r: Option<(usize, usize)>)
    requires
        addressable(rope_text(*rope)),
    ensures
        match r {
            Some((l, c)) => l == pos.line + 1 && lsp_col(rope_text(*rope), pos) == Some(c - 1),
            None => lsp_col(rope_text(*rope), pos) is None,
        },
{
    match lsp_pos_to_char_col(rope, pos) {
        None => None,
        Some(c) => {
            proof {
                let b = line_body(rope_lines(rope_text(*rope))[pos.line as int]);
                lemma_rope_lines_bounds(rope_text(*rope));
                lemma_body_end(rope_lines(rope_text(*rope))[pos.line as int], 0);
                assert(c <= b.len());
            }
            Some((pos.line as usize + 1, c + 1))
        },
    }
}

/// A Huzi position inside a line's text survives the trip to the editor
/// and back: the editor position of `(line_1b, col_1b)` is on line
/// `line_1b - 1` and reads back as character column `col_1b - 1`.
pub proof fn law_position_roundtrip(text: Seq<char>, line_1b: int, col_1b: int)
    requires
        addressable(text),
        1 <= line_1b <= rope_lines(text).len(),
        1 <= col_1b <= line_body(rope_lines(text)[line_1b - 1]).len() + 1,
    ensures
        huzi_pos(text, line_1b, col_1b).line + 1 == line_1b,
        lsp_col(text, huzi_pos(text, line_1b, col_1b)) == Some(col_1b - 1),
{
    let ls = rope_lines(text);
    lemma_rope_lines_bounds(text);
    let li = line_1b - 1;
    assert(clamp_line(ls.len() as int, line_1b) == li);
    let l = ls[li];
    lemma_body_end(l, 0);
    let body = line_body(l);
    let off = col_1b - 1;
    assert(clamp_col(l.len() as int, col_1b) == off);
    assert(l.len() <= text.len());
    crate::lsp_text::lemma_utf16_upper(l, off);
    let target = utf16_len(l.take(off));
    assert(l.take(off) =~= body.take(off));
    let p = huzi_pos(text, line_1b, col_1b);
    assert(p.line == li);
    assert(p.character == target);
    assert(exists|i: int| 0 <= i <= body.len() && utf16_len(body.take(i)) == target);
    let c = choose|i: int| 0 <= i <= body.len() && utf16_len(body.take(i)) == target;
    crate::lsp_text::lemma_utf16_injective(body, c, off);
}

/// Where the run of identifier characters starting at `col` ends.
pub open spec fn word_end(chars: Seq<char>, col: int) -> int
    decreases chars.len() - col,
{
    if col >= chars.len() || col < 0 {
        col
    } else if word_char(chars[col]) {
        word_end(chars, col + 1)
    } else {
        col
    }
}

proof fn lemma_word_end(chars: Seq<char>, col: int)
    requires
        0 <= col <= chars.len(),
    ensures
        col <= word_end(chars, col) <= chars.len(),
    decreases chars.len() - col,
{
    if col < chars.len() && word_char(chars[col]) {
        lemma_word_end(chars, col + 1);
    }
}

proof fn lemma_word_start(chars: Seq<char>, col: int)
    requires
        0 <= col <= chars.len(),
    ensures
        0 <= word_start(chars, col) <= col,
    decreases col,
{
    if col > 0 && word_char(chars[col - 1]) {
        lemma_word_start(chars, col - 1);
    }
}

pub fn word_end_after(chars: &[char], col: usize) -> (r: usize)
    requires
        col <= chars.len(),
    ensures
        r as int == word_end(chars@, col as int),
{
    let mut end = col;
    while end < chars.len() && is_word_char(chars[end])
        invariant
            col <= end <= chars.len(),
            word_end(chars@, end as int) == word_end(chars@, col as int),
        decreases chars.len() - end,
    {
        end += 1;
    }
    end
}

/// The identifier under an editor position and its range: `None` off the
/// document, inside a surrogate pair, at the end of the line or on a
/// character that is not part of an identifier.
pub open spec fn word_at(text: Seq<char>, pos: LspPosition) -> Option<(Seq<char>, LspRange)> {
    match lsp_col(text, pos) {
        None => None,
        Some(c) => {
            let body = line_body(rope_lines(text)[pos.line as int]);
            if c >= body.len() || !word_char(body[c]) {
                None
            } else {
                let s = word_start(body, c);
                let e = word_end(body, c);
                Some(
                    (
                        body.subrange(s, e),
                        LspRange {
                            start: LspPosition {
                                line: pos.line,
                                character: utf16_len(body.take(s)) as u32,
                            },
                            end: LspPosition {
                                line: pos.line,
                                character: utf16_len(body.take(e)) as u32,
                            },
                        },
                    ),
                )
            }
        },
    }
}

/// The identifier at an editor position, with its range.
pub fn word_at_position(rope: &Rope, pos: LspPosition) -> (r: Option<(String, LspRange)>)
    requires
        addressable(rope_text(*rope)),
    ensures
        match r {
            Some((w, range)) => word_at(rope_text(*rope), pos) == Some((w@, range)),
            None => word_at(rope_text(*rope), pos) is None,
        },
{
    let body = match body_at(rope, pos.line) {
        None => return None,
        Some(b) => b,
    };
    let col = match utf16_exact_col(body.as_slice(), pos.character as usize) {
        None => return None,
        Some(c) => c,
    };
    if col >= body.len() || !is_word_char(body[col]) {
        return None;
    }
    let start = word_start_before(body.as_slice(), col);
    proof {
        lemma_word_end(body@, col as int);
    }
    let end = word_end_after(body.as_slice(), col);
    let word = string_of(slice_copy(body.as_slice(), start, end).as_slice());
    let su = utf16_prefix(body.as_slice(), start);
    let eu = utf16_prefix(body.as_slice(), end);
    let range = LspRange {
        start: LspPosition { line: pos.line, character: su as u32 },
        end: LspPosition { line: pos.line, character: eu as u32 },
    };
    Some((word, range))
}

} // verus!
