//! References within one document: every whole-word occurrence of the
//! identifier under the cursor, the declaration included.
use crate::lsp_map::{
    addressable, body_at, line_body, word_at, word_at_position, LspPosition, LspRange,
};
use crate::lsp_text::{is_word_char, utf16_len, utf16_prefix, word_char};
use crate::rope::{lemma_rope_lines_bounds, rope_from_str, rope_len_lines, rope_lines, rope_text};
use crate::text::chars_of;
use vstd::prelude::*;

verus! {

/// Nothing of an identifier stands right before `start`.
pub open spec fn boundary_before(chars: Seq<char>, start: int) -> bool {
    start == 0 || !word_char(chars[start - 1])
}

/// Nothing of an identifier stands at `end`.
pub open spec fn boundary_after(chars: Seq<char>, end: int) -> bool {
    end >= chars.len() || !word_char(chars[end])
}

/// `want` occurs at `i` as a whole word.
pub open spec fn hit_at(chars: Seq<char>, want: Seq<char>, i: int) -> bool {
    &&& 0 <= i
    &&& i + want.len() <= chars.len()
    &&& chars.subrange(i, i + want.len()) == want
    &&& boundary_before(chars, i)
    &&& boundary_after(chars, i + want.len())
}

/// The editor range of characters `start..end` of line `line`.
pub open spec fn char_range(chars: Seq<char>, line: int, start: int, end: int) -> LspRange {
    LspRange {
        start: LspPosition { line: line as u32, character: utf16_len(chars.take(start)) as u32 },
        end: LspPosition { line: line as u32, character: utf16_len(chars.take(end)) as u32 },
    }
}

/// The whole-word occurrences of `want` from column `i` on, scanning left to
/// right and resuming after each occurrence, as editor ranges.
pub open spec fn ranges_from(chars: Seq<char>, want: Seq<char>, line: int, i: int) -> Seq<LspRange>
    decreases chars.len() - i,
{
    if want.len() == 0 || i < 0 || i + want.len() > chars.len() {
        Seq::empty()
    } else if hit_at(chars, want, i) {
        seq![char_range(chars, line, i, i + want.len())] + ranges_from(
            chars,
            want,
            line,
            i + want.len(),
        )
    } else {
        ranges_from(chars, want, line, i + 1)
    }
}

/// The occurrences on the first `n` lines, line by line.
pub open spec fn ranges_in_lines(lines: Seq<Seq<char>>, want: Seq<char>, n: int) -> Seq<LspRange>
    decreases n,
{
    if n <= 0 {
        Seq::empty()
    } else {
        ranges_in_lines(lines, want, n - 1) + ranges_from(line_body(lines[n - 1]), want, n - 1, 0)
    }
}

/// Every whole-word occurrence in `text` of the identifier at `pos`; none
/// when no identifier is there.
pub open spec fn references(text: Seq<char>, pos: LspPosition) -> Seq<LspRange> {
    match word_at(text, pos) {
        None => Seq::empty(),
        Some((w, _)) => ranges_in_lines(rope_lines(text), w, rope_lines(text).len() as int),
    }
}

/// Whether `want` stands at `i`.
fn matches_at(chars: &[char], want: &[char], i: usize) -> (r: bool)
    requires
        i + want.len() <= chars.len(),
    ensures
        r == (chars@.subrange(i as int, i + want.len()) == want@),
{
    let mut k: usize = 0;
    while k < want.len()
        invariant
            0 <= k <= want.len(),
            i + want.len() <= chars.len(),
            forall|j: int| 0 <= j < k ==> chars@[i + j] == want@[j],
        decreases want.len() - k,
    {
        if chars[i + k] != want[k] {
            assert(chars@.subrange(i as int, i + want.len())[k as int] != want@[k as int]);
            return false;
        }
        k += 1;
    }
    assert(chars@.subrange(i as int, i + want.len()) =~= want@);
    true
}

/// The whole-word occurrences of `want` on one line.
pub fn line_hits(chars: &[char], line: u32, want: &[char]) -> (r: Vec<LspRange>)
    requires
        chars.len() < 0x8000_0000,
    ensures
        r@ == ranges_from(chars@, want@, line as int, 0),
{
    let mut out: Vec<LspRange> = Vec::new();
    if want.len() == 0 || want.len() > chars.len() {
        return out;
    }
    let mut i: usize = 0;
    while i + want.len() <= chars.len()
        invariant
            0 < want.len() <= chars.len() < 0x8000_0000,
            0 <= i <= chars.len(),
            out@ + ranges_from(chars@, want@, line as int, i as int) == ranges_from(
                chars@,
                want@,
                line as int,
                0,
            ),
        decreases chars.len() - i,
    {
        let hit = matches_at(chars, want, i) && (i == 0 || !is_word_char(chars[i - 1])) && (i
            + want.len() >= chars.len() || !is_word_char(chars[i + want.len()]));
        if hit {
            let e = i + want.len();
            let su = utf16_prefix(chars, i);
            let eu = utf16_prefix(chars, e);
            let r = LspRange {
                start: LspPosition { line, character: su as u32 },
                end: LspPosition { line, character: eu as u32 },
            };
            proof {
                assert(r == char_range(chars@, line as int, i as int, e as int));
                assert(ranges_from(chars@, want@, line as int, i as int) == seq![r]
                    + ranges_from(chars@, want@, line as int, e as int));
            }
            out.push(r);
            assert(out@ + ranges_from(chars@, want@, line as int, e as int) =~= ranges_from(
                chars@,
                want@,
                line as int,
                0,
            ));
            i = e;
        } else {
            i += 1;
        }
    }
    assert(out@ =~= ranges_from(chars@, want@, line as int, 0));
    out
}

/// A range in a named document.
#[derive(Debug)]
pub struct LspLocation {
    pub uri: String,
    pub range: LspRange,
}

/// Every occurrence in the document `uri` of the identifier at `pos` (the
/// declaration included), line by line; empty when the cursor is on no
/// identifier.
pub fn references_for_text(text: &str, uri: &str, pos: LspPosition) -> (r: Vec<LspLocation>)
    requires
        addressable(text@),
    ensures
        r.len() == references(text@, pos).len(),
        forall|i: int|
            0 <= i < r.len() ==> (#[trigger] r@[i]).uri@ == uri@ && r@[i].range == references(
                text@,
                pos,
            )[i],
{
    let rope = rope_from_str(text);
    let word = match word_at_position(&rope, pos) {
        None => return Vec::new(),
        Some((w, _)) => w,
    };
    let want = chars_of(word.as_str());
    let n = rope_len_lines(&rope);
    proof {
        lemma_rope_lines_bounds(text@);
    }
    let ghost all = ranges_in_lines(rope_lines(text@), want@, n as int);
    let mut out: Vec<LspLocation> = Vec::new();
    let mut k: usize = 0;
    while k < n
        invariant
            rope_text(rope) == text@,
            addressable(text@),
            n == rope_lines(text@).len(),
            n <= text@.len() + 1,
            0 <= k <= n,
            out.len() == ranges_in_lines(rope_lines(text@), want@, k as int).len(),
            forall|i: int|
                0 <= i < out.len() ==> (#[trigger] out@[i]).uri@ == uri@ && out@[i].range
                    == ranges_in_lines(rope_lines(text@), want@, k as int)[i],
        decreases n - k,
    {
        let body = match body_at(&rope, k as u32) {
            Some(b) => b,
            None => {
                assert(false);
                Vec::new()
            },
        };
        let hits = line_hits(body.as_slice(), k as u32, want.as_slice());
        let ghost before = ranges_in_lines(rope_lines(text@), want@, k as int);
        assert(ranges_in_lines(rope_lines(text@), want@, k + 1) == before + hits@);
        let mut j: usize = 0;
        while j < hits.len()
            invariant
                0 <= j <= hits.len(),
                out.len() == before.len() + j,
                forall|i: int|
                    0 <= i < out.len() ==> (#[trigger] out@[i]).uri@ == uri@ && out@[i].range == (
                    before + hits@)[i],
            decreases hits.len() - j,
        {
            out.push(LspLocation { uri: uri.to_string(), range: hits[j] });
            j += 1;
        }
        k += 1;
    }
    out
}

} // verus!
