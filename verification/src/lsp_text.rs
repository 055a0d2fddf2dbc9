//! Editor-side text helpers: identifier runs before the cursor, the name
//! before `::` or `.`, and UTF-16 columns mapped to character columns.
use vstd::prelude::*;

verus! {

/// `char::is_alphanumeric`: Unicode Alphabetic or Numeric.
pub uninterp spec fn char_alnum(c: char) -> bool;

/// `char::is_alphanumeric`; its result is named by `char_alnum`.
#[verifier::external_body]
fn is_alphanumeric(c: char) -> (r: bool)
    ensures
        r == char_alnum(c),
{
    c.is_alphanumeric()
}

/// A character of an identifier: a letter, a digit or `_` (Chinese
/// characters count as letters).
pub open spec fn word_char(c: char) -> bool {
    char_alnum(c) || c == '_'
}

pub fn is_word_char(c: char) -> (r: bool)
    ensures
        r == word_char(c),
{
    is_alphanumeric(c) || c == '_'
}

/// Where the run of identifier characters ending at `col` (clamped to the
/// line) starts.
pub open spec fn word_start(chars: Seq<char>, col: int) -> int
    decreases col,
{
    let c = if col > chars.len() {
        chars.len() as int
    } else {
        col
    };
    if c <= 0 {
        0
    } else if word_char(chars[c - 1]) {
        word_start(chars, c - 1)
    } else {
        c
    }
}

pub fn word_start_before(chars: &[char], col: usize) -> (r: usize)
    ensures
        r as int == word_start(chars@, col as int),
        r <= col,
        r <= chars.len(),
{
    let mut start = if col < chars.len() {
        col
    } else {
        chars.len()
    };
    while start > 0 && is_word_char(chars[start - 1])
        invariant
            start <= chars.len(),
            start <= col,
            word_start(chars@, col as int) == word_start(chars@, start as int),
        decreases start,
    {
        start -= 1;
    }
    start
}

/// The identifier just before `::` at `word_start`, if there is one.
pub open spec fn dbl_colon_base(chars: Seq<char>, ws: int) -> Option<Seq<char>> {
    if ws < 2 || ws > chars.len() || chars[ws - 1] != ':' || chars[ws - 2] != ':' {
        None
    } else {
        let end = ws - 2;
        let start = word_start(chars, end);
        if start == end {
            None
        } else {
            Some(chars.subrange(start, end))
        }
    }
}

pub fn dbl_colon_base_before(chars: &[char], word_start: usize) -> (r: Option<String>)
    requires
        word_start <= chars.len(),
    ensures
        match r {
            Some(s) => dbl_colon_base(chars@, word_start as int) == Some(s@),
            None => dbl_colon_base(chars@, word_start as int) is None,
        },
{
    if word_start < 2 || chars[word_start - 1] != ':' || chars[word_start - 2] != ':' {
        return None;
    }
    let end = word_start - 2;
    let start = word_start_before(chars, end);
    if start == end {
        return None;
    }
    let v = crate::text::slice_copy(chars, start, end);
    Some(crate::text::string_of(v.as_slice()))
}

/// The identifier before the `.` that precedes the current word (or the
/// cursor, when the word is empty), if there is one.
pub open spec fn dot_base(chars: Seq<char>, ws: int, col: int) -> Option<Seq<char>> {
    let dot = if ws > 0 && chars[ws - 1] == '.' {
        ws - 1
    } else if ws == col && col > 0 && chars[col - 1] == '.' {
        col - 1
    } else {
        -1
    };
    if dot < 0 {
        None
    } else {
        let start = word_start(chars, dot);
        if start == dot {
            None
        } else {
            Some(chars.subrange(start, dot))
        }
    }
}

pub fn dot_base_before(chars: &[char], word_start: usize, col: usize) -> (r: Option<String>)
    requires
        word_start <= chars.len(),
        col <= chars.len(),
    ensures
        match r {
            Some(s) => dot_base(chars@, word_start as int, col as int) == Some(s@),
            None => dot_base(chars@, word_start as int, col as int) is None,
        },
{
    let dot_idx = if word_start > 0 && chars[word_start - 1] == '.' {
        word_start - 1
    } else if word_start == col && col > 0 && chars[col - 1] == '.' {
        col - 1
    } else {
        return None;
    };
    let start = word_start_before(chars, dot_idx);
    if start == dot_idx {
        return None;
    }
    let v = crate::text::slice_copy(chars, start, dot_idx);
    Some(crate::text::string_of(v.as_slice()))
}

/// UTF-16 code units of a character: 2 above the Basic Multilingual Plane.
pub open spec fn len16(c: char) -> nat {
    if (c as u32) < 0x10000 {
        1
    } else {
        2
    }
}

/// UTF-16 length of a text.
pub open spec fn utf16_len(s: Seq<char>) -> nat
    decreases s.len(),
{
    if s.len() == 0 {
        0
    } else {
        utf16_len(s.drop_last()) + len16(s.last())
    }
}

/// The character column at UTF-16 column `target`: the character that
/// starts there; the end of the line when `target` is at or past it; `None`
/// when `target` falls inside a surrogate pair.
pub open spec fn utf16_col(chars: Seq<char>, target: int) -> Option<int> {
    if exists|i: int| 0 <= i < chars.len() && utf16_len(chars.take(i)) == target {
        Some(choose|i: int| 0 <= i < chars.len() && utf16_len(chars.take(i)) == target)
    } else if target >= utf16_len(chars) {
        Some(chars.len() as int)
    } else {
        None
    }
}

pub proof fn lemma_utf16_step(chars: Seq<char>, i: int)
    requires
        0 <= i < chars.len(),
    ensures
        utf16_len(chars.take(i + 1)) == utf16_len(chars.take(i)) + len16(chars[i]),
{
    assert(chars.take(i + 1).drop_last() =~= chars.take(i));
}

pub proof fn lemma_utf16_mono(chars: Seq<char>, i: int, j: int)
    requires
        0 <= i <= j <= chars.len(),
    ensures
        utf16_len(chars.take(i)) + (j - i) <= utf16_len(chars.take(j)),
    decreases j - i,
{
    if i < j {
        lemma_utf16_mono(chars, i, j - 1);
        lemma_utf16_step(chars, j - 1);
    }
}

/// A text takes at most two UTF-16 units per character.
pub proof fn lemma_utf16_upper(chars: Seq<char>, i: int)
    requires
        0 <= i <= chars.len(),
    ensures
        utf16_len(chars.take(i)) <= 2 * i,
    decreases i,
{
    if i > 0 {
        lemma_utf16_upper(chars, i - 1);
        lemma_utf16_step(chars, i - 1);
    }
}

pub fn char_len16(c: char) -> (r: u64)
    ensures
        r == len16(c),
{
    if (c as u32) < 0x10000 {
        1
    } else {
        2
    }
}

pub fn utf16_to_char_col(chars: &[char], target: usize) -> (r: Option<usize>)
    requires
        chars.len() < 0x8000_0000,
    ensures
        match r {
            Some(i) => utf16_col(chars@, target as int) == Some(i as int),
            None => utf16_col(chars@, target as int) is None,
        },
{
    let mut used: u64 = 0;
    let mut idx: usize = 0;
    let t: u64 = target as u64;
    assert(chars@.take(0) =~= Seq::<char>::empty());
    while idx < chars.len()
        invariant
            0 <= idx <= chars.len(),
            used as int == utf16_len(chars@.take(idx as int)),
            used <= 2 * idx,
            t == target,
            chars.len() < 0x8000_0000,
            forall|k: int| 0 <= k < idx ==> utf16_len(chars@.take(k)) < target,
        decreases chars.len() - idx,
    {
        if used == t {
            assert(0 <= idx < chars@.len() && utf16_len(chars@.take(idx as int)) == target);
            proof {
                let w = choose|i: int| 0 <= i < chars@.len() && utf16_len(chars@.take(i)) == target;
                if w < idx {
                    assert(utf16_len(chars@.take(w)) < target);
                } else if w > idx {
                    lemma_utf16_mono(chars@, idx as int, w);
                }
            }
            return Some(idx);
        }
        if used > t {
            proof {
                assert forall|i: int| 0 <= i < chars@.len() implies utf16_len(chars@.take(i))
                    != target by {
                    if i > idx {
                        lemma_utf16_mono(chars@, idx as int, i);
                    }
                }
                lemma_utf16_mono(chars@, idx as int, chars@.len() as int);
                assert(chars@.take(chars@.len() as int) =~= chars@);
            }
            return None;
        }
        proof {
            lemma_utf16_step(chars@, idx as int);
        }
        used = used + char_len16(chars[idx]);
        idx += 1;
    }
    assert(chars@.take(chars@.len() as int) =~= chars@);
    if t >= used {
        proof {
            assert forall|i: int| 0 <= i < chars@.len() implies utf16_len(chars@.take(i))
                != target by {}
        }
        Some(chars.len())
    } else {
        proof {
            assert forall|i: int| 0 <= i < chars@.len() implies utf16_len(chars@.take(i))
                != target by {}
        }
        None
    }
}

/// The UTF-16 length of the first `n` characters.
pub fn utf16_prefix(chars: &[char], n: usize) -> (r: u64)
    requires
        n <= chars.len(),
        chars.len() < 0x8000_0000,
    ensures
        r == utf16_len(chars@.take(n as int)),
        r <= 2 * n,
{
    let mut used: u64 = 0;
    let mut i: usize = 0;
    assert(chars@.take(0) =~= Seq::<char>::empty());
    while i < n
        invariant
            0 <= i <= n <= chars.len(),
            chars.len() < 0x8000_0000,
            used == utf16_len(chars@.take(i as int)),
            used <= 2 * i,
        decreases n - i,
    {
        proof {
            lemma_utf16_step(chars@, i as int);
        }
        used = used + char_len16(chars[i]);
        i += 1;
    }
    used
}

/// The character column whose UTF-16 offset is exactly `target`, counting
/// the end of the text as a column; `None` when no column starts there.
pub open spec fn exact_col(chars: Seq<char>, target: int) -> Option<int> {
    if exists|i: int| 0 <= i <= chars.len() && utf16_len(chars.take(i)) == target {
        Some(choose|i: int| 0 <= i <= chars.len() && utf16_len(chars.take(i)) == target)
    } else {
        None
    }
}

/// Character columns have distinct UTF-16 offsets.
pub proof fn lemma_utf16_injective(chars: Seq<char>, i: int, j: int)
    requires
        0 <= i <= chars.len(),
        0 <= j <= chars.len(),
        utf16_len(chars.take(i)) == utf16_len(chars.take(j)),
    ensures
        i == j,
{
    if i < j {
        lemma_utf16_mono(chars, i, j);
    } else if j < i {
        lemma_utf16_mono(chars, j, i);
    }
}

pub fn utf16_exact_col(chars: &[char], target: usize) -> (r: Option<usize>)
    requires
        chars.len() < 0x8000_0000,
    ensures
        match r {
            Some(i) => exact_col(chars@, target as int) == Some(i as int),
            None => exact_col(chars@, target as int) is None,
        },
{
    let mut used: u64 = 0;
    let mut idx: usize = 0;
    let t: u64 = target as u64;
    assert(chars@.take(0) =~= Seq::<char>::empty());
    while idx < chars.len()
        invariant
            0 <= idx <= chars.len(),
            used as int == utf16_len(chars@.take(idx as int)),
            used <= 2 * idx,
            t == target,
            chars.len() < 0x8000_0000,
            forall|k: int| 0 <= k < idx ==> utf16_len(chars@.take(k)) < target,
        decreases chars.len() - idx,
    {
        if used == t {
            proof {
                let w = choose|i: int|
                    0 <= i <= chars@.len() && utf16_len(chars@.take(i)) == target;
                assert(0 <= idx <= chars@.len() && utf16_len(chars@.take(idx as int)) == target);
                lemma_utf16_injective(chars@, w, idx as int);
            }
            return Some(idx);
        }
        if used > t {
            proof {
                assert forall|i: int| 0 <= i <= chars@.len() implies utf16_len(chars@.take(i))
                    != target by {
                    if i > idx {
                        lemma_utf16_mono(chars@, idx as int, i);
                    }
                }
            }
            return None;
        }
        proof {
            lemma_utf16_step(chars@, idx as int);
        }
        used = used + char_len16(chars[idx]);
        idx += 1;
    }
    if used == t {
        proof {
            let w = choose|i: int| 0 <= i <= chars@.len() && utf16_len(chars@.take(i)) == target;
            assert(0 <= idx <= chars@.len() && utf16_len(chars@.take(idx as int)) == target);
            lemma_utf16_injective(chars@, w, idx as int);
        }
        Some(idx)
    } else {
        proof {
            assert forall|i: int| 0 <= i <= chars@.len() implies utf16_len(chars@.take(i))
                != target by {}
        }
        None
    }
}

} // verus!
