//! Version requirements of `huzi.toml` dependencies: parsing and matching.
//!
//! | syntax | meaning |
//! |--------|---------|
//! | `1.2.3` | exactly equal (missing components are 0, `1.2` is `1.2.0`) |
//! | `^1.2.3` | compatible: `>=1.2.3, <2.0.0`; `^0.2.3` is `<0.3.0`; `^0.0.3` is `<0.0.4` |
//! | `~1.2.3` | minor bound: `>=1.2.3, <1.3.0`; `~1` is `>=1.0.0, <2.0.0` |
//! | `>=1.0.0, <2.0.0` | comparators separated by commas or spaces, all of which must hold |
//! | `*` / `1.*` | any version / prefix wildcard (`1.*` is `>=1.0.0, <2.0.0`) |
use crate::text::{
    lemma_dec_digits_chars, lemma_dec_digits_roundtrip, lemma_split_on_append,
    lemma_split_on_no_sep, lemma_trim_noop, contains_char, is_whitespace, is_ws, words, words_of,
    all_digits, chars_of, debug_chars, dec_digits, dec_value, is_digit, join3, parse_u64_digits,
    push_all, push_decimal, push_str, slice_copy, split_chars, split_on, string_of, trim, trim_chars,
    views,
};
use vstd::prelude::*;

verus! {

/// A semantic version triple; missing components default to 0.
#[derive(Debug, Clone, Copy, PartialEq, Eq, Structural, PartialOrd, Ord, Hash)]
pub struct SemVersion {
    pub major: u64,
    pub minor: u64,
    pub patch: u64,
}

/// Strict version order: lexicographic on (major, minor, patch).
pub open spec fn sv_lt(a: SemVersion, b: SemVersion) -> bool {
    a.major < b.major || (a.major == b.major && (a.minor < b.minor || (a.minor == b.minor
        && a.patch < b.patch)))
}

pub open spec fn sv_le(a: SemVersion, b: SemVersion) -> bool {
    a == b || sv_lt(a, b)
}

/// A single leading `v` or `V` is dropped.
pub open spec fn strip_v(t: Seq<char>) -> Seq<char> {
    if t.len() > 0 && (t[0] == 'v' || t[0] == 'V') {
        t.drop_first()
    } else {
        t
    }
}

pub open spec fn component_ok(p: Seq<char>) -> bool {
    p.len() > 0 && all_digits(p) && dec_value(p) <= u64::MAX
}

pub open spec fn component(parts: Seq<Seq<char>>, i: int) -> u64 {
    if i < parts.len() {
        dec_value(parts[i]) as u64
    } else {
        0
    }
}

/// What `SemVersion::parse` accepts and returns: `1[.2[.3]]` after trimming
/// and dropping one leading `v`/`V`, each component a non-empty decimal that
/// fits in `u64`.
pub open spec fn parse_semver(raw: Seq<char>) -> Option<SemVersion> {
    let s = strip_v(trim(raw));
    let parts = split_on(s, '.');
    if s.len() == 0 || parts.len() > 3 || !(forall|i: int|
        0 <= i < parts.len() ==> #[trigger] component_ok(parts[i])) {
        None
    } else {
        Some(
            SemVersion {
                major: component(parts, 0),
                minor: component(parts, 1),
                patch: component(parts, 2),
            },
        )
    }
}

/// The text `major.minor.patch`.
pub open spec fn sv_text(v: SemVersion) -> Seq<char> {
    dec_digits(v.major as nat).push('.') + dec_digits(v.minor as nat).push('.') + dec_digits(
        v.patch as nat,
    )
}

pub open spec fn bump_major_spec(v: SemVersion) -> SemVersion {
    SemVersion { major: (v.major + 1) as u64, minor: 0, patch: 0 }
}

pub open spec fn bump_minor_spec(v: SemVersion) -> SemVersion {
    SemVersion { major: v.major, minor: (v.minor + 1) as u64, patch: 0 }
}

/// The `^` upper bound is computable without overflow.
pub open spec fn caret_ok(b: SemVersion) -> bool {
    if b.major > 0 {
        b.major < u64::MAX
    } else if b.minor > 0 {
        b.minor < u64::MAX
    } else {
        b.patch < u64::MAX
    }
}

/// `^` upper bound: bump the first non-zero component (the patch when all are 0).
pub open spec fn caret_upper_spec(b: SemVersion) -> SemVersion {
    if b.major > 0 {
        bump_major_spec(b)
    } else if b.minor > 0 {
        SemVersion { major: 0, minor: (b.minor + 1) as u64, patch: 0 }
    } else {
        SemVersion { major: 0, minor: 0, patch: (b.patch + 1) as u64 }
    }
}

/// The first component that is not a non-empty decimal fitting in `u64`.
pub open spec fn first_bad_component(parts: Seq<Seq<char>>) -> int {
    choose|k: int|
        0 <= k < parts.len() && !component_ok(parts[k]) && forall|j: int|
            0 <= j < k ==> #[trigger] component_ok(parts[j])
}

/// The error `SemVersion::parse` reports for a text it rejects: an empty
/// version, more than three components, or the first bad component (not
/// plain digits, or too large).
pub open spec fn semver_error(raw: Seq<char>) -> Seq<char> {
    let s = strip_v(trim(raw));
    let parts = split_on(s, '.');
    if s.len() == 0 {
        "版本号为空: "@ + crate::text::debug_text(raw)
    } else if parts.len() > 3 {
        "非法版本号 "@ + crate::text::debug_text(raw) + ": 至多 3 个分量"@
    } else {
        let p = parts[first_bad_component(parts)];
        if p.len() == 0 || !all_digits(p) {
            "非法版本号 "@ + crate::text::debug_text(raw) + ": 分量 "@ + crate::text::debug_text(p) + " 非纯数字"@
        } else {
            "版本号 "@ + crate::text::debug_text(raw) + " 数值越界"@
        }
    }
}

impl SemVersion {
    /// Parses `1[.2[.3]]`, allowing a leading `v`; rejects pre-release tags,
    /// wildcards and anything that is not plain digits.
    pub fn parse(raw: &str) -> (r: Result<Self, String>)
        ensures
            match r {
                Ok(v) => parse_semver(raw@) == Some(v),
                Err(e) => parse_semver(raw@).is_none() && e@ == semver_error(raw@),
            },
    {
        let cs = chars_of(raw);
        Self::parse_chars(cs.as_slice())
    }

    /// `SemVersion::parse` on a character sequence.
    pub fn parse_chars(raw: &[char]) -> (r: Result<Self, String>)
        ensures
            match r {
                Ok(v) => parse_semver(raw@) == Some(v),
                Err(e) => parse_semver(raw@).is_none() && e@ == semver_error(raw@),
            },
    {
        let t = trim_chars(raw);
        let s = if t.len() > 0 && (t[0] == 'v' || t[0] == 'V') {
            slice_copy(t.as_slice(), 1, t.len())
        } else {
            slice_copy(t.as_slice(), 0, t.len())
        };
        assert(s@ =~= strip_v(trim(raw@)));
        if s.len() == 0 {
            let d = debug_chars(raw);
            proof {
                reveal_strlit("");
                assert(d@ + ""@ =~= d@);
            }
            return Err(join3("版本号为空: ", d.as_slice(), ""));
        }
        let parts = split_chars(s.as_slice(), '.');
        let ghost pv = split_on(s@, '.');
        assert(views(parts@) == pv);
        if parts.len() > 3 {
            let d = debug_chars(raw);
            return Err(join3("非法版本号 ", d.as_slice(), ": 至多 3 个分量"));
        }
        let mut nums: [u64; 3] = [0, 0, 0];
        let mut i: usize = 0;
        while i < parts.len()
            invariant
                0 <= i <= parts.len() <= 3,
                views(parts@) == pv,
                pv == split_on(s@, '.'),
                s@ == strip_v(trim(raw@)),
                s.len() > 0,
                forall|j: int| 0 <= j < i ==> #[trigger] component_ok(pv[j]),
                forall|j: int| 0 <= j < i ==> nums[j] == component(pv, j),
                forall|j: int| i <= j < 3 ==> nums[j] == 0,
            decreases parts.len() - i,
        {
            let p = &parts[i];
            assert(p@ == pv[i as int]);
            let mut k: usize = 0;
            let mut ok = p.len() > 0;
            while k < p.len()
                invariant
                    0 <= k <= p.len(),
                    ok ==> forall|m: int| 0 <= m < k ==> #[trigger] is_digit(p@[m]),
                    ok ==> p.len() > 0,
                    !ok ==> (p.len() == 0 || exists|m: int| 0 <= m < p.len() && !is_digit(p@[m])),
                decreases p.len() - k,
            {
                if !('0' <= p[k] && p[k] <= '9') {
                    ok = false;
                    assert(!is_digit(p@[k as int]));
                }
                k += 1;
            }
            if !ok {
                assert(!component_ok(pv[i as int]));
                assert(parse_semver(raw@).is_none());
                assert(first_bad_component(pv) == i);
                let d = debug_chars(raw);
                let q = debug_chars(p.as_slice());
                let mut m: Vec<char> = Vec::new();
                push_str(&mut m, "非法版本号 ");
                push_all(&mut m, d.as_slice());
                push_str(&mut m, ": 分量 ");
                push_all(&mut m, q.as_slice());
                push_str(&mut m, " 非纯数字");
                return Err(string_of(m.as_slice()));
            }
            match parse_u64_digits(p.as_slice()) {
                Some(v) => {
                    nums[i] = v;
                },
                None => {
                    assert(!component_ok(pv[i as int]));
                    assert(parse_semver(raw@).is_none());
                    assert(first_bad_component(pv) == i);
                    let d = debug_chars(raw);
                    return Err(join3("版本号 ", d.as_slice(), " 数值越界"));
                },
            }
            assert(component_ok(pv[i as int]));
            i += 1;
        }
        Ok(SemVersion { major: nums[0], minor: nums[1], patch: nums[2] })
    }

    /// Strict version order.
    pub fn precedes(&self, other: &SemVersion) -> (r: bool)
        ensures
            r == sv_lt(*self, *other),
    {
        self.major < other.major || (self.major == other.major && (self.minor < other.minor || (
        self.minor == other.minor && self.patch < other.patch)))
    }

    pub fn bump_major(&self) -> (r: Self)
        requires
            self.major < u64::MAX,
        ensures
            r == bump_major_spec(*self),
    {
        SemVersion { major: self.major + 1, minor: 0, patch: 0 }
    }

    pub fn bump_minor(&self) -> (r: Self)
        requires
            self.minor < u64::MAX,
        ensures
            r == bump_minor_spec(*self),
    {
        SemVersion { major: self.major, minor: self.minor + 1, patch: 0 }
    }

    /// The text `major.minor.patch`.
    pub fn to_string(&self) -> (r: String)
        ensures
            r@ == sv_text(*self),
    {
        let mut v: Vec<char> = Vec::new();
        self.push_text(&mut v);
        string_of(v.as_slice())
    }

    /// Appends the text `major.minor.patch`.
    pub fn push_text(&self, out: &mut Vec<char>)
        ensures
            final(out)@ == old(out)@ + sv_text(*self),
    {
        push_decimal(out, self.major);
        out.push('.');
        push_decimal(out, self.minor);
        out.push('.');
        push_decimal(out, self.patch);
        assert(final(out)@ =~= old(out)@ + sv_text(*self));
    }
}

/// Range comparison operators.
#[derive(Debug, Clone, Copy, PartialEq, Eq, Structural)]
pub enum ComparatorOp {
    Eq,
    Gt,
    Ge,
    Lt,
    Le,
}

/// A single condition such as `>=1.0.0`.
#[derive(Debug, Clone, Copy, PartialEq, Eq, Structural)]
pub struct Comparator {
    pub op: ComparatorOp,
    pub version: SemVersion,
}

pub open spec fn comparator_holds(c: Comparator, v: SemVersion) -> bool {
    match c.op {
        ComparatorOp::Eq => v == c.version,
        ComparatorOp::Gt => sv_lt(c.version, v),
        ComparatorOp::Ge => sv_le(c.version, v),
        ComparatorOp::Lt => sv_lt(v, c.version),
        ComparatorOp::Le => sv_le(v, c.version),
    }
}

impl Comparator {
    /// Whether `ver` satisfies this condition.
    pub fn matches(&self, ver: &SemVersion) -> (r: bool)
        ensures
            r == comparator_holds(*self, *ver),
    {
        match self.op {
            ComparatorOp::Eq => *ver == self.version,
            ComparatorOp::Gt => self.version.precedes(ver),
            ComparatorOp::Ge => *ver == self.version || self.version.precedes(ver),
            ComparatorOp::Lt => ver.precedes(&self.version),
            ComparatorOp::Le => *ver == self.version || ver.precedes(&self.version),
        }
    }
}

/// A dependency's version requirement.
#[derive(Debug, Clone, PartialEq, Eq)]
pub enum VersionReq {
    /// `*`: any version.
    Any,
    /// A bare version: exactly equal.
    Exact(SemVersion),
    /// `^`: compatible upper bound.
    Caret(SemVersion),
    /// `~`: minor upper bound (already resolved at parse time).
    Tilde { lower: SemVersion, upper: SemVersion },
    /// Comparators, all of which must hold.
    Range(Vec<Comparator>),
}

/// The mathematical content of a `VersionReq`.
pub enum ReqModel {
    Any,
    Exact(SemVersion),
    Caret(SemVersion),
    Tilde { lower: SemVersion, upper: SemVersion },
    Range(Seq<Comparator>),
}

impl View for VersionReq {
    type V = ReqModel;

    open spec fn view(&self) -> ReqModel {
        match self {
            VersionReq::Any => ReqModel::Any,
            VersionReq::Exact(v) => ReqModel::Exact(*v),
            VersionReq::Caret(v) => ReqModel::Caret(*v),
            VersionReq::Tilde { lower, upper } => ReqModel::Tilde { lower: *lower, upper: *upper },
            VersionReq::Range(cs) => ReqModel::Range(cs@),
        }
    }
}

/// The requirement can be evaluated without arithmetic overflow.
pub open spec fn req_defined(r: ReqModel) -> bool {
    match r {
        ReqModel::Caret(b) => caret_ok(b),
        _ => true,
    }
}

/// Whether version `v` satisfies requirement `r`.
pub open spec fn req_holds(r: ReqModel, v: SemVersion) -> bool {
    match r {
        ReqModel::Any => true,
        ReqModel::Exact(e) => v == e,
        ReqModel::Caret(b) => sv_le(b, v) && sv_lt(v, caret_upper_spec(b)),
        ReqModel::Tilde { lower, upper } => sv_le(lower, v) && sv_lt(v, upper),
        ReqModel::Range(cs) => all_hold(cs, v),
    }
}

/// Every comparator of `cs` holds for `v`.
pub open spec fn all_hold(cs: Seq<Comparator>, v: SemVersion) -> bool {
    forall|i: int| 0 <= i < cs.len() ==> comparator_holds(#[trigger] cs[i], v)
}

impl VersionReq {
    /// Whether `ver` satisfies this requirement.
    pub fn matches(&self, ver: &SemVersion) -> (r: bool)
        requires
            req_defined(self@),
        ensures
            r == req_holds(self@, *ver),
    {
        match self {
            VersionReq::Any => true,
            VersionReq::Exact(v) => *ver == *v,
            VersionReq::Caret(base) => {
                let up = caret_upper(base);
                (*ver == *base || base.precedes(ver)) && ver.precedes(&up)
            },
            VersionReq::Tilde { lower, upper } => (*ver == *lower || lower.precedes(ver))
                && ver.precedes(upper),
            VersionReq::Range(comps) => {
                let mut i: usize = 0;
                while i < comps.len()
                    invariant
                        0 <= i <= comps.len(),
                        self@ == ReqModel::Range(comps@),
                        forall|j: int| 0 <= j < i ==> comparator_holds(#[trigger] comps@[j], *ver),
                    decreases comps.len() - i,
                {
                    if !comps[i].matches(ver) {
                        assert(!comparator_holds(comps@[i as int], *ver));
                        return false;
                    }
                    i += 1;
                }
                true
            },
        }
    }

    /// Parses a version string and tests it against this requirement.
    pub fn matches_str(&self, raw: &str) -> (r: Result<bool, String>)
        requires
            parse_semver(raw@) is Some ==> req_defined(self@),
        ensures
            match r {
                Ok(b) => parse_semver(raw@) matches Some(v) && b == req_holds(self@, v),
                Err(e) => parse_semver(raw@).is_none() && e@ == semver_error(raw@),
            },
    {
        match SemVersion::parse(raw) {
            Ok(v) => Ok(self.matches(&v)),
            Err(e) => Err(e),
        }
    }
}

/// The highest candidate that satisfies the requirement, `None` when no
/// candidate does (callers report a dependency conflict).
pub fn select_max_satisfying(req: &VersionReq, candidates: &[SemVersion]) -> (r: Option<SemVersion>)
    requires
        req_defined(req@),
    ensures
        match r {
            Some(v) => {
                &&& candidates@.contains(v)
                &&& req_holds(req@, v)
                &&& forall|i: int|
                    0 <= i < candidates.len() && req_holds(req@, #[trigger] candidates@[i]) ==> sv_le(
                        candidates@[i],
                        v,
                    )
            },
            None => forall|i: int| 0 <= i < candidates.len() ==> !req_holds(req@, #[trigger] candidates@[i]),
        },
{
    let mut best: Option<SemVersion> = None;
    let mut i: usize = 0;
    while i < candidates.len()
        invariant
            0 <= i <= candidates.len(),
            req_defined(req@),
            match best {
                Some(v) => {
                    &&& candidates@.contains(v)
                    &&& req_holds(req@, v)
                    &&& forall|j: int|
                        0 <= j < i && req_holds(req@, #[trigger] candidates@[j]) ==> sv_le(
                            candidates@[j],
                            v,
                        )
                },
                None => forall|j: int| 0 <= j < i ==> !req_holds(req@, #[trigger] candidates@[j]),
            },
        decreases candidates.len() - i,
    {
        let c = candidates[i];
        if req.matches(&c) {
            match best {
                Some(b) => {
                    if !c.precedes(&b) {
                        best = Some(c);
                    }
                },
                None => {
                    best = Some(c);
                },
            }
        }
        i += 1;
    }
    best
}

/// `^` upper bound: `major > 0` bumps the major; otherwise the minor, or the
/// patch when the minor is 0 too.
pub fn caret_upper(base: &SemVersion) -> (r: SemVersion)
    requires
        caret_ok(*base),
    ensures
        r == caret_upper_spec(*base),
{
    if base.major > 0 {
        base.bump_major()
    } else if base.minor > 0 {
        SemVersion { major: 0, minor: base.minor + 1, patch: 0 }
    } else {
        SemVersion { major: 0, minor: 0, patch: base.patch + 1 }
    }
}

/// Outcome of parsing a requirement string.
pub enum ReqParse {
    Parsed(ReqModel),
    Rejected,
    /// The text is well formed but computing its upper bound overflows `u64`.
    Overflows,
}

pub open spec fn has_comparator_prefix_spec(s: Seq<char>) -> bool {
    s.len() > 0 && (s[0] == '>' || s[0] == '<' || s[0] == '=' || s[0] == '!')
}

pub open spec fn has_ws(s: Seq<char>) -> bool {
    exists|i: int| 0 <= i < s.len() && #[trigger] is_ws(s[i])
}

/// Operator and remaining text of a comparator token.
pub open spec fn comparator_split(tok: Seq<char>) -> (ComparatorOp, Seq<char>) {
    if tok.len() >= 2 && tok[0] == '>' && tok[1] == '=' {
        (ComparatorOp::Ge, tok.skip(2))
    } else if tok.len() >= 2 && tok[0] == '<' && tok[1] == '=' {
        (ComparatorOp::Le, tok.skip(2))
    } else if tok.len() >= 2 && tok[0] == '=' && tok[1] == '=' {
        (ComparatorOp::Eq, tok.skip(2))
    } else if tok.len() >= 1 && tok[0] == '>' {
        (ComparatorOp::Gt, tok.skip(1))
    } else if tok.len() >= 1 && tok[0] == '<' {
        (ComparatorOp::Lt, tok.skip(1))
    } else if tok.len() >= 1 && tok[0] == '=' {
        (ComparatorOp::Eq, tok.skip(1))
    } else {
        (ComparatorOp::Eq, tok)
    }
}

/// A single comparator token; a token without an operator means `=`.
pub open spec fn comparator_spec(tok: Seq<char>) -> Option<Comparator> {
    let (op, rest) = comparator_split(tok);
    if trim(rest).len() == 0 || rest.contains('*') {
        None
    } else {
        match parse_semver(rest) {
            Some(v) => Some(Comparator { op, version: v }),
            None => None,
        }
    }
}

pub open spec fn comma_to_space(s: Seq<char>) -> Seq<char> {
    s.map_values(|c: char| if c == ',' { ' ' } else { c })
}

/// A comparator list separated by commas or white space.
pub open spec fn range_spec(s: Seq<char>) -> ReqParse {
    let toks = words(comma_to_space(s));
    if exists|i: int| 0 <= i < toks.len() && (#[trigger] comparator_spec(toks[i])).is_none() {
        ReqParse::Rejected
    } else if toks.len() == 0 {
        ReqParse::Rejected
    } else {
        ReqParse::Parsed(ReqModel::Range(toks.map_values(|t: Seq<char>| comparator_spec(t).unwrap())))
    }
}

/// `~` followed by a version: with a `.` the minor is bumped, else the major.
pub open spec fn tilde_spec(rest: Seq<char>) -> ReqParse {
    let t = trim(rest);
    if t.len() == 0 {
        ReqParse::Rejected
    } else {
        match parse_semver(t) {
            None => ReqParse::Rejected,
            Some(lower) => if strip_v(t).contains('.') {
                if lower.minor < u64::MAX {
                    ReqParse::Parsed(ReqModel::Tilde { lower, upper: bump_minor_spec(lower) })
                } else {
                    ReqParse::Overflows
                }
            } else {
                if lower.major < u64::MAX {
                    ReqParse::Parsed(ReqModel::Tilde { lower, upper: bump_major_spec(lower) })
                } else {
                    ReqParse::Overflows
                }
            },
        }
    }
}

/// `1.*` is `>=1.0.0, <2.0.0`; `1.2.*` is `>=1.2.0, <1.3.0`.
pub open spec fn wildcard_spec(s: Seq<char>) -> ReqParse {
    if !(s.len() >= 2 && s[s.len() - 2] == '.' && s[s.len() - 1] == '*') {
        ReqParse::Rejected
    } else {
        let core = s.take(s.len() - 2);
        let n = split_on(core, '.').len();
        if core.len() == 0 || core.contains('*') || n > 2 {
            ReqParse::Rejected
        } else {
            match parse_semver(core) {
                None => ReqParse::Rejected,
                Some(base) => if n == 1 {
                    if base.major < u64::MAX {
                        ReqParse::Parsed(
                            ReqModel::Range(
                                seq![
                                    Comparator { op: ComparatorOp::Ge, version: base },
                                    Comparator { op: ComparatorOp::Lt, version: bump_major_spec(base) },
                                ],
                            ),
                        )
                    } else {
                        ReqParse::Overflows
                    }
                } else {
                    if base.minor < u64::MAX {
                        ReqParse::Parsed(
                            ReqModel::Range(
                                seq![
                                    Comparator { op: ComparatorOp::Ge, version: base },
                                    Comparator { op: ComparatorOp::Lt, version: bump_minor_spec(base) },
                                ],
                            ),
                        )
                    } else {
                        ReqParse::Overflows
                    }
                },
            }
        }
    }
}

/// What `parse_version_req` makes of a requirement string.
pub open spec fn parse_req_spec(raw: Seq<char>) -> ReqParse {
    let s = trim(raw);
    if s.len() == 0 {
        ReqParse::Rejected
    } else if s == seq!['*'] {
        ReqParse::Parsed(ReqModel::Any)
    } else if s[0] == '^' {
        match parse_semver(s.drop_first()) {
            Some(v) => ReqParse::Parsed(ReqModel::Caret(v)),
            None => ReqParse::Rejected,
        }
    } else if s[0] == '~' {
        tilde_spec(s.drop_first())
    } else if has_comparator_prefix_spec(s) || s.contains(',') || has_ws(s) {
        range_spec(s)
    } else if s.contains('*') {
        wildcard_spec(s)
    } else {
        match parse_semver(s) {
            Some(v) => ReqParse::Parsed(ReqModel::Exact(v)),
            None => ReqParse::Rejected,
        }
    }
}

/// The error for a comparator token that does not parse: no version after
/// the operator, a wildcard, or the version's own error.
pub open spec fn comparator_error(tok: Seq<char>) -> Seq<char> {
    let rest = comparator_split(tok).1;
    if trim(rest).len() == 0 {
        "比较符 "@ + crate::text::debug_text(tok) + " 缺少版本号"@
    } else if rest.contains('*') {
        "范围比较符不支持通配符 "@ + crate::text::debug_text(tok)
    } else {
        semver_error(rest)
    }
}

/// The first token that is not a comparator.
pub open spec fn first_bad_comparator(toks: Seq<Seq<char>>) -> int {
    choose|k: int|
        0 <= k < toks.len() && comparator_spec(toks[k]).is_none() && forall|j: int|
            0 <= j < k ==> (#[trigger] comparator_spec(toks[j])).is_some()
}

/// The error for a comparator list that does not parse: the first bad
/// comparator's, or an empty list.
pub open spec fn range_error(s: Seq<char>) -> Seq<char> {
    let toks = words(comma_to_space(s));
    if exists|i: int| 0 <= i < toks.len() && (#[trigger] comparator_spec(toks[i])).is_none() {
        comparator_error(toks[first_bad_comparator(toks)])
    } else {
        "非法版本范围 "@ + crate::text::debug_text(s)
    }
}

/// The error for a wildcard that does not parse.
pub open spec fn wildcard_error(s: Seq<char>) -> Seq<char> {
    let core = s.take(s.len() - 2);
    if !(s.len() >= 2 && s[s.len() - 2] == '.' && s[s.len() - 1] == '*') || core.len() == 0
        || core.contains('*') || split_on(core, '.').len() > 2 {
        "非法版本通配 "@ + crate::text::debug_text(s)
    } else {
        semver_error(core)
    }
}

/// The error for what follows `~` when it does not parse.
pub open spec fn tilde_error(rest: Seq<char>) -> Seq<char> {
    let t = trim(rest);
    if t.len() == 0 {
        "`~` 后缺少版本号"@
    } else {
        semver_error(t)
    }
}

/// The error `parse_version_req` reports for a requirement it rejects.
pub open spec fn req_error(raw: Seq<char>) -> Seq<char> {
    let s = trim(raw);
    if s.len() == 0 {
        "版本需求为空"@
    } else if s[0] == '^' {
        semver_error(s.drop_first())
    } else if s[0] == '~' {
        tilde_error(s.drop_first())
    } else if has_comparator_prefix_spec(s) || s.contains(',') || has_ws(s) {
        range_error(s)
    } else if s.contains('*') {
        wildcard_error(s)
    } else {
        semver_error(s)
    }
}

pub open spec fn parse_req_ok(raw: Seq<char>, r: Result<VersionReq, String>) -> bool {
    match r {
        Ok(q) => parse_req_spec(raw) == ReqParse::Parsed(q@),
        Err(_) => parse_req_spec(raw) is Rejected,
    }
}

/// Parses a requirement string (`^`, `~`, comparator ranges, `*`, or an exact version).
pub fn parse_version_req(raw: &str) -> (r: Result<VersionReq, String>)
    requires
        !(parse_req_spec(raw@) is Overflows),
    ensures
        parse_req_ok(raw@, r),
        r matches Err(e) ==> e@ == req_error(raw@),
{
    let cs = chars_of(raw);
    let s = trim_chars(cs.as_slice());
    if s.len() == 0 {
        return Err(string_of(chars_of("版本需求为空").as_slice()));
    }
    if s.len() == 1 && s[0] == '*' {
        assert(s@ =~= seq!['*']);
        return Ok(VersionReq::Any);
    }
    assert(s@ != seq!['*']);
    if s[0] == '^' {
        let rest = slice_copy(s.as_slice(), 1, s.len());
        assert(rest@ =~= s@.drop_first());
        return match SemVersion::parse_chars(rest.as_slice()) {
            Ok(v) => Ok(VersionReq::Caret(v)),
            Err(e) => Err(e),
        };
    }
    if s[0] == '~' {
        let rest = slice_copy(s.as_slice(), 1, s.len());
        assert(rest@ =~= s@.drop_first());
        return parse_tilde(rest.as_slice());
    }
    if has_comparator_prefix(s.as_slice()) || contains_char(s.as_slice(), ',') || has_whitespace(
        s.as_slice(),
    ) {
        return parse_range(s.as_slice());
    }
    if contains_char(s.as_slice(), '*') {
        return parse_wildcard(s.as_slice());
    }
    match SemVersion::parse_chars(s.as_slice()) {
        Ok(v) => Ok(VersionReq::Exact(v)),
        Err(e) => Err(e),
    }
}

fn has_comparator_prefix(s: &[char]) -> (r: bool)
    ensures
        r == has_comparator_prefix_spec(s@),
{
    s.len() > 0 && (s[0] == '>' || s[0] == '<' || s[0] == '=' || s[0] == '!')
}

fn has_whitespace(s: &[char]) -> (r: bool)
    ensures
        r == has_ws(s@),
{
    let mut i: usize = 0;
    while i < s.len()
        invariant
            0 <= i <= s.len(),
            forall|j: int| 0 <= j < i ==> !is_ws(#[trigger] s@[j]),
        decreases s.len() - i,
    {
        if is_whitespace(s[i]) {
            assert(is_ws(s@[i as int]));
            return true;
        }
        i += 1;
    }
    false
}

/// Parses what follows `~`: a version with a `.` bumps the minor, else the major.
fn parse_tilde(rest: &[char]) -> (r: Result<VersionReq, String>)
    requires
        !(tilde_spec(rest@) is Overflows),
    ensures
        match r {
            Ok(q) => tilde_spec(rest@) == ReqParse::Parsed(q@),
            Err(e) => tilde_spec(rest@) is Rejected && e@ == tilde_error(rest@),
        },
{
    let t = trim_chars(rest);
    if t.len() == 0 {
        return Err(string_of(chars_of("`~` 后缺少版本号").as_slice()));
    }
    let lower = match SemVersion::parse_chars(t.as_slice()) {
        Ok(v) => v,
        Err(e) => return Err(e),
    };
    let shaped = if t[0] == 'v' || t[0] == 'V' {
        slice_copy(t.as_slice(), 1, t.len())
    } else {
        slice_copy(t.as_slice(), 0, t.len())
    };
    assert(shaped@ =~= strip_v(t@));
    let upper = if contains_char(shaped.as_slice(), '.') {
        lower.bump_minor()
    } else {
        lower.bump_major()
    };
    Ok(VersionReq::Tilde { lower, upper })
}

/// Replaces every `,` by a space.
fn commas_to_spaces(s: &[char]) -> (r: Vec<char>)
    ensures
        r@ == comma_to_space(s@),
{
    let mut r: Vec<char> = Vec::new();
    let mut i: usize = 0;
    while i < s.len()
        invariant
            0 <= i <= s.len(),
            r@ == comma_to_space(s@.take(i as int)),
        decreases s.len() - i,
    {
        let c = if s[i] == ',' {
            ' '
        } else {
            s[i]
        };
        r.push(c);
        i += 1;
        assert(r@ =~= comma_to_space(s@.take(i as int)));
    }
    assert(s@.take(s.len() as int) =~= s@);
    r
}

/// Parses comparators separated by commas or white space, all of which must hold.
fn parse_range(s: &[char]) -> (r: Result<VersionReq, String>)
    ensures
        match r {
            Ok(q) => range_spec(s@) == ReqParse::Parsed(q@),
            Err(e) => range_spec(s@) is Rejected && e@ == range_error(s@),
        },
{
    let spaced = commas_to_spaces(s);
    let toks = words_of(spaced.as_slice());
    let ghost tv = words(comma_to_space(s@));
    assert(views(toks@) == tv);
    let mut comps: Vec<Comparator> = Vec::new();
    let mut i: usize = 0;
    while i < toks.len()
        invariant
            0 <= i <= toks.len(),
            views(toks@) == tv,
            tv == words(comma_to_space(s@)),
            comps.len() == i,
            forall|j: int| 0 <= j < i ==> (#[trigger] comparator_spec(tv[j])) == Some(comps@[j]),
        decreases toks.len() - i,
    {
        assert(toks@[i as int]@ == tv[i as int]);
        match parse_comparator(toks[i].as_slice()) {
            Ok(c) => {
                comps.push(c);
            },
            Err(e) => {
                assert(comparator_spec(tv[i as int]).is_none());
                assert(range_spec(s@) is Rejected);
                assert(first_bad_comparator(tv) == i);
                return Err(e);
            },
        }
        i += 1;
    }
    if comps.len() == 0 {
        let d = debug_chars(s);
        proof {
            reveal_strlit("");
            assert(d@ + ""@ =~= d@);
        }
        return Err(join3("非法版本范围 ", d.as_slice(), ""));
    }
    assert(comps@ =~= tv.map_values(|t: Seq<char>| comparator_spec(t).unwrap()));
    Ok(VersionReq::Range(comps))
}

/// Parses one comparator token (no operator means `=`).
fn parse_comparator(tok: &[char]) -> (r: Result<Comparator, String>)
    ensures
        match r {
            Ok(c) => comparator_spec(tok@) == Some(c),
            Err(e) => comparator_spec(tok@).is_none() && e@ == comparator_error(tok@),
        },
{
    let n = tok.len();
    let (op, start) = if n >= 2 && tok[0] == '>' && tok[1] == '=' {
        (ComparatorOp::Ge, 2)
    } else if n >= 2 && tok[0] == '<' && tok[1] == '=' {
        (ComparatorOp::Le, 2)
    } else if n >= 2 && tok[0] == '=' && tok[1] == '=' {
        (ComparatorOp::Eq, 2)
    } else if n >= 1 && tok[0] == '>' {
        (ComparatorOp::Gt, 1)
    } else if n >= 1 && tok[0] == '<' {
        (ComparatorOp::Lt, 1)
    } else if n >= 1 && tok[0] == '=' {
        (ComparatorOp::Eq, 1)
    } else {
        (ComparatorOp::Eq, 0)
    };
    let rest = slice_copy(tok, start, n);
    assert(rest@ =~= comparator_split(tok@).1);
    assert(op == comparator_split(tok@).0);
    let tr = trim_chars(rest.as_slice());
    if tr.len() == 0 {
        let d = debug_chars(tok);
        return Err(join3("比较符 ", d.as_slice(), " 缺少版本号"));
    }
    if contains_char(rest.as_slice(), '*') {
        let d = debug_chars(tok);
        proof {
            reveal_strlit("");
            assert(d@ + ""@ =~= d@);
        }
        return Err(join3("范围比较符不支持通配符 ", d.as_slice(), ""));
    }
    match SemVersion::parse_chars(rest.as_slice()) {
        Ok(v) => Ok(Comparator { op, version: v }),
        Err(e) => Err(e),
    }
}

/// Parses a prefix wildcard such as `1.*` or `1.2.*`.
fn parse_wildcard(s: &[char]) -> (r: Result<VersionReq, String>)
    requires
        !(wildcard_spec(s@) is Overflows),
    ensures
        match r {
            Ok(q) => wildcard_spec(s@) == ReqParse::Parsed(q@),
            Err(e) => wildcard_spec(s@) is Rejected && e@ == wildcard_error(s@),
        },
{
    let n = s.len();
    if !(n >= 2 && s[n - 2] == '.' && s[n - 1] == '*') {
        let d = debug_chars(s);
        proof {
            reveal_strlit("");
            assert(d@ + ""@ =~= d@);
        }
        return Err(join3("非法版本通配 ", d.as_slice(), ""));
    }
    let core = slice_copy(s, 0, n - 2);
    assert(core@ =~= s@.take(n - 2));
    if core.len() == 0 || contains_char(core.as_slice(), '*') {
        let d = debug_chars(s);
        proof {
            reveal_strlit("");
            assert(d@ + ""@ =~= d@);
        }
        return Err(join3("非法版本通配 ", d.as_slice(), ""));
    }
    let parts = split_chars(core.as_slice(), '.');
    if parts.len() > 2 {
        let d = debug_chars(s);
        proof {
            reveal_strlit("");
            assert(d@ + ""@ =~= d@);
        }
        return Err(join3("非法版本通配 ", d.as_slice(), ""));
    }
    let base = match SemVersion::parse_chars(core.as_slice()) {
        Ok(v) => v,
        Err(e) => return Err(e),
    };
    let upper = if parts.len() == 1 {
        base.bump_major()
    } else {
        base.bump_minor()
    };
    let mut comps: Vec<Comparator> = Vec::new();
    comps.push(Comparator { op: ComparatorOp::Ge, version: base });
    comps.push(Comparator { op: ComparatorOp::Lt, version: upper });
    assert(comps@ =~= seq![
        Comparator { op: ComparatorOp::Ge, version: base },
        Comparator { op: ComparatorOp::Lt, version: upper },
    ]);
    Ok(VersionReq::Range(comps))
}

/// Whether `^b` can be evaluated: its upper bound does not overflow.
pub fn caret_defined(b: &SemVersion) -> (r: bool)
    ensures
        r == caret_ok(*b),
{
    if b.major > 0 {
        b.major < u64::MAX
    } else if b.minor > 0 {
        b.minor < u64::MAX
    } else {
        b.patch < u64::MAX
    }
}

fn tilde_usable(rest: &[char]) -> (r: bool)
    ensures
        r == !(tilde_spec(rest@) is Overflows),
{
    let t = trim_chars(rest);
    if t.len() == 0 {
        return true;
    }
    let lower = match SemVersion::parse_chars(t.as_slice()) {
        Ok(v) => v,
        Err(_) => return true,
    };
    let shaped = if t[0] == 'v' || t[0] == 'V' {
        slice_copy(t.as_slice(), 1, t.len())
    } else {
        slice_copy(t.as_slice(), 0, t.len())
    };
    assert(shaped@ =~= strip_v(t@));
    if contains_char(shaped.as_slice(), '.') {
        lower.minor < u64::MAX
    } else {
        lower.major < u64::MAX
    }
}

fn wildcard_usable(s: &[char]) -> (r: bool)
    ensures
        r == !(wildcard_spec(s@) is Overflows),
{
    let n = s.len();
    if !(n >= 2 && s[n - 2] == '.' && s[n - 1] == '*') {
        return true;
    }
    let core = slice_copy(s, 0, n - 2);
    assert(core@ =~= s@.take(n - 2));
    if core.len() == 0 || contains_char(core.as_slice(), '*') {
        return true;
    }
    let parts = split_chars(core.as_slice(), '.');
    if parts.len() > 2 {
        return true;
    }
    let base = match SemVersion::parse_chars(core.as_slice()) {
        Ok(v) => v,
        Err(_) => return true,
    };
    if parts.len() == 1 {
        base.major < u64::MAX
    } else {
        base.minor < u64::MAX
    }
}

/// Whether a requirement text can be parsed and evaluated without
/// arithmetic overflow (a bound of `u64::MAX` cannot be bumped).
pub fn req_usable(raw: &str) -> (r: bool)
    ensures
        r == (!(parse_req_spec(raw@) is Overflows) && match parse_req_spec(raw@) {
            ReqParse::Parsed(m) => req_defined(m),
            _ => true,
        }),
{
    let cs = chars_of(raw);
    let s = trim_chars(cs.as_slice());
    if s.len() == 0 {
        return true;
    }
    if s.len() == 1 && s[0] == '*' {
        assert(s@ =~= seq!['*']);
        return true;
    }
    assert(s@ != seq!['*']);
    if s[0] == '^' {
        let rest = slice_copy(s.as_slice(), 1, s.len());
        assert(rest@ =~= s@.drop_first());
        return match SemVersion::parse_chars(rest.as_slice()) {
            Ok(v) => caret_defined(&v),
            Err(_) => true,
        };
    }
    if s[0] == '~' {
        let rest = slice_copy(s.as_slice(), 1, s.len());
        assert(rest@ =~= s@.drop_first());
        return tilde_usable(rest.as_slice());
    }
    if has_comparator_prefix(s.as_slice()) || contains_char(s.as_slice(), ',') || has_whitespace(
        s.as_slice(),
    ) {
        return true;
    }
    if contains_char(s.as_slice(), '*') {
        return wildcard_usable(s.as_slice());
    }
    true
}

/// Printing a version and parsing the text back gives the same version.
pub proof fn law_version_text_roundtrip(v: SemVersion)
    ensures
        parse_semver(sv_text(v)) == Some(v),
{
    let d1 = dec_digits(v.major as nat);
    let d2 = dec_digits(v.minor as nat);
    let d3 = dec_digits(v.patch as nat);
    lemma_dec_digits_roundtrip(v.major as nat);
    lemma_dec_digits_roundtrip(v.minor as nat);
    lemma_dec_digits_roundtrip(v.patch as nat);
    lemma_dec_digits_chars(v.major as nat, '.');
    lemma_dec_digits_chars(v.minor as nat, '.');
    lemma_dec_digits_chars(v.patch as nat, '.');
    let t = sv_text(v);
    assert(t == (d1.push('.') + d2).push('.') + d3) by {
        assert(t =~= (d1.push('.') + d2).push('.') + d3);
    }
    assert(t[0] == d1[0]);
    assert(t.last() == d3.last()) by {
        assert(t[t.len() - 1] == d3[d3.len() - 1]);
    }
    lemma_trim_noop(t);
    assert(strip_v(t) == t);
    lemma_split_on_no_sep(d1, '.');
    lemma_split_on_append(d1, '.', d2);
    lemma_split_on_append(d1.push('.') + d2, '.', d3);
    let parts = split_on(t, '.');
    assert(parts =~= seq![d1, d2, d3]);
    assert(component_ok(parts[0]) && component_ok(parts[1]) && component_ok(parts[2]));
    assert(forall|i: int| 0 <= i < parts.len() ==> #[trigger] component_ok(parts[i]));
}

/// A defined `^` requirement always accepts its own base version.
pub proof fn law_caret_accepts_base(b: SemVersion)
    requires
        caret_ok(b),
    ensures
        req_holds(ReqModel::Caret(b), b),
{
}

/// `^b` accepts exactly the versions compatible with `b`: for `b` at
/// major 1 or above the same major at or above `b`; for `0.m.p` with `m`
/// above 0 the same `0.m` at or above `b`; for `0.0.p` only `0.0.p`
/// itself.
pub proof fn law_caret_compatible(b: SemVersion, v: SemVersion)
    requires
        caret_ok(b),
    ensures
        req_holds(ReqModel::Caret(b), v) <==> if b.major > 0 {
            v.major == b.major && sv_le(b, v)
        } else if b.minor > 0 {
            v.major == 0 && v.minor == b.minor && v.patch >= b.patch
        } else {
            v == b
        },
{
}

/// A `~` requirement as parsed accepts its lower bound and rejects its upper bound.
pub proof fn law_tilde_bounds(rest: Seq<char>)
    requires
        tilde_spec(rest) matches ReqParse::Parsed(_),
    ensures
        tilde_spec(rest) matches ReqParse::Parsed(ReqModel::Tilde { lower, upper }) && req_holds(
            ReqModel::Tilde { lower, upper },
            lower,
        ) && !req_holds(ReqModel::Tilde { lower, upper }, upper),
{
}

} // verus!
