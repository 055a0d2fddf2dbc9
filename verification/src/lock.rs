//! `huzi.lock`: the exact versions a fetch selected, one `[[package]]`
//! section per package, sorted by package name.
use crate::paths::{path_join, path_join_text};
use crate::solve::SelectedDep;
use crate::text::{
    join_lines, lemma_lines_join, plain_lines, dec_digits, is_digit, is_ws,
    lemma_before_first_absent, lemma_before_first_at_start, lemma_dec_digits_roundtrip,
    lemma_first_index, lemma_strip_end_one, lemma_strip_start_one, lemma_trim_end_space,
    lemma_trim_noop, lemma_trim_start_space, strip_end, strip_start, trim_end, trim_matches,
    trim_start, before_first, before_first_char, chars_eq, chars_lt, chars_of, debug_chars, eq_str,
    lines, lines_of, push_all, push_decimal, push_str, seq_lt, split_once, split_once_char,
    string_of, trim, trim_chars, trim_quotes, trim_quotes_spec, views,
};
use crate::keyed::{
    insert_sorted, lemma_sort_keeps, lemma_sort_sorted, lemma_sort_sorted_id, names_unique,
    sort_by_name,
};
use crate::version::{law_version_text_roundtrip, parse_semver, sv_text, SemVersion};
use vstd::prelude::*;

verus! {

/// A locked package: name and exact version.
#[derive(Debug, Clone, PartialEq, Eq)]
pub struct LockEntry {
    pub name: String,
    pub version: SemVersion,
}

/// The lock file: exact versions sorted by package name.
#[derive(Debug, Clone, Default, PartialEq, Eq)]
pub struct HuziLock {
    pub packages: Vec<LockEntry>,
}

/// A lock entry as values: the package name and its version.
pub type EntryView = (Seq<char>, SemVersion);

impl View for LockEntry {
    type V = EntryView;

    open spec fn view(&self) -> EntryView {
        (self.name@, self.version)
    }
}

pub open spec fn entries_view(v: Seq<LockEntry>) -> Seq<EntryView> {
    v.map_values(|e: LockEntry| e@)
}

impl View for HuziLock {
    type V = Seq<EntryView>;

    open spec fn view(&self) -> Seq<EntryView> {
        entries_view(self.packages@)
    }
}

/// What a lock-file scan holds after some lines.
pub struct LockScan {
    pub done: Seq<EntryView>,
    pub name: Option<Seq<char>>,
    pub version: Option<Seq<char>>,
    pub in_pkg: bool,
}

/// Closes a `[[package]]` section: nothing read, or both keys with a valid version.
pub open spec fn flush_spec(
    done: Seq<EntryView>,
    name: Option<Seq<char>>,
    version: Option<Seq<char>>,
) -> Option<Seq<EntryView>> {
    match (name, version) {
        (None, None) => Some(done),
        (Some(n), Some(v)) => match parse_semver(v) {
            Some(sv) => Some(done.push((n, sv))),
            None => None,
        },
        _ => None,
    }
}

pub open spec fn package_header() -> Seq<char> {
    seq!['[', '[', 'p', 'a', 'c', 'k', 'a', 'g', 'e', ']', ']']
}

pub open spec fn key_name() -> Seq<char> {
    seq!['n', 'a', 'm', 'e']
}

pub open spec fn key_version() -> Seq<char> {
    seq!['v', 'e', 'r', 's', 'i', 'o', 'n']
}

/// One line of the lock file: comments after `#` and blank lines are skipped,
/// `[[package]]` opens a section, `key = value` sets `name` or `version`
/// (other keys are ignored); anything else before the first section, or a
/// line without `=`, is an error.
pub open spec fn lock_line(st: LockScan, raw: Seq<char>) -> Option<LockScan> {
    let line = trim(before_first(raw, '#'));
    if line.len() == 0 {
        Some(st)
    } else if line == package_header() {
        match flush_spec(st.done, st.name, st.version) {
            Some(d) => Some(LockScan { done: d, name: None, version: None, in_pkg: true }),
            None => None,
        }
    } else if !st.in_pkg {
        None
    } else {
        match split_once(line, '=') {
            None => None,
            Some((k, v)) => {
                let key = trim(k);
                if key == key_name() {
                    Some(
                        LockScan {
                            done: st.done,
                            name: Some(trim_quotes_spec(v)),
                            version: st.version,
                            in_pkg: st.in_pkg,
                        },
                    )
                } else if key == key_version() {
                    Some(
                        LockScan {
                            done: st.done,
                            name: st.name,
                            version: Some(trim_quotes_spec(v)),
                            in_pkg: st.in_pkg,
                        },
                    )
                } else {
                    Some(st)
                }
            },
        }
    }
}

pub open spec fn lock_scan_start() -> LockScan {
    LockScan { done: Seq::empty(), name: None, version: None, in_pkg: false }
}

/// Scan of a sequence of lines; `None` at the first bad line.
pub open spec fn lock_scan(ls: Seq<Seq<char>>) -> Option<LockScan>
    decreases ls.len(),
{
    if ls.len() == 0 {
        Some(lock_scan_start())
    } else {
        match lock_scan(ls.drop_last()) {
            Some(st) => lock_line(st, ls.last()),
            None => None,
        }
    }
}

/// The entries `parse_lock` returns for a lock-file text, `None` when it
/// reports an error (bad line, incomplete section, bad version, duplicate name).
pub open spec fn parse_lock_spec(content: Seq<char>) -> Option<Seq<EntryView>> {
    match lock_scan(lines(content)) {
        None => None,
        Some(st) => match flush_spec(st.done, st.name, st.version) {
            None => None,
            Some(d) => if names_unique(d) {
                Some(sort_by_name(d))
            } else {
                None
            },
        },
    }
}

pub open spec fn opt_view(o: Option<Vec<char>>) -> Option<Seq<char>> {
    match o {
        Some(v) => Some(v@),
        None => None,
    }
}

/// Whether `a`'s name precedes `b`'s.
fn name_lt(a: &LockEntry, b: &LockEntry) -> (r: bool)
    ensures
        r == seq_lt(a.name@, b.name@),
{
    let x = chars_of(a.name.as_str());
    let y = chars_of(b.name.as_str());
    chars_lt(x.as_slice(), y.as_slice())
}

proof fn lemma_lits()
    ensures
        "[[package]]"@ == package_header(),
        "name"@ == key_name(),
        "version"@ == key_version(),
{
    reveal_strlit("[[package]]");
    reveal_strlit("name");
    reveal_strlit("version");
    assert("[[package]]"@ =~= package_header());
    assert("name"@ =~= key_name());
    assert("version"@ =~= key_version());
}

/// Once a scan has failed, scanning more lines fails too.
proof fn lemma_lock_scan_fails(ls: Seq<Seq<char>>, k: int)
    requires
        0 <= k <= ls.len(),
        lock_scan(ls.take(k)).is_none(),
    ensures
        lock_scan(ls).is_none(),
    decreases ls.len() - k,
{
    if k < ls.len() {
        assert(ls.take(k + 1).drop_last() =~= ls.take(k));
        lemma_lock_scan_fails(ls, k + 1);
    } else {
        assert(ls.take(k) =~= ls);
    }
}

proof fn lemma_join_lines_push(ls: Seq<Seq<char>>, l: Seq<char>)
    ensures
        join_lines(ls.push(l)) == join_lines(ls) + l.push('\n'),
{
    assert(ls.push(l).drop_last() =~= ls);
}

/// Inserts `e` into `v` (sorted by name) after all entries whose name does
/// not exceed its own.
fn insert_entry(v: &mut Vec<LockEntry>, e: LockEntry)
    ensures
        entries_view(final(v)@) == insert_sorted(entries_view(old(v)@), e@),
{
    let ghost s = entries_view(v@);
    let mut pos = v.len();
    assert(s.take(pos as int) =~= s);
    assert(s.skip(pos as int) =~= Seq::<EntryView>::empty());
    assert(insert_sorted(s, e@) =~= insert_sorted(s.take(pos as int), e@) + s.skip(pos as int));
    while pos > 0 && name_lt(&e, &v[pos - 1])
        invariant
            0 <= pos <= v.len(),
            s == entries_view(v@),
            insert_sorted(s, e@) == insert_sorted(s.take(pos as int), e@) + s.skip(pos as int),
        decreases pos,
    {
        let ghost t = s.take(pos as int);
        assert(t.drop_last() =~= s.take(pos - 1));
        assert(t.last() == s[pos - 1]);
        assert(s.skip(pos - 1) =~= seq![s[pos - 1]] + s.skip(pos as int));
        assert(insert_sorted(s.take(pos - 1), e@).push(s[pos - 1]) + s.skip(pos as int)
            =~= insert_sorted(s.take(pos - 1), e@) + s.skip(pos - 1));
        pos -= 1;
    }
    if pos > 0 {
        assert(s.take(pos as int).last() == s[pos - 1]);
    } else {
        assert(s.take(0) =~= Seq::<EntryView>::empty());
    }
    assert(insert_sorted(s.take(pos as int), e@) == s.take(pos as int).push(e@));
    v.insert(pos, e);
    assert(entries_view(v@) =~= s.take(pos as int).push(e@) + s.skip(pos as int));
}

/// An equal copy of an entry.
fn copy_entry(e: &LockEntry) -> (r: LockEntry)
    ensures
        r@ == e@,
{
    let n = chars_of(e.name.as_str());
    LockEntry { name: string_of(n.as_slice()), version: e.version }
}

/// Stable sort by package name.
fn sort_entries(v: &[LockEntry]) -> (r: Vec<LockEntry>)
    ensures
        entries_view(r@) == sort_by_name(entries_view(v@)),
{
    let mut out: Vec<LockEntry> = Vec::new();
    let mut i: usize = 0;
    let ghost s = entries_view(v@);
    assert(s.take(0) =~= Seq::<EntryView>::empty());
    while i < v.len()
        invariant
            0 <= i <= v.len(),
            s == entries_view(v@),
            entries_view(out@) == sort_by_name(s.take(i as int)),
        decreases v.len() - i,
    {
        assert(s.take(i + 1).drop_last() =~= s.take(i as int));
        assert(s.take(i + 1).last() == v@[i as int]@);
        insert_entry(&mut out, copy_entry(&v[i]));
        i += 1;
    }
    assert(s.take(v.len() as int) =~= s);
    out
}

impl HuziLock {
    /// The lock for a solved closure: each package with its selected version,
    /// sorted by name.
    pub fn from_closure(closure: &[(String, SelectedDep)]) -> (r: Self)
        ensures
            r@ == sort_by_name(closure@.map_values(|p: (String, SelectedDep)| (p.0@, p.1.version))),
    {
        let mut packages: Vec<LockEntry> = Vec::new();
        let mut i: usize = 0;
        while i < closure.len()
            invariant
                0 <= i <= closure.len(),
                entries_view(packages@) == closure@.take(i as int).map_values(
                    |p: (String, SelectedDep)| (p.0@, p.1.version),
                ),
            decreases closure.len() - i,
        {
            let (name, sel) = &closure[i];
            let ghost before = entries_view(packages@);
            let nc = chars_of(name.as_str());
            packages.push(LockEntry { name: string_of(nc.as_slice()), version: sel.version });
            assert(entries_view(packages@) =~= before.push((closure@[i as int].0@, closure@[i as int].1.version)));
            assert(closure@.take(i + 1) =~= closure@.take(i as int).push(closure@[i as int]));
            i += 1;
            assert(entries_view(packages@) =~= closure@.take(i as int).map_values(
                |p: (String, SelectedDep)| (p.0@, p.1.version),
            ));
        }
        assert(closure@.take(closure.len() as int) =~= closure@);
        HuziLock { packages: sort_entries(packages.as_slice()) }
    }

    /// The locked version of a package (the first entry with that name).
    pub fn get(&self, name: &str) -> (r: Option<SemVersion>)
        ensures
            match r {
                Some(v) => exists|i: int|
                    0 <= i < self@.len() && self@[i] == (name@, v) && forall|j: int|
                        0 <= j < i ==> #[trigger] self@[j].0 != name@,
                None => forall|i: int| 0 <= i < self@.len() ==> #[trigger] self@[i].0 != name@,
            },
    {
        let n = chars_of(name);
        let mut i: usize = 0;
        while i < self.packages.len()
            invariant
                0 <= i <= self.packages.len(),
                n@ == name@,
                forall|j: int| 0 <= j < i ==> #[trigger] self@[j].0 != name@,
            decreases self.packages.len() - i,
        {
            let pn = chars_of(self.packages[i].name.as_str());
            if chars_eq(pn.as_slice(), n.as_slice()) {
                assert(self@[i as int] == (name@, self.packages@[i as int].version));
                return Some(self.packages[i].version);
            }
            i += 1;
        }
        None
    }
}

/// The message `锁文件第 N` followed by `rest`, for line `N`.
fn line_msg(line_no: usize, rest: &str) -> (r: Vec<char>)
    ensures
        r@ == "锁文件第 "@ + dec_digits(line_no as nat) + rest@,
{
    let mut m: Vec<char> = Vec::new();
    push_str(&mut m, "锁文件第 ");
    push_decimal(&mut m, line_no as u64);
    push_str(&mut m, rest);
    assert(m@ =~= "锁文件第 "@ + dec_digits(line_no as nat) + rest@);
    m
}

/// The report for a section that cannot be closed at line `line_no`: a
/// version that does not parse, or a missing key.
pub open spec fn flush_error(name: Option<Seq<char>>, version: Option<Seq<char>>, line_no: nat) -> Seq<char> {
    match (name, version) {
        (Some(n), Some(v)) => "锁文件第 "@ + dec_digits(line_no) + " 行版本非法: "@
            + crate::version::semver_error(v),
        _ => "锁文件第 "@ + dec_digits(line_no) + " 行: [[package]] 缺少 name/version"@,
    }
}

/// The report for line `line_no` (the text `raw`) when the scan in state
/// `st` rejects it.
pub open spec fn line_error(st: LockScan, raw: Seq<char>, line_no: nat) -> Seq<char> {
    let line = trim(before_first(raw, '#'));
    if line == package_header() {
        flush_error(st.name, st.version, line_no)
    } else if !st.in_pkg {
        "锁文件第 "@ + dec_digits(line_no) + " 行非法: 期望 `[[package]]`,实际 "@
            + crate::text::debug_text(trim(raw))
    } else {
        "锁文件第 "@ + dec_digits(line_no) + " 行非法: 缺 `=`"@
    }
}

/// The report for the first line the scan rejects, if it rejects one.
pub open spec fn scan_error(ls: Seq<Seq<char>>) -> Option<Seq<char>>
    decreases ls.len(),
{
    if ls.len() == 0 {
        None
    } else {
        match scan_error(ls.drop_last()) {
            Some(e) => Some(e),
            None => match lock_scan(ls.drop_last()) {
                Some(st) => if lock_line(st, ls.last()) is None {
                    Some(line_error(st, ls.last(), ls.len()))
                } else {
                    None
                },
                None => None,
            },
        }
    }
}

/// The first entry whose name an earlier entry has.
pub open spec fn first_dup(s: Seq<EntryView>) -> int {
    choose|i: int|
        #![trigger s[i]]
        0 <= i < s.len() && (exists|j: int| 0 <= j < i && s[j].0 == s[i].0) && forall|k: int, j: int|
            0 <= j < k < i ==> #[trigger] s[j].0 != #[trigger] s[k].0
}

/// The first repeated name is at `i` when `j < i` repeats it and no two
/// entries before `i` share a name.
proof fn lemma_first_dup(s: Seq<EntryView>, i: int, j: int)
    requires
        0 <= j < i < s.len(),
        s[j].0 == s[i].0,
        forall|a: int, b: int| 0 <= a < b < i ==> s[a].0 != s[b].0,
    ensures
        first_dup(s) == i,
{
    assert(exists|jj: int| 0 <= jj < i && s[jj].0 == s[i].0);
    assert(forall|k: int, jj: int| 0 <= jj < k < i ==> #[trigger] s[jj].0 != #[trigger] s[k].0);
    let f = first_dup(s);
    if f < i {
        let jj = choose|jj: int| 0 <= jj < f && s[jj].0 == s[f].0;
        assert(s[jj].0 != s[f].0);
    }
    if f > i {
        assert(s[j].0 != s[i].0);
    }
}

/// The report for a repeated package name.
pub open spec fn dup_error(s: Seq<EntryView>) -> Seq<char> {
    "锁文件包 '"@ + s[first_dup(s)].0 + "' 重复"@
}

/// The error `parse_lock` reports for a text it rejects: the first bad
/// line's, a last section that cannot be closed (reported one line past
/// the end), or a repeated name.
pub open spec fn lock_error(content: Seq<char>) -> Seq<char> {
    let ls = lines(content);
    match scan_error(ls) {
        Some(e) => e,
        None => {
            let st = lock_scan(ls).unwrap();
            let total: nat = if ls.len() < usize::MAX { (ls.len() + 1) as nat } else { ls.len() };
            match flush_spec(st.done, st.name, st.version) {
                None => flush_error(st.name, st.version, total),
                Some(d) => dup_error(d),
            }
        },
    }
}

/// A scan that succeeds reports no error.
proof fn lemma_scan_ok_no_error(ls: Seq<Seq<char>>)
    requires
        lock_scan(ls) is Some,
    ensures
        scan_error(ls) is None,
    decreases ls.len(),
{
    if ls.len() > 0 {
        assert(lock_scan(ls.drop_last()) is Some);
        lemma_scan_ok_no_error(ls.drop_last());
    }
}

/// Once a line is rejected, the report stays that line's.
proof fn lemma_scan_error_stays(ls: Seq<Seq<char>>, k: int)
    requires
        0 <= k <= ls.len(),
        scan_error(ls.take(k)) is Some,
    ensures
        scan_error(ls) == scan_error(ls.take(k)),
    decreases ls.len() - k,
{
    if k < ls.len() {
        assert(ls.take(k + 1).drop_last() =~= ls.take(k));
        lemma_scan_error_stays(ls, k + 1);
    } else {
        assert(ls.take(k) =~= ls);
    }
}

/// Parses lock-file text (`[[package]]` sections with `name`/`version` keys).
pub fn parse_lock(content: &str) -> (r: Result<HuziLock, String>)
    ensures
        match r {
            Ok(l) => parse_lock_spec(content@) == Some(l@),
            Err(e) => parse_lock_spec(content@).is_none() && e@ == lock_error(content@),
        },
{
    let cs = chars_of(content);
    let ls = lines_of(cs.as_slice());
    let ghost lv = lines(content@);
    assert(views(ls@) == lv);
    let mut packages: Vec<LockEntry> = Vec::new();
    let mut cur_name: Option<Vec<char>> = None;
    let mut cur_version: Option<Vec<char>> = None;
    let mut in_pkg = false;
    let mut idx: usize = 0;
    assert(lv.take(0) =~= Seq::<Seq<char>>::empty());
    assert(entries_view(packages@) =~= Seq::<EntryView>::empty());
    proof {
        lemma_lits();
    }
    while idx < ls.len()
        invariant
            0 <= idx <= ls.len(),
            views(ls@) == lv,
            lv == lines(content@),
            lock_scan(lv.take(idx as int)) == Some(
                LockScan {
                    done: entries_view(packages@),
                    name: opt_view(cur_name),
                    version: opt_view(cur_version),
                    in_pkg,
                },
            ),
            scan_error(lv.take(idx as int)) is None,
        decreases ls.len() - idx,
    {
        let ghost st = LockScan {
            done: entries_view(packages@),
            name: opt_view(cur_name),
            version: opt_view(cur_version),
            in_pkg,
        };
        assert(lv.take(idx + 1).drop_last() =~= lv.take(idx as int));
        assert(lv.take(idx + 1).last() == ls@[idx as int]@);
        proof {
            lemma_lits();
        }
        let line_no = idx + 1;
        let raw = &ls[idx];
        let pre = before_first_char(raw.as_slice(), '#');
        let line = trim_chars(pre.as_slice());
        if line.len() == 0 {
            idx += 1;
            continue;
        }
        if eq_str(line.as_slice(), "[[package]]") {
            assert(line@ == package_header());
            let n = cur_name;
            let v = cur_version;
            cur_name = None;
            cur_version = None;
            match flush_entry(&mut packages, n, v, line_no) {
                Ok(()) => {},
                Err(e) => {
                    proof {
                        lemma_lock_scan_fails(lv, idx + 1);
                        assert(scan_error(lv.take(idx + 1)) == Some(line_error(st, lv[idx as int], (idx + 1) as nat)));
                        lemma_scan_error_stays(lv, idx + 1);
                    }
                    return Err(e);
                },
            }
            in_pkg = true;
            idx += 1;
            continue;
        }
        assert(line@ != package_header());
        if !in_pkg {
            let rt = trim_chars(raw.as_slice());
            let d = debug_chars(rt.as_slice());
            let mut m = line_msg(line_no, " 行非法: 期望 `[[package]]`,实际 ");
            push_all(&mut m, d.as_slice());
            proof {
                lemma_lock_scan_fails(lv, idx + 1);
                assert(scan_error(lv.take(idx + 1)) == Some(line_error(st, lv[idx as int], (idx + 1) as nat)));
                lemma_scan_error_stays(lv, idx + 1);
            }
            return Err(string_of(m.as_slice()));
        }
        match split_once_char(line.as_slice(), '=') {
            None => {
                let m = line_msg(line_no, " 行非法: 缺 `=`");
                proof {
                    lemma_lock_scan_fails(lv, idx + 1);
                    assert(scan_error(lv.take(idx + 1)) == Some(line_error(st, lv[idx as int], (idx + 1) as nat)));
                    lemma_scan_error_stays(lv, idx + 1);
                }
                return Err(string_of(m.as_slice()));
            },
            Some((k, v)) => {
                let key = trim_chars(k.as_slice());
                if eq_str(key.as_slice(), "name") {
                    cur_name = Some(trim_quotes(v.as_slice()));
                } else if eq_str(key.as_slice(), "version") {
                    cur_version = Some(trim_quotes(v.as_slice()));
                } else {
                }
            },
        }
        idx += 1;
    }
    assert(lv.take(ls.len() as int) =~= lv);
    let ghost st_end = lock_scan(lv).unwrap();
    let total = if ls.len() < usize::MAX {
        ls.len() + 1
    } else {
        ls.len()
    };
    match flush_entry(&mut packages, cur_name, cur_version, total) {
        Ok(()) => {},
        Err(e) => return Err(e),
    }
    match check_duplicate(packages.as_slice()) {
        Ok(()) => {},
        Err(e) => {
            assert(flush_spec(st_end.done, st_end.name, st_end.version) == Some(entries_view(packages@)));
            return Err(e);
        },
    }
    Ok(HuziLock { packages: sort_entries(packages.as_slice()) })
}

/// Closes a `[[package]]` section; a section missing a key is an error.
fn flush_entry(
    out: &mut Vec<LockEntry>,
    name: Option<Vec<char>>,
    version: Option<Vec<char>>,
    line_no: usize,
) -> (r: Result<(), String>)
    ensures
        match r {
            Ok(()) => flush_spec(entries_view(old(out)@), opt_view(name), opt_view(version))
                == Some(entries_view(final(out)@)),
            Err(e) => flush_spec(entries_view(old(out)@), opt_view(name), opt_view(version)).is_none()
                && e@ == flush_error(opt_view(name), opt_view(version), line_no as nat),
        },
{
    match (name, version) {
        (None, None) => Ok(()),
        (Some(n), Some(v)) => {
            match SemVersion::parse_chars(v.as_slice()) {
                Ok(ver) => {
                    out.push(LockEntry { name: string_of(n.as_slice()), version: ver });
                    assert(entries_view(final(out)@) =~= entries_view(old(out)@).push((n@, ver)));
                    Ok(())
                },
                Err(e) => {
                    let mut m = line_msg(line_no, " 行版本非法: ");
                    let ec = chars_of(e.as_str());
                    push_all(&mut m, ec.as_slice());
                    assert(m@ =~= flush_error(Some(n@), Some(v@), line_no as nat));
                    Err(string_of(m.as_slice()))
                },
            }
        },
        _ => {
            let m = line_msg(line_no, " 行: [[package]] 缺少 name/version");
            assert(m@ =~= flush_error(opt_view(name), opt_view(version), line_no as nat));
            Err(string_of(m.as_slice()))
        },
    }
}

/// A name occurring twice is an error naming the first repeated entry.
fn check_duplicate(packages: &[LockEntry]) -> (r: Result<(), String>)
    ensures
        r is Ok <==> names_unique(entries_view(packages@)),
        r matches Err(e) ==> e@ == dup_error(entries_view(packages@)),
{
    let ghost s = entries_view(packages@);
    let mut i: usize = 0;
    while i < packages.len()
        invariant
            0 <= i <= packages.len(),
            s == entries_view(packages@),
            forall|a: int, b: int| 0 <= a < b < i ==> s[a].0 != s[b].0,
        decreases packages.len() - i,
    {
        let ni = chars_of(packages[i].name.as_str());
        let mut j: usize = 0;
        while j < i
            invariant
                0 <= j <= i < packages.len(),
                s == entries_view(packages@),
                ni@ == s[i as int].0,
                forall|a: int| 0 <= a < j ==> s[a].0 != s[i as int].0,
                forall|a: int, b: int| 0 <= a < b < i ==> s[a].0 != s[b].0,
            decreases i - j,
        {
            let nj = chars_of(packages[j].name.as_str());
            if chars_eq(nj.as_slice(), ni.as_slice()) {
                assert(s[j as int].0 == s[i as int].0);
                let mut m: Vec<char> = Vec::new();
                push_str(&mut m, "锁文件包 '");
                push_all(&mut m, ni.as_slice());
                push_str(&mut m, "' 重复");
                proof {
                    lemma_first_dup(s, i as int, j as int);
                }
                return Err(string_of(m.as_slice()));
            }
            j += 1;
        }
        i += 1;
    }
    Ok(())
}

/// The first line of every lock file.
pub open spec fn lock_header() -> Seq<char> {
    seq![
        '#', ' ', 'h', 'u', 'z', 'i', '.', 'l', 'o', 'c', 'k', ' ', '由', ' ', '`', 'h', 'u',
        'z', 'c', ' ', 'f', 'e', 't', 'c', 'h', '`', ' ', '生', '成', ',', '请', '勿', '手',
        '动', '编', '辑', '。',
    ]
}

/// The three lines of one section.
pub open spec fn entry_lines(e: EntryView) -> Seq<Seq<char>> {
    seq![
        package_header(),
        "name = \""@ + e.0 + "\""@,
        "version = \""@ + sv_text(e.1) + "\""@,
    ]
}

/// Section lines of a list of entries, in order.
pub open spec fn entries_lines(es: Seq<EntryView>) -> Seq<Seq<char>>
    decreases es.len(),
{
    if es.len() == 0 {
        Seq::empty()
    } else {
        entries_lines(es.drop_last()) + entry_lines(es.last())
    }
}

/// The text `format_lock` writes: the header, then the sections sorted by name.
pub open spec fn format_lock_spec(es: Seq<EntryView>) -> Seq<char> {
    join_lines(seq![lock_header()] + entries_lines(sort_by_name(es)))
}

/// Writes the lock file (sorted by name, deterministic).
pub fn format_lock(lock: &HuziLock) -> (r: String)
    ensures
        r@ == format_lock_spec(lock@),
{
    let mut out: Vec<char> = Vec::new();
    push_str(&mut out, "# huzi.lock 由 `huzc fetch` 生成,请勿手动编辑。");
    out.push('\n');
    proof {
        reveal_strlit("# huzi.lock 由 `huzc fetch` 生成,请勿手动编辑。");
        assert("# huzi.lock 由 `huzc fetch` 生成,请勿手动编辑。"@ =~= lock_header());
        lemma_join_lines_push(Seq::empty(), lock_header());
        assert(Seq::<Seq<char>>::empty().push(lock_header()) =~= seq![lock_header()]);
    }
    assert(out@ =~= join_lines(seq![lock_header()]));
    let entries = sort_entries(lock.packages.as_slice());
    let ghost es = entries_view(entries@);
    let mut i: usize = 0;
    assert(es.take(0) =~= Seq::<EntryView>::empty());
    assert(seq![lock_header()] + entries_lines(es.take(0)) =~= seq![lock_header()]);
    while i < entries.len()
        invariant
            0 <= i <= entries.len(),
            es == entries_view(entries@),
            out@ == join_lines(seq![lock_header()] + entries_lines(es.take(i as int))),
        decreases entries.len() - i,
    {
        let ghost before = seq![lock_header()] + entries_lines(es.take(i as int));
        let e = &entries[i];
        push_str(&mut out, "[[package]]");
        out.push('\n');
        push_str(&mut out, "name = \"");
        let nc = chars_of(e.name.as_str());
        push_all(&mut out, nc.as_slice());
        push_str(&mut out, "\"");
        out.push('\n');
        push_str(&mut out, "version = \"");
        e.version.push_text(&mut out);
        push_str(&mut out, "\"");
        out.push('\n');
        proof {
            lemma_lits();
            let el = entry_lines(es[i as int]);
            assert(es.take(i + 1).drop_last() =~= es.take(i as int));
            assert(es.take(i + 1).last() == es[i as int]);
            let after = seq![lock_header()] + entries_lines(es.take(i + 1));
            assert(after =~= before.push(el[0]).push(el[1]).push(el[2]));
            lemma_join_lines_push(before, el[0]);
            lemma_join_lines_push(before.push(el[0]), el[1]);
            lemma_join_lines_push(before.push(el[0]).push(el[1]), el[2]);
            assert(es[i as int] == e@);
            assert(out@ =~= join_lines(after));
        }
        i += 1;
    }
    assert(es.take(entries.len() as int) =~= es);
    string_of(out.as_slice())
}

/// The lock file beside a project's manifest.
pub fn lock_path_for(proj_dir: &str) -> (r: String)
    ensures
        r@ == path_join_text(proj_dir@, "huzi.lock"@),
{
    path_join(proj_dir, "huzi.lock")
}

// ---------------------------------------------------------------------------
// Writing a lock file and reading it back
// ---------------------------------------------------------------------------

/// A package name that survives the line format: no `#` (comment start), no
/// line break, and no quote character at either end.
pub open spec fn clean_name(n: Seq<char>) -> bool {
    &&& !n.contains('#')
    &&& !n.contains('\n')
    &&& n.len() > 0 ==> (n[0] != '"' && n[0] != '\'' && n.last() != '"' && n.last() != '\'')
}

/// A `key = "value"` line as `format_lock` writes it.
pub open spec fn kv_line(key: Seq<char>, val: Seq<char>) -> Seq<char> {
    key + seq![' ', '=', ' ', '"'] + val + seq!['"']
}

pub open spec fn plain_key(key: Seq<char>) -> bool {
    &&& key.len() > 0
    &&& !key.contains('=')
    &&& !key.contains('#')
    &&& !key.contains('\n')
    &&& !is_ws(key[0])
    &&& !is_ws(key.last())
}

/// How the lock-line reader sees a `key = "value"` line.
pub proof fn lemma_kv_line(key: Seq<char>, val: Seq<char>)
    requires
        plain_key(key),
        clean_name(val),
    ensures
        trim(before_first(kv_line(key, val), '#')) == kv_line(key, val),
        kv_line(key, val) != package_header(),
        split_once(kv_line(key, val), '=') == Some(
            (key.push(' '), seq![' ', '"'] + val + seq!['"']),
        ),
        trim(key.push(' ')) == key,
        trim_quotes_spec(seq![' ', '"'] + val + seq!['"']) == val,
        !kv_line(key, val).contains('\n'),
        kv_line(key, val).last() == '"',
{
    let raw = kv_line(key, val);
    let n: int = key.len() as int;
    assert(raw.last() == '"');
    assert forall|i: int| 0 <= i < raw.len() implies raw[i] != '#' && raw[i] != '\n' by {
        if i < n {
            assert(raw[i] == key[i]);
        } else if i < n + 4 {
        } else if i < n + 4 + val.len() {
            assert(raw[i] == val[i - n - 4]);
        }
    }
    lemma_before_first_absent(raw, '#');
    assert(raw[0] == key[0]);
    lemma_trim_noop(raw);
    assert(raw != package_header()) by {
        if raw == package_header() {
            assert(raw[raw.len() - 1] == ']');
        }
    }
    assert forall|j: int| 0 <= j < n + 1 implies raw[j] != '=' by {
        if j < n {
            assert(raw[j] == key[j]);
        }
    }
    lemma_first_index(raw, '=', n + 1);
    assert(raw.take(n + 1) =~= key.push(' '));
    assert(raw.skip(n + 2) =~= seq![' ', '"'] + val + seq!['"']);
    // the key
    assert(trim_start(key.push(' ')) == key.push(' ')) by {
        assert(key.push(' ')[0] == key[0]);
    }
    lemma_trim_end_space(key);
    assert(trim_end(key) == key);
    // the value
    let v2 = seq![' ', '"'] + val + seq!['"'];
    let q = seq!['"'] + val.push('"');
    assert(v2 =~= seq![' '] + q);
    lemma_trim_start_space(q);
    assert(trim_start(q) == q);
    assert(q.last() == '"');
    assert(trim_end(q) == q);
    assert(trim(v2) == q);
    if val.len() == 0 {
        assert(val.push('"') =~= seq!['"']);
        assert(q =~= seq!['"', '"']);
        assert(q.drop_first() =~= seq!['"']);
        assert(seq!['"'].drop_first() =~= Seq::<char>::empty());
        assert(strip_start(Seq::<char>::empty(), '"') == Seq::<char>::empty());
        assert(strip_start(seq!['"'], '"') == strip_start(Seq::<char>::empty(), '"'));
        assert(strip_start(q, '"') == strip_start(seq!['"'], '"'));
        assert(strip_start(q, '"') =~= Seq::<char>::empty());
        assert(trim_matches(q, '"') =~= Seq::<char>::empty());
        assert(trim_matches(val, '\'') == val);
    } else {
        assert(val.push('"')[0] == val[0]);
        lemma_strip_start_one(val.push('"'), '"');
        lemma_strip_end_one(val, '"');
        assert(trim_matches(q, '"') == val);
        assert(strip_start(val, '\'') == val);
        assert(strip_end(val, '\'') == val);
    }
}

/// The state a scan of the first `k` sections of `ss` reaches.
pub open spec fn scan_state(ss: Seq<EntryView>, k: int) -> LockScan {
    if k == 0 {
        lock_scan_start()
    } else {
        LockScan {
            done: ss.take(k - 1),
            name: Some(ss[k - 1].0),
            version: Some(sv_text(ss[k - 1].1)),
            in_pkg: true,
        }
    }
}

proof fn lemma_lock_scan_push(ls: Seq<Seq<char>>, l: Seq<char>)
    ensures
        lock_scan(ls.push(l)) == match lock_scan(ls) {
            Some(st) => lock_line(st, l),
            None => None,
        },
{
    assert(ls.push(l).drop_last() =~= ls);
}

proof fn lemma_version_text_clean(v: SemVersion)
    ensures
        clean_name(sv_text(v)),
        sv_text(v).len() > 0,
{
    let t = sv_text(v);
    let d1 = dec_digits(v.major as nat);
    let d2 = dec_digits(v.minor as nat);
    let d3 = dec_digits(v.patch as nat);
    lemma_dec_digits_roundtrip(v.major as nat);
    lemma_dec_digits_roundtrip(v.minor as nat);
    lemma_dec_digits_roundtrip(v.patch as nat);
    assert forall|i: int| 0 <= i < t.len() implies is_digit(t[i]) || t[i] == '.' by {
        if i < d1.len() {
            assert(t[i] == d1[i]);
        } else if i == d1.len() {
        } else if i < d1.len() + 1 + d2.len() {
            assert(t[i] == d2[i - d1.len() - 1]);
        } else if i == d1.len() + 1 + d2.len() {
        } else {
            assert(t[i] == d3[i - d1.len() - 2 - d2.len()]);
        }
    }
    assert(t[0] == d1[0]);
    assert(t[t.len() - 1] == d3[d3.len() - 1]);
    if t.contains('#') {
        let k = choose|k: int| 0 <= k < t.len() && t[k] == '#';
    }
    if t.contains('\n') {
        let k = choose|k: int| 0 <= k < t.len() && t[k] == '\n';
    }
}

proof fn lemma_lits_kv()
    ensures
        "name = \""@ + "\""@.take(0) == kv_line(key_name(), Seq::empty()).take(8),
        "name = \""@ == key_name() + seq![' ', '=', ' ', '"'],
        "version = \""@ == key_version() + seq![' ', '=', ' ', '"'],
        "\""@ == seq!['"'],
{
    reveal_strlit("name = \"");
    reveal_strlit("version = \"");
    reveal_strlit("\"");
    assert("name = \""@ =~= key_name() + seq![' ', '=', ' ', '"']);
    assert("version = \""@ =~= key_version() + seq![' ', '=', ' ', '"']);
    assert("\""@ =~= seq!['"']);
    assert("\""@.take(0) =~= Seq::<char>::empty());
    assert(kv_line(key_name(), Seq::empty()).take(8) =~= "name = \""@);
}

/// Scanning the header and the first `k` sections of a formatted lock.
proof fn lemma_scan_sections(ss: Seq<EntryView>, k: int)
    requires
        0 <= k <= ss.len(),
        forall|i: int| 0 <= i < ss.len() ==> clean_name(#[trigger] ss[i].0),
    ensures
        lock_scan(seq![lock_header()] + entries_lines(ss.take(k))) == Some(scan_state(ss, k)),
    decreases k,
{
    lemma_lits();
    lemma_lits_kv();
    if k == 0 {
        assert(ss.take(0) =~= Seq::<EntryView>::empty());
        assert(seq![lock_header()] + entries_lines(ss.take(0)) =~= Seq::<Seq<char>>::empty().push(
            lock_header(),
        ));
        lemma_lock_scan_push(Seq::empty(), lock_header());
        lemma_before_first_at_start(lock_header(), '#');
    } else {
        lemma_scan_sections(ss, k - 1);
        let e = ss[k - 1];
        let pre = seq![lock_header()] + entries_lines(ss.take(k - 1));
        let el = entry_lines(e);
        assert(ss.take(k).drop_last() =~= ss.take(k - 1));
        assert(ss.take(k).last() == e);
        assert(seq![lock_header()] + entries_lines(ss.take(k)) =~= pre.push(el[0]).push(
            el[1],
        ).push(el[2]));
        lemma_lock_scan_push(pre, el[0]);
        lemma_lock_scan_push(pre.push(el[0]), el[1]);
        lemma_lock_scan_push(pre.push(el[0]).push(el[1]), el[2]);
        // the `[[package]]` line
        assert(!package_header().contains('#')) by {
            if package_header().contains('#') {
                let m = choose|m: int| 0 <= m < 11 && package_header()[m] == '#';
            }
        }
        lemma_before_first_absent(package_header(), '#');
        lemma_trim_noop(package_header());
        let st0 = scan_state(ss, k - 1);
        let done = ss.take(k - 1);
        assert(flush_spec(st0.done, st0.name, st0.version) == Some(done)) by {
            if k - 1 > 0 {
                let prev = ss[k - 2];
                law_version_text_roundtrip(prev.1);
                assert(ss.take(k - 2).push((prev.0, prev.1)) =~= done);
            }
        }
        // the name line
        assert(el[1] == kv_line(key_name(), e.0));
        lemma_kv_line(key_name(), e.0);
        // the version line
        lemma_version_text_clean(e.1);
        assert(el[2] == kv_line(key_version(), sv_text(e.1)));
        lemma_kv_line(key_version(), sv_text(e.1));
        assert(key_name() != key_version());
    }
}

/// Lines of a formatted lock are plain.
proof fn lemma_format_plain(ss: Seq<EntryView>)
    requires
        forall|i: int| 0 <= i < ss.len() ==> clean_name(#[trigger] ss[i].0),
    ensures
        plain_lines(seq![lock_header()] + entries_lines(ss)),
    decreases ss.len(),
{
    lemma_lits_kv();
    if ss.len() == 0 {
        assert(!lock_header().contains('\n')) by {
            if lock_header().contains('\n') {
                let m = choose|m: int| 0 <= m < 37 && lock_header()[m] == '\n';
            }
        }
        assert(seq![lock_header()] + entries_lines(ss) =~= seq![lock_header()]);
    } else {
        let d = ss.drop_last();
        lemma_format_plain(d);
        let e = ss.last();
        assert(clean_name(e.0)) by {
            assert(e == ss[ss.len() - 1]);
        }
        lemma_kv_line(key_name(), e.0);
        lemma_version_text_clean(e.1);
        lemma_kv_line(key_version(), sv_text(e.1));
        let el = entry_lines(e);
        assert(!package_header().contains('\n')) by {
            if package_header().contains('\n') {
                let m = choose|m: int| 0 <= m < 11 && package_header()[m] == '\n';
            }
        }
        assert(el[1] == kv_line(key_name(), e.0));
        assert(el[2] == kv_line(key_version(), sv_text(e.1)));
        let all = seq![lock_header()] + entries_lines(ss);
        let pre = seq![lock_header()] + entries_lines(d);
        assert(all =~= pre + el);
        assert forall|i: int| 0 <= i < all.len() implies !(#[trigger] all[i]).contains('\n') && (
        all[i].len() == 0 || all[i].last() != '\r') by {
            if i < pre.len() {
                assert(all[i] == pre[i]);
            } else {
                assert(all[i] == el[i - pre.len()]);
            }
        }
    }
}

/// Writing a lock file and parsing the text back gives its entries sorted by
/// name, provided names are distinct and survive the line format.
pub proof fn law_lock_roundtrip(es: Seq<EntryView>)
    requires
        names_unique(es),
        forall|i: int| 0 <= i < es.len() ==> clean_name(#[trigger] es[i].0),
    ensures
        parse_lock_spec(format_lock_spec(es)) == Some(sort_by_name(es)),
{
    let ss = sort_by_name(es);
    lemma_sort_sorted(es);
    lemma_sort_keeps(es);
    assert forall|i: int| 0 <= i < ss.len() implies clean_name(#[trigger] ss[i].0) by {
        assert(es.contains(ss[i]));
        let k = choose|k: int| 0 <= k < es.len() && es[k] == ss[i];
        assert(clean_name(es[k].0));
    }
    lemma_format_plain(ss);
    let ls = seq![lock_header()] + entries_lines(ss);
    lemma_lines_join(ls);
    lemma_scan_sections(ss, ss.len() as int);
    assert(ss.take(ss.len() as int) =~= ss);
    let st = scan_state(ss, ss.len() as int);
    assert(flush_spec(st.done, st.name, st.version) == Some(ss)) by {
        if ss.len() > 0 {
            law_version_text_roundtrip(ss.last().1);
            assert(ss.take(ss.len() - 1).push((ss.last().0, ss.last().1)) =~= ss);
        } else {
            assert(ss.take(0) =~= ss);
        }
    }
    lemma_sort_sorted_id(ss);
}

} // verus!
