//! The source formatter's core: indented output lines with source comments
//! put back by line number, and the layout of `struct`, `enum` and `trait`
//! declarations and of `import`/`export` lines.
use crate::ast::{
    join_comma, push_type, push_types, type_text, types_text, EnumDef, EnumVariant, FnParam,
    StructDef, StructField, TraitDef, TraitMethodDef,
};
use crate::symbols::{param_text, type_params_text};
use crate::text::{push_all, push_str, string_of};
use vstd::prelude::*;

verus! {

/// A comment of the source: its line, its text (with the comment marker)
/// and whether it fills its line alone.
#[derive(Debug, Clone)]
pub struct CommentInfo {
    pub line: usize,
    pub text: String,
    pub full_line: bool,
}

/// The formatter: current indentation, output so far, the source comments
/// in line order and the first comment not yet written.
pub struct Formatter {
    pub indent: usize,
    pub buf: Vec<char>,
    pub comments: Vec<CommentInfo>,
    pub next_comment: usize,
}

/// The formatter's state as values.
pub struct FmtState {
    pub indent: nat,
    pub buf: Seq<char>,
    pub next: nat,
}

pub open spec fn indent_text(n: nat) -> Seq<char>
    decreases n,
{
    if n == 0 {
        Seq::empty()
    } else {
        indent_text((n - 1) as nat) + "    "@
    }
}

/// One output line at the current indentation.
pub open spec fn st_line(st: FmtState, s: Seq<char>) -> FmtState {
    FmtState { buf: st.buf + indent_text(st.indent) + s + "\n"@, ..st }
}

/// Writes, as lines, the whole-line and trailing comments that come before
/// `before`, from the next one on.
pub open spec fn st_emit(cs: Seq<CommentInfo>, st: FmtState, before: int) -> FmtState
    decreases cs.len() - st.next,
{
    if st.next < cs.len() && (cs[st.next as int].line as int) < before {
        st_emit(
            cs,
            FmtState { next: st.next + 1, ..st_line(st, cs[st.next as int].text@) },
            before,
        )
    } else {
        st
    }
}

/// Takes the next comment when it trails code on `line`.
pub open spec fn st_take(cs: Seq<CommentInfo>, st: FmtState, line: int) -> (FmtState, Option<Seq<char>>) {
    if st.next < cs.len() && cs[st.next as int].line == line && !cs[st.next as int].full_line {
        (FmtState { next: st.next + 1, ..st }, Some(cs[st.next as int].text@))
    } else {
        (st, None)
    }
}

/// A statement line: pending comments first, then the line with its
/// trailing comment.
pub open spec fn st_line_at(cs: Seq<CommentInfo>, st: FmtState, s: Seq<char>, line: int) -> FmtState {
    let st1 = st_emit(cs, st, line);
    let (st2, c) = st_take(cs, st1, line);
    let out = match c {
        Some(t) => s + " "@ + t,
        None => s,
    };
    st_line(st2, out)
}

impl Formatter {
    pub open spec fn state(&self) -> FmtState {
        FmtState { indent: self.indent as nat, buf: self.buf@, next: self.next_comment as nat }
    }

    pub open spec fn wf(&self) -> bool {
        self.next_comment <= self.comments.len()
    }

    pub fn new(comments: Vec<CommentInfo>) -> (r: Formatter)
        ensures
            r.indent == 0,
            r.buf@ == Seq::<char>::empty(),
            r.comments@ == comments@,
            r.next_comment == 0,
            r.wf(),
    {
        Formatter { indent: 0, buf: Vec::new(), comments, next_comment: 0 }
    }

    /// The output so far.
    pub fn output(&self) -> (r: String)
        ensures
            r@ == self.buf@,
    {
        string_of(self.buf.as_slice())
    }

    /// Four spaces per indentation level.
    pub fn pad(&self) -> (r: Vec<char>)
        ensures
            r@ == indent_text(self.indent as nat),
    {
        let mut out: Vec<char> = Vec::new();
        let mut i: usize = 0;
        while i < self.indent
            invariant
                0 <= i <= self.indent,
                out@ == indent_text(i as nat),
            decreases self.indent - i,
        {
            push_str(&mut out, "    ");
            i += 1;
        }
        out
    }

    /// Writes `s` as one line at the current indentation.
    pub fn line(&mut self, s: &[char])
        ensures
            final(self).state() == st_line(old(self).state(), s@),
            final(self).comments@ == old(self).comments@,
            final(self).next_comment == old(self).next_comment,
            final(self).indent == old(self).indent,
    {
        let p = self.pad();
        push_all(&mut self.buf, p.as_slice());
        push_all(&mut self.buf, s);
        self.buf.push('\n');
        proof {
            reveal_strlit("\n");
        }
        assert(self.buf@ =~= old(self).buf@ + indent_text(old(self).indent as nat) + s@ + "\n"@);
    }

    /// Writes the comments that come before `before_line`.
    pub fn emit_pending_before(&mut self, before_line: usize)
        requires
            old(self).wf(),
        ensures
            final(self).wf(),
            final(self).state() == st_emit(old(self).comments@, old(self).state(), before_line as int),
            final(self).comments@ == old(self).comments@,
            final(self).indent == old(self).indent,
    {
        while self.next_comment < self.comments.len() && self.comments[self.next_comment].line
            < before_line
            invariant
                self.wf(),
                self.comments@ == old(self).comments@,
                self.indent == old(self).indent,
                st_emit(self.comments@, self.state(), before_line as int) == st_emit(
                    old(self).comments@,
                    old(self).state(),
                    before_line as int,
                ),
            decreases self.comments.len() - self.next_comment,
        {
            let text: Vec<char> = crate::text::chars_of(
                self.comments[self.next_comment].text.as_str(),
            );
            self.line(text.as_slice());
            self.next_comment += 1;
        }
    }

    /// Consumes and returns the next comment when it trails code on `line`.
    pub fn take_trailing(&mut self, line: usize) -> (r: Option<String>)
        requires
            old(self).wf(),
        ensures
            final(self).wf(),
            final(self).comments@ == old(self).comments@,
            final(self).indent == old(self).indent,
            (final(self).state(), match r {
                Some(t) => Some(t@),
                None => None,
            }) == st_take(old(self).comments@, old(self).state(), line as int),
    {
        if self.next_comment < self.comments.len() {
            let full = self.comments[self.next_comment].full_line;
            if self.comments[self.next_comment].line == line && !full {
                let t = self.comments[self.next_comment].text.clone();
                self.next_comment += 1;
                return Some(t);
            }
        }
        None
    }

    /// A statement line at source line `line`.
    pub fn line_at(&mut self, s: &[char], line: usize)
        requires
            old(self).wf(),
        ensures
            final(self).wf(),
            final(self).comments@ == old(self).comments@,
            final(self).state() == st_line_at(old(self).comments@, old(self).state(), s@, line as int),
            final(self).indent == old(self).indent,
    {
        self.emit_pending_before(line);
        let mut out: Vec<char> = Vec::new();
        push_all(&mut out, s);
        match self.take_trailing(line) {
            Some(c) => {
                out.push(' ');
                push_str(&mut out, c.as_str());
                proof {
                    reveal_strlit(" ");
                }
            },
            None => {},
        }
        self.line(out.as_slice());
        assert(self.buf@ =~= st_line_at(old(self).comments@, old(self).state(), s@, line as int).buf);
    }

    /// The line where the next sibling statement starts, or `end` after the
    /// last one.
    pub fn child_bound(lines: &[usize], i: usize, end: usize) -> (r: usize)
        ensures
            r == if i + 1 < lines@.len() {
                lines@[i + 1]
            } else {
                end
            },
    {
        if i < lines.len() && i + 1 < lines.len() {
            lines[i + 1]
        } else {
            end
        }
    }
}

/// `import name`.
pub open spec fn import_line(name: Seq<char>) -> Seq<char> {
    "import "@ + name
}

/// `export path` or `export path::*`.
pub open spec fn export_line(path: Seq<char>, wildcard: bool) -> Seq<char> {
    if wildcard {
        "export "@ + path + "::*"@
    } else {
        "export "@ + path
    }
}

/// The field lines of a struct.
pub open spec fn field_lines(st: FmtState, fs: Seq<StructField>) -> FmtState
    decreases fs.len(),
{
    if fs.len() == 0 {
        st
    } else {
        st_line(field_lines(st, fs.drop_last()), fs.last().name@ + ": "@ + type_text(fs.last().field_type) + ","@)
    }
}

/// `struct Name<T> {}` on one line when empty; else the header, one
/// indented line per field, the comments before `end`, and `}`.
pub open spec fn struct_spec(cs: Seq<CommentInfo>, st: FmtState, s: StructDef, line: int, end: int) -> FmtState {
    let head = "struct "@ + s.name@ + type_params_text(s.type_params@);
    if s.fields@.len() == 0 {
        st_line_at(cs, st, head + " {}"@, line)
    } else {
        let st1 = st_line_at(cs, st, head + " {"@, line);
        let st2 = field_lines(FmtState { indent: st1.indent + 1, ..st1 }, s.fields@);
        let st3 = st_emit(cs, st2, end);
        st_line(FmtState { indent: st1.indent, ..st3 }, "}"@)
    }
}

pub open spec fn variant_line(v: EnumVariant) -> Seq<char> {
    if v.payloads@.len() == 0 {
        v.name@ + ","@
    } else {
        v.name@ + "("@ + types_text(v.payloads@) + "),"@
    }
}

pub open spec fn variant_lines(st: FmtState, vs: Seq<EnumVariant>) -> FmtState
    decreases vs.len(),
{
    if vs.len() == 0 {
        st
    } else {
        st_line(variant_lines(st, vs.drop_last()), variant_line(vs.last()))
    }
}

/// `enum Name {}` when empty; else the header, one indented line per
/// variant, the comments before `end`, and `}`.
pub open spec fn enum_spec(cs: Seq<CommentInfo>, st: FmtState, e: EnumDef, line: int, end: int) -> FmtState {
    if e.variants@.len() == 0 {
        st_line_at(cs, st, "enum "@ + e.name@ + " {}"@, line)
    } else {
        let st1 = st_line_at(cs, st, "enum "@ + e.name@ + " {"@, line);
        let st2 = variant_lines(FmtState { indent: st1.indent + 1, ..st1 }, e.variants@);
        let st3 = st_emit(cs, st2, end);
        st_line(FmtState { indent: st1.indent, ..st3 }, "}"@)
    }
}

impl Formatter {
    /// An `import` line.
    pub fn format_import(&mut self, name: &str, line: usize)
        requires
            old(self).wf(),
        ensures
            final(self).wf(),
            final(self).comments@ == old(self).comments@,
            final(self).state() == st_line_at(old(self).comments@, old(self).state(), import_line(name@), line as int),
    {
        let mut l: Vec<char> = Vec::new();
        push_str(&mut l, "import ");
        push_str(&mut l, name);
        self.line_at(l.as_slice(), line);
    }

    /// An `export` line.
    pub fn format_export(&mut self, path: &str, is_wildcard: bool, line: usize)
        requires
            old(self).wf(),
        ensures
            final(self).wf(),
            final(self).comments@ == old(self).comments@,
            final(self).state() == st_line_at(
                old(self).comments@,
                old(self).state(),
                export_line(path@, is_wildcard),
                line as int,
            ),
    {
        let mut l: Vec<char> = Vec::new();
        push_str(&mut l, "export ");
        push_str(&mut l, path);
        if is_wildcard {
            push_str(&mut l, "::*");
        }
        assert(l@ =~= export_line(path@, is_wildcard));
        self.line_at(l.as_slice(), line);
    }

    /// A struct declaration; comments between fields are written before
    /// the closing brace.
    pub fn format_struct(&mut self, s: &StructDef, line: usize, end: usize)
        requires
            old(self).wf(),
            old(self).indent < usize::MAX,
        ensures
            final(self).wf(),
            final(self).comments@ == old(self).comments@,
            final(self).state() == struct_spec(old(self).comments@, old(self).state(), *s, line as int, end as int),
    {
        let mut head: Vec<char> = Vec::new();
        push_str(&mut head, "struct ");
        push_str(&mut head, s.name.as_str());
        crate::symbols::push_type_params(&mut head, &s.type_params);
        if s.fields.len() == 0 {
            push_str(&mut head, " {}");
            self.line_at(head.as_slice(), line);
            return;
        }
        push_str(&mut head, " {");
        self.line_at(head.as_slice(), line);
        let ghost st1 = self.state();
        self.indent += 1;
        let mut i: usize = 0;
        assert(s.fields@.take(0) =~= Seq::<StructField>::empty());
        while i < s.fields.len()
            invariant
                0 <= i <= s.fields.len(),
                self.wf(),
                self.comments@ == old(self).comments@,
                self.state() == field_lines(FmtState { indent: st1.indent + 1, ..st1 }, s.fields@.take(i as int)),
                self.indent == st1.indent + 1,
            decreases s.fields.len() - i,
        {
            let f = &s.fields[i];
            let mut l: Vec<char> = Vec::new();
            push_str(&mut l, f.name.as_str());
            push_str(&mut l, ": ");
            push_type(&mut l, &f.field_type);
            push_str(&mut l, ",");
            self.line(l.as_slice());
            assert(s.fields@.take(i + 1).drop_last() =~= s.fields@.take(i as int));
            assert(s.fields@.take(i + 1).last() == s.fields@[i as int]);
            i += 1;
        }
        assert(s.fields@.take(s.fields.len() as int) =~= s.fields@);
        self.emit_pending_before(end);
        self.indent -= 1;
        let mut close: Vec<char> = Vec::new();
        close.push('}');
        proof {
            reveal_strlit("}");
            assert(close@ =~= "}"@);
        }
        self.line(close.as_slice());
    }

    /// An enum declaration; comments between variants are written before
    /// the closing brace.
    pub fn format_enum(&mut self, e: &EnumDef, line: usize, end: usize)
        requires
            old(self).wf(),
            old(self).indent < usize::MAX,
        ensures
            final(self).wf(),
            final(self).comments@ == old(self).comments@,
            final(self).state() == enum_spec(old(self).comments@, old(self).state(), *e, line as int, end as int),
    {
        let mut head: Vec<char> = Vec::new();
        push_str(&mut head, "enum ");
        push_str(&mut head, e.name.as_str());
        if e.variants.len() == 0 {
            push_str(&mut head, " {}");
            self.line_at(head.as_slice(), line);
            return;
        }
        push_str(&mut head, " {");
        self.line_at(head.as_slice(), line);
        let ghost st1 = self.state();
        self.indent += 1;
        let mut i: usize = 0;
        assert(e.variants@.take(0) =~= Seq::<EnumVariant>::empty());
        while i < e.variants.len()
            invariant
                0 <= i <= e.variants.len(),
                self.wf(),
                self.comments@ == old(self).comments@,
                self.state() == variant_lines(FmtState { indent: st1.indent + 1, ..st1 }, e.variants@.take(i as int)),
                self.indent == st1.indent + 1,
            decreases e.variants.len() - i,
        {
            let v = &e.variants[i];
            let mut l: Vec<char> = Vec::new();
            push_str(&mut l, v.name.as_str());
            if v.payloads.len() == 0 {
                push_str(&mut l, ",");
            } else {
                push_str(&mut l, "(");
                push_types(&mut l, &v.payloads);
                push_str(&mut l, "),");
            }
            assert(l@ =~= variant_line(*v));
            self.line(l.as_slice());
            assert(e.variants@.take(i + 1).drop_last() =~= e.variants@.take(i as int));
            assert(e.variants@.take(i + 1).last() == e.variants@[i as int]);
            i += 1;
        }
        assert(e.variants@.take(e.variants.len() as int) =~= e.variants@);
        self.emit_pending_before(end);
        self.indent -= 1;
        let mut close: Vec<char> = Vec::new();
        close.push('}');
        proof {
            reveal_strlit("}");
            assert(close@ =~= "}"@);
        }
        self.line(close.as_slice());
    }
}


/// The parameter list of a trait method: `self` first when it takes one.
pub open spec fn trait_params_text(m: TraitMethodDef) -> Seq<char> {
    join_comma(
        (if m.has_self {
            seq!["self"@]
        } else {
            Seq::empty()
        }) + m.params@.map_values(|p: FnParam| param_text(p)),
    )
}

/// `fn name(params)` with ` -> R` when the method returns a value.
pub open spec fn method_sig(m: TraitMethodDef) -> Seq<char> {
    "fn "@ + m.name@ + "("@ + trait_params_text(m) + ")"@ + match m.return_type {
        Some(t) => " -> "@ + type_text(t),
        None => Seq::empty(),
    }
}

pub open spec fn method_lines(st: FmtState, ms: Seq<TraitMethodDef>) -> FmtState
    decreases ms.len(),
{
    if ms.len() == 0 {
        st
    } else {
        st_line(method_lines(st, ms.drop_last()), method_sig(ms.last()))
    }
}

/// `trait Name {`, one indented signature line per method, then `}`.
pub open spec fn trait_spec(cs: Seq<CommentInfo>, st: FmtState, t: TraitDef, line: int) -> FmtState {
    let st1 = st_line_at(cs, st, "trait "@ + t.name@ + " {"@, line);
    let st2 = method_lines(FmtState { indent: st1.indent + 1, ..st1 }, t.methods@);
    st_line(FmtState { indent: st1.indent, ..st2 }, "}"@)
}

proof fn lemma_join_comma_prepend(a: Seq<char>, xs: Seq<Seq<char>>)
    ensures
        xs.len() == 0 ==> join_comma(seq![a] + xs) == a,
        xs.len() > 0 ==> join_comma(seq![a] + xs) == a + ", "@ + join_comma(xs),
    decreases xs.len(),
{
    if xs.len() == 0 {
        assert(seq![a] + xs =~= seq![a]);
    } else if xs.len() == 1 {
        assert((seq![a] + xs).drop_last() =~= seq![a]);
        assert((seq![a] + xs).last() == xs[0]);
        assert(join_comma(seq![a]) == a);
    } else {
        lemma_join_comma_prepend(a, xs.drop_last());
        assert((seq![a] + xs).drop_last() =~= seq![a] + xs.drop_last());
        assert((seq![a] + xs).last() == xs.last());
        assert(a + ", "@ + join_comma(xs.drop_last()) + ", "@ + xs.last() =~= a + ", "@ + (
        join_comma(xs.drop_last()) + ", "@ + xs.last()));
    }
}

impl Formatter {
    /// A trait declaration: one signature line per method.
    pub fn format_trait(&mut self, t: &TraitDef, line: usize)
        requires
            old(self).wf(),
            old(self).indent < usize::MAX,
        ensures
            final(self).wf(),
            final(self).comments@ == old(self).comments@,
            final(self).state() == trait_spec(old(self).comments@, old(self).state(), *t, line as int),
    {
        let mut head: Vec<char> = Vec::new();
        push_str(&mut head, "trait ");
        push_str(&mut head, t.name.as_str());
        push_str(&mut head, " {");
        self.line_at(head.as_slice(), line);
        let ghost st1 = self.state();
        self.indent += 1;
        let mut i: usize = 0;
        assert(t.methods@.take(0) =~= Seq::<TraitMethodDef>::empty());
        while i < t.methods.len()
            invariant
                0 <= i <= t.methods.len(),
                self.wf(),
                self.comments@ == old(self).comments@,
                self.state() == method_lines(FmtState { indent: st1.indent + 1, ..st1 }, t.methods@.take(i as int)),
                self.indent == st1.indent + 1,
            decreases t.methods.len() - i,
        {
            let m = &t.methods[i];
            let mut sig: Vec<char> = Vec::new();
            push_str(&mut sig, "fn ");
            push_str(&mut sig, m.name.as_str());
            push_str(&mut sig, "(");
            let ghost ps = m.params@.map_values(|p: FnParam| param_text(p));
            if m.has_self {
                push_str(&mut sig, "self");
                if m.params.len() > 0 {
                    push_str(&mut sig, ", ");
                }
                crate::symbols::push_params(&mut sig, &m.params);
                proof {
                    lemma_join_comma_prepend("self"@, ps);
                }
            } else {
                crate::symbols::push_params(&mut sig, &m.params);
                assert(Seq::<Seq<char>>::empty() + ps =~= ps);
            }
            push_str(&mut sig, ")");
            match &m.return_type {
                Some(r) => {
                    push_str(&mut sig, " -> ");
                    push_type(&mut sig, r);
                },
                None => {},
            }
            assert(sig@ =~= method_sig(*m));
            self.line(sig.as_slice());
            assert(t.methods@.take(i + 1).drop_last() =~= t.methods@.take(i as int));
            assert(t.methods@.take(i + 1).last() == t.methods@[i as int]);
            i += 1;
        }
        assert(t.methods@.take(t.methods.len() as int) =~= t.methods@);
        self.indent -= 1;
        let mut close: Vec<char> = Vec::new();
        close.push('}');
        proof {
            reveal_strlit("}");
            assert(close@ =~= "}"@);
        }
        self.line(close.as_slice());
    }
}

/// `s` with each CRLF pair turned into LF, scanning left to right.
pub open spec fn crlf_to_lf(s: Seq<char>) -> Seq<char>
    decreases s.len(),
{
    if s.len() == 0 {
        s
    } else if s.len() >= 2 && s[0] == '\r' && s[1] == '\n' {
        seq!['\n'] + crlf_to_lf(s.skip(2))
    } else {
        seq![s[0]] + crlf_to_lf(s.skip(1))
    }
}

/// `s` with each LF turned into CRLF.
pub open spec fn lf_to_crlf(s: Seq<char>) -> Seq<char>
    decreases s.len(),
{
    if s.len() == 0 {
        s
    } else if s[0] == '\n' {
        seq!['\r', '\n'] + lf_to_crlf(s.skip(1))
    } else {
        seq![s[0]] + lf_to_crlf(s.skip(1))
    }
}

/// A CRLF pair starts at `i`.
pub open spec fn crlf_at(s: Seq<char>, i: int) -> bool {
    0 <= i && i + 1 < s.len() && s[i] == '\r' && s[i + 1] == '\n'
}

/// Some line of `s` ends with CRLF.
pub open spec fn has_crlf(s: Seq<char>) -> bool {
    exists|i: int| #[trigger] crlf_at(s, i)
}

/// The formatted text in the line-ending style of the file it came from:
/// with CRLF line ends when the file has any, as it is otherwise.
pub open spec fn matched_endings(content: Seq<char>, formatted: Seq<char>) -> Seq<char> {
    if has_crlf(content) {
        lf_to_crlf(crlf_to_lf(formatted))
    } else {
        formatted
    }
}

fn crlf_to_lf_chars(s: &[char]) -> (r: Vec<char>)
    ensures
        r@ == crlf_to_lf(s@),
{
    let mut out: Vec<char> = Vec::new();
    let mut i: usize = 0;
    assert(s@.skip(0) =~= s@);
    while i < s.len()
        invariant
            0 <= i <= s.len(),
            out@ + crlf_to_lf(s@.skip(i as int)) == crlf_to_lf(s@),
        decreases s.len() - i,
    {
        let ghost t = s@.skip(i as int);
        if i + 1 < s.len() && s[i] == '\r' && s[i + 1] == '\n' {
            assert(t.skip(2) =~= s@.skip(i + 2));
            out.push('\n');
            i += 2;
            assert(out@ + crlf_to_lf(s@.skip(i as int)) =~= crlf_to_lf(s@));
        } else {
            assert(t.skip(1) =~= s@.skip(i + 1));
            assert(t[0] == s@[i as int]);
            out.push(s[i]);
            i += 1;
            assert(out@ + crlf_to_lf(s@.skip(i as int)) =~= crlf_to_lf(s@));
        }
    }
    assert(s@.skip(i as int) =~= Seq::<char>::empty());
    assert(out@ + crlf_to_lf(s@.skip(i as int)) =~= out@);
    out
}

fn lf_to_crlf_chars(s: &[char]) -> (r: Vec<char>)
    ensures
        r@ == lf_to_crlf(s@),
{
    let mut out: Vec<char> = Vec::new();
    let mut i: usize = 0;
    assert(s@.skip(0) =~= s@);
    while i < s.len()
        invariant
            0 <= i <= s.len(),
            out@ + lf_to_crlf(s@.skip(i as int)) == lf_to_crlf(s@),
        decreases s.len() - i,
    {
        let ghost t = s@.skip(i as int);
        assert(t.skip(1) =~= s@.skip(i + 1));
        assert(t[0] == s@[i as int]);
        if s[i] == '\n' {
            out.push('\r');
            out.push('\n');
        } else {
            out.push(s[i]);
        }
        i += 1;
        assert(out@ + lf_to_crlf(s@.skip(i as int)) =~= lf_to_crlf(s@));
    }
    assert(s@.skip(i as int) =~= Seq::<char>::empty());
    assert(out@ + lf_to_crlf(s@.skip(i as int)) =~= out@);
    out
}

fn has_crlf_chars(s: &[char]) -> (r: bool)
    ensures
        r == has_crlf(s@),
{
    let mut i: usize = 0;
    while i < s.len() && i + 1 < s.len()
        invariant
            0 <= i,
            i <= s.len(),
            forall|k: int| 0 <= k < i ==> !#[trigger] crlf_at(s@, k),
        decreases s.len() - i,
    {
        if s[i] == '\r' && s[i + 1] == '\n' {
            assert(crlf_at(s@, i as int));
            return true;
        }
        i += 1;
    }
    // every earlier start was checked; none fits after the last character
    assert forall|k: int| !#[trigger] crlf_at(s@, k) by {
        if 0 <= k < i {
            assert(!crlf_at(s@, k));
        }
    }
    false
}

/// The formatted text of a file, with the file's line-ending style.
pub fn match_line_endings(content: &str, formatted: &str) -> (r: String)
    ensures
        r@ == matched_endings(content@, formatted@),
{
    let c = crate::text::chars_of(content);
    let f = crate::text::chars_of(formatted);
    if has_crlf_chars(c.as_slice()) {
        let lf = crlf_to_lf_chars(f.as_slice());
        let crlf = lf_to_crlf_chars(lf.as_slice());
        string_of(crlf.as_slice())
    } else {
        string_of(f.as_slice())
    }
}

/// Directories the formatter does not enter: build output and version
/// control.
pub open spec fn skipped_dir_name(name: Seq<char>) -> bool {
    name == "target"@ || name == ".git"@ || name == ".omo"@
}

pub fn is_skipped_dir(name: &str) -> (r: bool)
    ensures
        r == skipped_dir_name(name@),
{
    let c = crate::text::chars_of(name);
    crate::text::eq_str(c.as_slice(), "target") || crate::text::eq_str(c.as_slice(), ".git")
        || crate::text::eq_str(c.as_slice(), ".omo")
}

} // verus!
