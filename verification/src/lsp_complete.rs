//! Completion: keywords, the document's symbols, struct fields and enum
//! variants after `.`, `math::` functions and enum variants after `::`.
//! A document that does not parse still gets keywords.
use crate::ast::{push_type, type_text, EnumVariant, Program, Spanned, Stmt, StructField};
use crate::lsp_map::{addressable, body_at, line_body, LspPosition};
use crate::lsp_text::{
    dbl_colon_base, dbl_colon_base_before, dot_base, dot_base_before, utf16_col,
    utf16_to_char_col, word_start, word_start_before,
};
use crate::rope::{rope_from_str, rope_lines};
use crate::symbols::{syms_view, Symbol, SymbolKind, SymbolView};
use crate::text::{chars_of, push_all, push_str, slice_copy, string_of, views};
use vstd::prelude::*;

verus! {

/// What a completion item offers.
#[derive(Debug, Clone, Copy, PartialEq, Eq, Structural)]
pub enum CompletionKind {
    Keyword,
    Function,
    Struct,
    Enum,
    EnumMember,
    Module,
    Interface,
    Variable,
    Field,
}

/// A completion item: the text to insert, its kind and a one-line detail.
#[derive(Debug)]
pub struct CompletionEntry {
    pub label: String,
    pub kind: CompletionKind,
    pub detail: String,
}

pub struct EntryView {
    pub label: Seq<char>,
    pub kind: CompletionKind,
    pub detail: Seq<char>,
}

impl View for CompletionEntry {
    type V = EntryView;

    open spec fn view(&self) -> EntryView {
        EntryView { label: self.label@, kind: self.kind, detail: self.detail@ }
    }
}

pub open spec fn entries_view(s: Seq<CompletionEntry>) -> Seq<EntryView> {
    s.map_values(|e: CompletionEntry| e@)
}

/// The keywords offered, in the order offered.
pub open spec fn keyword_list() -> Seq<Seq<char>> {
    seq![
        "fn"@,
        "let"@,
        "mut"@,
        "if"@,
        "elif"@,
        "else"@,
        "for"@,
        "in"@,
        "while"@,
        "return"@,
        "break"@,
        "continue"@,
        "defer"@,
        "import"@,
        "match"@,
        "struct"@,
        "enum"@,
        "trait"@,
        "impl"@,
    ]
}

/// The functions of the `math` module.
pub open spec fn math_list() -> Seq<Seq<char>> {
    seq!["abs"@, "sqrt"@, "pow"@, "sin"@, "cos"@, "tan"@, "floor"@, "ceil"@, "round"@]
}

/// Members offered after `.` on a receiver of unknown type.
pub open spec fn member_list() -> Seq<Seq<char>> {
    seq!["len"@, "to_string"@, "push"@, "pop"@, "clear"@]
}

pub fn keyword_words() -> (r: Vec<Vec<char>>)
    ensures
        views(r@) == keyword_list(),
{
    let mut r: Vec<Vec<char>> = Vec::new();
    r.push(chars_of("fn"));
    r.push(chars_of("let"));
    r.push(chars_of("mut"));
    r.push(chars_of("if"));
    r.push(chars_of("elif"));
    r.push(chars_of("else"));
    r.push(chars_of("for"));
    r.push(chars_of("in"));
    r.push(chars_of("while"));
    r.push(chars_of("return"));
    r.push(chars_of("break"));
    r.push(chars_of("continue"));
    r.push(chars_of("defer"));
    r.push(chars_of("import"));
    r.push(chars_of("match"));
    r.push(chars_of("struct"));
    r.push(chars_of("enum"));
    r.push(chars_of("trait"));
    r.push(chars_of("impl"));
    assert(views(r@) =~= keyword_list());
    r
}

pub fn math_words() -> (r: Vec<Vec<char>>)
    ensures
        views(r@) == math_list(),
{
    let mut r: Vec<Vec<char>> = Vec::new();
    r.push(chars_of("abs"));
    r.push(chars_of("sqrt"));
    r.push(chars_of("pow"));
    r.push(chars_of("sin"));
    r.push(chars_of("cos"));
    r.push(chars_of("tan"));
    r.push(chars_of("floor"));
    r.push(chars_of("ceil"));
    r.push(chars_of("round"));
    assert(views(r@) =~= math_list());
    r
}

pub fn member_words() -> (r: Vec<Vec<char>>)
    ensures
        views(r@) == member_list(),
{
    let mut r: Vec<Vec<char>> = Vec::new();
    r.push(chars_of("len"));
    r.push(chars_of("to_string"));
    r.push(chars_of("push"));
    r.push(chars_of("pop"));
    r.push(chars_of("clear"));
    assert(views(r@) =~= member_list());
    r
}

/// `s` starts with `p`.
pub open spec fn has_prefix(s: Seq<char>, p: Seq<char>) -> bool {
    p.len() <= s.len() && s.take(p.len() as int) == p
}

pub fn starts_with(s: &[char], p: &[char]) -> (r: bool)
    ensures
        r == has_prefix(s@, p@),
{
    if p.len() > s.len() {
        return false;
    }
    let mut k: usize = 0;
    while k < p.len()
        invariant
            0 <= k <= p.len() <= s.len(),
            forall|j: int| 0 <= j < k ==> s@[j] == p@[j],
        decreases p.len() - k,
    {
        if s[k] != p[k] {
            assert(s@.take(p.len() as int)[k as int] != p@[k as int]);
            return false;
        }
        k += 1;
    }
    assert(s@.take(p.len() as int) =~= p@);
    true
}

/// The detail of a word item: `head`, followed by the word when `with_word`.
pub open spec fn word_detail(head: Seq<char>, with_word: bool, w: Seq<char>) -> Seq<char> {
    if with_word {
        head + w
    } else {
        head
    }
}

/// Items for the words that start with `prefix`, in list order.
pub open spec fn word_entries(
    ws: Seq<Seq<char>>,
    prefix: Seq<char>,
    kind: CompletionKind,
    head: Seq<char>,
    with_word: bool,
) -> Seq<EntryView>
    decreases ws.len(),
{
    if ws.len() == 0 {
        Seq::empty()
    } else {
        word_entries(ws.drop_last(), prefix, kind, head, with_word) + if has_prefix(
            ws.last(),
            prefix,
        ) {
            seq![EntryView { label: ws.last(), kind, detail: word_detail(head, with_word, ws.last()) }]
        } else {
            Seq::empty()
        }
    }
}

/// Appends the items for the words of `ws` that start with `prefix`.
fn push_word_entries(
    out: &mut Vec<CompletionEntry>,
    ws: &Vec<Vec<char>>,
    prefix: &[char],
    kind: CompletionKind,
    head: &str,
    with_word: bool,
)
    ensures
        entries_view(final(out)@) == entries_view(old(out)@) + word_entries(
            views(ws@),
            prefix@,
            kind,
            head@,
            with_word,
        ),
{
    let ghost start = entries_view(out@);
    let mut i: usize = 0;
    while i < ws.len()
        invariant
            0 <= i <= ws.len(),
            entries_view(out@) == start + word_entries(
                views(ws@).take(i as int),
                prefix@,
                kind,
                head@,
                with_word,
            ),
        decreases ws.len() - i,
    {
        assert(views(ws@).take(i + 1).drop_last() =~= views(ws@).take(i as int));
        assert(views(ws@).take(i + 1).last() == ws@[i as int]@);
        if starts_with(ws[i].as_slice(), prefix) {
            let mut d: Vec<char> = Vec::new();
            push_str(&mut d, head);
            if with_word {
                push_all(&mut d, ws[i].as_slice());
            }
            let e = CompletionEntry {
                label: string_of(ws[i].as_slice()),
                kind,
                detail: string_of(d.as_slice()),
            };
            let ghost before = entries_view(out@);
            out.push(e);
            assert(entries_view(out@) =~= before.push(e@));
        }
        i += 1;
        assert(entries_view(out@) =~= start + word_entries(
            views(ws@).take(i as int),
            prefix@,
            kind,
            head@,
            with_word,
        ));
    }
    assert(views(ws@).take(ws.len() as int) =~= views(ws@));
}

/// The completion kind of a symbol kind; parameters and variables are both
/// variables.
pub open spec fn completion_kind(k: SymbolKind) -> CompletionKind {
    match k {
        SymbolKind::Function => CompletionKind::Function,
        SymbolKind::Struct => CompletionKind::Struct,
        SymbolKind::Enum => CompletionKind::Enum,
        SymbolKind::Variant => CompletionKind::EnumMember,
        SymbolKind::Module => CompletionKind::Module,
        SymbolKind::Trait => CompletionKind::Interface,
        SymbolKind::Variable => CompletionKind::Variable,
        SymbolKind::Param => CompletionKind::Variable,
    }
}

pub fn to_completion_kind(k: SymbolKind) -> (r: CompletionKind)
    ensures
        r == completion_kind(k),
{
    match k {
        SymbolKind::Function => CompletionKind::Function,
        SymbolKind::Struct => CompletionKind::Struct,
        SymbolKind::Enum => CompletionKind::Enum,
        SymbolKind::Variant => CompletionKind::EnumMember,
        SymbolKind::Module => CompletionKind::Module,
        SymbolKind::Trait => CompletionKind::Interface,
        SymbolKind::Variable => CompletionKind::Variable,
        SymbolKind::Param => CompletionKind::Variable,
    }
}

/// Items for the symbols whose name starts with `prefix`, in table order.
pub open spec fn symbol_entries(syms: Seq<SymbolView>, prefix: Seq<char>) -> Seq<EntryView>
    decreases syms.len(),
{
    if syms.len() == 0 {
        Seq::empty()
    } else {
        symbol_entries(syms.drop_last(), prefix) + if has_prefix(syms.last().name, prefix) {
            seq![
                EntryView {
                    label: syms.last().name,
                    kind: completion_kind(syms.last().kind),
                    detail: syms.last().detail,
                },
            ]
        } else {
            Seq::empty()
        }
    }
}

/// Keywords, then the document's symbols, that start with `prefix`.
pub fn normal_items(symbols: &Vec<Symbol>, prefix: &[char]) -> (r: Vec<CompletionEntry>)
    ensures
        entries_view(r@) == word_entries(
            keyword_list(),
            prefix@,
            CompletionKind::Keyword,
            "keyword"@,
            false,
        ) + symbol_entries(syms_view(symbols@), prefix@),
{
    let mut out: Vec<CompletionEntry> = Vec::new();
    let kws = keyword_words();
    push_word_entries(&mut out, &kws, prefix, CompletionKind::Keyword, "keyword", false);
    let ghost start = entries_view(out@);
    let mut i: usize = 0;
    while i < symbols.len()
        invariant
            0 <= i <= symbols.len(),
            entries_view(out@) == start + symbol_entries(
                syms_view(symbols@).take(i as int),
                prefix@,
            ),
        decreases symbols.len() - i,
    {
        assert(syms_view(symbols@).take(i + 1).drop_last() =~= syms_view(symbols@).take(
            i as int,
        ));
        assert(syms_view(symbols@).take(i + 1).last() == symbols@[i as int]@);
        let name = chars_of(symbols[i].name.as_str());
        if starts_with(name.as_slice(), prefix) {
            let e = CompletionEntry {
                label: symbols[i].name.clone(),
                kind: to_completion_kind(symbols[i].kind),
                detail: symbols[i].detail.clone(),
            };
            let ghost before = entries_view(out@);
            out.push(e);
            assert(entries_view(out@) =~= before.push(e@));
        }
        i += 1;
        assert(entries_view(out@) =~= start + symbol_entries(
            syms_view(symbols@).take(i as int),
            prefix@,
        ));
    }
    assert(syms_view(symbols@).take(symbols.len() as int) =~= syms_view(symbols@));
    out
}

/// Items for the fields of struct `base` whose name starts with `prefix`;
/// the detail is `Base::field: Type`.
pub open spec fn field_entries(fields: Seq<StructField>, base: Seq<char>, prefix: Seq<char>) -> Seq<
    EntryView,
>
    decreases fields.len(),
{
    if fields.len() == 0 {
        Seq::empty()
    } else {
        let f = fields.last();
        field_entries(fields.drop_last(), base, prefix) + if has_prefix(f.name@, prefix) {
            seq![
                EntryView {
                    label: f.name@,
                    kind: CompletionKind::Field,
                    detail: base + "::"@ + f.name@ + ": "@ + type_text(f.field_type),
                },
            ]
        } else {
            Seq::empty()
        }
    }
}

/// Items for the variants of enum `enum_name` whose name starts with
/// `prefix`; the detail is `Enum::Variant`.
pub open spec fn variant_entries(vs: Seq<EnumVariant>, enum_name: Seq<char>, prefix: Seq<char>) -> Seq<
    EntryView,
>
    decreases vs.len(),
{
    if vs.len() == 0 {
        Seq::empty()
    } else {
        let v = vs.last();
        variant_entries(vs.drop_last(), enum_name, prefix) + if has_prefix(v.name@, prefix) {
            seq![
                EntryView {
                    label: v.name@,
                    kind: CompletionKind::EnumMember,
                    detail: enum_name + "::"@ + v.name@,
                },
            ]
        } else {
            Seq::empty()
        }
    }
}

pub fn field_items(fields: &Vec<StructField>, base: &[char], prefix: &[char]) -> (r: Vec<
    CompletionEntry,
>)
    ensures
        entries_view(r@) == field_entries(fields@, base@, prefix@),
{
    let mut out: Vec<CompletionEntry> = Vec::new();
    let mut i: usize = 0;
    while i < fields.len()
        invariant
            0 <= i <= fields.len(),
            entries_view(out@) == field_entries(fields@.take(i as int), base@, prefix@),
        decreases fields.len() - i,
    {
        assert(fields@.take(i + 1).drop_last() =~= fields@.take(i as int));
        let name = chars_of(fields[i].name.as_str());
        if starts_with(name.as_slice(), prefix) {
            let mut d: Vec<char> = Vec::new();
            push_all(&mut d, base);
            push_str(&mut d, "::");
            push_all(&mut d, name.as_slice());
            push_str(&mut d, ": ");
            push_type(&mut d, &fields[i].field_type);
            out.push(
                CompletionEntry {
                    label: fields[i].name.clone(),
                    kind: CompletionKind::Field,
                    detail: string_of(d.as_slice()),
                },
            );
        }
        i += 1;
        assert(entries_view(out@) =~= field_entries(fields@.take(i as int), base@, prefix@));
    }
    assert(fields@.take(fields.len() as int) =~= fields@);
    out
}

pub fn variant_items(vs: &Vec<EnumVariant>, enum_name: &[char], prefix: &[char]) -> (r: Vec<
    CompletionEntry,
>)
    ensures
        entries_view(r@) == variant_entries(vs@, enum_name@, prefix@),
{
    let mut out: Vec<CompletionEntry> = Vec::new();
    let mut i: usize = 0;
    while i < vs.len()
        invariant
            0 <= i <= vs.len(),
            entries_view(out@) == variant_entries(vs@.take(i as int), enum_name@, prefix@),
        decreases vs.len() - i,
    {
        assert(vs@.take(i + 1).drop_last() =~= vs@.take(i as int));
        let name = chars_of(vs[i].name.as_str());
        if starts_with(name.as_slice(), prefix) {
            let mut d: Vec<char> = Vec::new();
            push_all(&mut d, enum_name);
            push_str(&mut d, "::");
            push_all(&mut d, name.as_slice());
            out.push(
                CompletionEntry {
                    label: vs[i].name.clone(),
                    kind: CompletionKind::EnumMember,
                    detail: string_of(d.as_slice()),
                },
            );
        }
        i += 1;
        assert(entries_view(out@) =~= variant_entries(vs@.take(i as int), enum_name@, prefix@));
    }
    assert(vs@.take(vs.len() as int) =~= vs@);
    out
}

/// The generic members that start with `prefix`.
pub fn generic_member_items(prefix: &[char]) -> (r: Vec<CompletionEntry>)
    ensures
        entries_view(r@) == word_entries(
            member_list(),
            prefix@,
            CompletionKind::Field,
            "member"@,
            false,
        ),
{
    let mut out: Vec<CompletionEntry> = Vec::new();
    let ws = member_words();
    push_word_entries(&mut out, &ws, prefix, CompletionKind::Field, "member", false);
    out
}

/// After `base.`: from the first statement from `i` on that defines a
/// struct or an enum named `base`, its fields or variants; the generic
/// members when there is none.
pub open spec fn dot_from(stmts: Seq<Spanned<Stmt>>, base: Seq<char>, prefix: Seq<char>, i: int) -> Seq<
    EntryView,
>
    decreases stmts.len() - i,
{
    if i >= stmts.len() || i < 0 {
        word_entries(member_list(), prefix, CompletionKind::Field, "member"@, false)
    } else {
        match stmts[i].node {
            Stmt::Struct(d) => if d.name@ == base {
                field_entries(d.fields@, base, prefix)
            } else {
                dot_from(stmts, base, prefix, i + 1)
            },
            Stmt::Enum(d) => if d.name@ == base {
                variant_entries(d.variants@, base, prefix)
            } else {
                dot_from(stmts, base, prefix, i + 1)
            },
            _ => dot_from(stmts, base, prefix, i + 1),
        }
    }
}

/// The items for `ws` carry exactly the words of `ws` that start with
/// `prefix` as labels.
proof fn lemma_word_entry_labels(
    ws: Seq<Seq<char>>,
    prefix: Seq<char>,
    kind: CompletionKind,
    head: Seq<char>,
    with_word: bool,
    l: Seq<char>,
)
    ensures
        has_label(word_entries(ws, prefix, kind, head, with_word), l) <==> (ws.contains(l)
            && has_prefix(l, prefix)),
    decreases ws.len(),
{
    if ws.len() > 0 {
        let p = ws.drop_last();
        lemma_word_entry_labels(p, prefix, kind, head, with_word, l);
        let r = word_entries(p, prefix, kind, head, with_word);
        let tail = if has_prefix(ws.last(), prefix) {
            seq![EntryView { label: ws.last(), kind, detail: word_detail(head, with_word, ws.last()) }]
        } else {
            Seq::<EntryView>::empty()
        };
        let all = word_entries(ws, prefix, kind, head, with_word);
        assert(all == r + tail);
        if has_label(all, l) {
            let i = choose|i: int| 0 <= i < all.len() && all[i].label == l;
            if i < r.len() {
                assert(r[i].label == l);
                let j = choose|j: int| 0 <= j < p.len() && p[j] == l;
                assert(ws[j] == l);
            } else {
                assert(tail[i - r.len()].label == l);
                assert(ws[ws.len() - 1] == l);
            }
        }
        if ws.contains(l) && has_prefix(l, prefix) {
            let j = choose|j: int| 0 <= j < ws.len() && ws[j] == l;
            if j < ws.len() - 1 {
                assert(p[j] == l);
                let i = choose|i: int| 0 <= i < r.len() && r[i].label == l;
                assert(all[i].label == l);
            } else {
                assert(all[r.len() as int].label == l);
            }
        }
    }
}

/// After `base.` where no struct or enum named `base` is declared, the
/// items offered are the members `len`, `to_string`, `push`, `pop` and
/// `clear` that start with the text typed after the dot, and nothing else.
pub proof fn law_generic_members(stmts: Seq<Spanned<Stmt>>, base: Seq<char>, prefix: Seq<char>, l: Seq<char>)
    requires
        forall|i: int|
            0 <= i < stmts.len() ==> !(#[trigger] stmts[i].node matches Stmt::Struct(sd) && sd.name@
                == base) && !(stmts[i].node matches Stmt::Enum(ed) && ed.name@ == base),
    ensures
        has_label(dot_from(stmts, base, prefix, 0), l) <==> ((l == "len"@ || l == "to_string"@
            || l == "push"@ || l == "pop"@ || l == "clear"@) && has_prefix(l, prefix)),
{
    lemma_dot_from_generic(stmts, base, prefix, 0);
    lemma_word_entry_labels(member_list(), prefix, CompletionKind::Field, "member"@, false, l);
    let ms = member_list();
    assert(ms[0] == "len"@ && ms[1] == "to_string"@ && ms[2] == "push"@ && ms[3] == "pop"@ && ms[4]
        == "clear"@);
    if ms.contains(l) {
        let j = choose|j: int| 0 <= j < ms.len() && ms[j] == l;
        assert(j == 0 || j == 1 || j == 2 || j == 3 || j == 4);
    }
    if l == "len"@ {
        assert(ms[0] == l);
    } else if l == "to_string"@ {
        assert(ms[1] == l);
    } else if l == "push"@ {
        assert(ms[2] == l);
    } else if l == "pop"@ {
        assert(ms[3] == l);
    } else if l == "clear"@ {
        assert(ms[4] == l);
    }
}

/// With no struct or enum named `base` from `i` on, `dot_from` gives the
/// generic members.
proof fn lemma_dot_from_generic(stmts: Seq<Spanned<Stmt>>, base: Seq<char>, prefix: Seq<char>, i: int)
    requires
        0 <= i,
        forall|j: int|
            0 <= j < stmts.len() ==> !(#[trigger] stmts[j].node matches Stmt::Struct(sd) && sd.name@
                == base) && !(stmts[j].node matches Stmt::Enum(ed) && ed.name@ == base),
    ensures
        dot_from(stmts, base, prefix, i) == word_entries(
            member_list(),
            prefix,
            CompletionKind::Field,
            "member"@,
            false,
        ),
    decreases stmts.len() - i,
{
    if i < stmts.len() {
        assert(!(stmts[i].node matches Stmt::Struct(sd) && sd.name@ == base));
        lemma_dot_from_generic(stmts, base, prefix, i + 1);
    }
}

/// Items after `base.`.
pub fn dot_items(program: &Program, base: &[char], prefix: &[char]) -> (r: Vec<CompletionEntry>)
    ensures
        entries_view(r@) == dot_from(program.statements@, base@, prefix@, 0),
{
    let stmts = &program.statements;
    let mut i: usize = 0;
    while i < stmts.len()
        invariant
            0 <= i <= stmts.len(),
            stmts == &program.statements,
            dot_from(stmts@, base@, prefix@, 0) == dot_from(stmts@, base@, prefix@, i as int),
        decreases stmts.len() - i,
    {
        match &stmts[i].node {
            Stmt::Struct(d) => {
                let name = chars_of(d.name.as_str());
                if crate::text::chars_eq(name.as_slice(), base) {
                    return field_items(&d.fields, base, prefix);
                }
            },
            Stmt::Enum(d) => {
                let name = chars_of(d.name.as_str());
                if crate::text::chars_eq(name.as_slice(), base) {
                    return variant_items(&d.variants, base, prefix);
                }
            },
            _ => {},
        }
        i += 1;
    }
    generic_member_items(prefix)
}

/// After `module::`: the variants of the first enum from `i` on named
/// `module`; nothing when there is none.
pub open spec fn colon_from(stmts: Seq<Spanned<Stmt>>, module: Seq<char>, prefix: Seq<char>, i: int) -> Seq<
    EntryView,
>
    decreases stmts.len() - i,
{
    if i >= stmts.len() || i < 0 {
        Seq::empty()
    } else {
        match stmts[i].node {
            Stmt::Enum(d) => if d.name@ == module {
                variant_entries(d.variants@, module, prefix)
            } else {
                colon_from(stmts, module, prefix, i + 1)
            },
            _ => colon_from(stmts, module, prefix, i + 1),
        }
    }
}

/// Items after `module::`: the `math` functions for `math`, else an enum's
/// variants.
pub open spec fn colon_entries(stmts: Seq<Spanned<Stmt>>, module: Seq<char>, prefix: Seq<char>) -> Seq<
    EntryView,
> {
    if module == "math"@ {
        word_entries(math_list(), prefix, CompletionKind::Function, "math::"@, true)
    } else {
        colon_from(stmts, module, prefix, 0)
    }
}

pub fn colon_items(program: &Program, module: &[char], prefix: &[char]) -> (r: Vec<
    CompletionEntry,
>)
    ensures
        entries_view(r@) == colon_entries(program.statements@, module@, prefix@),
{
    if crate::text::eq_str(module, "math") {
        let mut out: Vec<CompletionEntry> = Vec::new();
        let ws = math_words();
        push_word_entries(&mut out, &ws, prefix, CompletionKind::Function, "math::", true);
        return out;
    }
    let stmts = &program.statements;
    let mut i: usize = 0;
    while i < stmts.len()
        invariant
            0 <= i <= stmts.len(),
            stmts == &program.statements,
            module@ != "math"@,
            colon_from(stmts@, module@, prefix@, 0) == colon_from(
                stmts@,
                module@,
                prefix@,
                i as int,
            ),
        decreases stmts.len() - i,
    {
        if let Stmt::Enum(d) = &stmts[i].node {
            let name = chars_of(d.name.as_str());
            if crate::text::chars_eq(name.as_slice(), module) {
                return variant_items(&d.variants, module, prefix);
            }
        }
        i += 1;
    }
    Vec::new()
}

/// Some item in `s` has label `l`.
pub open spec fn has_label(s: Seq<EntryView>, l: Seq<char>) -> bool {
    exists|i: int| 0 <= i < s.len() && s[i].label == l
}

/// `s` without the items whose label an earlier item already has.
pub open spec fn dedup_entries(s: Seq<EntryView>) -> Seq<EntryView>
    decreases s.len(),
{
    if s.len() == 0 {
        s
    } else {
        let r = dedup_entries(s.drop_last());
        if has_label(s.drop_last(), s.last().label) {
            r
        } else {
            r.push(s.last())
        }
    }
}

proof fn lemma_dedup_labels(s: Seq<EntryView>, l: Seq<char>)
    ensures
        has_label(dedup_entries(s), l) == has_label(s, l),
    decreases s.len(),
{
    if s.len() > 0 {
        let p = s.drop_last();
        lemma_dedup_labels(p, l);
        let r = dedup_entries(p);
        if has_label(s, l) {
            let i = choose|i: int| 0 <= i < s.len() && s[i].label == l;
            if i < s.len() - 1 {
                assert(p[i].label == l);
                if !has_label(p, s.last().label) {
                    let j = choose|j: int| 0 <= j < r.len() && r[j].label == l;
                    assert(r.push(s.last())[j].label == l);
                }
            } else if !has_label(p, s.last().label) {
                assert(r.push(s.last())[r.len() as int].label == l);
            } else {
                let j = choose|j: int| 0 <= j < p.len() && p[j].label == s.last().label;
                assert(p[j].label == l);
            }
        }
        if has_label(dedup_entries(s), l) && !has_label(p, s.last().label) {
            let j = choose|j: int|
                0 <= j < r.push(s.last()).len() && r.push(s.last())[j].label == l;
            if j < r.len() {
                assert(r[j].label == l);
                let k = choose|k: int| 0 <= k < p.len() && p[k].label == l;
                assert(s[k].label == l);
            } else {
                assert(s[s.len() - 1].label == l);
            }
        }
        if has_label(dedup_entries(s), l) && has_label(p, s.last().label) {
            let k = choose|k: int| 0 <= k < p.len() && p[k].label == l;
            assert(s[k].label == l);
        }
    }
}

/// Whether some item of `out` has label `label`.
fn label_seen(out: &Vec<CompletionEntry>, label: &String) -> (r: bool)
    ensures
        r == has_label(entries_view(out@), label@),
{
    let mut j: usize = 0;
    while j < out.len()
        invariant
            0 <= j <= out.len(),
            forall|k: int| 0 <= k < j ==> out@[k].label@ != label@,
        decreases out.len() - j,
    {
        if out[j].label == *label {
            assert(entries_view(out@)[j as int].label == label@);
            return true;
        }
        j += 1;
    }
    assert(!has_label(entries_view(out@), label@)) by {
        if has_label(entries_view(out@), label@) {
            let k = choose|k: int|
                0 <= k < entries_view(out@).len() && entries_view(out@)[k].label == label@;
            assert(out@[k].label@ == label@);
        }
    }
    false
}

/// The items with each label kept once, at its first place.
pub fn dedup(items: Vec<CompletionEntry>) -> (r: Vec<CompletionEntry>)
    ensures
        entries_view(r@) == dedup_entries(entries_view(items@)),
{
    let mut out: Vec<CompletionEntry> = Vec::new();
    let mut i: usize = 0;
    assert(entries_view(items@).take(0) =~= Seq::<EntryView>::empty());
    while i < items.len()
        invariant
            0 <= i <= items.len(),
            entries_view(out@) == dedup_entries(entries_view(items@).take(i as int)),
        decreases items.len() - i,
    {
        let ghost pre = entries_view(items@).take(i as int);
        assert(entries_view(items@).take(i + 1).drop_last() =~= pre);
        let seen = label_seen(&out, &items[i].label);
        proof {
            lemma_dedup_labels(pre, items@[i as int].label@);
        }
        if !seen {
            out.push(
                CompletionEntry {
                    label: items[i].label.clone(),
                    kind: items[i].kind,
                    detail: items[i].detail.clone(),
                },
            );
        }
        i += 1;
        assert(entries_view(out@) =~= dedup_entries(entries_view(items@).take(i as int)));
    }
    assert(entries_view(items@).take(items.len() as int) =~= entries_view(items@));
    out
}

/// The cursor's context: the identifier text before it on its line, and
/// the name before a `::` or a `.` just before that text.
#[derive(Debug)]
pub struct CursorCtx {
    pub prefix: String,
    pub dot_base: Option<String>,
    pub dbl_colon_base: Option<String>,
}

pub struct CtxView {
    pub prefix: Seq<char>,
    pub dot_base: Option<Seq<char>>,
    pub dbl_colon_base: Option<Seq<char>>,
}

pub open spec fn opt_view(o: Option<String>) -> Option<Seq<char>> {
    match o {
        Some(s) => Some(s@),
        None => None,
    }
}

/// The context at `pos`: `None` past the last line or inside a surrogate
/// pair; a column past the end of the line is read as its end.
pub open spec fn cursor_ctx(text: Seq<char>, pos: LspPosition) -> Option<CtxView> {
    if pos.line >= rope_lines(text).len() {
        None
    } else {
        let body = line_body(rope_lines(text)[pos.line as int]);
        match utf16_col(body, pos.character as int) {
            None => None,
            Some(col) => {
                let ws = word_start(body, col);
                let prefix = body.subrange(ws, col);
                match dbl_colon_base(body, ws) {
                    Some(m) => Some(CtxView { prefix, dot_base: None, dbl_colon_base: Some(m) }),
                    None => Some(
                        CtxView { prefix, dot_base: dot_base(body, ws, col), dbl_colon_base: None },
                    ),
                }
            },
        }
    }
}

proof fn lemma_utf16_col_bound(chars: Seq<char>, target: int)
    ensures
        utf16_col(chars, target) matches Some(c) ==> 0 <= c <= chars.len(),
{
}

pub fn cursor_context(text: &str, pos: LspPosition) -> (r: Option<CursorCtx>)
    requires
        addressable(text@),
    ensures
        match r {
            Some(c) => cursor_ctx(text@, pos) == Some(
                CtxView {
                    prefix: c.prefix@,
                    dot_base: opt_view(c.dot_base),
                    dbl_colon_base: opt_view(c.dbl_colon_base),
                },
            ),
            None => cursor_ctx(text@, pos) is None,
        },
{
    let rope = rope_from_str(text);
    let body = match body_at(&rope, pos.line) {
        None => return None,
        Some(b) => b,
    };
    let col = match utf16_to_char_col(body.as_slice(), pos.character as usize) {
        None => return None,
        Some(c) => c,
    };
    proof {
        lemma_utf16_col_bound(body@, pos.character as int);
    }
    let ps = word_start_before(body.as_slice(), col);
    let prefix = string_of(slice_copy(body.as_slice(), ps, col).as_slice());
    match dbl_colon_base_before(body.as_slice(), ps) {
        Some(m) => Some(CursorCtx { prefix, dot_base: None, dbl_colon_base: Some(m) }),
        None => {
            let d = dot_base_before(body.as_slice(), ps, col);
            Some(CursorCtx { prefix, dot_base: d, dbl_colon_base: None })
        },
    }
}

/// The items offered at `pos` of `text`, each label once: after `m::` the
/// `math` functions or enum `m`'s variants; after `b.` the fields or
/// variants of `b`, else the generic members; elsewhere the keywords and
/// the symbols that start with the identifier text before the cursor.
pub open spec fn completion(
    text: Seq<char>,
    pos: LspPosition,
    stmts: Seq<Spanned<Stmt>>,
    syms: Seq<SymbolView>,
) -> Seq<EntryView> {
    match cursor_ctx(text, pos) {
        None => Seq::empty(),
        Some(ctx) => match ctx.dbl_colon_base {
            Some(m) => dedup_entries(colon_entries(stmts, m, ctx.prefix)),
            None => match ctx.dot_base {
                Some(b) => dedup_entries(dot_from(stmts, b, ctx.prefix, 0)),
                None => dedup_entries(
                    word_entries(keyword_list(), ctx.prefix, CompletionKind::Keyword, "keyword"@, false)
                        + symbol_entries(syms, ctx.prefix),
                ),
            },
        },
    }
}

/// Completing after `base.`, where the document declares no struct or enum
/// named `base`, offers each of the members `len`, `to_string`, `push`,
/// `pop` and `clear` that starts with the text typed after the dot, and
/// nothing else.
pub proof fn law_completion_after_dot(
    text: Seq<char>,
    pos: LspPosition,
    stmts: Seq<Spanned<Stmt>>,
    syms: Seq<SymbolView>,
    base: Seq<char>,
    l: Seq<char>,
)
    requires
        cursor_ctx(text, pos) matches Some(ctx) && ctx.dbl_colon_base is None && ctx.dot_base
            == Some(base),
        forall|i: int|
            0 <= i < stmts.len() ==> !(#[trigger] stmts[i].node matches Stmt::Struct(sd) && sd.name@
                == base) && !(stmts[i].node matches Stmt::Enum(ed) && ed.name@ == base),
    ensures
        has_label(completion(text, pos, stmts, syms), l) <==> ((l == "len"@ || l == "to_string"@
            || l == "push"@ || l == "pop"@ || l == "clear"@) && has_prefix(
            l,
            cursor_ctx(text, pos)->0.prefix,
        )),
{
    let ctx = cursor_ctx(text, pos)->0;
    lemma_dedup_labels(dot_from(stmts, base, ctx.prefix, 0), l);
    law_generic_members(stmts, base, ctx.prefix, l);
}

/// After `math::` the items offered are the `math` functions `abs`, `sqrt`,
/// `pow`, `sin`, `cos`, `tan`, `floor`, `ceil` and `round` that start with
/// the text typed after the colons, and nothing else.
pub proof fn law_math_completion(stmts: Seq<Spanned<Stmt>>, prefix: Seq<char>, l: Seq<char>)
    ensures
        has_label(colon_entries(stmts, "math"@, prefix), l) <==> ((l == "abs"@ || l == "sqrt"@
            || l == "pow"@ || l == "sin"@ || l == "cos"@ || l == "tan"@ || l == "floor"@ || l
            == "ceil"@ || l == "round"@) && has_prefix(l, prefix)),
{
    lemma_word_entry_labels(math_list(), prefix, CompletionKind::Function, "math::"@, true, l);
    let ms = math_list();
    assert(ms[0] == "abs"@ && ms[1] == "sqrt"@ && ms[2] == "pow"@ && ms[3] == "sin"@ && ms[4]
        == "cos"@ && ms[5] == "tan"@ && ms[6] == "floor"@ && ms[7] == "ceil"@ && ms[8] == "round"@);
    if ms.contains(l) {
        let j = choose|j: int| 0 <= j < ms.len() && ms[j] == l;
        assert(0 <= j < 9);
    }
    if l == "abs"@ {
        assert(ms[0] == l);
    } else if l == "sqrt"@ {
        assert(ms[1] == l);
    } else if l == "pow"@ {
        assert(ms[2] == l);
    } else if l == "sin"@ {
        assert(ms[3] == l);
    } else if l == "cos"@ {
        assert(ms[4] == l);
    } else if l == "tan"@ {
        assert(ms[5] == l);
    } else if l == "floor"@ {
        assert(ms[6] == l);
    } else if l == "ceil"@ {
        assert(ms[7] == l);
    } else if l == "round"@ {
        assert(ms[8] == l);
    }
}

/// Outside `x.` and `m::`, every keyword of the language that starts with
/// the identifier text before the cursor is offered.
pub proof fn law_keywords_offered(
    text: Seq<char>,
    pos: LspPosition,
    stmts: Seq<Spanned<Stmt>>,
    syms: Seq<SymbolView>,
    l: Seq<char>,
)
    requires
        cursor_ctx(text, pos) matches Some(ctx) && ctx.dbl_colon_base is None && ctx.dot_base is None,
        l == "fn"@ || l == "let"@ || l == "mut"@ || l == "if"@ || l == "elif"@ || l == "else"@ || l
            == "for"@ || l == "in"@ || l == "while"@ || l == "return"@ || l == "break"@ || l
            == "continue"@ || l == "defer"@ || l == "import"@ || l == "match"@ || l == "struct"@
            || l == "enum"@ || l == "trait"@ || l == "impl"@,
        has_prefix(l, cursor_ctx(text, pos)->0.prefix),
    ensures
        has_label(completion(text, pos, stmts, syms), l),
{
    let ctx = cursor_ctx(text, pos)->0;
    let ks = keyword_list();
    assert(ks[0] == "fn"@ && ks[1] == "let"@ && ks[2] == "mut"@ && ks[3] == "if"@ && ks[4]
        == "elif"@ && ks[5] == "else"@ && ks[6] == "for"@ && ks[7] == "in"@ && ks[8] == "while"@
        && ks[9] == "return"@ && ks[10] == "break"@ && ks[11] == "continue"@ && ks[12] == "defer"@
        && ks[13] == "import"@ && ks[14] == "match"@ && ks[15] == "struct"@ && ks[16] == "enum"@
        && ks[17] == "trait"@ && ks[18] == "impl"@);
    assert(ks.contains(l));
    let w = word_entries(ks, ctx.prefix, CompletionKind::Keyword, "keyword"@, false);
    lemma_word_entry_labels(ks, ctx.prefix, CompletionKind::Keyword, "keyword"@, false, l);
    let all = w + symbol_entries(syms, ctx.prefix);
    let i = choose|i: int| 0 <= i < w.len() && w[i].label == l;
    assert(all[i].label == l);
    lemma_dedup_labels(all, l);
}

/// Completion at `pos`, given the document's syntax tree and symbol table
/// (both empty when it does not parse).
pub fn completion_for_text(
    text: &str,
    pos: LspPosition,
    program: &Program,
    symbols: &Vec<Symbol>,
) -> (r: Vec<CompletionEntry>)
    requires
        addressable(text@),
    ensures
        entries_view(r@) == completion(text@, pos, program.statements@, syms_view(symbols@)),
{
    let ctx = match cursor_context(text, pos) {
        None => return Vec::new(),
        Some(c) => c,
    };
    let prefix = chars_of(ctx.prefix.as_str());
    if let Some(m) = &ctx.dbl_colon_base {
        let mc = chars_of(m.as_str());
        return dedup(colon_items(program, mc.as_slice(), prefix.as_slice()));
    }
    if let Some(b) = &ctx.dot_base {
        let bc = chars_of(b.as_str());
        return dedup(dot_items(program, bc.as_slice(), prefix.as_slice()));
    }
    dedup(normal_items(symbols, prefix.as_slice()))
}

} // verus!
