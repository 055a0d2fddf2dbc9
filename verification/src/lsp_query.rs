//! Hover, go-to-definition, the document outline and diagnostics, each
//! computed from the document text and its symbol table.
use crate::ast::Span;
use crate::lsp_map::{
    addressable, huzi_pos, huzi_range_to_lsp, lsp_col, lsp_pos_to_huzi, pos_before, word_at,
    word_at_position, LspPosition, LspRange,
};
use crate::rope::{rope_from_str, rope_text};
use crate::symbols::{syms_view, Symbol, SymbolKind, SymbolView};
use crate::text::{push_str, string_of};
use ropey::Rope;
use vstd::prelude::*;

verus! {

/// `span` holds `(line, col)`, both ends included.
pub open spec fn span_holds(span: Span, line: int, col: int) -> bool {
    (span.line < line || (span.line == line && span.column <= col)) && (line < span.end_line || (
    line == span.end_line && col <= span.end_column))
}

pub fn span_contains(sym: &Symbol, line: usize, col: usize) -> (r: bool)
    ensures
        r == span_holds(sym.span, line as int, col as int),
{
    let span = sym.span;
    (span.line < line || (span.line == line && span.column <= col)) && (line < span.end_line || (
    line == span.end_line && col <= span.end_column))
}

/// `a - b`, or 0 when `b` is larger.
pub open spec fn sat_sub(a: int, b: int) -> int {
    if a > b {
        a - b
    } else {
        0
    }
}

/// A span's size, line-major: nested spans of one name are told apart by
/// it, the smaller first.
pub open spec fn area(span: Span) -> int {
    sat_sub(span.end_line as int, span.line as int) * 4096 + sat_sub(
        span.end_column as int,
        span.column as int,
    )
}

pub fn span_area(sym: &Symbol) -> (r: usize)
    requires
        area(sym.span) <= usize::MAX,
    ensures
        r == area(sym.span),
{
    let span = sym.span;
    let dl = if span.end_line > span.line {
        span.end_line - span.line
    } else {
        0
    };
    let dc = if span.end_column > span.column {
        span.end_column - span.column
    } else {
        0
    };
    proof {
        assert(dl * 4096 <= area(span));
    }
    dl * 4096 + dc
}

/// The index of the first symbol named `name` before index `n`, if any.
pub open spec fn first_named(syms: Seq<SymbolView>, name: Seq<char>, n: int) -> Option<int>
    decreases n,
{
    if n <= 0 {
        None
    } else {
        match first_named(syms, name, n - 1) {
            Some(i) => Some(i),
            None => if syms[n - 1].name == name {
                Some(n - 1)
            } else {
                None
            },
        }
    }
}

/// Among the symbols before index `n` named `name` whose span holds
/// `(line, col)`, the first of the smallest area.
pub open spec fn best_named(syms: Seq<SymbolView>, name: Seq<char>, line: int, col: int, n: int) -> Option<
    int,
>
    decreases n,
{
    if n <= 0 {
        None
    } else {
        let b = best_named(syms, name, line, col, n - 1);
        let s = syms[n - 1];
        if s.name == name && span_holds(s.span, line, col) && (b is None || area(s.span) < area(
            syms[b->0].span,
        )) {
            Some(n - 1)
        } else {
            b
        }
    }
}

/// The symbol a name at `(line, col)` refers to: of the symbols so named
/// whose span holds the position, the first of the smallest span; when no
/// such span holds it, the first symbol so named.
pub open spec fn symbol_for(syms: Seq<SymbolView>, name: Seq<char>, line: int, col: int) -> Option<
    int,
> {
    match best_named(syms, name, line, col, syms.len() as int) {
        Some(i) => Some(i),
        None => first_named(syms, name, syms.len() as int),
    }
}

proof fn lemma_named_bounds(syms: Seq<SymbolView>, name: Seq<char>, line: int, col: int, n: int)
    requires
        0 <= n <= syms.len(),
    ensures
        first_named(syms, name, n) matches Some(i) ==> 0 <= i < n && syms[i].name == name,
        best_named(syms, name, line, col, n) matches Some(i) ==> 0 <= i < n && syms[i].name
            == name,
    decreases n,
{
    if n > 0 {
        lemma_named_bounds(syms, name, line, col, n - 1);
    }
}

/// The symbols' areas fit in `usize`.
pub open spec fn areas_fit(syms: Seq<Symbol>) -> bool {
    forall|i: int| 0 <= i < syms.len() ==> area(#[trigger] syms[i].span) < usize::MAX
}

/// The index of the symbol `name` at `(line, col)` refers to.
pub fn find_symbol(symbols: &Vec<Symbol>, name: &str, line: usize, col: usize) -> (r: Option<usize>)
    requires
        areas_fit(symbols@),
    ensures
        match r {
            Some(i) => symbol_for(syms_view(symbols@), name@, line as int, col as int) == Some(
                i as int,
            ),
            None => symbol_for(syms_view(symbols@), name@, line as int, col as int) is None,
        },
{
    let ghost sv = syms_view(symbols@);
    let mut first: Option<usize> = None;
    let mut best: Option<usize> = None;
    let mut best_area: usize = usize::MAX;
    let mut i: usize = 0;
    while i < symbols.len()
        invariant
            0 <= i <= symbols.len(),
            sv == syms_view(symbols@),
            areas_fit(symbols@),
            first == match first_named(sv, name@, i as int) {
                Some(k) => Some(k as usize),
                None => None::<usize>,
            },
            best == match best_named(sv, name@, line as int, col as int, i as int) {
                Some(k) => Some(k as usize),
                None => None::<usize>,
            },
            best matches Some(b) ==> b < i && best_area == area(symbols@[b as int].span),
            best is None ==> best_area == usize::MAX,
        decreases symbols.len() - i,
    {
        proof {
            lemma_named_bounds(sv, name@, line as int, col as int, i as int);
        }
        assert(sv[i as int] == symbols@[i as int]@);
        if symbols[i].name == name.to_string() {
            if first.is_none() {
                first = Some(i);
            }
            if span_contains(&symbols[i], line, col) {
                let a = span_area(&symbols[i]);
                if a < best_area {
                    best_area = a;
                    best = Some(i);
                }
            }
        }
        i += 1;
    }
    proof {
        lemma_named_bounds(sv, name@, line as int, col as int, i as int);
    }
    match best {
        Some(b) => Some(b),
        None => first,
    }
}

/// How the kind of a symbol is spelled in a hover.
pub open spec fn kind_name(k: SymbolKind) -> Seq<char> {
    match k {
        SymbolKind::Function => "Function"@,
        SymbolKind::Struct => "Struct"@,
        SymbolKind::Enum => "Enum"@,
        SymbolKind::Variant => "Variant"@,
        SymbolKind::Variable => "Variable"@,
        SymbolKind::Param => "Param"@,
        SymbolKind::Module => "Module"@,
        SymbolKind::Trait => "Trait"@,
    }
}

pub fn kind_text(k: SymbolKind) -> (r: &'static str)
    ensures
        r@ == kind_name(k),
{
    match k {
        SymbolKind::Function => "Function",
        SymbolKind::Struct => "Struct",
        SymbolKind::Enum => "Enum",
        SymbolKind::Variant => "Variant",
        SymbolKind::Variable => "Variable",
        SymbolKind::Param => "Param",
        SymbolKind::Module => "Module",
        SymbolKind::Trait => "Trait",
    }
}

/// The hover text of a symbol: its signature in a `huzi` code block, then
/// its kind and name.
pub open spec fn hover_text(s: SymbolView) -> Seq<char> {
    "```huzi\n"@ + s.detail + "\n```\n\n"@ + kind_name(s.kind) + " `"@ + s.name + "`"@
}

/// The symbol the identifier at `pos` refers to, if any.
pub open spec fn symbol_at(text: Seq<char>, pos: LspPosition, syms: Seq<SymbolView>) -> Option<int> {
    match word_at(text, pos) {
        None => None,
        Some((w, _)) => match lsp_col(text, pos) {
            None => None,
            Some(c) => symbol_for(syms, w, pos.line + 1, c + 1),
        },
    }
}

/// The hover at `pos`: the hover text of the symbol there and the range
/// of the identifier.
pub open spec fn hover(text: Seq<char>, pos: LspPosition, syms: Seq<SymbolView>) -> Option<
    (Seq<char>, LspRange),
> {
    match (symbol_at(text, pos, syms), word_at(text, pos)) {
        (Some(i), Some((_, range))) => Some((hover_text(syms[i]), range)),
        _ => None,
    }
}

/// The symbol named by the identifier at `pos`.
fn symbol_index_at(rope: &Rope, pos: LspPosition, symbols: &Vec<Symbol>) -> (r: Option<
    (usize, LspRange),
>)
    requires
        addressable(rope_text(*rope)),
        areas_fit(symbols@),
    ensures
        match r {
            Some((i, range)) => {
                &&& symbol_at(rope_text(*rope), pos, syms_view(symbols@)) == Some(i as int)
                &&& i < symbols.len()
                &&& word_at(rope_text(*rope), pos) matches Some((_, wr)) && wr == range
            },
            None => symbol_at(rope_text(*rope), pos, syms_view(symbols@)) is None,
        },
{
    let (word, range) = match word_at_position(rope, pos) {
        None => return None,
        Some(found) => found,
    };
    let (line, col) = match lsp_pos_to_huzi(rope, pos) {
        None => return None,
        Some(lc) => lc,
    };
    match find_symbol(symbols, word.as_str(), line, col) {
        None => None,
        Some(i) => {
            proof {
                lemma_named_bounds(
                    syms_view(symbols@),
                    word@,
                    line as int,
                    col as int,
                    symbols@.len() as int,
                );
            }
            Some((i, range))
        },
    }
}

/// Hover at `pos`: the symbol's hover text and the identifier's range.
pub fn hover_for_text(text: &str, pos: LspPosition, symbols: &Vec<Symbol>) -> (r: Option<
    (String, LspRange),
>)
    requires
        addressable(text@),
        areas_fit(symbols@),
    ensures
        match r {
            Some((h, range)) => hover(text@, pos, syms_view(symbols@)) == Some((h@, range)),
            None => hover(text@, pos, syms_view(symbols@)) is None,
        },
{
    let rope = rope_from_str(text);
    let (i, range) = match symbol_index_at(&rope, pos, symbols) {
        None => return None,
        Some(found) => found,
    };
    let sym = &symbols[i];
    let mut v: Vec<char> = Vec::new();
    push_str(&mut v, "```huzi\n");
    push_str(&mut v, sym.detail.as_str());
    push_str(&mut v, "\n```\n\n");
    push_str(&mut v, kind_text(sym.kind));
    push_str(&mut v, " `");
    push_str(&mut v, sym.name.as_str());
    push_str(&mut v, "`");
    proof {
        assert(syms_view(symbols@)[i as int] == symbols@[i as int]@);
    }
    Some((string_of(v.as_slice()), range))
}

/// The editor range of a span.
pub open spec fn span_range(text: Seq<char>, span: Span) -> LspRange {
    let s = huzi_pos(text, span.line as int, span.column as int);
    let e = huzi_pos(text, span.end_line as int, span.end_column as int);
    LspRange {
        start: s,
        end: if pos_before(e, s) {
            s
        } else {
            e
        },
    }
}

/// Where the symbol under `pos` is defined: the range of its statement.
pub open spec fn definition(text: Seq<char>, pos: LspPosition, syms: Seq<SymbolView>) -> Option<
    LspRange,
> {
    match symbol_at(text, pos, syms) {
        None => None,
        Some(i) => Some(span_range(text, syms[i].span)),
    }
}

pub fn definition_range_for_text(text: &str, pos: LspPosition, symbols: &Vec<Symbol>) -> (r:
    Option<LspRange>)
    requires
        addressable(text@),
        areas_fit(symbols@),
    ensures
        match r {
            Some(range) => definition(text@, pos, syms_view(symbols@)) == Some(range),
            None => definition(text@, pos, syms_view(symbols@)) is None,
        },
{
    let rope = rope_from_str(text);
    let (i, _) = match symbol_index_at(&rope, pos, symbols) {
        None => return None,
        Some(found) => found,
    };
    let span = symbols[i].span;
    proof {
        assert(syms_view(symbols@)[i as int] == symbols@[i as int]@);
    }
    Some(huzi_range_to_lsp(&rope, span.line, span.column, span.end_line, span.end_column))
}

/// The kind an outline entry shows; parameters and variables are both
/// variables.
#[derive(Debug, Clone, Copy, PartialEq, Eq, Structural)]
pub enum OutlineKind {
    Function,
    Struct,
    Enum,
    EnumMember,
    Module,
    Interface,
    Variable,
}

pub open spec fn outline_kind(k: SymbolKind) -> OutlineKind {
    match k {
        SymbolKind::Function => OutlineKind::Function,
        SymbolKind::Struct => OutlineKind::Struct,
        SymbolKind::Enum => OutlineKind::Enum,
        SymbolKind::Variant => OutlineKind::EnumMember,
        SymbolKind::Module => OutlineKind::Module,
        SymbolKind::Trait => OutlineKind::Interface,
        SymbolKind::Variable => OutlineKind::Variable,
        SymbolKind::Param => OutlineKind::Variable,
    }
}

pub fn to_symbol_kind(k: SymbolKind) -> (r: OutlineKind)
    ensures
        r == outline_kind(k),
{
    match k {
        SymbolKind::Function => OutlineKind::Function,
        SymbolKind::Struct => OutlineKind::Struct,
        SymbolKind::Enum => OutlineKind::Enum,
        SymbolKind::Variant => OutlineKind::EnumMember,
        SymbolKind::Module => OutlineKind::Module,
        SymbolKind::Trait => OutlineKind::Interface,
        SymbolKind::Variable => OutlineKind::Variable,
        SymbolKind::Param => OutlineKind::Variable,
    }
}

/// An outline entry: a symbol with the range of its statement.
#[derive(Debug)]
pub struct OutlineEntry {
    pub name: String,
    pub detail: String,
    pub kind: OutlineKind,
    pub range: LspRange,
}

/// The outline entry of a symbol in `text`.
pub open spec fn outline_ok(text: Seq<char>, s: SymbolView, e: OutlineEntry) -> bool {
    &&& e.name@ == s.name
    &&& e.detail@ == s.detail
    &&& e.kind == outline_kind(s.kind)
    &&& e.range == span_range(text, s.span)
}

pub fn to_document_symbol(rope: &Rope, sym: &Symbol) -> (r: OutlineEntry)
    requires
        addressable(rope_text(*rope)),
    ensures
        outline_ok(rope_text(*rope), sym@, r),
{
    let span = sym.span;
    let range = huzi_range_to_lsp(rope, span.line, span.column, span.end_line, span.end_column);
    OutlineEntry {
        name: sym.name.clone(),
        detail: sym.detail.clone(),
        kind: to_symbol_kind(sym.kind),
        range,
    }
}

/// The document outline: one entry per symbol, in table order.
pub fn symbols_for_text(text: &str, symbols: &Vec<Symbol>) -> (r: Vec<OutlineEntry>)
    requires
        addressable(text@),
    ensures
        r.len() == symbols.len(),
        forall|i: int| 0 <= i < r.len() ==> outline_ok(text@, symbols@[i]@, #[trigger] r@[i]),
{
    let rope = rope_from_str(text);
    let mut out: Vec<OutlineEntry> = Vec::new();
    let mut i: usize = 0;
    while i < symbols.len()
        invariant
            0 <= i <= symbols.len(),
            rope_text(rope) == text@,
            addressable(text@),
            out.len() == i,
            forall|k: int| 0 <= k < i ==> outline_ok(text@, symbols@[k]@, #[trigger] out@[k]),
        decreases symbols.len() - i,
    {
        let e = to_document_symbol(&rope, &symbols[i]);
        out.push(e);
        i += 1;
    }
    out
}

/// A problem found in a document, at a Huzi span.
#[derive(Debug)]
pub struct RawDiagnostic {
    pub line: usize,
    pub column: usize,
    pub end_line: usize,
    pub end_column: usize,
    pub message: String,
}

/// A problem as the editor shows it (always as an error).
#[derive(Debug)]
pub struct LspDiagnostic {
    pub range: LspRange,
    pub message: String,
}

pub open spec fn raw_span(raw: RawDiagnostic) -> Span {
    Span { line: raw.line, column: raw.column, end_line: raw.end_line, end_column: raw.end_column }
}

pub fn raw_to_diagnostic(rope: &Rope, raw: &RawDiagnostic) -> (r: LspDiagnostic)
    requires
        addressable(rope_text(*rope)),
    ensures
        r.range == span_range(rope_text(*rope), raw_span(*raw)),
        r.message@ == raw.message@,
{
    let range = huzi_range_to_lsp(rope, raw.line, raw.column, raw.end_line, raw.end_column);
    LspDiagnostic { range, message: raw.message.clone() }
}

/// The diagnostics of a document, in the order found.
pub fn to_lsp_diagnostics(text: &str, raws: &Vec<RawDiagnostic>) -> (r: Vec<LspDiagnostic>)
    requires
        addressable(text@),
    ensures
        r.len() == raws.len(),
        forall|i: int|
            0 <= i < r.len() ==> (#[trigger] r@[i]).range == span_range(text@, raw_span(raws@[i]))
                && r@[i].message@ == raws@[i].message@,
{
    let rope = rope_from_str(text);
    let mut out: Vec<LspDiagnostic> = Vec::new();
    let mut i: usize = 0;
    while i < raws.len()
        invariant
            0 <= i <= raws.len(),
            rope_text(rope) == text@,
            addressable(text@),
            out.len() == i,
            forall|k: int|
                0 <= k < i ==> (#[trigger] out@[k]).range == span_range(text@, raw_span(raws@[k]))
                    && out@[k].message@ == raws@[k].message@,
        decreases raws.len() - i,
    {
        let d = raw_to_diagnostic(&rope, &raws[i]);
        out.push(d);
        i += 1;
    }
    out
}

} // verus!
