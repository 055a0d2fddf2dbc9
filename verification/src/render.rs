//! Compiler errors and their rendering: the offending source line is
//! reprinted with a `^` under the reported column, optionally in ANSI colour.
use crate::text::{chars_of, dec_digits, lines, lines_of, push_all, push_decimal, push_str, string_of};
use vstd::prelude::*;

verus! {

/// An error with a 1-based source position; line 0 marks an error without
/// a position.
#[derive(Debug, Clone, PartialEq, Eq)]
pub struct HuziError {
    pub message: String,
    pub line: usize,
    pub column: usize,
}

impl HuziError {
    /// An error at `line`, `column`.
    pub fn new(message: &str, line: usize, column: usize) -> (r: HuziError)
        ensures
            r.message@ == message@,
            r.line == line,
            r.column == column,
    {
        HuziError { message: string_of(chars_of(message).as_slice()), line, column }
    }

    /// An error without a source position.
    pub fn new_global(message: &str) -> (r: HuziError)
        ensures
            r.message@ == message@,
            r.line == 0,
            r.column == 0,
    {
        HuziError { message: string_of(chars_of(message).as_slice()), line: 0, column: 0 }
    }

    pub fn line(&self) -> (r: usize)
        ensures
            r == self.line,
    {
        self.line
    }

    pub fn column(&self) -> (r: usize)
        ensures
            r == self.column,
    {
        self.column
    }

    pub fn message(&self) -> (r: &str)
        ensures
            r@ == self.message@,
    {
        self.message.as_str()
    }
}

/// The one-line text of a positioned error.
pub open spec fn positioned_text(line: nat, column: nat, message: Seq<char>) -> Seq<char> {
    "Error at line "@ + dec_digits(line) + ", column "@ + dec_digits(column) + ": "@ + message
}

/// `n` spaces.
pub open spec fn spaces(n: nat) -> Seq<char> {
    Seq::new(n, |i: int| ' ')
}

/// The text wrapped in bold red when `color` is set.
pub open spec fn colorize_spec(text: Seq<char>, color: bool) -> Seq<char> {
    if color {
        "\x1b[1;31m"@ + text + "\x1b[0m"@
    } else {
        text
    }
}

/// The rendered report for an error at `line`/`column` over `source`.
pub open spec fn render_spec(
    message: Seq<char>,
    line: nat,
    column: nat,
    source: Seq<char>,
    label: Seq<char>,
    color: bool,
) -> Seq<char> {
    let ls = lines(source);
    if line == 0 {
        label + ": "@ + message
    } else if line - 1 >= ls.len() {
        label + ": "@ + positioned_text(line, column, message)
    } else {
        let src = ls[line - 1];
        let header = colorize_spec(
            label + " at line "@ + dec_digits(line) + ", column "@ + dec_digits(column) + ": "@
                + message,
            color,
        );
        let offset = if column == 0 {
            0nat
        } else if column - 1 <= src.len() {
            (column - 1) as nat
        } else {
            src.len()
        };
        let caret = colorize_spec(spaces(offset) + "^"@, color);
        let line_no = dec_digits(line);
        let gutter = spaces(line_no.len());
        header + "\n"@ + gutter + " |\n"@ + line_no + " | "@ + src + "\n"@ + gutter + " | "@
            + caret
    }
}

fn push_spaces(out: &mut Vec<char>, n: usize)
    ensures
        final(out)@ == old(out)@ + spaces(n as nat),
{
    let mut i: usize = 0;
    while i < n
        invariant
            0 <= i <= n,
            out@ == old(out)@ + spaces(i as nat),
        decreases n - i,
    {
        out.push(' ');
        i += 1;
        assert(out@ =~= old(out)@ + spaces(i as nat));
    }
}

/// The text wrapped in bold red when `color` is set.
pub fn colorize(text: &[char], color: bool) -> (r: Vec<char>)
    ensures
        r@ == colorize_spec(text@, color),
{
    let mut out: Vec<char> = Vec::new();
    if color {
        push_str(&mut out, "\x1b[1;31m");
        push_all(&mut out, text);
        push_str(&mut out, "\x1b[0m");
    } else {
        push_all(&mut out, text);
    }
    assert(out@ =~= colorize_spec(text@, color));
    out
}

/// Renders `error` against `source` under a stage label such as
/// `Parse error`; the colour is chosen by the caller.
pub fn render_with_color(error: &HuziError, source: &str, label: &str, color: bool) -> (r: String)
    ensures
        r@ == render_spec(
            error.message@,
            error.line as nat,
            error.column as nat,
            source@,
            label@,
            color,
        ),
{
    let ghost spec_r = render_spec(
        error.message@,
        error.line as nat,
        error.column as nat,
        source@,
        label@,
        color,
    );
    let mut out: Vec<char> = Vec::new();
    if error.line == 0 {
        push_str(&mut out, label);
        push_str(&mut out, ": ");
        push_str(&mut out, error.message.as_str());
        assert(out@ =~= spec_r);
        return string_of(out.as_slice());
    }
    let src = chars_of(source);
    let ls = lines_of(src.as_slice());
    let ghost lv = lines(source@);
    assert(lv.len() == ls.len());
    if error.line - 1 >= ls.len() {
        push_str(&mut out, label);
        push_str(&mut out, ": Error at line ");
        push_decimal(&mut out, error.line as u64);
        push_str(&mut out, ", column ");
        push_decimal(&mut out, error.column as u64);
        push_str(&mut out, ": ");
        push_str(&mut out, error.message.as_str());
        proof {
            reveal_strlit(": Error at line ");
            reveal_strlit(": ");
            reveal_strlit("Error at line ");
        }
        assert(out@ =~= spec_r);
        return string_of(out.as_slice());
    }
    let line_text = &ls[error.line - 1];
    assert(line_text@ == lv[error.line - 1]);
    let mut head: Vec<char> = Vec::new();
    push_str(&mut head, label);
    push_str(&mut head, " at line ");
    push_decimal(&mut head, error.line as u64);
    push_str(&mut head, ", column ");
    push_decimal(&mut head, error.column as u64);
    push_str(&mut head, ": ");
    push_str(&mut head, error.message.as_str());
    let header = colorize(head.as_slice(), color);
    let offset: usize = if error.column == 0 {
        0
    } else if error.column - 1 <= line_text.len() {
        error.column - 1
    } else {
        line_text.len()
    };
    let mut c: Vec<char> = Vec::new();
    push_spaces(&mut c, offset);
    c.push('^');
    let caret = colorize(c.as_slice(), color);
    let mut line_no: Vec<char> = Vec::new();
    push_decimal(&mut line_no, error.line as u64);
    push_all(&mut out, header.as_slice());
    push_str(&mut out, "\n");
    push_spaces(&mut out, line_no.len());
    push_str(&mut out, " |\n");
    push_all(&mut out, line_no.as_slice());
    push_str(&mut out, " | ");
    push_all(&mut out, line_text.as_slice());
    push_str(&mut out, "\n");
    push_spaces(&mut out, line_no.len());
    push_str(&mut out, " | ");
    push_all(&mut out, caret.as_slice());
    proof {
        reveal_strlit("^");
    }
    assert(c@ =~= spaces(offset as nat) + "^"@);
    assert(out@ =~= spec_r);
    string_of(out.as_slice())
}

/// `std::io::stderr().is_terminal()`: whether standard error is a
/// terminal. It depends on how the process was started, so nothing is
/// promised of the result.
#[verifier::external_body]
fn stderr_is_terminal() -> (r: bool) {
    std::io::IsTerminal::is_terminal(&std::io::stderr())
}

/// Renders `error` against `source` under a stage label, in colour when
/// standard error is a terminal.
pub fn render(error: &HuziError, source: &str, label: &str) -> (r: String)
    ensures
        r@ == render_spec(error.message@, error.line as nat, error.column as nat, source@, label@, true)
            || r@ == render_spec(
            error.message@,
            error.line as nat,
            error.column as nat,
            source@,
            label@,
            false,
        ),
{
    let color = stderr_is_terminal();
    render_with_color(error, source, label, color)
}

} // verus!
