# huzi

The front end and tooling of the Huzi programming language as a library
verified with Verus: the functions in `src/` carry `requires`/`ensures`
contracts that Verus proves, and the laws that tie functions together stand
as proof functions (`law_*`). The few calls into `std` and `ropey` that the
logic makes stand behind small wrappers whose contracts Verus takes on
trust; each says in its doc comment what it claims of the call.

## Layout

- `src/parser/` — tokens and the recursive-descent parser with
  statement-level error recovery.
- `src/ast.rs`, `src/symbols.rs` — the syntax tree, its source spellings, and
  the symbol table the language server answers from.
- `src/modules.rs`, `src/loader.rs`, `src/disk_loader.rs`, `src/resolve.rs`
  — module loading as state machines (the caller reads files and hands the
  text back), and the candidate paths a module or package may live at.
- `src/checks.rs`, `src/traits.rs`, `src/typing.rs`, `src/mangle.rs`,
  `src/layout.rs` — checks made before code generation: `Box` shapes, enum
  constructors, `match` exhaustiveness, trait declarations and
  implementations, method signatures, name mangling and LLVM data layout.
- `src/manifest.rs`, `src/lock.rs`, `src/version.rs`, `src/solve.rs`,
  `src/keyed.rs` — `huzi.toml`, `huzi.lock`, semantic versions and
  requirements, and dependency resolution.
- `src/fmt.rs` — the formatter's printing helpers and line-ending handling.
- `src/lsp_*.rs`, `src/rope.rs` — position mapping, references, completion,
  hover, definitions and outlines for the language server (text held in a
  `ropey` rope).
- `src/render.rs`, `src/text.rs`, `src/paths.rs`, `src/cli.rs`,
  `src/linker.rs` — error rendering, text utilities, path names, command
  line settings and linker/LLVM tool command lines.
- `app/` — the `huzc` command: argument parsing, file and process I/O, and
  the drivers that run the library's state machines.
- `tests/` — tests of the library through its public interface.

## What stays outside

Code generation through LLVM (`inkwell`), together with the passes that
run inside the code generator — the rewriting of method calls into calls of
mangled functions and the monomorphisation of generic types — is not part
of this library; `app/` reaches it through the `huzi_codegen` crate. The
checks those passes rely on (trait declarations and implementations, method
signatures, name mangling) are here.
