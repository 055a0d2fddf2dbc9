//! Command-line options of the compiler and the defaults derived from them.
use crate::paths::{opt_text, path_file_stem, path_stem_text};
use crate::text::{chars_of, push_str, string_of};
use vstd::prelude::*;

verus! {

/// The linker used for the final executable.
#[derive(Clone, Copy, Debug, PartialEq, Eq, Structural)]
pub enum LinkerKind {
    /// lld-link with the MSVC/Windows SDK libraries.
    Msvc,
    /// The clang driver.
    Clang,
    /// MinGW-w64 (the gcc driver).
    Mingw,
}

pub open spec fn linker_name(k: LinkerKind) -> Seq<char> {
    match k {
        LinkerKind::Msvc => "msvc"@,
        LinkerKind::Clang => "clang"@,
        LinkerKind::Mingw => "mingw"@,
    }
}

impl LinkerKind {
    /// The platform default: msvc on Windows, clang elsewhere.
    pub fn platform_default(windows: bool) -> (r: LinkerKind)
        ensures
            r == (if windows {
                LinkerKind::Msvc
            } else {
                LinkerKind::Clang
            }),
    {
        if windows {
            LinkerKind::Msvc
        } else {
            LinkerKind::Clang
        }
    }

    /// The option value naming this linker.
    pub fn to_string(&self) -> (r: String)
        ensures
            r@ == linker_name(*self),
    {
        let s = match self {
            LinkerKind::Msvc => "msvc",
            LinkerKind::Clang => "clang",
            LinkerKind::Mingw => "mingw",
        };
        string_of(chars_of(s).as_slice())
    }
}

/// `huzc fmt`: format a source file or a directory.
#[derive(Clone, Debug)]
pub struct FmtArgs {
    /// Only check, do not rewrite.
    pub check: bool,
    pub path: String,
}

/// `huzc build`: build the project of a `huzi.toml`.
#[derive(Clone, Debug)]
pub struct BuildArgs {
    pub path: String,
    pub output: Option<String>,
    pub linker: LinkerKind,
    pub release: bool,
}

/// `huzc add`: add a dependency to `huzi.toml`.
#[derive(Clone, Debug)]
pub struct AddArgs {
    pub package: String,
    pub version: String,
    pub path: Option<String>,
}

/// `huzc fetch`: fetch and cache the dependencies.
#[derive(Clone, Debug)]
pub struct FetchArgs {
    pub path: String,
}

#[derive(Clone, Debug)]
pub enum Command {
    Fmt(FmtArgs),
    Build(BuildArgs),
    Add(AddArgs),
    Fetch(FetchArgs),
}

/// The compiler's options.
#[derive(Clone, Debug)]
pub struct Args {
    pub command: Option<Command>,
    pub input: Option<String>,
    pub output: Option<String>,
    pub linker: LinkerKind,
    pub release: bool,
    pub opt_level: Option<u8>,
    pub debug: bool,
}

pub open spec fn output_error_text(input: Seq<char>) -> Seq<char> {
    "无法从输入路径推导输出名,请显式指定 --output: "@ + input
}

/// The output base name: an explicit `--output`, else the stem of the
/// input file (`foo/bar.hz` gives `bar`).
pub open spec fn effective_output_spec(
    output: Option<Seq<char>>,
    input: Option<Seq<char>>,
) -> Result<Seq<char>, Seq<char>> {
    match output {
        Some(o) => Ok(o),
        None => {
            let i = match input {
                Some(x) => x,
                None => Seq::empty(),
            };
            match path_stem_text(i) {
                Some(s) => Ok(s),
                None => Err(output_error_text(i)),
            }
        },
    }
}

pub open spec fn result_text(r: Result<String, String>) -> Result<Seq<char>, Seq<char>> {
    match r {
        Ok(s) => Ok(s@),
        Err(e) => Err(e@),
    }
}

impl Args {
    /// The output base name; an error when neither `--output` is given nor
    /// a stem can be taken from the input path.
    pub fn effective_output(&self) -> (r: Result<String, String>)
        ensures
            result_text(r) == effective_output_spec(opt_text(self.output), opt_text(self.input)),
    {
        if let Some(out) = &self.output {
            return Ok(out.clone());
        }
        let input = match &self.input {
            Some(i) => i.clone(),
            None => String::new(),
        };
        match path_file_stem(input.as_str()) {
            Some(s) => Ok(s),
            None => {
                let mut m: Vec<char> = Vec::new();
                push_str(&mut m, "无法从输入路径推导输出名,请显式指定 --output: ");
                push_str(&mut m, input.as_str());
                Err(string_of(m.as_slice()))
            },
        }
    }

    /// The LLVM optimisation level: 0 with `-g`; else an explicit
    /// `--opt-level`; else 2 in release mode and 0 otherwise.
    pub fn effective_opt_level(&self) -> (r: u8)
        ensures
            r == (if self.debug {
                0
            } else {
                match self.opt_level {
                    Some(l) => l,
                    None => if self.release {
                        2u8
                    } else {
                        0u8
                    },
                }
            }),
    {
        if self.debug {
            return 0;
        }
        match self.opt_level {
            Some(l) => l,
            None => if self.release {
                2
            } else {
                0
            },
        }
    }
}

} // verus!
