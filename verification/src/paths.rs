//! Filesystem path text, as `std::path` composes it, and the output files
//! of one compilation.
use crate::text::{chars_of, push_str, string_of};
use vstd::prelude::*;

verus! {

/// The text of `Path::new(base).join(rel)`.
pub uninterp spec fn path_join_text(base: Seq<char>, rel: Seq<char>) -> Seq<char>;

/// The text of `Path::new(p).file_stem()`, when it has one.
pub uninterp spec fn path_stem_text(p: Seq<char>) -> Option<Seq<char>>;

/// The text of `Path::new(p).parent()`, when it has one.
pub uninterp spec fn path_parent_text(p: Seq<char>) -> Option<Seq<char>>;

/// The text of `Path::new(p).file_name()`, when it has one.
pub uninterp spec fn path_file_name_text(p: Seq<char>) -> Option<Seq<char>>;

/// The text of `Path::new(p).with_extension(ext)`.
pub uninterp spec fn path_with_ext_text(p: Seq<char>, ext: Seq<char>) -> Seq<char>;

pub open spec fn opt_text(o: Option<String>) -> Option<Seq<char>> {
    match o {
        Some(s) => Some(s@),
        None => None,
    }
}

/// `Path::join` on text paths; its result is named by `path_join_text`.
#[verifier::external_body]
pub(crate) fn path_join(base: &str, rel: &str) -> (r: String)
    ensures
        r@ == path_join_text(base@, rel@),
{
    std::path::Path::new(base).join(rel).to_string_lossy().into_owned()
}

/// `Path::file_stem` on a text path; its result is named by `path_stem_text`.
#[verifier::external_body]
pub(crate) fn path_file_stem(p: &str) -> (r: Option<String>)
    ensures
        opt_text(r) == path_stem_text(p@),
{
    std::path::Path::new(p).file_stem().map(|s| s.to_string_lossy().into_owned())
}

/// `Path::parent` on a text path; its result is named by `path_parent_text`.
#[verifier::external_body]
pub(crate) fn path_parent(p: &str) -> (r: Option<String>)
    ensures
        opt_text(r) == path_parent_text(p@),
{
    std::path::Path::new(p).parent().map(|s| s.to_string_lossy().into_owned())
}

/// `Path::file_name` on a text path; its result is named by
/// `path_file_name_text`.
#[verifier::external_body]
pub(crate) fn path_file_name(p: &str) -> (r: Option<String>)
    ensures
        opt_text(r) == path_file_name_text(p@),
{
    std::path::Path::new(p).file_name().map(|n| n.to_string_lossy().into_owned())
}

/// `Path::with_extension` on a text path; its result is named by
/// `path_with_ext_text`. std panics when the extension holds a path
/// separator, so such extensions are left out.
#[verifier::external_body]
pub(crate) fn path_with_extension(p: &str, ext: &str) -> (r: String)
    requires
        !ext@.contains('/'),
        !ext@.contains('\\'),
    ensures
        r@ == path_with_ext_text(p@, ext@),
{
    std::path::Path::new(p).with_extension(ext).to_string_lossy().into_owned()
}

/// The executable extension: `exe` on Windows, none elsewhere.
pub open spec fn exe_ext(windows: bool) -> Seq<char> {
    if windows {
        "exe"@
    } else {
        Seq::empty()
    }
}

/// The object-file extension: `obj` on Windows, `o` elsewhere.
pub open spec fn obj_ext(windows: bool) -> Seq<char> {
    if windows {
        "obj"@
    } else {
        "o"@
    }
}

fn get_exe_ext(windows: bool) -> (r: &'static str)
    ensures
        r@ == exe_ext(windows),
{
    if windows {
        "exe"
    } else {
        proof {
            reveal_strlit("");
        }
        ""
    }
}

fn get_obj_ext(windows: bool) -> (r: &'static str)
    ensures
        r@ == obj_ext(windows),
{
    if windows {
        "obj"
    } else {
        "o"
    }
}

pub open spec fn has_suffix(s: Seq<char>, suf: Seq<char>) -> bool {
    suf.len() <= s.len() && s.subrange(s.len() - suf.len(), s.len() as int) == suf
}

/// The executable's path: an output already ending in `.exe`, `.o` or
/// `.obj` is kept, otherwise the platform's executable extension is added.
pub open spec fn output_path_text(output: Seq<char>, windows: bool) -> Seq<char> {
    if has_suffix(output, ".exe"@) || has_suffix(output, ".o"@) || has_suffix(output, ".obj"@) {
        output
    } else if exe_ext(windows).len() == 0 {
        output
    } else {
        output + "."@ + exe_ext(windows)
    }
}

/// An intermediate file beside the output: its stem with extension `ext`,
/// in the output's directory.
pub open spec fn intermediate_path_text(output: Seq<char>, ext: Seq<char>) -> Seq<char> {
    let file = path_stem_text(output).unwrap() + "."@ + ext;
    let dir = match path_parent_text(output) {
        Some(d) => d,
        None => Seq::empty(),
    };
    if dir.len() == 0 {
        file
    } else {
        path_join_text(dir, file)
    }
}

/// Whether `s` ends with `suf`.
pub fn has_suffix_slice(s: &[char], suf: &[char]) -> (r: bool)
    ensures
        r == has_suffix(s@, suf@),
{
    if suf.len() > s.len() {
        return false;
    }
    let off = s.len() - suf.len();
    let mut i: usize = 0;
    while i < suf.len()
        invariant
            0 <= i <= suf.len(),
            off == s.len() - suf.len(),
            forall|j: int| 0 <= j < i ==> s@[off + j] == suf@[j],
        decreases suf.len() - i,
    {
        if s[off + i] != suf[i] {
            assert(s@.subrange(off as int, s.len() as int)[i as int] != suf@[i as int]);
            return false;
        }
        i += 1;
    }
    assert(s@.subrange(off as int, s.len() as int) =~= suf@);
    true
}

/// Whether `s` ends with the text `suf`.
pub fn has_suffix_chars(s: &[char], suf: &str) -> (r: bool)
    ensures
        r == has_suffix(s@, suf@),
{
    let t = chars_of(suf);
    has_suffix_slice(s, t.as_slice())
}

fn build_output_path(output: &str, windows: bool) -> (r: String)
    ensures
        r@ == output_path_text(output@, windows),
{
    let o = chars_of(output);
    if has_suffix_chars(o.as_slice(), ".exe") || has_suffix_chars(o.as_slice(), ".o") || has_suffix_chars(
        o.as_slice(),
        ".obj",
    ) {
        string_of(o.as_slice())
    } else {
        let ext = get_exe_ext(windows);
        let e = chars_of(ext);
        if e.len() == 0 {
            string_of(o.as_slice())
        } else {
            let mut v = o;
            push_str(&mut v, ".");
            push_str(&mut v, ext);
            string_of(v.as_slice())
        }
    }
}

fn build_intermediate_path(output: &str, ext: &str) -> (r: String)
    requires
        path_stem_text(output@) is Some,
    ensures
        r@ == intermediate_path_text(output@, ext@),
{
    let dir = match path_parent(output) {
        Some(d) => d,
        None => String::new(),
    };
    let stem = match path_file_stem(output) {
        Some(s) => s,
        None => String::new(),
    };
    let mut f: Vec<char> = Vec::new();
    push_str(&mut f, stem.as_str());
    push_str(&mut f, ".");
    push_str(&mut f, ext);
    let file = string_of(f.as_slice());
    let d = chars_of(dir.as_str());
    if d.len() == 0 {
        file
    } else {
        path_join(dir.as_str(), file.as_str())
    }
}

/// The files of one compilation: the executable, the LLVM IR and the
/// object file.
pub struct OutputPaths {
    pub exe_path: String,
    pub ll_path: String,
    pub obj_path: String,
}

impl OutputPaths {
    /// The paths for output base name `output` on the given platform.
    pub fn new(output: &str, windows: bool) -> (r: OutputPaths)
        requires
            path_stem_text(output@) is Some,
        ensures
            r.exe_path@ == output_path_text(output@, windows),
            r.ll_path@ == intermediate_path_text(output@, "ll"@),
            r.obj_path@ == intermediate_path_text(output@, obj_ext(windows)),
    {
        OutputPaths {
            exe_path: build_output_path(output, windows),
            ll_path: build_intermediate_path(output, "ll"),
            obj_path: build_intermediate_path(output, get_obj_ext(windows)),
        }
    }

    /// As `new`, or `None` where the output has no file stem.
    pub fn try_new(output: &str, windows: bool) -> (r: Option<OutputPaths>)
        ensures
            match r {
                None => path_stem_text(output@) is None,
                Some(p) => path_stem_text(output@) is Some && p.exe_path@ == output_path_text(
                    output@,
                    windows,
                ) && p.ll_path@ == intermediate_path_text(output@, "ll"@) && p.obj_path@
                    == intermediate_path_text(output@, obj_ext(windows)),
            },
    {
        match path_file_stem(output) {
            None => None,
            Some(_) => Some(OutputPaths::new(output, windows)),
        }
    }
}

} // verus!
