//! The link step: which program links the object file into the executable
//! and with which arguments, per linker and target platform.
use crate::cli::LinkerKind;
use crate::modules::views_of;
use crate::paths::OutputPaths;
use crate::text::{chars_of, dec_digits, push_decimal, push_str, string_of};
use vstd::prelude::*;

verus! {

/// The operating system the executable is built for.
#[derive(Debug, Clone, Copy, PartialEq, Eq, Structural)]
pub enum TargetOs {
    Windows,
    Macos,
    Linux,
    Other,
}

/// A tool invocation: a program and its arguments.
pub struct LinkCommand {
    pub program: String,
    pub args: Vec<String>,
}

/// The clang target triple for the host: `aarch64` or `x86_64`, then the
/// vendor and system of the platform.
pub open spec fn clang_target_text(aarch64: bool, os: TargetOs) -> Seq<char> {
    let arch = if aarch64 {
        "aarch64"@
    } else {
        "x86_64"@
    };
    match os {
        TargetOs::Windows => arch + "-pc-windows-msvc"@,
        TargetOs::Macos => arch + "-apple-darwin"@,
        _ => arch + "-unknown-linux-gnu"@,
    }
}

/// The C runtime libraries the generated code needs on Windows.
pub open spec fn windows_clang_libs() -> Seq<Seq<char>> {
    seq![
        "-lucrt"@,
        "-llegacy_stdio_definitions"@,
        "-lkernel32"@,
        "-lshell32"@,
        "-lws2_32"@,
    ]
}

/// `libm` and `libpthread` on Linux.
pub open spec fn linux_libs(os: TargetOs) -> Seq<Seq<char>> {
    if os == TargetOs::Linux {
        seq!["-lm"@, "-lpthread"@]
    } else {
        Seq::empty()
    }
}

/// Arguments of the clang driver linking `obj` into `exe`.
pub open spec fn clang_args_spec(
    target: Option<Seq<char>>,
    exe: Seq<char>,
    obj: Seq<char>,
    os: TargetOs,
) -> Seq<Seq<char>> {
    seq!["-o"@, exe] + match target {
        Some(t) => seq!["-target"@, t],
        None => Seq::empty(),
    } + seq![obj] + (if os == TargetOs::Windows {
        windows_clang_libs()
    } else {
        Seq::empty()
    }) + linux_libs(os)
}

/// Arguments of lld-link (MSVC): output, debug info on request, the
/// default libraries, then the object file.
pub open spec fn msvc_args_spec(exe: Seq<char>, obj: Seq<char>, debug: bool) -> Seq<Seq<char>> {
    seq!["/OUT:"@ + exe] + (if debug {
        seq!["/DEBUG"@]
    } else {
        Seq::empty()
    }) + seq![
        "/DEFAULTLIB:ucrt.lib"@,
        "/DEFAULTLIB:msvcrt.lib"@,
        "/DEFAULTLIB:legacy_stdio_definitions.lib"@,
        "/DEFAULTLIB:kernel32.lib"@,
        "/DEFAULTLIB:shell32.lib"@,
        "/DEFAULTLIB:ws2_32.lib"@,
        obj,
    ]
}

/// Arguments of the MinGW gcc driver.
pub open spec fn mingw_args_spec(exe: Seq<char>, obj: Seq<char>, debug: bool, os: TargetOs) -> Seq<
    Seq<char>,
> {
    seq!["-o"@, exe] + (if debug {
        seq!["-g"@]
    } else {
        Seq::empty()
    }) + seq![obj] + (if os == TargetOs::Windows {
        seq!["-lshell32"@, "-lws2_32"@]
    } else {
        Seq::empty()
    }) + linux_libs(os)
}

/// The command that links: lld-link, clang (with `-g` after the output
/// when debugging) or gcc.
pub open spec fn link_spec(
    exe: Seq<char>,
    obj: Seq<char>,
    linker: LinkerKind,
    debug: bool,
    os: TargetOs,
    aarch64: bool,
) -> (Seq<char>, Seq<Seq<char>>) {
    match linker {
        LinkerKind::Msvc => ("lld-link"@, msvc_args_spec(exe, obj, debug)),
        LinkerKind::Clang => {
            let a = clang_args_spec(Some(clang_target_text(aarch64, os)), exe, obj, os);
            (
                "clang"@,
                if debug {
                    a.take(2) + seq!["-g"@] + a.skip(2)
                } else {
                    a
                },
            )
        },
        LinkerKind::Mingw => ("gcc"@, mingw_args_spec(exe, obj, debug, os)),
    }
}

fn push_arg(v: &mut Vec<String>, s: &str)
    ensures
        views_of(final(v)@) == views_of(old(v)@).push(s@),
{
    v.push(string_of(chars_of(s).as_slice()));
    assert(views_of(v@) =~= views_of(old(v)@).push(s@));
}

fn push_arg_string(v: &mut Vec<String>, s: &String)
    ensures
        views_of(final(v)@) == views_of(old(v)@).push(s@),
{
    v.push(s.clone());
    assert(views_of(v@) =~= views_of(old(v)@).push(s@));
}

fn push_linux_libs(v: &mut Vec<String>, os: TargetOs)
    ensures
        views_of(final(v)@) == views_of(old(v)@) + linux_libs(os),
{
    if os == TargetOs::Linux {
        push_arg(v, "-lm");
        push_arg(v, "-lpthread");
    }
    assert(views_of(v@) =~= views_of(old(v)@) + linux_libs(os));
}

/// The clang target triple for the host.
pub fn clang_target(aarch64: bool, os: TargetOs) -> (r: String)
    ensures
        r@ == clang_target_text(aarch64, os),
{
    let mut out: Vec<char> = Vec::new();
    if aarch64 {
        push_str(&mut out, "aarch64");
    } else {
        push_str(&mut out, "x86_64");
    }
    match os {
        TargetOs::Windows => push_str(&mut out, "-pc-windows-msvc"),
        TargetOs::Macos => push_str(&mut out, "-apple-darwin"),
        _ => push_str(&mut out, "-unknown-linux-gnu"),
    }
    string_of(out.as_slice())
}

/// Clang-style linker arguments for an object file: output, optional
/// target, the object, then the platform's runtime libraries.
pub fn clang_link_args(target: Option<&str>, exe_path: &String, obj_path: &String, os: TargetOs) -> (r:
    Vec<String>)
    ensures
        views_of(r@) == clang_args_spec(
            match target {
                Some(t) => Some(t@),
                None => None,
            },
            exe_path@,
            obj_path@,
            os,
        ),
{
    let mut args: Vec<String> = Vec::new();
    push_arg(&mut args, "-o");
    push_arg_string(&mut args, exe_path);
    if let Some(t) = target {
        push_arg(&mut args, "-target");
        push_arg(&mut args, t);
    }
    push_arg_string(&mut args, obj_path);
    if os == TargetOs::Windows {
        push_arg(&mut args, "-lucrt");
        push_arg(&mut args, "-llegacy_stdio_definitions");
        push_arg(&mut args, "-lkernel32");
        push_arg(&mut args, "-lshell32");
        push_arg(&mut args, "-lws2_32");
    }
    push_linux_libs(&mut args, os);
    let ghost t = match target {
        Some(t) => Some(t@),
        None => None::<Seq<char>>,
    };
    assert(views_of(args@) =~= clang_args_spec(t, exe_path@, obj_path@, os));
    args
}

/// The lld-link command.
fn link_msvc(paths: &OutputPaths, debug: bool) -> (r: LinkCommand)
    ensures
        r.program@ == "lld-link"@,
        views_of(r.args@) == msvc_args_spec(paths.exe_path@, paths.obj_path@, debug),
{
    let mut args: Vec<String> = Vec::new();
    let mut out: Vec<char> = Vec::new();
    push_str(&mut out, "/OUT:");
    push_str(&mut out, paths.exe_path.as_str());
    args.push(string_of(out.as_slice()));
    if debug {
        push_arg(&mut args, "/DEBUG");
    }
    push_arg(&mut args, "/DEFAULTLIB:ucrt.lib");
    push_arg(&mut args, "/DEFAULTLIB:msvcrt.lib");
    push_arg(&mut args, "/DEFAULTLIB:legacy_stdio_definitions.lib");
    push_arg(&mut args, "/DEFAULTLIB:kernel32.lib");
    push_arg(&mut args, "/DEFAULTLIB:shell32.lib");
    push_arg(&mut args, "/DEFAULTLIB:ws2_32.lib");
    push_arg_string(&mut args, &paths.obj_path);
    assert(views_of(args@) =~= msvc_args_spec(paths.exe_path@, paths.obj_path@, debug));
    LinkCommand { program: string_of(chars_of("lld-link").as_slice()), args }
}

/// The clang driver command, with `-g` after the output when debugging.
fn link_clang(paths: &OutputPaths, debug: bool, os: TargetOs, aarch64: bool) -> (r: LinkCommand)
    ensures
        (r.program@, views_of(r.args@)) == link_spec(
            paths.exe_path@,
            paths.obj_path@,
            LinkerKind::Clang,
            debug,
            os,
            aarch64,
        ),
{
    let target = clang_target(aarch64, os);
    let mut args = clang_link_args(Some(target.as_str()), &paths.exe_path, &paths.obj_path, os);
    if debug {
        let ghost a = views_of(args@);
        args.insert(2, string_of(chars_of("-g").as_slice()));
        assert(views_of(args@) =~= a.take(2) + seq!["-g"@] + a.skip(2));
    }
    LinkCommand { program: string_of(chars_of("clang").as_slice()), args }
}

/// The MinGW gcc command.
fn link_mingw(paths: &OutputPaths, debug: bool, os: TargetOs) -> (r: LinkCommand)
    ensures
        r.program@ == "gcc"@,
        views_of(r.args@) == mingw_args_spec(paths.exe_path@, paths.obj_path@, debug, os),
{
    let mut args: Vec<String> = Vec::new();
    push_arg(&mut args, "-o");
    push_arg_string(&mut args, &paths.exe_path);
    if debug {
        push_arg(&mut args, "-g");
    }
    push_arg_string(&mut args, &paths.obj_path);
    if os == TargetOs::Windows {
        push_arg(&mut args, "-lshell32");
        push_arg(&mut args, "-lws2_32");
    }
    push_linux_libs(&mut args, os);
    assert(views_of(args@) =~= mingw_args_spec(paths.exe_path@, paths.obj_path@, debug, os));
    LinkCommand { program: string_of(chars_of("gcc").as_slice()), args }
}

/// The link command for `paths` with the chosen linker on the target
/// platform; the caller runs it.
pub fn link(paths: &OutputPaths, linker: LinkerKind, debug: bool, os: TargetOs, aarch64: bool) -> (r:
    LinkCommand)
    ensures
        (r.program@, views_of(r.args@)) == link_spec(
            paths.exe_path@,
            paths.obj_path@,
            linker,
            debug,
            os,
            aarch64,
        ),
{
    match linker {
        LinkerKind::Msvc => link_msvc(paths, debug),
        LinkerKind::Clang => link_clang(paths, debug, os, aarch64),
        LinkerKind::Mingw => link_mingw(paths, debug, os),
    }
}

/// Arguments of llc compiling the IR file into a position-independent
/// object file, tuned for gdb when debugging.
pub open spec fn llc_args_spec(ll: Seq<char>, obj: Seq<char>, debug: bool) -> Seq<Seq<char>> {
    seq!["--relocation-model=pic"@, "--filetype=obj"@] + (if debug {
        seq!["-debugger-tune=gdb"@]
    } else {
        Seq::empty()
    }) + seq!["-o"@, obj, ll]
}

/// The llc command that turns the IR file into the object file.
pub fn compile_ir_to_object(paths: &OutputPaths, debug: bool) -> (r: LinkCommand)
    ensures
        r.program@ == "llc"@,
        views_of(r.args@) == llc_args_spec(paths.ll_path@, paths.obj_path@, debug),
{
    let mut args: Vec<String> = Vec::new();
    push_arg(&mut args, "--relocation-model=pic");
    push_arg(&mut args, "--filetype=obj");
    if debug {
        push_arg(&mut args, "-debugger-tune=gdb");
    }
    push_arg(&mut args, "-o");
    push_arg_string(&mut args, &paths.obj_path);
    push_arg_string(&mut args, &paths.ll_path);
    assert(views_of(args@) =~= llc_args_spec(paths.ll_path@, paths.obj_path@, debug));
    LinkCommand { program: string_of(chars_of("llc").as_slice()), args }
}

/// The opt command that optimises the IR file in place at `-O<level>`.
pub fn optimize_ir(paths: &OutputPaths, level: u8) -> (r: LinkCommand)
    ensures
        r.program@ == "opt"@,
        views_of(r.args@) == seq![
            "-S"@,
            "-O"@ + dec_digits(level as nat),
            "-o"@,
            paths.ll_path@,
            paths.ll_path@,
        ],
{
    let mut args: Vec<String> = Vec::new();
    push_arg(&mut args, "-S");
    let mut o: Vec<char> = Vec::new();
    push_str(&mut o, "-O");
    push_decimal(&mut o, level as u64);
    let os = string_of(o.as_slice());
    push_arg_string(&mut args, &os);
    push_arg(&mut args, "-o");
    push_arg_string(&mut args, &paths.ll_path);
    push_arg_string(&mut args, &paths.ll_path);
    let ghost want = seq!["-S"@, "-O"@ + dec_digits(level as nat), "-o"@, paths.ll_path@, paths.ll_path@];
    assert(views_of(args@) =~= want);
    LinkCommand { program: string_of(chars_of("opt").as_slice()), args }
}

} // verus!
