use huzi::lock::{format_lock, parse_lock, HuziLock};
use huzi::manifest::{format_manifest, parse_manifest, Dependency};
use huzi::solve::SelectedDep;
use huzi::version::{parse_version_req, req_usable, select_max_satisfying, SemVersion, VersionReq};

fn sample_closure() -> Vec<(String, SelectedDep)> {
    vec![
        (
            "shared".to_string(),
            SelectedDep {
                version: SemVersion::parse("2.0.0").unwrap(),
                source_dir: "vendor/shared/2.0.0".to_string(),
            },
        ),
        (
            "my_math".to_string(),
            SelectedDep {
                version: SemVersion::parse("1.2.0").unwrap(),
                source_dir: "vendor/my_math/1.2.0".to_string(),
            },
        ),
    ]
}

#[test]
fn test_lock_roundtrip_sorted() {
    let lock = HuziLock::from_closure(&sample_closure());
    assert_eq!(lock.packages[0].name, "my_math");
    assert_eq!(lock.packages[1].name, "shared");
    let text = format_lock(&lock);
    assert!(text.contains("name = \"my_math\""));
    assert!(text.contains("version = \"1.2.0\""));
    let back = parse_lock(&text).expect("lock text parses");
    assert_eq!(back, lock);
    assert_eq!(back.get("shared").unwrap().to_string(), "2.0.0");
    assert!(back.get("missing").is_none());
}

#[test]
fn test_lock_rejects_bad_input() {
    assert!(parse_lock("name = \"x\"").is_err());
    let missing_ver = "[[package]]
name = \"x\"
";
    assert!(parse_lock(missing_ver).is_err());
    let bad_ver = "[[package]]
name = \"x\"
version = \"abc\"
";
    assert!(parse_lock(bad_ver).is_err());
    let dup = "[[package]]
name = \"x\"
version = \"1.0.0\"
[[package]]
name = \"x\"
version = \"1.0.0\"
";
    assert!(parse_lock(dup).is_err());
    assert!(parse_lock("").is_ok());
}

#[test]
fn manifest_test_manifest_parse_and_format() {
    let toml = r#"
[package]
name = "my_app"
version = "1.2.0"
entry = "src/app.hz"
lib_entry = "src/lib.hz"

[dependencies]
foo = "0.1.0"
bar = { version = "2.0.0", path = "../bar" }
"#;
    let m = parse_manifest(toml).expect("parse ok");
    assert_eq!(m.name, "my_app");
    assert_eq!(m.version, "1.2.0");
    assert_eq!(m.entry.as_deref(), Some("src/app.hz"));
    assert_eq!(m.lib_entry.as_deref(), Some("src/lib.hz"));
    assert_eq!(m.dependencies.len(), 2);
    assert_eq!(m.dependency("foo").unwrap().version, "0.1.0");
    assert_eq!(m.dependency("foo").unwrap().path, None);
    assert_eq!(m.dependency("bar").unwrap().version, "2.0.0");
    assert_eq!(m.dependency("bar").unwrap().path.as_deref(), Some("../bar"));

    let formatted = format_manifest(&m);
    assert!(formatted.contains("name = \"my_app\""));
    assert!(formatted.contains("lib_entry = \"src/lib.hz\""));
    assert!(formatted.contains("bar = { version = \"2.0.0\", path = \"../bar\" }"));
    assert!(formatted.contains("foo = \"0.1.0\""));
}

#[test]
fn pkg_test_manifest_parse_and_format() {
    let toml = r#"
[package]
name = "my_app"
version = "1.2.0"
entry = "src/app.hz"
lib_entry = "src/lib.hz"

[dependencies]
foo = "0.1.0"
bar = { version = "2.0.0", path = "../bar" }
"#;
    let m = parse_manifest(toml).expect("parse ok");
    assert_eq!(m.name, "my_app");
    assert_eq!(m.version, "1.2.0");
    assert_eq!(m.entry.as_deref(), Some("src/app.hz"));
    assert_eq!(m.lib_entry.as_deref(), Some("src/lib.hz"));
    assert_eq!(m.dependencies.len(), 2);
    assert_eq!(m.dependency("foo").unwrap().version, "0.1.0");
    assert_eq!(m.dependency("foo").unwrap().path, None);
    assert_eq!(m.dependency("bar").unwrap().version, "2.0.0");
    assert_eq!(m.dependency("bar").unwrap().path.as_deref(), Some("../bar"));

    let formatted = format_manifest(&m);
    assert!(formatted.contains("name = \"my_app\""));
    assert!(formatted.contains("lib_entry = \"src/lib.hz\""));
    assert!(formatted.contains("bar = { version = \"2.0.0\", path = \"../bar\" }"));
    assert!(formatted.contains("foo = \"0.1.0\""));
}

#[test]
fn test_dependency_version_req() {
    let dep = Dependency { version: "^1.2.0".to_string(), path: None };
    let r = dep.version_req().expect("requirement parses");
    assert!(r.matches_str("1.5.0").unwrap());
    assert!(!r.matches_str("2.0.0").unwrap());
    assert_eq!(dep.version, "^1.2.0");
}

#[test]
fn manifest_format_is_exact_and_sorted() {
    let m = parse_manifest("[package]\nname = \"a\"\n[dependencies]\nz = \"1.0.0\"\nb = { path = \"p\" }\n")
        .unwrap();
    assert_eq!(
        format_manifest(&m),
        "[package]\nname = \"a\"\nversion = \"0.1.0\"\n\n[dependencies]\nb = { version = \"0.1.0\", path = \"p\" }\nz = \"1.0.0\"\n"
    );
}

#[test]
fn manifest_comments_and_unknown_sections_are_ignored() {
    let m = parse_manifest("# top\n[other]\nname = \"no\"\n[package]\nname = 'q' # trailing\nlib = \"l.hz\"\n").unwrap();
    assert_eq!(m.name, "q");
    assert_eq!(m.lib_entry.as_deref(), Some("l.hz"));
    assert!(m.dependencies.is_empty());
}

#[test]
fn later_dependency_line_replaces_earlier() {
    let m = parse_manifest("[dependencies]\nx = \"1.0.0\"\nx = \"2.0.0\"\n").unwrap();
    assert_eq!(m.dependencies.len(), 1);
    assert_eq!(m.dependency("x").unwrap().version, "2.0.0");
}

fn req(s: &str) -> VersionReq {
    parse_version_req(s).expect("requirement parses")
}

#[test]
fn test_version_req_exact() {
    let r = req("1.2.3");
    assert_eq!(r, VersionReq::Exact(SemVersion { major: 1, minor: 2, patch: 3 }));
    assert!(r.matches_str("1.2.3").unwrap());
    assert!(!r.matches_str("1.2.4").unwrap());
}

#[test]
fn test_version_req_caret() {
    let r = req("^1.2.3");
    assert!(r.matches_str("1.9.0").unwrap());
    assert!(!r.matches_str("2.0.0").unwrap());
    assert!(!r.matches_str("1.2.2").unwrap());
    let zero = req("^0.2.3");
    assert!(zero.matches_str("0.2.9").unwrap());
    assert!(!zero.matches_str("0.3.0").unwrap());
}

#[test]
fn test_version_req_tilde() {
    let r = req("~1.2.3");
    assert!(r.matches_str("1.2.9").unwrap());
    assert!(!r.matches_str("1.3.0").unwrap());
    let major_only = req("~1");
    assert!(major_only.matches_str("1.9.9").unwrap());
    assert!(!major_only.matches_str("2.0.0").unwrap());
}

#[test]
fn test_version_req_range() {
    let r = req(">=1.0.0, <2.0.0");
    assert!(r.matches_str("1.5.0").unwrap());
    assert!(!r.matches_str("2.0.0").unwrap());
    assert!(!r.matches_str("0.9.9").unwrap());
}

#[test]
fn test_version_req_any() {
    assert_eq!(req("*"), VersionReq::Any);
    assert!(req("*").matches_str("9.9.9").unwrap());
    let prefixed = req("1.*");
    assert!(prefixed.matches_str("1.7.0").unwrap());
    assert!(!prefixed.matches_str("2.0.0").unwrap());
}

fn cands(raws: &[&str]) -> Vec<SemVersion> {
    raws.iter().map(|s| SemVersion::parse(s).unwrap()).collect()
}

#[test]
fn test_select_max_caret_picks_highest() {
    let r = req("^1.0.0");
    let got = select_max_satisfying(&r, &cands(&["1.0.0", "1.2.0"]));
    assert_eq!(got.unwrap().to_string(), "1.2.0");
}

#[test]
fn test_select_max_range_skips_major_bump() {
    let r = req("^1.0.0");
    let got = select_max_satisfying(&r, &cands(&["1.0.0", "1.2.0", "2.0.0"])).unwrap();
    assert_eq!(got.to_string(), "1.2.0");
}

#[test]
fn test_select_max_none_when_conflict() {
    let r = req("1.0.0");
    assert!(select_max_satisfying(&r, &cands(&["1.2.0", "2.0.0"])).is_none());
    let empty: Vec<SemVersion> = vec![];
    assert!(select_max_satisfying(&req("*"), &empty).is_none());
}

#[test]
fn version_parse_rejects_malformed_text() {
    assert!(SemVersion::parse("1.2.3.4").is_err());
    assert!(SemVersion::parse("1.x.3").is_err());
    assert!(SemVersion::parse("").is_err());
    assert_eq!(SemVersion::parse(" v1.2 ").unwrap(), SemVersion { major: 1, minor: 2, patch: 0 });
}

#[test]
fn set_dependency_replaces_in_place_or_appends() {
    let mut m = parse_manifest("[package]\nname = \"a\"\n[dependencies]\nfoo = \"0.1.0\"\nbar = \"1.0.0\"\n").unwrap();
    m.set_dependency("foo", Dependency { version: "0.2.0".to_string(), path: None });
    m.set_dependency("baz", Dependency { version: "3.0.0".to_string(), path: Some("../baz".to_string()) });
    let names: Vec<&str> = m.dependencies.iter().map(|(n, _)| n.as_str()).collect();
    assert_eq!(names, vec!["foo", "bar", "baz"]);
    assert_eq!(m.dependencies[0].1.version, "0.2.0");
    assert_eq!(m.dependencies[2].1.path.as_deref(), Some("../baz"));
}

#[test]
fn requirements_whose_bounds_overflow_are_not_usable() {
    assert!(req_usable("^1.0.0"));
    assert!(req_usable("1.*"));
    assert!(req_usable("not a version"));
    assert!(req_usable(">=1.0.0, <2.0.0"));
    assert!(!req_usable("^18446744073709551615.0.0"));
    assert!(!req_usable("~1.18446744073709551615.0"));
    assert!(!req_usable("~18446744073709551615"));
    assert!(!req_usable("18446744073709551615.*"));
    assert!(!req_usable("^0.0.18446744073709551615"));
    let ok = parse_manifest("[dependencies]\na = \"^1.0.0\"\n").unwrap();
    assert!(huzi::solve::manifest_is_usable(&ok));
    let bad = parse_manifest("[dependencies]\na = \"^18446744073709551615.0.0\"\n").unwrap();
    assert!(!huzi::solve::manifest_is_usable(&bad));
}

#[test]
fn manifest_written_then_read_gives_it_back_sorted() {
    let m = huzi::manifest::Manifest {
        name: "demo app".to_string(),
        version: "0.3.1".to_string(),
        entry: None,
        lib_entry: Some("src/lib.hz".to_string()),
        dependencies: vec![
            (
                "zeta".to_string(),
                Dependency { version: "^1.0.0".to_string(), path: Some("../zeta".to_string()) },
            ),
            ("alpha".to_string(), Dependency { version: "~2.1.0".to_string(), path: None }),
        ],
    };
    let back = parse_manifest(&format_manifest(&m)).expect("parse ok");
    assert_eq!(back.name, "demo app");
    assert_eq!(back.version, "0.3.1");
    assert_eq!(back.entry, None);
    assert_eq!(back.lib_entry.as_deref(), Some("src/lib.hz"));
    assert_eq!(back.dependencies.len(), 2);
    assert_eq!(back.dependencies[0].0, "alpha");
    assert_eq!(back.dependencies[0].1, Dependency { version: "~2.1.0".to_string(), path: None });
    assert_eq!(back.dependencies[1].0, "zeta");
    assert_eq!(
        back.dependencies[1].1,
        Dependency { version: "^1.0.0".to_string(), path: Some("../zeta".to_string()) }
    );
}

#[test]
fn manifest_with_an_empty_dependency_name_reads_back() {
    let m = huzi::manifest::Manifest {
        name: "demo".to_string(),
        version: "1.0.0".to_string(),
        entry: None,
        lib_entry: None,
        dependencies: vec![
            ("".to_string(), Dependency { version: "1.2.3".to_string(), path: None }),
            ("b".to_string(), Dependency { version: "2.0.0".to_string(), path: Some("../b".to_string()) }),
        ],
    };
    let back = parse_manifest(&format_manifest(&m)).expect("parse ok");
    assert_eq!(back.dependencies.len(), 2);
    assert_eq!(back.dependencies[0].0, "");
    assert_eq!(back.dependencies[0].1, Dependency { version: "1.2.3".to_string(), path: None });
    assert_eq!(back.dependencies[1].0, "b");
}

#[test]
fn matches_str_reports_the_version_parse_error() {
    let any = VersionReq::Any;
    let err = any.matches_str("1.x").unwrap_err();
    assert_eq!(Err(err.clone()), SemVersion::parse("1.x").map(|v| any.matches(&v)));
    assert_eq!(err, "非法版本号 \"1.x\": 分量 \"x\" 非纯数字");
}

#[test]
fn version_parse_errors_name_the_first_problem() {
    assert_eq!(SemVersion::parse("  ").unwrap_err(), "版本号为空: \"  \"");
    assert_eq!(SemVersion::parse("1.2.3.4").unwrap_err(), "非法版本号 \"1.2.3.4\": 至多 3 个分量");
    assert_eq!(SemVersion::parse("1..2").unwrap_err(), "非法版本号 \"1..2\": 分量 \"\" 非纯数字");
    assert_eq!(
        SemVersion::parse("99999999999999999999.1").unwrap_err(),
        "版本号 \"99999999999999999999.1\" 数值越界"
    );
}

#[test]
fn requirement_parse_errors_name_the_problem() {
    assert_eq!(parse_version_req("  ").unwrap_err(), "版本需求为空");
    assert_eq!(parse_version_req("~").unwrap_err(), "`~` 后缺少版本号");
    assert_eq!(parse_version_req(">=").unwrap_err(), "比较符 \">=\" 缺少版本号");
    assert_eq!(parse_version_req(">=1.*").unwrap_err(), "范围比较符不支持通配符 \">=1.*\"");
    assert_eq!(parse_version_req("1.*.*").unwrap_err(), "非法版本通配 \"1.*.*\"");
    assert_eq!(parse_version_req("^1.x").unwrap_err(), "非法版本号 \"1.x\": 分量 \"x\" 非纯数字");
}

#[test]
fn lock_errors_name_line_and_problem() {
    assert_eq!(
        parse_lock("name = \"a\"\n").unwrap_err(),
        format!("锁文件第 1 行非法: 期望 `[[package]]`,实际 {:?}", "name = \"a\"")
    );
    assert_eq!(parse_lock("[[package]]\nname\n").unwrap_err(), "锁文件第 2 行非法: 缺 `=`");
    assert_eq!(
        parse_lock("[[package]]\nname = \"a\"\n").unwrap_err(),
        "锁文件第 3 行: [[package]] 缺少 name/version"
    );
    assert_eq!(
        parse_lock("[[package]]\nname = \"a\"\nversion = \"x\"\n").unwrap_err(),
        "锁文件第 4 行版本非法: 非法版本号 \"x\": 分量 \"x\" 非纯数字"
    );
    assert_eq!(
        parse_lock("[[package]]\nname = \"a\"\nversion = \"1.0.0\"\n[[package]]\nname = \"a\"\nversion = \"2.0.0\"\n")
            .unwrap_err(),
        "锁文件包 'a' 重复"
    );
}
