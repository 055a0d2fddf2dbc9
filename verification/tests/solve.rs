use huzi::manifest::parse_manifest;
use huzi::solve::{
    candidates_from_path_dir, conflict_message, package_version_of, pick_best, version_subdirs,
    ClosureSolver, QueueItem,
};
use huzi::version::{parse_version_req, SemVersion};

fn v(s: &str) -> SemVersion {
    SemVersion::parse(s).unwrap()
}

#[test]
fn pick_best_takes_the_highest_accepted_version() {
    let reqs = vec![parse_version_req("^1.0.0").unwrap(), parse_version_req("<1.5.0").unwrap()];
    let cands = vec![
        (v("1.0.0"), "a".to_string()),
        (v("1.4.0"), "b".to_string()),
        (v("1.6.0"), "c".to_string()),
        (v("2.0.0"), "d".to_string()),
    ];
    let best = pick_best(&reqs, &cands).unwrap();
    assert_eq!(best.0.to_string(), "1.4.0");
    assert_eq!(best.1, "b");
    let none = pick_best(&vec![parse_version_req("3.0.0").unwrap()], &cands);
    assert!(none.is_none());
}

#[test]
fn conflict_message_lists_requirements_and_sorted_versions() {
    let raws = vec!["1.0.0".to_string(), "2.0.0".to_string()];
    let known = vec![(v("2.0.0"), "x".to_string()), (v("1.0.0"), "y".to_string()), (v("2.0.0"), "z".to_string())];
    let m = conflict_message("shared", &raws, &known);
    assert_eq!(
        m,
        "依赖冲突: 包 'shared' 的版本约束 [1.0.0, 2.0.0] 无共同满足版本(已知可用版本: 1.0.0, 2.0.0);请统一各 huzi.toml 中的版本需求后重试"
    );
    let empty = conflict_message("p", &raws, &vec![]);
    assert!(empty.contains("已知可用版本: 无"));
}

fn item(name: &str, raw: &str, dir: &str, path: Option<&str>) -> QueueItem {
    QueueItem { name: name.to_string(), raw: raw.to_string(), declarer_dir: dir.to_string(), path: path.map(|p| p.to_string()) }
}

#[test]
fn solver_selects_highest_and_reports_diamond_conflict() {
    let root = parse_manifest("[dependencies]\nmy_math = \"^1.0.0\"\nshared = \"1.0.0\"\n").unwrap();
    let mut s = ClosureSolver::new("proj");
    s.seed_root(&root).unwrap();
    let first = s.pop_item().unwrap();
    assert_eq!(first.name, "shared");
    let second = s.pop_item().unwrap();
    assert_eq!(second.name, "my_math");
    assert!(s.pop_item().is_none());

    s.apply_requirement(&second);
    let (dirs, registry) = s.sources_of(&second.name);
    assert!(dirs.is_empty() && registry);
    let cands = vec![(v("1.0.0"), "r/1.0.0".to_string()), (v("1.2.0"), "r/1.2.0".to_string())];
    let picked = s.reselect(&second.name, &cands).unwrap();
    assert_eq!(picked.as_ref().map(|p| p.0.to_string()), Some("1.2.0".to_string()));
    let again = s.reselect(&second.name, &cands).unwrap();
    assert!(again.is_none());

    s.apply_requirement(&item("shared", "2.0.0", "r/1.2.0", None));
    s.apply_requirement(&first);
    assert_eq!(s.requirements_of(&first.name), vec!["2.0.0".to_string(), "1.0.0".to_string()]);
    let err = s.reselect(&first.name, &vec![(v("1.0.0"), "s1".to_string()), (v("2.0.0"), "s2".to_string())]).unwrap_err();
    assert!(err.contains("依赖冲突"));
    assert!(err.contains("shared"));
    let sel = s.selection();
    assert_eq!(sel.len(), 1);
    assert_eq!(sel[0].0, "my_math");
    assert_eq!(sel[0].1.source_dir, "r/1.2.0");
}

#[test]
fn bad_requirement_is_reported_with_package_name() {
    let root = parse_manifest("[dependencies]\nx = \"not-a-version\"\n").unwrap();
    let mut s = ClosureSolver::new(".");
    let err = s.seed_root(&root).unwrap_err();
    assert!(err.starts_with("依赖 'x' 的版本需求 \"not-a-version\" 非法: "));
}

#[test]
fn path_dependencies_record_their_directory() {
    let mut s = ClosureSolver::new("proj");
    s.apply_requirement(&item("lib", "1.0.0", "proj", Some("../lib")));
    let (dirs, registry) = s.sources_of(&"lib".to_string());
    assert_eq!(dirs.len(), 1);
    assert!(dirs[0].ends_with("lib"));
    assert!(!registry);
}

#[test]
fn version_subdirectories_are_those_named_by_versions() {
    let entries = vec![
        ("1.2.0".to_string(), "lib/1.2.0".to_string()),
        ("docs".to_string(), "lib/docs".to_string()),
        ("v2.0".to_string(), "lib/v2.0".to_string()),
    ];
    let got = version_subdirs(&entries);
    let shown: Vec<(String, String)> = got.iter().map(|(v, p)| (v.to_string(), p.clone())).collect();
    assert_eq!(
        shown,
        vec![("1.2.0".to_string(), "lib/1.2.0".to_string()), ("2.0.0".to_string(), "lib/v2.0".to_string())]
    );
}

#[test]
fn package_version_comes_from_the_manifest() {
    let text = "[package]\nname = \"m\"\nversion = \"1.3.0\"\n";
    assert_eq!(package_version_of(Some(text)).map(|v| v.to_string()), Some("1.3.0".to_string()));
    assert_eq!(package_version_of(Some("[package]\nversion = \"abc\"\n")), None);
    assert_eq!(package_version_of(None), None);
}

#[test]
fn path_directory_candidates_fall_back_in_order() {
    let dir = "../lib".to_string();
    let raws = vec!["^1.0.0".to_string(), "1.1.0".to_string()];
    let subs = vec![(v("1.0.0"), "../lib/1.0.0".to_string())];
    let got = candidates_from_path_dir(subs, Some(v("9.0.0")), &raws, &dir);
    assert_eq!(got.len(), 1);
    assert_eq!(got[0].1, "../lib/1.0.0");
    let own = candidates_from_path_dir(vec![], Some(v("1.4.0")), &raws, &dir);
    assert_eq!(own.len(), 1);
    assert_eq!((own[0].0.to_string(), own[0].1.clone()), ("1.4.0".to_string(), dir.clone()));
    let exact = candidates_from_path_dir(vec![], None, &raws, &dir);
    assert_eq!(exact.len(), 1);
    assert_eq!((exact[0].0.to_string(), exact[0].1.clone()), ("1.1.0".to_string(), dir.clone()));
}
