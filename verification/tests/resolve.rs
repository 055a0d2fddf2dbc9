use huzi::resolve::{
    build_entry_candidates, entry_file_candidates, entry_stem_dir, import_file,
    missing_module_message, missing_vendor_message, module_file_candidates,
    package_dir_candidates, package_roots, segs_to_path, vendor_dir, VersionDir,
};

fn strs(v: &[&str]) -> Vec<String> {
    v.iter().map(|s| s.to_string()).collect()
}

#[test]
fn submodule_files_under_a_root() {
    let c = module_file_candidates("root", &strs(&["a", "b"]), None);
    assert_eq!(c, strs(&["root/a/b.hz", "root/src/a/b.hz"]));
}

#[test]
fn package_entry_files_in_order() {
    let c = module_file_candidates("pkgs/my_math", &vec![], Some("src/main.hz"));
    assert_eq!(
        c,
        strs(&[
            "pkgs/my_math/src/main.hz",
            "pkgs/my_math/src/lib.hz",
            "pkgs/my_math/lib.hz",
            "pkgs/my_math/src/mod.hz",
            "pkgs/my_math/mod.hz",
            "pkgs/my_math/src/my_math.hz",
            "pkgs/my_math/my_math.hz",
        ])
    );
}

#[test]
fn std_entry_files_and_their_package_directory() {
    assert_eq!(entry_stem_dir("lib", "core/assert.hz"), "lib/core/assert");
    let c = entry_file_candidates("lib", "core/assert.hz", Some("main.hz"));
    assert_eq!(
        c,
        strs(&[
            "lib/core/assert.hz",
            "lib/core/assert/main.hz",
            "lib/core/assert/src/lib.hz",
            "lib/core/assert/lib.hz",
            "lib/core/assert/src/mod.hz",
            "lib/core/assert/mod.hz",
        ])
    );
}

#[test]
fn import_names_become_files() {
    assert_eq!(import_file("mods.helpers"), "mods/helpers.hz");
    assert_eq!(import_file("calc"), "calc.hz");
    assert_eq!(segs_to_path(&strs(&["a", "b", "c"])), "a/b/c");
    assert_eq!(
        missing_module_message("mods.x", "src"),
        "Cannot find module 'mods.x': tried src/mods/x.hz and ./mods/x.hz"
    );
}

#[test]
fn package_roots_in_search_order() {
    let r = package_roots("m", "app", Some("proj"), Some("../lib"), Some("/home/u"));
    assert_eq!(
        r,
        strs(&["proj/../lib", "proj/vendor/m", "app/vendor/m", "vendor/m", "/home/u/.huzi/packages/m"])
    );
    let bare = package_roots("m", "app", None, Some("../lib"), None);
    assert_eq!(bare, strs(&["app/vendor/m", "vendor/m"]));
}

#[test]
fn package_directory_tries_highest_version_first() {
    let dirs = vec![
        VersionDir { name: "1.0.0".to_string(), path: "vendor/m/1.0.0".to_string(), lib_entry: None },
        VersionDir { name: "2.0.0".to_string(), path: "vendor/m/2.0.0".to_string(), lib_entry: None },
    ];
    let c = package_dir_candidates("vendor/m", &strs(&["calc"]), dirs, None);
    assert_eq!(
        c,
        strs(&[
            "vendor/m/2.0.0/calc.hz",
            "vendor/m/2.0.0/src/calc.hz",
            "vendor/m/1.0.0/calc.hz",
            "vendor/m/1.0.0/src/calc.hz",
            "vendor/m/calc.hz",
            "vendor/m/src/calc.hz",
        ])
    );
}

#[test]
fn package_directory_adds_package_named_files_per_version() {
    let dirs = vec![VersionDir {
        name: "1.0.0".to_string(),
        path: "v/m/1.0.0".to_string(),
        lib_entry: Some("entry.hz".to_string()),
    }];
    let c = package_dir_candidates("v/m", &vec![], dirs, None);
    assert_eq!(
        &c[..9],
        &strs(&[
            "v/m/1.0.0/entry.hz",
            "v/m/1.0.0/src/lib.hz",
            "v/m/1.0.0/lib.hz",
            "v/m/1.0.0/src/mod.hz",
            "v/m/1.0.0/mod.hz",
            "v/m/1.0.0/src/1.0.0.hz",
            "v/m/1.0.0/1.0.0.hz",
            "v/m/1.0.0/src/m.hz",
            "v/m/1.0.0/m.hz",
        ])[..]
    );
    assert_eq!(c.len(), 9 + 6);
}

#[test]
fn build_entry_and_vendor_locations() {
    assert_eq!(
        build_entry_candidates("proj", "my_app"),
        strs(&["proj/src/main.hz", "proj/main.hz", "proj/my_app.hz"])
    );
    assert_eq!(vendor_dir("proj", "my_math", "1.2.0"), "proj/vendor/my_math/1.2.0");
    assert_eq!(
        missing_vendor_message("my_math", "1.2.0", "."),
        "缺少已选依赖 vendor/my_math/1.2.0:请先运行 `huzc fetch --path .`"
    );
}

#[test]
fn std_library_is_looked_for_in_order() {
    let dirs = huzi::resolve::std_search_dirs(Some("/opt/lib"), Some("/usr/bin"), "src", Some("/home/u"));
    let want: Vec<String> = vec![
        "/opt/lib",
        "/usr/bin/../huzi-src",
        "/usr/bin/../../huzi-src",
        "/usr/bin/../../../huzi-src",
        "/usr/bin/../lib/huzi-src",
        "/usr/bin/huzi-src",
        "src/huzi-src",
        "src/../huzi-src",
        "src/../../huzi-src",
        "src/../../../huzi-src",
        "./huzi-src",
        "./../huzi-src",
        "./../../huzi-src",
        "./../../../huzi-src",
        "/home/u/.huzi/huzi-src",
        "/home/u/.huzi/std",
    ]
    .into_iter()
    .map(|s| s.to_string())
    .collect();
    assert_eq!(dirs, want);
    let bare = huzi::resolve::std_search_dirs(None, None, "src", None);
    assert_eq!(bare.len(), 8);
    assert_eq!(bare[0], "src/huzi-src");
}
