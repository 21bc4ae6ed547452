use faasta::{package_for_dir, same_file_path, wasm_file_name, PackageEntry};

#[test]
fn paths_compare_by_components() {
    assert!(same_file_path("/a/b", "/a//b/"));
    assert!(same_file_path("/a/./b", "/a/b"));
    assert!(!same_file_path("/a/b", "/a/c"));
    assert!(!same_file_path("/a/b", "a/b"));
}

#[test]
fn package_found_by_directory() {
    let packages = vec![
        PackageEntry { manifest_dir: "/w/one".to_string(), name: "one".to_string() },
        PackageEntry { manifest_dir: "/w/two/".to_string(), name: "two".to_string() },
    ];
    assert_eq!(package_for_dir(&packages, "/w/two"), Some("two".to_string()));
    assert_eq!(package_for_dir(&packages, "/w/three"), None);
}

#[test]
fn wasm_name_uses_underscores() {
    assert_eq!(wasm_file_name("my-cool-func"), "my_cool_func.wasm");
    assert_eq!(wasm_file_name("plain"), "plain.wasm");
}
