use sweepkit::scanner::{scan_directory, scan_directory_filtered, FsEntry};

fn entry(path: &[&str], is_dir: bool, size: u64) -> FsEntry {
    FsEntry { path: path.iter().map(|s| s.to_string()).collect(), is_dir, size }
}

fn path(components: &[&str]) -> Vec<String> {
    components.iter().map(|s| s.to_string()).collect()
}

#[test]
fn build_with_cmake_sibling_is_cpp() {
    let tree = vec![
        entry(&["root"], true, 0),
        entry(&["root", "CMakeLists.txt"], false, 100),
        entry(&["root", "build"], true, 0),
        entry(&["root", "build", "a.o"], false, 2048),
    ];
    let items = scan_directory(&tree);
    assert_eq!(items.len(), 1);
    assert_eq!(items[0].ecosystem, "C++");
    assert_eq!(items[0].path, path(&["root", "build"]));
    assert_eq!(items[0].size, 2048);
}

#[test]
fn build_with_gradle_sibling_is_java() {
    let tree = vec![
        entry(&["root"], true, 0),
        entry(&["root", "build.gradle"], false, 100),
        entry(&["root", "build"], true, 0),
        entry(&["root", "build", "classes.jar"], false, 4096),
    ];
    let items = scan_directory(&tree);
    assert_eq!(items.len(), 1);
    assert_eq!(items[0].ecosystem, "Java");
}

#[test]
fn build_without_siblings_matches_nothing() {
    let tree = vec![
        entry(&["root"], true, 0),
        entry(&["root", "build"], true, 0),
        entry(&["root", "build", "a.o"], false, 2048),
    ];
    let items = scan_directory(&tree);
    assert!(items.is_empty());
}

#[test]
fn pycache_matches_anywhere_without_siblings() {
    let tree = vec![
        entry(&["root"], true, 0),
        entry(&["root", "deep"], true, 0),
        entry(&["root", "deep", "__pycache__"], true, 0),
        entry(&["root", "deep", "__pycache__", "m.pyc"], false, 321),
    ];
    let items = scan_directory(&tree);
    assert_eq!(items.len(), 1);
    assert_eq!(items[0].ecosystem, "Python");
    assert_eq!(items[0].size, 321);
}

#[test]
fn zero_size_match_is_excluded() {
    let tree = vec![
        entry(&["root"], true, 0),
        entry(&["root", "__pycache__"], true, 0),
    ];
    let items = scan_directory(&tree);
    assert!(items.is_empty());
}

#[test]
fn nested_match_is_not_counted_separately() {
    let tree = vec![
        entry(&["root"], true, 0),
        entry(&["root", "node_modules"], true, 0),
        entry(&["root", "node_modules", "pkg"], true, 0),
        entry(&["root", "node_modules", "pkg", "__pycache__"], true, 0),
        entry(&["root", "node_modules", "pkg", "__pycache__", "m.pyc"], false, 7),
        entry(&["root", "node_modules", "pkg", "index.js"], false, 10),
    ];
    let items = scan_directory(&tree);
    assert_eq!(items.len(), 1);
    assert_eq!(items[0].ecosystem, "Node.js");
    assert_eq!(items[0].path, path(&["root", "node_modules"]));
    assert_eq!(items[0].size, 17);
}

#[test]
fn results_sorted_by_size_descending() {
    let tree = vec![
        entry(&["root"], true, 0),
        entry(&["root", "a"], true, 0),
        entry(&["root", "a", "__pycache__"], true, 0),
        entry(&["root", "a", "__pycache__", "x"], false, 10),
        entry(&["root", "b"], true, 0),
        entry(&["root", "b", "node_modules"], true, 0),
        entry(&["root", "b", "node_modules", "y"], false, 500),
        entry(&["root", "c"], true, 0),
        entry(&["root", "c", ".tox"], true, 0),
        entry(&["root", "c", ".tox", "z"], false, 200),
    ];
    let items = scan_directory(&tree);
    assert_eq!(items.len(), 3);
    assert_eq!(items[0].size, 500);
    assert_eq!(items[1].size, 200);
    assert_eq!(items[2].size, 10);
    for w in items.windows(2) {
        assert!(w[0].size >= w[1].size);
    }
}

#[test]
fn equal_sizes_keep_discovery_order() {
    let tree = vec![
        entry(&["root"], true, 0),
        entry(&["root", "a"], true, 0),
        entry(&["root", "a", "__pycache__"], true, 0),
        entry(&["root", "a", "__pycache__", "x"], false, 50),
        entry(&["root", "b"], true, 0),
        entry(&["root", "b", "node_modules"], true, 0),
        entry(&["root", "b", "node_modules", "y"], false, 50),
    ];
    let items = scan_directory(&tree);
    assert_eq!(items.len(), 2);
    assert_eq!(items[0].ecosystem, "Python");
    assert_eq!(items[1].ecosystem, "Node.js");
}

#[test]
fn unmatched_directories_never_appear() {
    let tree = vec![
        entry(&["root"], true, 0),
        entry(&["root", "src"], true, 0),
        entry(&["root", "src", "main.rs"], false, 1000),
        entry(&["root", "docs"], true, 0),
        entry(&["root", "docs", "index.md"], false, 1000),
    ];
    let items = scan_directory(&tree);
    assert!(items.is_empty());
}

#[test]
fn egg_info_suffix_pattern_matches() {
    let tree = vec![
        entry(&["root"], true, 0),
        entry(&["root", "mylib.egg-info"], true, 0),
        entry(&["root", "mylib.egg-info", "PKG-INFO"], false, 64),
    ];
    let items = scan_directory(&tree);
    assert_eq!(items.len(), 1);
    assert_eq!(items[0].ecosystem, "Python");
}

#[test]
fn cmake_build_prefix_pattern_matches() {
    let tree = vec![
        entry(&["root"], true, 0),
        entry(&["root", "cmake-build-debug"], true, 0),
        entry(&["root", "cmake-build-debug", "a.o"], false, 99),
    ];
    let items = scan_directory(&tree);
    assert_eq!(items.len(), 1);
    assert_eq!(items[0].ecosystem, "C++");
}

#[test]
fn target_needs_manifest_sibling() {
    let with = vec![
        entry(&["root"], true, 0),
        entry(&["root", "Cargo.toml"], false, 10),
        entry(&["root", "target"], true, 0),
        entry(&["root", "target", "bin"], false, 999),
    ];
    assert_eq!(scan_directory(&with).len(), 1);
    assert_eq!(scan_directory(&with)[0].ecosystem, "Rust");

    let without = vec![
        entry(&["root"], true, 0),
        entry(&["root", "target"], true, 0),
        entry(&["root", "target", "bin"], false, 999),
    ];
    assert!(scan_directory(&without).is_empty());
}

#[test]
fn first_registered_ecosystem_wins_ties() {
    // "dist" with both setup.py and package.json beside it: Python stands
    // before Node.js in the catalog, so Python claims it.
    let tree = vec![
        entry(&["root"], true, 0),
        entry(&["root", "setup.py"], false, 1),
        entry(&["root", "package.json"], false, 1),
        entry(&["root", "dist"], true, 0),
        entry(&["root", "dist", "wheel"], false, 5),
    ];
    let items = scan_directory(&tree);
    assert_eq!(items.len(), 1);
    assert_eq!(items[0].ecosystem, "Python");
}

#[test]
fn filtered_scan_restricts_to_one_ecosystem() {
    let tree = vec![
        entry(&["root"], true, 0),
        entry(&["root", "__pycache__"], true, 0),
        entry(&["root", "__pycache__", "x"], false, 10),
        entry(&["root", "node_modules"], true, 0),
        entry(&["root", "node_modules", "y"], false, 20),
    ];
    let node_only = scan_directory_filtered(&tree, "node");
    assert_eq!(node_only.len(), 1);
    assert_eq!(node_only[0].ecosystem, "Node.js");

    let none = scan_directory_filtered(&tree, "nonexistent-lang");
    assert!(none.is_empty());
}

#[test]
fn empty_tree_scans_to_nothing() {
    let tree: Vec<FsEntry> = Vec::new();
    assert!(scan_directory(&tree).is_empty());
}

#[test]
fn repeated_scans_of_one_snapshot_agree() {
    let tree = vec![
        entry(&["root"], true, 0),
        entry(&["root", "node_modules"], true, 0),
        entry(&["root", "node_modules", "y"], false, 20),
    ];
    let a = scan_directory(&tree);
    let b = scan_directory(&tree);
    assert_eq!(a.len(), b.len());
    for (x, y) in a.iter().zip(b.iter()) {
        assert_eq!(x.path, y.path);
        assert_eq!(x.ecosystem, y.ecosystem);
        assert_eq!(x.icon, y.icon);
        assert_eq!(x.size, y.size);
    }
}

#[test]
fn total_size_sums_all_items() {
    let tree = vec![
        entry(&["root"], true, 0),
        entry(&["root", "a"], true, 0),
        entry(&["root", "a", "__pycache__"], true, 0),
        entry(&["root", "a", "__pycache__", "x"], false, 10),
        entry(&["root", "b"], true, 0),
        entry(&["root", "b", "node_modules"], true, 0),
        entry(&["root", "b", "node_modules", "y"], false, 500),
    ];
    let items = scan_directory(&tree);
    assert_eq!(sweepkit::scanner::total_size(&items), 510);
    assert_eq!(sweepkit::scanner::total_size(&Vec::new()), 0);
}
