use sweepkit::languages::{
    get_all_cleaners, get_cleaner_by_name, is_language_alias, DetectionPattern, LanguageCleaner,
};
use sweepkit::python::PythonCleaner;
use sweepkit::rust_lang::RustCleaner;
use sweepkit::utils::format_size;

#[test]
fn catalog_holds_five_ecosystems_in_order() {
    let all = get_all_cleaners();
    let names: Vec<&str> = all.iter().map(|d| d.name.as_str()).collect();
    assert_eq!(names, vec!["Python", "Node.js", "Rust", "Java", "C++"]);
}

#[test]
fn node_abbreviation_resolves_to_nodejs() {
    let d = get_cleaner_by_name("node").expect("node should resolve");
    assert_eq!(d.name, "Node.js");
}

#[test]
fn cpp_alias_resolves_to_cpp_descriptor() {
    let d = get_cleaner_by_name("cpp").expect("cpp should resolve");
    assert_eq!(d.name, "C++");
}

#[test]
fn unknown_name_resolves_to_none() {
    assert!(get_cleaner_by_name("nonexistent-lang").is_none());
}

#[test]
fn resolution_is_case_insensitive_and_ignores_dots() {
    assert_eq!(get_cleaner_by_name("PYTHON").unwrap().name, "Python");
    assert_eq!(get_cleaner_by_name("nodejs").unwrap().name, "Node.js");
    assert_eq!(get_cleaner_by_name("Node.js").unwrap().name, "Node.js");
    assert_eq!(get_cleaner_by_name("ja").unwrap().name, "Java");
}

#[test]
fn alias_table_is_exactly_cpp() {
    assert!(is_language_alias("cpp", "c++"));
    assert!(!is_language_alias("cpp", "c"));
    assert!(!is_language_alias("node", "c++"));
}

#[test]
fn python_cleaner_declares_its_rules() {
    let c = PythonCleaner;
    assert_eq!(c.name(), "Python");
    let patterns = c.project_patterns();
    assert_eq!(patterns.len(), 10);
    match &patterns[0] {
        DetectionPattern::DirectoryName(n) => assert_eq!(n, "__pycache__"),
        _ => panic!("first Python rule should be an exact name"),
    }
    match &patterns[9] {
        DetectionPattern::DirectoryWithSibling { dir_name, sibling } => {
            assert_eq!(dir_name, "dist");
            assert_eq!(sibling, "setup.py");
        },
        _ => panic!("last Python rule should ask for a sibling"),
    }
}

#[test]
fn cache_path_candidates_are_joined_under_home() {
    let c = RustCleaner;
    let home = vec!["home".to_string(), "me".to_string()];
    let paths = c.global_cache_paths(&home);
    assert_eq!(paths.len(), 3);
    assert_eq!(paths[0].path, vec!["home", "me", ".cargo", "registry"]);
    assert_eq!(paths[0].description, "Cargo registry cache");
    assert_eq!(paths[2].path, vec!["home", "me", ".rustup", "toolchains"]);
}

#[test]
fn probe_commands_name_the_package_managers() {
    let pip = PythonCleaner.probe_command().expect("python probes");
    assert_eq!(pip.program, "pip");
    assert_eq!(pip.args, vec!["list", "--format=freeze"]);
    assert_eq!(pip.fallback_program.as_deref(), Some("pip3"));

    let cargo = RustCleaner.probe_command().expect("rust probes");
    assert_eq!(cargo.program, "cargo");
    assert!(cargo.fallback_program.is_none());

    assert!(sweepkit::cpp::CppCleaner.probe_command().is_none());
    assert!(sweepkit::java::JavaCleaner.probe_command().is_none());
}

#[test]
fn format_size_renders_binary_units() {
    assert_eq!(format_size(512), "512 B");
    assert_eq!(format_size(1024 * 1024), "1.0 MiB");
    assert_eq!(format_size(0), "0 B");
}
