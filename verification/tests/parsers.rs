use sweepkit::java::wrapper_dist_packages;
use sweepkit::node::parse_npm_listing;
use sweepkit::python::parse_pip_listing;
use sweepkit::rust_lang::parse_cargo_listing;

#[test]
fn pip_freeze_line_yields_package_name() {
    let out = "requests==2.31.0\n";
    let pkgs = parse_pip_listing(out);
    assert_eq!(pkgs.len(), 1);
    assert_eq!(pkgs[0].name, "requests");
    assert_eq!(pkgs[0].size, 0);
    assert!(pkgs[0].last_used.is_none());
}

#[test]
fn pip_listing_skips_blank_and_malformed_lines() {
    let out = "requests==2.31.0\n\n   \nnot a freeze line\nurllib3==2.0.4\n";
    let pkgs = parse_pip_listing(out);
    assert_eq!(pkgs.len(), 2);
    assert_eq!(pkgs[0].name, "requests");
    assert_eq!(pkgs[1].name, "urllib3");
}

#[test]
fn npm_scoped_package_with_tree_glyphs() {
    let out = "/usr/local/lib\n\u{251C}\u{2500}\u{2500} @types/node@1.0.0\n";
    let pkgs = parse_npm_listing(out);
    assert_eq!(pkgs.len(), 1);
    assert_eq!(pkgs[0].name, "@types/node");
}

#[test]
fn npm_plain_packages_and_header_line() {
    let out = "/usr/local/lib\n\u{251C}\u{2500}\u{2500} typescript@5.2.2\n\u{2514}\u{2500}\u{2500} yarn@1.22.19\n";
    let pkgs = parse_npm_listing(out);
    assert_eq!(pkgs.len(), 2);
    assert_eq!(pkgs[0].name, "typescript");
    assert_eq!(pkgs[1].name, "yarn");
}

#[test]
fn npm_scoped_name_without_version_marker_is_skipped() {
    let out = "\u{251C}\u{2500}\u{2500} @lonely\n";
    let pkgs = parse_npm_listing(out);
    assert!(pkgs.is_empty());
}

#[test]
fn cargo_header_line_yields_package_name() {
    let out = "ripgrep v13.0.0:\n    rg\n";
    let pkgs = parse_cargo_listing(out);
    assert_eq!(pkgs.len(), 1);
    assert_eq!(pkgs[0].name, "ripgrep");
}

#[test]
fn cargo_indented_binary_lines_are_skipped() {
    let out = "cargo-edit v0.12.0:\n    cargo-add\n    cargo-rm v0\nbat v0.23.0:\n    bat\n";
    let pkgs = parse_cargo_listing(out);
    assert_eq!(pkgs.len(), 2);
    assert_eq!(pkgs[0].name, "cargo-edit");
    assert_eq!(pkgs[1].name, "bat");
}

#[test]
fn cargo_path_install_header_is_kept() {
    let out = "mytool v0.1.0 (/home/me/src/mytool):\n    mytool\n";
    let pkgs = parse_cargo_listing(out);
    assert_eq!(pkgs.len(), 1);
    assert_eq!(pkgs[0].name, "mytool");
}

#[test]
fn gradle_dists_filtered_by_prefix() {
    let names = vec![
        "gradle-7.6-bin".to_string(),
        "notes.txt".to_string(),
        "gradle-8.0-all".to_string(),
    ];
    let pkgs = wrapper_dist_packages(&names);
    assert_eq!(pkgs.len(), 2);
    assert_eq!(pkgs[0].name, "gradle-7.6-bin");
    assert_eq!(pkgs[1].name, "gradle-8.0-all");
    assert_eq!(pkgs[0].size, 0);
    assert!(pkgs[0].last_used.is_none());
}

#[test]
fn parsers_yield_nothing_on_empty_output() {
    assert!(parse_pip_listing("").is_empty());
    assert!(parse_npm_listing("").is_empty());
    assert!(parse_cargo_listing("").is_empty());
}

#[test]
fn crlf_lines_are_handled() {
    let out = "requests==2.31.0\r\nflask==3.0.0\r\n";
    let pkgs = parse_pip_listing(out);
    assert_eq!(pkgs.len(), 2);
    assert_eq!(pkgs[0].name, "requests");
    assert_eq!(pkgs[1].name, "flask");
}
