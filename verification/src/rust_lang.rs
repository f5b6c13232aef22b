//! The Rust ecosystem: target directories beside a manifest, Cargo and
//! rustup global caches, and a parser for `cargo install --list` output.

use vstd::prelude::*;

verus! {

use crate::languages::{
    CachePathSpec, DescriptorSpec, DetectionPattern, GlobalCachePath, LanguageCleaner,
    OrphanedPackage, PatternSpec, ProbeCommand, ProbeCommandSpec, copy_strings, packages_of,
};
use crate::text::{
    chars_to_string, index_of_pair, lemma_index_of_pair_found, lemma_index_of_pair_props,
    split_lines, split_lines_chars, str_to_chars, subrange_chars, trim, trim_chars, find_pair,
};

pub struct RustCleaner;

/// The detection rules of the Rust ecosystem.
pub open spec fn rust_patterns() -> Seq<PatternSpec> {
    seq![PatternSpec::WithSibling { dir_name: "target"@, sibling: "Cargo.toml"@ }]
}

/// The Rust descriptor.
pub open spec fn rust_descriptor() -> DescriptorSpec {
    DescriptorSpec { name: "Rust"@, icon: "\u{1F980}"@, patterns: rust_patterns() }
}

/// Rust's conventional global cache locations under a home directory.
pub open spec fn rust_cache_paths(home: Seq<Seq<char>>) -> Seq<CachePathSpec> {
    seq![
        CachePathSpec {
            path: home.push(".cargo"@).push("registry"@),
            description: "Cargo registry cache"@,
        },
        CachePathSpec {
            path: home.push(".cargo"@).push("git"@),
            description: "Cargo git cache"@,
        },
        CachePathSpec {
            path: home.push(".rustup"@).push("toolchains"@),
            description: "Rustup toolchains"@,
        },
    ]
}

/// Rust's probe command: the installed-binaries listing; no fallback program.
pub open spec fn rust_probe_command() -> Option<ProbeCommandSpec> {
    Some(
        ProbeCommandSpec {
            program: "cargo"@,
            args: seq!["install"@, "--list"@],
            fallback_program: None,
        },
    )
}

impl LanguageCleaner for RustCleaner {
    open spec fn spec_name(&self) -> Seq<char> {
        rust_descriptor().name
    }

    open spec fn spec_icon(&self) -> Seq<char> {
        rust_descriptor().icon
    }

    open spec fn spec_patterns(&self) -> Seq<PatternSpec> {
        rust_patterns()
    }

    open spec fn spec_cache_paths(&self, home: Seq<Seq<char>>) -> Seq<CachePathSpec> {
        rust_cache_paths(home)
    }

    open spec fn spec_probe_command(&self) -> Option<ProbeCommandSpec> {
        rust_probe_command()
    }

    fn name(&self) -> String {
        "Rust".to_owned()
    }

    fn icon(&self) -> String {
        "\u{1F980}".to_owned()
    }

    fn project_patterns(&self) -> (r: Vec<DetectionPattern>) {
        let mut v: Vec<DetectionPattern> = Vec::new();
        v.push(
            DetectionPattern::DirectoryWithSibling {
                dir_name: "target".to_owned(),
                sibling: "Cargo.toml".to_owned(),
            },
        );
        proof {
            assert(v.deep_view() =~= rust_patterns());
        }
        v
    }

    fn global_cache_paths(&self, home: &Vec<String>) -> (r: Vec<GlobalCachePath>) {
        let mut v: Vec<GlobalCachePath> = Vec::new();
        let mut p1 = copy_strings(home);
        p1.push(".cargo".to_owned());
        p1.push("registry".to_owned());
        proof {
            assert(p1.deep_view() =~= home.deep_view().push(".cargo"@).push("registry"@));
        }
        v.push(GlobalCachePath { path: p1, description: "Cargo registry cache".to_owned() });
        let mut p2 = copy_strings(home);
        p2.push(".cargo".to_owned());
        p2.push("git".to_owned());
        proof {
            assert(p2.deep_view() =~= home.deep_view().push(".cargo"@).push("git"@));
        }
        v.push(GlobalCachePath { path: p2, description: "Cargo git cache".to_owned() });
        let mut p3 = copy_strings(home);
        p3.push(".rustup".to_owned());
        p3.push("toolchains".to_owned());
        proof {
            assert(p3.deep_view() =~= home.deep_view().push(".rustup"@).push("toolchains"@));
        }
        v.push(GlobalCachePath { path: p3, description: "Rustup toolchains".to_owned() });
        proof {
            assert(v.deep_view() =~= rust_cache_paths(home.deep_view()));
        }
        v
    }

    fn probe_command(&self) -> (r: Option<ProbeCommand>) {
        let mut args: Vec<String> = Vec::new();
        args.push("install".to_owned());
        args.push("--list".to_owned());
        proof {
            assert(args.deep_view() =~= seq!["install"@, "--list"@]);
        }
        let cmd = ProbeCommand { program: "cargo".to_owned(), args, fallback_program: None };
        let r = Some(cmd);
        proof {
            assert(r.deep_view() =~= rust_probe_command());
        }
        r
    }
}

/// The package name an installed-binaries header line carries: the trimmed
/// text before the first version marker " v". Indented binary-name lines,
/// blank lines, and lines without the marker carry nothing.
pub open spec fn cargo_line_package(line: Seq<char>) -> Option<Seq<char>> {
    if line.len() > 0 && line[0] == ' ' {
        None
    } else {
        let t = trim(line);
        if t.len() == 0 {
            None
        } else {
            let i = index_of_pair(t, ' ', 'v') as int;
            if i + 2 <= t.len() {
                Some(trim(t.take(i)))
            } else {
                None
            }
        }
    }
}

/// The package names of a whole installed-binaries listing, line by line;
/// malformed lines are skipped, never an error.
pub open spec fn cargo_package_names(lines: Seq<Seq<char>>) -> Seq<Seq<char>>
    decreases lines.len(),
{
    if lines.len() == 0 {
        Seq::empty()
    } else {
        cargo_package_names(lines.drop_last()) + match cargo_line_package(lines.last()) {
            Some(n) => seq![n],
            None => Seq::<Seq<char>>::empty(),
        }
    }
}

/// The package name of one installed-binaries listing line.
pub fn cargo_line(line: &Vec<char>) -> (r: Option<Vec<char>>)
    ensures
        r.deep_view() == cargo_line_package(line@),
{
    if line.len() > 0 && line[0] == ' ' {
        return None;
    }
    let t = trim_chars(line);
    if t.len() == 0 {
        return None;
    }
    let i = find_pair(&t, ' ', 'v');
    proof {
        lemma_index_of_pair_props(t@, ' ', 'v');
        lemma_index_of_pair_found(t@, ' ', 'v');
    }
    if i < t.len() {
        let head = subrange_chars(&t, 0, i);
        proof {
            assert(head@ =~= t@.take(i as int));
        }
        let nm = trim_chars(&head);
        proof {
            assert(nm.deep_view() =~= nm@);
        }
        Some(nm)
    } else {
        None
    }
}

/// Parse the output of the installed-binaries listing into orphaned-package
/// candidates. Sizes and last-used markers are unknown to this listing and
/// are reported as zero and absent.
pub fn parse_cargo_listing(output: &str) -> (r: Vec<OrphanedPackage>)
    ensures
        r.deep_view() == packages_of(cargo_package_names(split_lines(output@))),
{
    let chars = str_to_chars(output);
    let lines = split_lines_chars(&chars);
    let ghost lseq = split_lines(output@);
    let mut r: Vec<OrphanedPackage> = Vec::new();
    let mut i: usize = 0;
    while i < lines.len()
        invariant
            i <= lines@.len(),
            lines.deep_view() == lseq,
            lseq.len() == lines@.len(),
            r.deep_view() == packages_of(cargo_package_names(lseq.take(i as int))),
        decreases lines@.len() - i,
    {
        let ghost pre = r.deep_view();
        proof {
            assert(lines@[i as int].deep_view() =~= lines@[i as int]@);
            assert(lines.deep_view()[i as int] == lines@[i as int].deep_view());
        }
        match cargo_line(&lines[i]) {
            Some(nm) => {
                proof {
                    assert(nm.deep_view() =~= nm@);
                }
                let name = chars_to_string(&nm);
                r.push(OrphanedPackage { name, size: 0, last_used: None });
            },
            None => {},
        }
        i = i + 1;
        proof {
            assert(lseq.take(i as int).drop_last() =~= lseq.take(i - 1));
            assert(lseq.take(i as int).last() == lseq[i - 1]);
            match cargo_line_package(lseq[i - 1]) {
                Some(n) => {
                    assert(r.deep_view() =~= pre.push(
                        crate::languages::OrphanedPackageSpec {
                            name: n,
                            size: 0u64,
                            last_used: None,
                        },
                    ));
                    assert(cargo_package_names(lseq.take(i as int)) =~= cargo_package_names(
                        lseq.take(i - 1),
                    ).push(n));
                    assert(packages_of(cargo_package_names(lseq.take(i as int)))
                        =~= packages_of(cargo_package_names(lseq.take(i - 1))).push(
                        crate::languages::OrphanedPackageSpec {
                            name: n,
                            size: 0u64,
                            last_used: None,
                        },
                    ));
                },
                None => {
                    assert(cargo_package_names(lseq.take(i as int)) =~= cargo_package_names(
                        lseq.take(i - 1),
                    ));
                },
            }
        }
    }
    proof {
        assert(lseq.take(lseq.len() as int) =~= lseq);
    }
    r
}

} // verus!
