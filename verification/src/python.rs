//! The Python ecosystem: virtual environments, tool caches, egg metadata,
//! pip's global cache, and a parser for `pip list --format=freeze` output.

use vstd::prelude::*;

verus! {

use crate::languages::{
    CachePathSpec, DescriptorSpec, DetectionPattern, GlobalCachePath, LanguageCleaner,
    OrphanedPackage, PatternSpec, ProbeCommand, ProbeCommandSpec, copy_strings, packages_of,
};
use crate::text::{
    chars_to_string, index_of_pair, lemma_index_of_pair_found, lemma_index_of_pair_props,
    split_lines, split_lines_chars, str_to_chars, subrange_chars, trim, trim_chars, find_pair,
};

pub struct PythonCleaner;

/// The detection rules of the Python ecosystem, in priority order.
pub open spec fn python_patterns() -> Seq<PatternSpec> {
    seq![
        PatternSpec::Name("__pycache__"@),
        PatternSpec::Name(".venv"@),
        PatternSpec::Name("venv"@),
        PatternSpec::Name("env"@),
        PatternSpec::Name(".tox"@),
        PatternSpec::Name(".pytest_cache"@),
        PatternSpec::Name(".mypy_cache"@),
        PatternSpec::Name(".ruff_cache"@),
        PatternSpec::Edge("*.egg-info"@),
        PatternSpec::WithSibling { dir_name: "dist"@, sibling: "setup.py"@ },
    ]
}

/// The Python descriptor.
pub open spec fn python_descriptor() -> DescriptorSpec {
    DescriptorSpec { name: "Python"@, icon: "\u{1F40D}"@, patterns: python_patterns() }
}

/// Python's conventional global cache locations under a home directory.
pub open spec fn python_cache_paths(home: Seq<Seq<char>>) -> Seq<CachePathSpec> {
    seq![
        CachePathSpec { path: home.push(".cache"@).push("pip"@), description: "pip cache"@ },
        CachePathSpec {
            path: home.push(".local"@).push("lib"@),
            description: "Python user site-packages"@,
        },
    ]
}

/// Python's probe command: a freeze-format listing, with `pip3` as fallback.
pub open spec fn python_probe_command() -> Option<ProbeCommandSpec> {
    Some(
        ProbeCommandSpec {
            program: "pip"@,
            args: seq!["list"@, "--format=freeze"@],
            fallback_program: Some("pip3"@),
        },
    )
}

impl LanguageCleaner for PythonCleaner {
    open spec fn spec_name(&self) -> Seq<char> {
        python_descriptor().name
    }

    open spec fn spec_icon(&self) -> Seq<char> {
        python_descriptor().icon
    }

    open spec fn spec_patterns(&self) -> Seq<PatternSpec> {
        python_patterns()
    }

    open spec fn spec_cache_paths(&self, home: Seq<Seq<char>>) -> Seq<CachePathSpec> {
        python_cache_paths(home)
    }

    open spec fn spec_probe_command(&self) -> Option<ProbeCommandSpec> {
        python_probe_command()
    }

    fn name(&self) -> String {
        "Python".to_owned()
    }

    fn icon(&self) -> String {
        "\u{1F40D}".to_owned()
    }

    fn project_patterns(&self) -> (r: Vec<DetectionPattern>) {
        let mut v: Vec<DetectionPattern> = Vec::new();
        v.push(DetectionPattern::DirectoryName("__pycache__".to_owned()));
        v.push(DetectionPattern::DirectoryName(".venv".to_owned()));
        v.push(DetectionPattern::DirectoryName("venv".to_owned()));
        v.push(DetectionPattern::DirectoryName("env".to_owned()));
        v.push(DetectionPattern::DirectoryName(".tox".to_owned()));
        v.push(DetectionPattern::DirectoryName(".pytest_cache".to_owned()));
        v.push(DetectionPattern::DirectoryName(".mypy_cache".to_owned()));
        v.push(DetectionPattern::DirectoryName(".ruff_cache".to_owned()));
        v.push(DetectionPattern::GlobPattern("*.egg-info".to_owned()));
        v.push(
            DetectionPattern::DirectoryWithSibling {
                dir_name: "dist".to_owned(),
                sibling: "setup.py".to_owned(),
            },
        );
        proof {
            assert(v.deep_view() =~= python_patterns());
        }
        v
    }

    fn global_cache_paths(&self, home: &Vec<String>) -> (r: Vec<GlobalCachePath>) {
        let mut v: Vec<GlobalCachePath> = Vec::new();
        let mut p1 = copy_strings(home);
        p1.push(".cache".to_owned());
        p1.push("pip".to_owned());
        proof {
            assert(p1.deep_view() =~= home.deep_view().push(".cache"@).push("pip"@));
        }
        v.push(GlobalCachePath { path: p1, description: "pip cache".to_owned() });
        let mut p2 = copy_strings(home);
        p2.push(".local".to_owned());
        p2.push("lib".to_owned());
        proof {
            assert(p2.deep_view() =~= home.deep_view().push(".local"@).push("lib"@));
        }
        v.push(
            GlobalCachePath { path: p2, description: "Python user site-packages".to_owned() },
        );
        proof {
            assert(v.deep_view() =~= python_cache_paths(home.deep_view()));
        }
        v
    }

    fn probe_command(&self) -> (r: Option<ProbeCommand>) {
        let mut args: Vec<String> = Vec::new();
        args.push("list".to_owned());
        args.push("--format=freeze".to_owned());
        proof {
            assert(args.deep_view() =~= seq!["list"@, "--format=freeze"@]);
        }
        let cmd = ProbeCommand {
            program: "pip".to_owned(),
            args,
            fallback_program: Some("pip3".to_owned()),
        };
        let r = Some(cmd);
        proof {
            assert(r.deep_view() =~= python_probe_command());
        }
        r
    }
}

/// The package name a freeze-format line carries: the trimmed text before the
/// first `==`; nothing on blank lines or lines without the separator.
pub open spec fn pip_line_package(line: Seq<char>) -> Option<Seq<char>> {
    let t = trim(line);
    if t.len() == 0 {
        None
    } else {
        let i = index_of_pair(t, '=', '=') as int;
        if i + 2 <= t.len() {
            Some(trim(t.take(i)))
        } else {
            None
        }
    }
}

/// The package names of a whole freeze-format listing, line by line;
/// malformed lines are skipped, never an error.
pub open spec fn pip_package_names(lines: Seq<Seq<char>>) -> Seq<Seq<char>>
    decreases lines.len(),
{
    if lines.len() == 0 {
        Seq::empty()
    } else {
        pip_package_names(lines.drop_last()) + match pip_line_package(lines.last()) {
            Some(n) => seq![n],
            None => Seq::<Seq<char>>::empty(),
        }
    }
}

/// The package name of one freeze-format line.
pub fn pip_line(line: &Vec<char>) -> (r: Option<Vec<char>>)
    ensures
        r.deep_view() == pip_line_package(line@),
{
    let t = trim_chars(line);
    if t.len() == 0 {
        return None;
    }
    let i = find_pair(&t, '=', '=');
    proof {
        lemma_index_of_pair_props(t@, '=', '=');
        lemma_index_of_pair_found(t@, '=', '=');
    }
    if i < t.len() {
        let head = subrange_chars(&t, 0, i);
        proof {
            assert(head@ =~= t@.take(i as int));
        }
        let nm = trim_chars(&head);
        proof {
            assert(nm.deep_view() =~= nm@);
        }
        Some(nm)
    } else {
        None
    }
}

/// Parse the output of Python's freeze-format package listing into
/// orphaned-package candidates. Sizes and last-used markers are unknown to
/// this listing and are reported as zero and absent.
pub fn parse_pip_listing(output: &str) -> (r: Vec<OrphanedPackage>)
    ensures
        r.deep_view() == packages_of(pip_package_names(split_lines(output@))),
{
    let chars = str_to_chars(output);
    let lines = split_lines_chars(&chars);
    let ghost lseq = split_lines(output@);
    let mut r: Vec<OrphanedPackage> = Vec::new();
    let mut i: usize = 0;
    while i < lines.len()
        invariant
            i <= lines@.len(),
            lines.deep_view() == lseq,
            lseq.len() == lines@.len(),
            r.deep_view() == packages_of(pip_package_names(lseq.take(i as int))),
        decreases lines@.len() - i,
    {
        let ghost pre = r.deep_view();
        proof {
            assert(lines@[i as int].deep_view() =~= lines@[i as int]@);
            assert(lines.deep_view()[i as int] == lines@[i as int].deep_view());
        }
        match pip_line(&lines[i]) {
            Some(nm) => {
                proof {
                    assert(nm.deep_view() =~= nm@);
                }
                let name = chars_to_string(&nm);
                r.push(OrphanedPackage { name, size: 0, last_used: None });
            },
            None => {},
        }
        i = i + 1;
        proof {
            assert(lseq.take(i as int).drop_last() =~= lseq.take(i - 1));
            assert(lseq.take(i as int).last() == lseq[i - 1]);
            match pip_line_package(lseq[i - 1]) {
                Some(n) => {
                    assert(r.deep_view() =~= pre.push(
                        crate::languages::OrphanedPackageSpec {
                            name: n,
                            size: 0u64,
                            last_used: None,
                        },
                    ));
                    assert(pip_package_names(lseq.take(i as int)) =~= pip_package_names(
                        lseq.take(i - 1),
                    ).push(n));
                    assert(packages_of(pip_package_names(lseq.take(i as int))) =~= packages_of(
                        pip_package_names(lseq.take(i - 1)),
                    ).push(
                        crate::languages::OrphanedPackageSpec {
                            name: n,
                            size: 0u64,
                            last_used: None,
                        },
                    ));
                },
                None => {
                    assert(pip_package_names(lseq.take(i as int)) =~= pip_package_names(
                        lseq.take(i - 1),
                    ));
                },
            }
        }
    }
    proof {
        assert(lseq.take(lseq.len() as int) =~= lseq);
    }
    r
}

} // verus!
