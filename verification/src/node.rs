//! The Node.js ecosystem: package directories, framework caches, npm and
//! Yarn global caches, and a parser for `npm list -g --depth=0` output.

use vstd::prelude::*;

verus! {

use crate::languages::{
    CachePathSpec, DescriptorSpec, DetectionPattern, GlobalCachePath, LanguageCleaner,
    OrphanedPackage, PatternSpec, ProbeCommand, ProbeCommandSpec, copy_strings, packages_of,
};
use crate::text::{
    chars_to_string, find_char_from, index_of_char, split_lines,
    split_lines_chars, str_to_chars, strip_prefix_all, strip_prefix_all_chars, subrange_chars,
    trim, trim_chars,
};

pub struct NodeCleaner;

/// The detection rules of the Node.js ecosystem, in priority order.
pub open spec fn node_patterns() -> Seq<PatternSpec> {
    seq![
        PatternSpec::Name("node_modules"@),
        PatternSpec::Name(".next"@),
        PatternSpec::Name(".nuxt"@),
        PatternSpec::Name(".parcel-cache"@),
        PatternSpec::Name("bower_components"@),
        PatternSpec::WithSibling { dir_name: "dist"@, sibling: "package.json"@ },
    ]
}

/// The Node.js descriptor.
pub open spec fn node_descriptor() -> DescriptorSpec {
    DescriptorSpec { name: "Node.js"@, icon: "\u{1F7E2}"@, patterns: node_patterns() }
}

/// Node.js's conventional global cache locations under a home directory.
pub open spec fn node_cache_paths(home: Seq<Seq<char>>) -> Seq<CachePathSpec> {
    seq![
        CachePathSpec {
            path: home.push(".npm"@).push("_cacache"@),
            description: "npm cache"@,
        },
        CachePathSpec {
            path: home.push(".yarn"@).push("cache"@),
            description: "Yarn cache"@,
        },
    ]
}

/// Node.js's probe command: a shallow global listing; no fallback program.
pub open spec fn node_probe_command() -> Option<ProbeCommandSpec> {
    Some(
        ProbeCommandSpec {
            program: "npm"@,
            args: seq!["list"@, "-g"@, "--depth=0"@],
            fallback_program: None,
        },
    )
}

impl LanguageCleaner for NodeCleaner {
    open spec fn spec_name(&self) -> Seq<char> {
        node_descriptor().name
    }

    open spec fn spec_icon(&self) -> Seq<char> {
        node_descriptor().icon
    }

    open spec fn spec_patterns(&self) -> Seq<PatternSpec> {
        node_patterns()
    }

    open spec fn spec_cache_paths(&self, home: Seq<Seq<char>>) -> Seq<CachePathSpec> {
        node_cache_paths(home)
    }

    open spec fn spec_probe_command(&self) -> Option<ProbeCommandSpec> {
        node_probe_command()
    }

    fn name(&self) -> String {
        "Node.js".to_owned()
    }

    fn icon(&self) -> String {
        "\u{1F7E2}".to_owned()
    }

    fn project_patterns(&self) -> (r: Vec<DetectionPattern>) {
        let mut v: Vec<DetectionPattern> = Vec::new();
        v.push(DetectionPattern::DirectoryName("node_modules".to_owned()));
        v.push(DetectionPattern::DirectoryName(".next".to_owned()));
        v.push(DetectionPattern::DirectoryName(".nuxt".to_owned()));
        v.push(DetectionPattern::DirectoryName(".parcel-cache".to_owned()));
        v.push(DetectionPattern::DirectoryName("bower_components".to_owned()));
        v.push(
            DetectionPattern::DirectoryWithSibling {
                dir_name: "dist".to_owned(),
                sibling: "package.json".to_owned(),
            },
        );
        proof {
            assert(v.deep_view() =~= node_patterns());
        }
        v
    }

    fn global_cache_paths(&self, home: &Vec<String>) -> (r: Vec<GlobalCachePath>) {
        let mut v: Vec<GlobalCachePath> = Vec::new();
        let mut p1 = copy_strings(home);
        p1.push(".npm".to_owned());
        p1.push("_cacache".to_owned());
        proof {
            assert(p1.deep_view() =~= home.deep_view().push(".npm"@).push("_cacache"@));
        }
        v.push(GlobalCachePath { path: p1, description: "npm cache".to_owned() });
        let mut p2 = copy_strings(home);
        p2.push(".yarn".to_owned());
        p2.push("cache".to_owned());
        proof {
            assert(p2.deep_view() =~= home.deep_view().push(".yarn"@).push("cache"@));
        }
        v.push(GlobalCachePath { path: p2, description: "Yarn cache".to_owned() });
        proof {
            assert(v.deep_view() =~= node_cache_paths(home.deep_view()));
        }
        v
    }

    fn probe_command(&self) -> (r: Option<ProbeCommand>) {
        let mut args: Vec<String> = Vec::new();
        args.push("list".to_owned());
        args.push("-g".to_owned());
        args.push("--depth=0".to_owned());
        proof {
            assert(args.deep_view() =~= seq!["list"@, "-g"@, "--depth=0"@]);
        }
        let cmd = ProbeCommand { program: "npm".to_owned(), args, fallback_program: None };
        let r = Some(cmd);
        proof {
            assert(r.deep_view() =~= node_probe_command());
        }
        r
    }
}

/// A listing line with its tree-drawing glyphs and surrounding whitespace
/// removed.
pub open spec fn npm_clean(t: Seq<char>) -> Seq<char> {
    trim(
        strip_prefix_all(
            strip_prefix_all(strip_prefix_all(t, "\u{251C}\u{2500}\u{2500}"@), "\u{2514}\u{2500}\u{2500}"@),
            "\u{2502}"@,
        ),
    )
}

/// The package name a global-listing line carries: the text before the
/// version marker `@`, where a leading `@` opens a scoped name that runs to
/// the second `@`; nothing on blank lines, header lines without `@`, or
/// scoped lines missing a second `@`.
pub open spec fn npm_line_package(line: Seq<char>) -> Option<Seq<char>> {
    let t = trim(line);
    if t.len() == 0 || index_of_char(t, '@') >= t.len() {
        None
    } else {
        let c = npm_clean(t);
        if c.len() > 0 && c[0] == '@' {
            let j = index_of_char(c.drop_first(), '@') as int;
            if j < c.len() - 1 {
                Some(trim(c.take(j + 1)))
            } else {
                None
            }
        } else {
            let j = index_of_char(c, '@') as int;
            if j < c.len() {
                Some(trim(c.take(j)))
            } else {
                None
            }
        }
    }
}

/// The package names of a whole global listing, line by line; malformed
/// lines are skipped, never an error.
pub open spec fn npm_package_names(lines: Seq<Seq<char>>) -> Seq<Seq<char>>
    decreases lines.len(),
{
    if lines.len() == 0 {
        Seq::empty()
    } else {
        npm_package_names(lines.drop_last()) + match npm_line_package(lines.last()) {
            Some(n) => seq![n],
            None => Seq::<Seq<char>>::empty(),
        }
    }
}

/// The package name of one global-listing line.
pub fn npm_line(line: &Vec<char>) -> (r: Option<Vec<char>>)
    ensures
        r.deep_view() == npm_line_package(line@),
{
    let t = trim_chars(line);
    let at_first = find_char_from(&t, '@', 0);
    proof {
        assert(t@.skip(0) =~= t@);
    }
    if t.len() == 0 || at_first >= t.len() {
        return None;
    }
    let branch = str_to_chars("\u{251C}\u{2500}\u{2500}");
    let corner = str_to_chars("\u{2514}\u{2500}\u{2500}");
    let bar = str_to_chars("\u{2502}");
    let c = trim_chars(
        &strip_prefix_all_chars(
            &strip_prefix_all_chars(&strip_prefix_all_chars(&t, &branch), &corner),
            &bar,
        ),
    );
    proof {
        assert(c@ == npm_clean(t@));
    }
    if c.len() > 0 && c[0] == '@' {
        let second = find_char_from(&c, '@', 1);
        proof {
            assert(c@.skip(1) =~= c@.drop_first());
        }
        if second < c.len() {
            let head = subrange_chars(&c, 0, second);
            proof {
                assert(head@ =~= c@.take(second as int));
                assert(second - 1 == index_of_char(c@.drop_first(), '@'));
            }
            let nm = trim_chars(&head);
            proof {
                assert(nm.deep_view() =~= nm@);
            }
            Some(nm)
        } else {
            None
        }
    } else {
        let j = find_char_from(&c, '@', 0);
        proof {
            assert(c@.skip(0) =~= c@);
        }
        if j < c.len() {
            let head = subrange_chars(&c, 0, j);
            proof {
                assert(head@ =~= c@.take(j as int));
            }
            let nm = trim_chars(&head);
            proof {
                assert(nm.deep_view() =~= nm@);
            }
            Some(nm)
        } else {
            None
        }
    }
}

/// Parse the output of the shallow global listing into orphaned-package
/// candidates. Sizes and last-used markers are unknown to this listing and
/// are reported as zero and absent.
pub fn parse_npm_listing(output: &str) -> (r: Vec<OrphanedPackage>)
    ensures
        r.deep_view() == packages_of(npm_package_names(split_lines(output@))),
{
    let chars = str_to_chars(output);
    let lines = split_lines_chars(&chars);
    let ghost lseq = split_lines(output@);
    let mut r: Vec<OrphanedPackage> = Vec::new();
    let mut i: usize = 0;
    while i < lines.len()
        invariant
            i <= lines@.len(),
            lines.deep_view() == lseq,
            lseq.len() == lines@.len(),
            r.deep_view() == packages_of(npm_package_names(lseq.take(i as int))),
        decreases lines@.len() - i,
    {
        let ghost pre = r.deep_view();
        proof {
            assert(lines@[i as int].deep_view() =~= lines@[i as int]@);
            assert(lines.deep_view()[i as int] == lines@[i as int].deep_view());
        }
        match npm_line(&lines[i]) {
            Some(nm) => {
                proof {
                    assert(nm.deep_view() =~= nm@);
                }
                let name = chars_to_string(&nm);
                r.push(OrphanedPackage { name, size: 0, last_used: None });
            },
            None => {},
        }
        i = i + 1;
        proof {
            assert(lseq.take(i as int).drop_last() =~= lseq.take(i - 1));
            assert(lseq.take(i as int).last() == lseq[i - 1]);
            match npm_line_package(lseq[i - 1]) {
                Some(n) => {
                    assert(r.deep_view() =~= pre.push(
                        crate::languages::OrphanedPackageSpec {
                            name: n,
                            size: 0u64,
                            last_used: None,
                        },
                    ));
                    assert(npm_package_names(lseq.take(i as int)) =~= npm_package_names(
                        lseq.take(i - 1),
                    ).push(n));
                    assert(packages_of(npm_package_names(lseq.take(i as int))) =~= packages_of(
                        npm_package_names(lseq.take(i - 1)),
                    ).push(
                        crate::languages::OrphanedPackageSpec {
                            name: n,
                            size: 0u64,
                            last_used: None,
                        },
                    ));
                },
                None => {
                    assert(npm_package_names(lseq.take(i as int)) =~= npm_package_names(
                        lseq.take(i - 1),
                    ));
                },
            }
        }
    }
    proof {
        assert(lseq.take(lseq.len() as int) =~= lseq);
    }
    r
}

} // verus!
