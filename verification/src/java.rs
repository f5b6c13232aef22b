//! The Java ecosystem: Gradle and Maven build output and caches, and the
//! Gradle wrapper-distribution probe, which reads directory names rather
//! than a command's output.

use vstd::prelude::*;

verus! {

use crate::languages::{
    CachePathSpec, DescriptorSpec, DetectionPattern, GlobalCachePath, LanguageCleaner,
    OrphanedPackage, PatternSpec, ProbeCommand, ProbeCommandSpec, copy_strings, packages_of,
};
use crate::text::{is_prefix_of, starts_with_chars, str_to_chars};

pub struct JavaCleaner;

/// The detection rules of the Java ecosystem, in priority order.
pub open spec fn java_patterns() -> Seq<PatternSpec> {
    seq![
        PatternSpec::Name(".gradle"@),
        PatternSpec::WithSibling { dir_name: "build"@, sibling: "build.gradle"@ },
        PatternSpec::WithSibling { dir_name: "build"@, sibling: "build.gradle.kts"@ },
        PatternSpec::WithSibling { dir_name: "build"@, sibling: "pom.xml"@ },
    ]
}

/// The Java descriptor.
pub open spec fn java_descriptor() -> DescriptorSpec {
    DescriptorSpec { name: "Java"@, icon: "\u{2615}"@, patterns: java_patterns() }
}

/// Java's conventional global cache locations under a home directory.
pub open spec fn java_cache_paths(home: Seq<Seq<char>>) -> Seq<CachePathSpec> {
    seq![
        CachePathSpec {
            path: home.push(".m2"@).push("repository"@),
            description: "Maven repository"@,
        },
        CachePathSpec {
            path: home.push(".gradle"@).push("caches"@),
            description: "Gradle caches"@,
        },
        CachePathSpec {
            path: home.push(".gradle"@).push("wrapper"@).push("dists"@),
            description: "Gradle wrapper distributions"@,
        },
    ]
}

impl LanguageCleaner for JavaCleaner {
    open spec fn spec_name(&self) -> Seq<char> {
        java_descriptor().name
    }

    open spec fn spec_icon(&self) -> Seq<char> {
        java_descriptor().icon
    }

    open spec fn spec_patterns(&self) -> Seq<PatternSpec> {
        java_patterns()
    }

    open spec fn spec_cache_paths(&self, home: Seq<Seq<char>>) -> Seq<CachePathSpec> {
        java_cache_paths(home)
    }

    /// Java's probe reads the wrapper-distribution directory itself; it runs
    /// no external command, so there is none to describe here.
    open spec fn spec_probe_command(&self) -> Option<ProbeCommandSpec> {
        None
    }

    fn name(&self) -> String {
        "Java".to_owned()
    }

    fn icon(&self) -> String {
        "\u{2615}".to_owned()
    }

    fn project_patterns(&self) -> (r: Vec<DetectionPattern>) {
        let mut v: Vec<DetectionPattern> = Vec::new();
        v.push(DetectionPattern::DirectoryName(".gradle".to_owned()));
        v.push(
            DetectionPattern::DirectoryWithSibling {
                dir_name: "build".to_owned(),
                sibling: "build.gradle".to_owned(),
            },
        );
        v.push(
            DetectionPattern::DirectoryWithSibling {
                dir_name: "build".to_owned(),
                sibling: "build.gradle.kts".to_owned(),
            },
        );
        v.push(
            DetectionPattern::DirectoryWithSibling {
                dir_name: "build".to_owned(),
                sibling: "pom.xml".to_owned(),
            },
        );
        proof {
            assert(v.deep_view() =~= java_patterns());
        }
        v
    }

    fn global_cache_paths(&self, home: &Vec<String>) -> (r: Vec<GlobalCachePath>) {
        let mut v: Vec<GlobalCachePath> = Vec::new();
        let mut p1 = copy_strings(home);
        p1.push(".m2".to_owned());
        p1.push("repository".to_owned());
        proof {
            assert(p1.deep_view() =~= home.deep_view().push(".m2"@).push("repository"@));
        }
        v.push(GlobalCachePath { path: p1, description: "Maven repository".to_owned() });
        let mut p2 = copy_strings(home);
        p2.push(".gradle".to_owned());
        p2.push("caches".to_owned());
        proof {
            assert(p2.deep_view() =~= home.deep_view().push(".gradle"@).push("caches"@));
        }
        v.push(GlobalCachePath { path: p2, description: "Gradle caches".to_owned() });
        let mut p3 = copy_strings(home);
        p3.push(".gradle".to_owned());
        p3.push("wrapper".to_owned());
        p3.push("dists".to_owned());
        proof {
            assert(p3.deep_view() =~= home.deep_view().push(".gradle"@).push("wrapper"@).push(
                "dists"@,
            ));
        }
        v.push(
            GlobalCachePath { path: p3, description: "Gradle wrapper distributions".to_owned() },
        );
        proof {
            assert(v.deep_view() =~= java_cache_paths(home.deep_view()));
        }
        v
    }

    fn probe_command(&self) -> (r: Option<ProbeCommand>) {
        None
    }
}

/// The wrapper-distribution directory names that count as installed Gradle
/// versions: those starting with `gradle-`.
pub open spec fn gradle_dist_names(names: Seq<Seq<char>>) -> Seq<Seq<char>>
    decreases names.len(),
{
    if names.len() == 0 {
        Seq::empty()
    } else {
        gradle_dist_names(names.drop_last()) + (if is_prefix_of("gradle-"@, names.last()) {
            seq![names.last()]
        } else {
            Seq::<Seq<char>>::empty()
        })
    }
}

/// Turn the entry names of the wrapper-distribution directory into
/// orphaned-package candidates: one per `gradle-` directory, in the order
/// given. Sizes and last-used markers are unknown here and are reported as
/// zero and absent.
pub fn wrapper_dist_packages(names: &Vec<String>) -> (r: Vec<OrphanedPackage>)
    ensures
        r.deep_view() == packages_of(gradle_dist_names(names.deep_view())),
{
    let prefix = str_to_chars("gradle-");
    let ghost nseq = names.deep_view();
    let mut r: Vec<OrphanedPackage> = Vec::new();
    let mut i: usize = 0;
    while i < names.len()
        invariant
            i <= names@.len(),
            nseq == names.deep_view(),
            nseq.len() == names@.len(),
            prefix@ == "gradle-"@,
            r.deep_view() == packages_of(gradle_dist_names(nseq.take(i as int))),
        decreases names@.len() - i,
    {
        let ghost pre = r.deep_view();
        let chars = str_to_chars(names[i].as_str());
        proof {
            assert(chars@ == nseq[i as int]);
        }
        if starts_with_chars(&chars, &prefix) {
            r.push(OrphanedPackage { name: names[i].clone(), size: 0, last_used: None });
        }
        i = i + 1;
        proof {
            assert(nseq.take(i as int).drop_last() =~= nseq.take(i - 1));
            assert(nseq.take(i as int).last() == nseq[i - 1]);
            if is_prefix_of("gradle-"@, nseq[i - 1]) {
                assert(r.deep_view() =~= pre.push(
                    crate::languages::OrphanedPackageSpec {
                        name: nseq[i - 1],
                        size: 0u64,
                        last_used: None,
                    },
                ));
                assert(gradle_dist_names(nseq.take(i as int)) =~= gradle_dist_names(
                    nseq.take(i - 1),
                ).push(nseq[i - 1]));
                assert(packages_of(gradle_dist_names(nseq.take(i as int))) =~= packages_of(
                    gradle_dist_names(nseq.take(i - 1)),
                ).push(
                    crate::languages::OrphanedPackageSpec {
                        name: nseq[i - 1],
                        size: 0u64,
                        last_used: None,
                    },
                ));
            } else {
                assert(gradle_dist_names(nseq.take(i as int)) =~= gradle_dist_names(
                    nseq.take(i - 1),
                ));
            }
        }
    }
    proof {
        assert(nseq.take(nseq.len() as int) =~= nseq);
    }
    r
}

} // verus!
