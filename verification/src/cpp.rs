//! The C++ ecosystem: CMake and Make build directories, IDE build output,
//! and Conan/vcpkg global caches. It has no orphaned-package probe.

use vstd::prelude::*;

verus! {

use crate::languages::{
    CachePathSpec, DescriptorSpec, DetectionPattern, GlobalCachePath, LanguageCleaner,
    PatternSpec, ProbeCommand, ProbeCommandSpec, copy_strings,
};

pub struct CppCleaner;

/// The detection rules of the C++ ecosystem, in priority order.
pub open spec fn cpp_patterns() -> Seq<PatternSpec> {
    seq![
        PatternSpec::WithSibling { dir_name: "build"@, sibling: "CMakeLists.txt"@ },
        PatternSpec::WithSibling { dir_name: "build"@, sibling: "Makefile"@ },
        PatternSpec::Edge("cmake-build-*"@),
        PatternSpec::Name("out"@),
    ]
}

/// The C++ descriptor.
pub open spec fn cpp_descriptor() -> DescriptorSpec {
    DescriptorSpec { name: "C++"@, icon: "\u{2699}\u{FE0F}"@, patterns: cpp_patterns() }
}

/// C++'s conventional global cache locations under a home directory.
pub open spec fn cpp_cache_paths(home: Seq<Seq<char>>) -> Seq<CachePathSpec> {
    seq![
        CachePathSpec {
            path: home.push(".conan"@).push("data"@),
            description: "Conan package cache"@,
        },
        CachePathSpec {
            path: home.push("vcpkg"@).push("installed"@),
            description: "vcpkg installed packages"@,
        },
        CachePathSpec {
            path: home.push("vcpkg"@).push("buildtrees"@),
            description: "vcpkg build trees"@,
        },
    ]
}

impl LanguageCleaner for CppCleaner {
    open spec fn spec_name(&self) -> Seq<char> {
        cpp_descriptor().name
    }

    open spec fn spec_icon(&self) -> Seq<char> {
        cpp_descriptor().icon
    }

    open spec fn spec_patterns(&self) -> Seq<PatternSpec> {
        cpp_patterns()
    }

    open spec fn spec_cache_paths(&self, home: Seq<Seq<char>>) -> Seq<CachePathSpec> {
        cpp_cache_paths(home)
    }

    /// C++ has no orphaned-package probe.
    open spec fn spec_probe_command(&self) -> Option<ProbeCommandSpec> {
        None
    }

    fn name(&self) -> String {
        "C++".to_owned()
    }

    fn icon(&self) -> String {
        "\u{2699}\u{FE0F}".to_owned()
    }

    fn project_patterns(&self) -> (r: Vec<DetectionPattern>) {
        let mut v: Vec<DetectionPattern> = Vec::new();
        v.push(
            DetectionPattern::DirectoryWithSibling {
                dir_name: "build".to_owned(),
                sibling: "CMakeLists.txt".to_owned(),
            },
        );
        v.push(
            DetectionPattern::DirectoryWithSibling {
                dir_name: "build".to_owned(),
                sibling: "Makefile".to_owned(),
            },
        );
        v.push(DetectionPattern::GlobPattern("cmake-build-*".to_owned()));
        v.push(DetectionPattern::DirectoryName("out".to_owned()));
        proof {
            assert(v.deep_view() =~= cpp_patterns());
        }
        v
    }

    fn global_cache_paths(&self, home: &Vec<String>) -> (r: Vec<GlobalCachePath>) {
        let mut v: Vec<GlobalCachePath> = Vec::new();
        let mut p1 = copy_strings(home);
        p1.push(".conan".to_owned());
        p1.push("data".to_owned());
        proof {
            assert(p1.deep_view() =~= home.deep_view().push(".conan"@).push("data"@));
        }
        v.push(GlobalCachePath { path: p1, description: "Conan package cache".to_owned() });
        let mut p2 = copy_strings(home);
        p2.push("vcpkg".to_owned());
        p2.push("installed".to_owned());
        proof {
            assert(p2.deep_view() =~= home.deep_view().push("vcpkg"@).push("installed"@));
        }
        v.push(GlobalCachePath { path: p2, description: "vcpkg installed packages".to_owned() });
        let mut p3 = copy_strings(home);
        p3.push("vcpkg".to_owned());
        p3.push("buildtrees".to_owned());
        proof {
            assert(p3.deep_view() =~= home.deep_view().push("vcpkg"@).push("buildtrees"@));
        }
        v.push(GlobalCachePath { path: p3, description: "vcpkg build trees".to_owned() });
        proof {
            assert(v.deep_view() =~= cpp_cache_paths(home.deep_view()));
        }
        v
    }

    fn probe_command(&self) -> (r: Option<ProbeCommand>) {
        None
    }
}

} // verus!
