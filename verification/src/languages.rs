//! The ecosystem catalog: detection rules, descriptors, global cache
//! locations, probe commands, and name resolution.

use vstd::prelude::*;

verus! {

use crate::text::{
    is_prefix_of, lower, lower_chars, normalize_chars, normalized, str_eq, str_to_chars,
    starts_with_chars, eq_chars,
};

/// A declarative rule recognizing one kind of disposable artifact directory.
pub enum DetectionPattern {
    /// The directory's base name equals the literal.
    DirectoryName(String),
    /// The base name equals `dir_name` and the file `sibling` exists in the
    /// directory's parent.
    DirectoryWithSibling { dir_name: String, sibling: String },
    /// The base name starts with (`stem*`) or ends with (`*stem`) a literal.
    GlobPattern(String),
}

/// The mathematical form of a detection rule.
pub enum PatternSpec {
    Name(Seq<char>),
    WithSibling { dir_name: Seq<char>, sibling: Seq<char> },
    Edge(Seq<char>),
}

impl View for DetectionPattern {
    type V = PatternSpec;

    open spec fn view(&self) -> PatternSpec {
        match self {
            DetectionPattern::DirectoryName(n) => PatternSpec::Name(n@),
            DetectionPattern::DirectoryWithSibling { dir_name, sibling } => {
                PatternSpec::WithSibling { dir_name: dir_name@, sibling: sibling@ }
            },
            DetectionPattern::GlobPattern(g) => PatternSpec::Edge(g@),
        }
    }
}

impl DeepView for DetectionPattern {
    type V = PatternSpec;

    open spec fn deep_view(&self) -> PatternSpec {
        self.view()
    }
}

/// A conventional location of an ecosystem's global cache, as a path given by
/// its components, with a human-readable description.
pub struct GlobalCachePath {
    pub path: Vec<String>,
    pub description: String,
}

/// The mathematical form of a global cache location.
pub struct CachePathSpec {
    pub path: Seq<Seq<char>>,
    pub description: Seq<char>,
}

impl View for GlobalCachePath {
    type V = CachePathSpec;

    open spec fn view(&self) -> CachePathSpec {
        CachePathSpec { path: self.path.deep_view(), description: self.description@ }
    }
}

impl DeepView for GlobalCachePath {
    type V = CachePathSpec;

    open spec fn deep_view(&self) -> CachePathSpec {
        self.view()
    }
}

/// A globally installed package reported by an ecosystem's package manager.
/// Size and last-used marker are best effort: zero and absent when the
/// listing does not carry them.
pub struct OrphanedPackage {
    pub name: String,
    pub size: u64,
    pub last_used: Option<String>,
}

/// The mathematical form of an orphaned-package record.
pub struct OrphanedPackageSpec {
    pub name: Seq<char>,
    pub size: u64,
    pub last_used: Option<Seq<char>>,
}

impl View for OrphanedPackage {
    type V = OrphanedPackageSpec;

    open spec fn view(&self) -> OrphanedPackageSpec {
        OrphanedPackageSpec {
            name: self.name@,
            size: self.size,
            last_used: self.last_used.deep_view(),
        }
    }
}

impl DeepView for OrphanedPackage {
    type V = OrphanedPackageSpec;

    open spec fn deep_view(&self) -> OrphanedPackageSpec {
        self.view()
    }
}

/// Package records made from a list of parsed names: size and last-used are
/// unknown to every listing this library parses.
pub open spec fn packages_of(names: Seq<Seq<char>>) -> Seq<OrphanedPackageSpec> {
    names.map_values(
        |n: Seq<char>| OrphanedPackageSpec { name: n, size: 0u64, last_used: None },
    )
}

/// The external command an ecosystem's orphaned-package probe runs, with an
/// optional fallback program name tried with the same arguments when the
/// primary is missing or fails.
pub struct ProbeCommand {
    pub program: String,
    pub args: Vec<String>,
    pub fallback_program: Option<String>,
}

/// The mathematical form of a probe command.
pub struct ProbeCommandSpec {
    pub program: Seq<char>,
    pub args: Seq<Seq<char>>,
    pub fallback_program: Option<Seq<char>>,
}

impl View for ProbeCommand {
    type V = ProbeCommandSpec;

    open spec fn view(&self) -> ProbeCommandSpec {
        ProbeCommandSpec {
            program: self.program@,
            args: self.args.deep_view(),
            fallback_program: self.fallback_program.deep_view(),
        }
    }
}

impl DeepView for ProbeCommand {
    type V = ProbeCommandSpec;

    open spec fn deep_view(&self) -> ProbeCommandSpec {
        self.view()
    }
}

/// One ecosystem's identity and detection rules, in the data form the scanner
/// consumes.
pub struct EcosystemDescriptor {
    pub name: String,
    pub icon: String,
    pub patterns: Vec<DetectionPattern>,
}

/// The mathematical form of an ecosystem descriptor.
pub struct DescriptorSpec {
    pub name: Seq<char>,
    pub icon: Seq<char>,
    pub patterns: Seq<PatternSpec>,
}

impl View for EcosystemDescriptor {
    type V = DescriptorSpec;

    open spec fn view(&self) -> DescriptorSpec {
        DescriptorSpec {
            name: self.name@,
            icon: self.icon@,
            patterns: self.patterns.deep_view(),
        }
    }
}

impl DeepView for EcosystemDescriptor {
    type V = DescriptorSpec;

    open spec fn deep_view(&self) -> DescriptorSpec {
        self.view()
    }
}

/// The capability set one ecosystem declares: identity, icon, detection
/// rules, conventional global cache locations under a given home directory,
/// and the optional probe command whose listing output its parser reads.
pub trait LanguageCleaner {
    spec fn spec_name(&self) -> Seq<char>;

    spec fn spec_icon(&self) -> Seq<char>;

    spec fn spec_patterns(&self) -> Seq<PatternSpec>;

    spec fn spec_cache_paths(&self, home: Seq<Seq<char>>) -> Seq<CachePathSpec>;

    spec fn spec_probe_command(&self) -> Option<ProbeCommandSpec>;

    /// Display name of the ecosystem.
    fn name(&self) -> (r: String)
        ensures
            r@ == self.spec_name(),
    ;

    /// Display icon of the ecosystem.
    fn icon(&self) -> (r: String)
        ensures
            r@ == self.spec_icon(),
    ;

    /// The detection rules applied to project directories, in priority order.
    fn project_patterns(&self) -> (r: Vec<DetectionPattern>)
        ensures
            r.deep_view() == self.spec_patterns(),
    ;

    /// Candidate global cache locations under the given home directory. The
    /// caller is responsible for keeping only those that exist on disk.
    fn global_cache_paths(&self, home: &Vec<String>) -> (r: Vec<GlobalCachePath>)
        ensures
            r.deep_view() == self.spec_cache_paths(home.deep_view()),
    ;

    /// The external listing command of the orphaned-package probe, when the
    /// ecosystem has one.
    fn probe_command(&self) -> (r: Option<ProbeCommand>)
        ensures
            r.deep_view() == self.spec_probe_command(),
    ;
}

/// The descriptor a cleaner presents to the scanner.
pub open spec fn descriptor_spec_of<C: LanguageCleaner>(c: &C) -> DescriptorSpec {
    DescriptorSpec { name: c.spec_name(), icon: c.spec_icon(), patterns: c.spec_patterns() }
}

/// Materialize one cleaner's identity and rules as scanner input.
pub fn descriptor_of<C: LanguageCleaner>(c: &C) -> (r: EcosystemDescriptor)
    ensures
        r@ == descriptor_spec_of(c),
{
    EcosystemDescriptor { name: c.name(), icon: c.icon(), patterns: c.project_patterns() }
}

/// The fixed catalog, in registration order; the order is the tie-break
/// priority when several ecosystems could claim one directory name.
pub open spec fn catalog() -> Seq<DescriptorSpec> {
    seq![
        crate::python::python_descriptor(),
        crate::node::node_descriptor(),
        crate::rust_lang::rust_descriptor(),
        crate::java::java_descriptor(),
        crate::cpp::cpp_descriptor(),
    ]
}

/// All registered ecosystem descriptors, in registration order.
pub fn get_all_cleaners() -> (r: Vec<EcosystemDescriptor>)
    ensures
        r.deep_view() == catalog(),
{
    let mut v: Vec<EcosystemDescriptor> = Vec::new();
    v.push(descriptor_of(&crate::python::PythonCleaner));
    v.push(descriptor_of(&crate::node::NodeCleaner));
    v.push(descriptor_of(&crate::rust_lang::RustCleaner));
    v.push(descriptor_of(&crate::java::JavaCleaner));
    v.push(descriptor_of(&crate::cpp::CppCleaner));
    proof {
        assert(v.deep_view() =~= catalog());
    }
    v
}

/// The alias table: conventional short names that do not reduce to a prefix
/// of the normalized ecosystem name. Inputs are compared lowercased.
pub open spec fn spec_is_alias(input: Seq<char>, cleaner_name: Seq<char>) -> bool {
    input == "cpp"@ && cleaner_name == "c++"@
}

/// Whether a lowercased query is a registered alias of a lowercased
/// ecosystem name.
pub fn is_language_alias(input: &str, cleaner_name: &str) -> (r: bool)
    ensures
        r == spec_is_alias(input@, cleaner_name@),
{
    str_eq(input, "cpp") && str_eq(cleaner_name, "c++")
}

/// How a free-text query matches one ecosystem name: lowercase equality, the
/// alias table, equality after removing `.` and `-`, or a normalized-prefix
/// relation enabling abbreviations.
pub open spec fn name_matches_query(cleaner_name: Seq<char>, query: Seq<char>) -> bool {
    ||| lower(cleaner_name) == lower(query)
    ||| spec_is_alias(lower(query), lower(cleaner_name))
    ||| normalized(cleaner_name) == normalized(query)
    ||| is_prefix_of(normalized(query), normalized(cleaner_name))
}

/// Whether `query` resolves to the ecosystem called `cleaner_name`.
pub fn matches_query(cleaner_name: &String, query: &str) -> (r: bool)
    ensures
        r == name_matches_query(cleaner_name@, query@),
{
    let cn = str_to_chars(cleaner_name.as_str());
    let qn = str_to_chars(query);
    let cl = lower_chars(&cn);
    let ql = lower_chars(&qn);
    if eq_chars(&cl, &ql) {
        return true;
    }
    let alias_in = str_to_chars("cpp");
    let alias_name = str_to_chars("c++");
    if eq_chars(&ql, &alias_in) && eq_chars(&cl, &alias_name) {
        return true;
    }
    let cnorm = normalize_chars(&cn);
    let qnorm = normalize_chars(&qn);
    let pre = starts_with_chars(&cnorm, &qnorm);
    proof {
        if normalized(cleaner_name@) == normalized(query@) {
            assert(cnorm@.take(qnorm@.len() as int) =~= qnorm@);
        }
    }
    pre
}

/// The first descriptor in catalog order whose name the query matches.
pub open spec fn find_match(cat: Seq<DescriptorSpec>, query: Seq<char>) -> Option<DescriptorSpec>
    decreases cat.len(),
{
    if cat.len() == 0 {
        None
    } else if name_matches_query(cat[0].name, query) {
        Some(cat[0])
    } else {
        find_match(cat.drop_first(), query)
    }
}

proof fn lemma_find_match_skip(cat: Seq<DescriptorSpec>, query: Seq<char>, i: int)
    requires
        0 <= i <= cat.len(),
        forall|j: int| 0 <= j < i ==> !name_matches_query(cat[j].name, query),
    ensures
        find_match(cat, query) == find_match(cat.skip(i), query),
    decreases i,
{
    if i == 0 {
        assert(cat.skip(0) =~= cat);
    } else {
        lemma_find_match_skip(cat, query, i - 1);
        let rest = cat.skip(i - 1);
        assert(rest[0] == cat[i - 1]);
        assert(rest.drop_first() =~= cat.skip(i));
    }
}

/// Resolve a free-text ecosystem name to the first matching descriptor of
/// the catalog; no match yields nothing, and the caller reports the
/// available names.
pub fn get_cleaner_by_name(name: &str) -> (r: Option<EcosystemDescriptor>)
    ensures
        match r {
            Some(d) => find_match(catalog(), name@) == Some(d@),
            None => find_match(catalog(), name@) is None,
        },
{
    let mut cleaners = get_all_cleaners();
    let n = cleaners.len();
    let mut i: usize = 0;
    while i < n
        invariant
            n == cleaners@.len(),
            i <= n,
            cleaners.deep_view() == catalog(),
            forall|j: int| 0 <= j < i ==> !name_matches_query(catalog()[j].name, name@),
        decreases n - i,
    {
        let hit = matches_query(&cleaners[i].name, name);
        proof {
            assert(cleaners.deep_view()[i as int] == cleaners@[i as int].deep_view());
            assert(cleaners@[i as int]@.name == catalog()[i as int].name);
        }
        if hit {
            let d = cleaners.remove(i);
            proof {
                lemma_find_match_skip(catalog(), name@, i as int);
                let rest = catalog().skip(i as int);
                assert(rest[0] == catalog()[i as int]);
                assert(d.deep_view() == catalog()[i as int]);
            }
            return Some(d);
        }
        i = i + 1;
    }
    proof {
        lemma_find_match_skip(catalog(), name@, n as int);
        assert(catalog().skip(n as int) =~= Seq::<DescriptorSpec>::empty());
    }
    None
}

/// Copy a path given as string components.
pub fn copy_strings(p: &Vec<String>) -> (r: Vec<String>)
    ensures
        r.deep_view() == p.deep_view(),
{
    let mut r: Vec<String> = Vec::new();
    let mut i: usize = 0;
    while i < p.len()
        invariant
            i <= p@.len(),
            r@.len() == i,
            forall|j: int| 0 <= j < i ==> r@[j]@ == p@[j]@,
        decreases p@.len() - i,
    {
        let s = p[i].clone();
        proof {
            assert(s@ == p@[i as int]@);
        }
        r.push(s);
        i = i + 1;
    }
    proof {
        assert(r.deep_view() =~= p.deep_view());
    }
    r
}

} // verus!
