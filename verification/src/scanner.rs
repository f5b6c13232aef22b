//! The tree scanner: applies every registered ecosystem's detection rules to
//! each directory of a filesystem snapshot, refuses matches nested inside an
//! already-accepted match, measures sizes, and ranks the result by size.
//!
//! The snapshot is a sequence of entries in the traversal's order; the
//! overlap resolution is exact when ancestors stand before their descendants,
//! as a pre-order walk lists them.

use vstd::prelude::*;

verus! {

use crate::languages::{DescriptorSpec, DetectionPattern, EcosystemDescriptor, PatternSpec};
use crate::languages::{catalog, find_match, get_all_cleaners, get_cleaner_by_name};
use crate::text::{is_prefix_of, is_suffix_of, str_to_chars, starts_with_chars, ends_with_chars,
    subrange_chars};
use crate::languages::copy_strings;

/// One entry of a filesystem snapshot: a path as its components, whether it
/// is a directory, and for a regular file its byte length (directories and
/// special files carry zero).
pub struct FsEntry {
    pub path: Vec<String>,
    pub is_dir: bool,
    pub size: u64,
}

/// The mathematical form of a snapshot entry.
pub struct FsEntrySpec {
    pub path: Seq<Seq<char>>,
    pub is_dir: bool,
    pub size: u64,
}

impl View for FsEntry {
    type V = FsEntrySpec;

    open spec fn view(&self) -> FsEntrySpec {
        FsEntrySpec { path: self.path.deep_view(), is_dir: self.is_dir, size: self.size }
    }
}

impl DeepView for FsEntry {
    type V = FsEntrySpec;

    open spec fn deep_view(&self) -> FsEntrySpec {
        self.view()
    }
}

/// One accepted, sized, non-nested directory match.
pub struct FoundItem {
    pub path: Vec<String>,
    pub ecosystem: String,
    pub icon: String,
    pub size: u64,
}

/// The mathematical form of a found item.
pub struct FoundItemSpec {
    pub path: Seq<Seq<char>>,
    pub ecosystem: Seq<char>,
    pub icon: Seq<char>,
    pub size: u64,
}

impl View for FoundItem {
    type V = FoundItemSpec;

    open spec fn view(&self) -> FoundItemSpec {
        FoundItemSpec {
            path: self.path.deep_view(),
            ecosystem: self.ecosystem@,
            icon: self.icon@,
            size: self.size,
        }
    }
}

impl DeepView for FoundItem {
    type V = FoundItemSpec;

    open spec fn deep_view(&self) -> FoundItemSpec {
        self.view()
    }
}

/// Whether a file named `sib` stands in the parent directory of `path`,
/// as the snapshot shows it.
pub open spec fn sibling_exists(tree: Seq<FsEntrySpec>, path: Seq<Seq<char>>, sib: Seq<char>) -> bool {
    path.len() > 0 && exists|k: int|
        0 <= k < tree.len() && (#[trigger] tree[k]).path == path.drop_last().push(sib)
}

/// Whether an edge pattern matches a name: `*stem` asks for the suffix,
/// `stem*` for the prefix; anything else matches nothing.
pub open spec fn glob_matches(g: Seq<char>, name: Seq<char>) -> bool {
    if g.len() > 0 && g[0] == '*' {
        is_suffix_of(g.drop_first(), name)
    } else if g.len() > 0 && g.last() == '*' {
        is_prefix_of(g.drop_last(), name)
    } else {
        false
    }
}

/// Whether one detection rule matches the directory at `path`.
pub open spec fn pattern_matches(
    p: PatternSpec,
    tree: Seq<FsEntrySpec>,
    path: Seq<Seq<char>>,
) -> bool {
    path.len() > 0 && match p {
        PatternSpec::Name(n) => path.last() == n,
        PatternSpec::WithSibling { dir_name, sibling } => path.last() == dir_name
            && sibling_exists(tree, path, sibling),
        PatternSpec::Edge(g) => glob_matches(g, path.last()),
    }
}

/// Whether any rule of one descriptor matches the directory at `path`.
pub open spec fn descriptor_matches(
    d: DescriptorSpec,
    tree: Seq<FsEntrySpec>,
    path: Seq<Seq<char>>,
) -> bool {
    exists|i: int| 0 <= i < d.patterns.len() && pattern_matches(#[trigger] d.patterns[i], tree, path)
}

/// The first descriptor, in catalog order, with a matching rule: the
/// tie-break when several ecosystems could claim one directory.
pub open spec fn first_match(
    cleaners: Seq<DescriptorSpec>,
    tree: Seq<FsEntrySpec>,
    path: Seq<Seq<char>>,
) -> Option<DescriptorSpec>
    decreases cleaners.len(),
{
    if cleaners.len() == 0 {
        None
    } else if descriptor_matches(cleaners[0], tree, path) {
        Some(cleaners[0])
    } else {
        first_match(cleaners.drop_first(), tree, path)
    }
}

/// `p` lies strictly below the directory `dir`.
pub open spec fn strictly_under(dir: Seq<Seq<char>>, p: Seq<Seq<char>>) -> bool {
    is_prefix_of(dir, p) && p.len() > dir.len()
}

/// What one entry adds to the size of the directory at `path`: its byte
/// length for a regular file strictly below, zero otherwise.
pub open spec fn entry_contribution(e: FsEntrySpec, path: Seq<Seq<char>>) -> int {
    if !e.is_dir && strictly_under(path, e.path) {
        e.size as int
    } else {
        0
    }
}

/// The byte sum of all regular files strictly below `path` in the snapshot.
pub open spec fn dir_size(tree: Seq<FsEntrySpec>, path: Seq<Seq<char>>) -> int
    decreases tree.len(),
{
    if tree.len() == 0 {
        0
    } else {
        dir_size(tree.drop_last(), path) + entry_contribution(tree.last(), path)
    }
}

/// Saturation of a mathematical size into the machine integer.
pub open spec fn sat64(x: int) -> u64 {
    if x > u64::MAX {
        u64::MAX
    } else if x < 0 {
        0
    } else {
        x as u64
    }
}

pub proof fn lemma_dir_size_nonneg(tree: Seq<FsEntrySpec>, path: Seq<Seq<char>>)
    ensures
        dir_size(tree, path) >= 0,
    decreases tree.len(),
{
    if tree.len() > 0 {
        lemma_dir_size_nonneg(tree.drop_last(), path);
    }
}

/// Whether `path` lies at or below an already-accepted item.
pub open spec fn nested_in(acc: Seq<FoundItemSpec>, path: Seq<Seq<char>>) -> bool {
    exists|k: int| 0 <= k < acc.len() && is_prefix_of((#[trigger] acc[k]).path, path)
}

/// The item recorded for an accepted directory.
pub open spec fn found_item_spec(
    tree: Seq<FsEntrySpec>,
    path: Seq<Seq<char>>,
    d: DescriptorSpec,
) -> FoundItemSpec {
    FoundItemSpec {
        path: path,
        ecosystem: d.name,
        icon: d.icon,
        size: sat64(dir_size(tree, path)),
    }
}

/// What one snapshot entry adds to the accepted list: a new item when it is
/// a directory claimed by some descriptor, not nested in an accepted item,
/// and of positive size.
pub open spec fn step_accepted(
    tree: Seq<FsEntrySpec>,
    cleaners: Seq<DescriptorSpec>,
    acc: Seq<FoundItemSpec>,
    e: FsEntrySpec,
) -> Seq<FoundItemSpec> {
    if e.is_dir {
        match first_match(cleaners, tree, e.path) {
            Some(d) => {
                if !nested_in(acc, e.path) && dir_size(tree, e.path) > 0 {
                    acc.push(found_item_spec(tree, e.path, d))
                } else {
                    acc
                }
            },
            None => acc,
        }
    } else {
        acc
    }
}

/// The accepted items after working through the snapshot from entry `i` on,
/// starting from the already-accepted `acc`.
pub open spec fn accepted_from(
    tree: Seq<FsEntrySpec>,
    cleaners: Seq<DescriptorSpec>,
    i: int,
    acc: Seq<FoundItemSpec>,
) -> Seq<FoundItemSpec>
    decreases tree.len() - i,
{
    if i < 0 || i >= tree.len() {
        acc
    } else {
        accepted_from(tree, cleaners, i + 1, step_accepted(tree, cleaners, acc, tree[i]))
    }
}

/// The accepted items of a whole scan, in discovery order.
pub open spec fn accepted_items(
    tree: Seq<FsEntrySpec>,
    cleaners: Seq<DescriptorSpec>,
) -> Seq<FoundItemSpec> {
    accepted_from(tree, cleaners, 0, Seq::empty())
}

/// Stable insertion into a size-descending list: the new item goes after
/// every item at least as large, so equal sizes keep their discovery order.
pub open spec fn insert_desc(s: Seq<FoundItemSpec>, x: FoundItemSpec) -> Seq<FoundItemSpec>
    decreases s.len(),
{
    if s.len() == 0 {
        seq![x]
    } else if s[0].size >= x.size {
        seq![s[0]] + insert_desc(s.drop_first(), x)
    } else {
        seq![x] + s
    }
}

/// Stable sort by size, descending.
pub open spec fn sort_by_size(s: Seq<FoundItemSpec>) -> Seq<FoundItemSpec>
    decreases s.len(),
{
    if s.len() == 0 {
        Seq::empty()
    } else {
        insert_desc(sort_by_size(s.drop_last()), s.last())
    }
}

/// The result of one scan: the accepted items ranked by size.
pub open spec fn scan_results(
    tree: Seq<FsEntrySpec>,
    cleaners: Seq<DescriptorSpec>,
) -> Seq<FoundItemSpec> {
    sort_by_size(accepted_items(tree, cleaners))
}

/// Sizes never increase along the list.
pub open spec fn sorted_desc(s: Seq<FoundItemSpec>) -> bool {
    forall|i: int, j: int| 0 <= i <= j < s.len() ==> (#[trigger] s[i]).size >= (#[trigger] s[j]).size
}

proof fn lemma_insert_desc_len(s: Seq<FoundItemSpec>, x: FoundItemSpec)
    ensures
        insert_desc(s, x).len() == s.len() + 1,
    decreases s.len(),
{
    if s.len() > 0 && s[0].size >= x.size {
        lemma_insert_desc_len(s.drop_first(), x);
    }
}

proof fn lemma_insert_desc_sorted(s: Seq<FoundItemSpec>, x: FoundItemSpec)
    requires
        sorted_desc(s),
    ensures
        sorted_desc(insert_desc(s, x)),
    decreases s.len(),
{
    lemma_insert_desc_len(s, x);
    if s.len() == 0 {
    } else if s[0].size >= x.size {
        assert(sorted_desc(s.drop_first()));
        lemma_insert_desc_sorted(s.drop_first(), x);
        lemma_insert_desc_contains(s.drop_first(), x);
        let t = insert_desc(s, x);
        let u = insert_desc(s.drop_first(), x);
        assert forall|i: int, j: int| 0 <= i <= j < t.len() implies (#[trigger] t[i]).size
            >= (#[trigger] t[j]).size by {
            if i == 0 && j > 0 {
                assert(t[j] == u[j - 1]);
                assert(u.contains(u[j - 1]));
                let y = u[j - 1];
                if s.drop_first().contains(y) {
                    let w = choose|w: int| 0 <= w < s.drop_first().len() && s.drop_first()[w] == y;
                    assert(s[w + 1] == y);
                    assert(s[0].size >= y.size);
                } else {
                    assert(y == x);
                }
            } else if i > 0 {
                assert(t[i] == u[i - 1]);
                assert(t[j] == u[j - 1]);
            }
        }
    } else {
        assert forall|i: int, j: int| 0 <= i <= j < insert_desc(s, x).len() implies (
        #[trigger] insert_desc(s, x)[i]).size >= (#[trigger] insert_desc(s, x)[j]).size by {
            if i == 0 && j > 0 {
                assert(insert_desc(s, x)[j] == s[j - 1]);
                assert(s[0].size >= s[j - 1].size);
            } else if i > 0 {
                assert(insert_desc(s, x)[i] == s[i - 1]);
                assert(insert_desc(s, x)[j] == s[j - 1]);
            }
        }
    }
}

proof fn lemma_insert_desc_contains(s: Seq<FoundItemSpec>, x: FoundItemSpec)
    ensures
        forall|y: FoundItemSpec| #![trigger insert_desc(s, x).contains(y)]
            insert_desc(s, x).contains(y) <==> s.contains(y) || y == x,
    decreases s.len(),
{
    lemma_insert_desc_len(s, x);
    let t = insert_desc(s, x);
    if s.len() == 0 {
        assert(t[0] == x);
        assert forall|y: FoundItemSpec| t.contains(y) implies s.contains(y) || y == x by {
            let k = choose|k: int| 0 <= k < t.len() && t[k] == y;
            assert(k == 0);
        }
        assert forall|y: FoundItemSpec| s.contains(y) || y == x implies t.contains(y) by {
            assert(t[0] == x);
        }
    } else if s[0].size >= x.size {
        lemma_insert_desc_contains(s.drop_first(), x);
        lemma_insert_desc_len(s.drop_first(), x);
        let u = insert_desc(s.drop_first(), x);
        assert(t == seq![s[0]] + u);
        assert(t.len() == u.len() + 1);
        assert forall|y: FoundItemSpec| t.contains(y) implies s.contains(y) || y == x by {
            let k = choose|k: int| 0 <= k < t.len() && t[k] == y;
            if k == 0 {
                assert(s[0] == y);
            } else {
                assert(t[k] == u[k - 1]);
                assert(u[k - 1] == y);
                assert(u.contains(y));
                if s.drop_first().contains(y) {
                    let w = choose|w: int|
                        0 <= w < s.drop_first().len() && s.drop_first()[w] == y;
                    assert(s[w + 1] == y);
                    assert(s.contains(y));
                }
            }
        }
        assert forall|y: FoundItemSpec| s.contains(y) || y == x implies t.contains(y) by {
            if s.contains(y) {
                let k = choose|k: int| 0 <= k < s.len() && s[k] == y;
                if k == 0 {
                    assert(t[0] == y);
                } else {
                    assert(s.drop_first()[k - 1] == y);
                    assert(s.drop_first().contains(y));
                    assert(u.contains(y));
                    let w = choose|w: int| 0 <= w < u.len() && u[w] == y;
                    assert(t[w + 1] == u[w]);
                    assert(t.contains(y));
                }
            } else {
                assert(u.contains(x));
                let w = choose|w: int| 0 <= w < u.len() && u[w] == x;
                assert(t[w + 1] == u[w]);
                assert(t.contains(x));
            }
        }
    } else {
        assert(t == seq![x] + s);
        assert(t[0] == x);
        assert forall|y: FoundItemSpec| t.contains(y) implies s.contains(y) || y == x by {
            let k = choose|k: int| 0 <= k < t.len() && t[k] == y;
            if k > 0 {
                assert(s[k - 1] == y);
                assert(s.contains(y));
            }
        }
        assert forall|y: FoundItemSpec| s.contains(y) || y == x implies t.contains(y) by {
            if s.contains(y) {
                let k = choose|k: int| 0 <= k < s.len() && s[k] == y;
                assert(t[k + 1] == s[k]);
                assert(t.contains(y));
            }
        }
    }
}

proof fn lemma_sort_sorted(s: Seq<FoundItemSpec>)
    ensures
        sorted_desc(sort_by_size(s)),
    decreases s.len(),
{
    if s.len() > 0 {
        lemma_sort_sorted(s.drop_last());
        lemma_insert_desc_sorted(sort_by_size(s.drop_last()), s.last());
    }
}

proof fn lemma_sort_contains(s: Seq<FoundItemSpec>)
    ensures
        forall|y: FoundItemSpec| #![trigger sort_by_size(s).contains(y)]
            sort_by_size(s).contains(y) <==> s.contains(y),
    decreases s.len(),
{
    if s.len() == 0 {
    } else {
        lemma_sort_contains(s.drop_last());
        lemma_insert_desc_contains(sort_by_size(s.drop_last()), s.last());
        let t = sort_by_size(s);
        assert(t == insert_desc(sort_by_size(s.drop_last()), s.last()));
        assert forall|y: FoundItemSpec| t.contains(y) implies s.contains(y) by {
            assert(sort_by_size(s.drop_last()).contains(y) || y == s.last());
            if sort_by_size(s.drop_last()).contains(y) {
                assert(s.drop_last().contains(y));
                let k = choose|k: int| 0 <= k < s.drop_last().len() && s.drop_last()[k] == y;
                assert(s[k] == y);
                assert(s.contains(y));
            } else {
                assert(s[s.len() - 1] == y);
                assert(s.contains(y));
            }
        }
        assert forall|y: FoundItemSpec| s.contains(y) implies t.contains(y) by {
            let k = choose|k: int| 0 <= k < s.len() && s[k] == y;
            if k < s.len() - 1 {
                assert(s.drop_last()[k] == y);
                assert(s.drop_last().contains(y));
                assert(sort_by_size(s.drop_last()).contains(y));
            } else {
                assert(y == s.last());
            }
            assert(t.contains(y));
        }
    }
}


proof fn lemma_first_match_skip(
    cleaners: Seq<DescriptorSpec>,
    tree: Seq<FsEntrySpec>,
    path: Seq<Seq<char>>,
    i: int,
)
    requires
        0 <= i <= cleaners.len(),
        forall|j: int| 0 <= j < i ==> !descriptor_matches(#[trigger] cleaners[j], tree, path),
    ensures
        first_match(cleaners, tree, path) == first_match(cleaners.skip(i), tree, path),
    decreases i,
{
    if i == 0 {
        assert(cleaners.skip(0) =~= cleaners);
    } else {
        lemma_first_match_skip(cleaners, tree, path, i - 1);
        let rest = cleaners.skip(i - 1);
        assert(rest[0] == cleaners[i - 1]);
        assert(rest.drop_first() =~= cleaners.skip(i));
    }
}

/// Whether two strings hold the same characters.
fn string_eq(a: &String, b: &String) -> (r: bool)
    ensures
        r == (a@ == b@),
{
    a.eq(b)
}

/// Whether the components of `a` stand at the beginning of `b`.
pub fn path_is_prefix(a: &Vec<String>, b: &Vec<String>) -> (r: bool)
    ensures
        r == is_prefix_of(a.deep_view(), b.deep_view()),
{
    let n = a.len();
    if n > b.len() {
        proof {
            assert(!is_prefix_of(a.deep_view(), b.deep_view()));
        }
        return false;
    }
    let mut i: usize = 0;
    while i < n
        invariant
            n == a@.len(),
            n <= b@.len(),
            i <= n,
            forall|j: int| 0 <= j < i ==> a@[j]@ == b@[j]@,
        decreases n - i,
    {
        if !string_eq(&a[i], &b[i]) {
            proof {
                assert(a.deep_view()[i as int] == a@[i as int]@);
                assert(b.deep_view().take(n as int)[i as int] == b@[i as int]@);
            }
            return false;
        }
        i = i + 1;
    }
    proof {
        assert(b.deep_view().take(n as int) =~= a.deep_view());
    }
    true
}

/// Whether two component paths are equal.
pub fn path_eq(a: &Vec<String>, b: &Vec<String>) -> (r: bool)
    ensures
        r == (a.deep_view() == b.deep_view()),
{
    if a.len() != b.len() {
        proof {
            assert(a.deep_view().len() == a@.len());
            assert(b.deep_view().len() == b@.len());
        }
        return false;
    }
    let r = path_is_prefix(a, b);
    proof {
        if r {
            assert(b.deep_view().take(a@.len() as int) =~= b.deep_view());
        }
        if a.deep_view() == b.deep_view() {
            assert(b.deep_view().take(a@.len() as int) =~= a.deep_view());
        }
    }
    r
}

/// Whether `p` lies strictly below the directory `dir`.
pub fn path_strictly_under(dir: &Vec<String>, p: &Vec<String>) -> (r: bool)
    ensures
        r == strictly_under(dir.deep_view(), p.deep_view()),
{
    let pre = path_is_prefix(dir, p);
    proof {
        assert(dir.deep_view().len() == dir@.len());
        assert(p.deep_view().len() == p@.len());
    }
    pre && p.len() > dir.len()
}

/// Whether a file named `filename` exists in the parent directory of `path`,
/// as the snapshot shows it.
pub fn has_sibling_file(tree: &Vec<FsEntry>, path: &Vec<String>, filename: &String) -> (r: bool)
    ensures
        r == sibling_exists(tree.deep_view(), path.deep_view(), filename@),
{
    let n = path.len();
    if n == 0 {
        proof {
            assert(path.deep_view().len() == 0);
        }
        return false;
    }
    let mut sib: Vec<String> = Vec::new();
    let mut j: usize = 0;
    while j < n - 1
        invariant
            n == path@.len(),
            n >= 1,
            j <= n - 1,
            sib@.len() == j,
            forall|m: int| 0 <= m < j ==> sib@[m]@ == path@[m]@,
        decreases n - 1 - j,
    {
        sib.push(path[j].clone());
        j = j + 1;
    }
    sib.push(filename.clone());
    proof {
        assert(sib.deep_view() =~= path.deep_view().drop_last().push(filename@));
    }
    let ghost sv = sib.deep_view();
    let mut k: usize = 0;
    while k < tree.len()
        invariant
            k <= tree@.len(),
            path@.len() >= 1,
            sv == sib.deep_view(),
            sv == path.deep_view().drop_last().push(filename@),
            forall|m: int| 0 <= m < k ==> (#[trigger] tree.deep_view()[m]).path != sv,
        decreases tree@.len() - k,
    {
        proof {
            assert(tree.deep_view()[k as int] == tree@[k as int].deep_view());
        }
        if path_eq(&tree[k].path, &sib) {
            proof {
                assert(tree.deep_view()[k as int].path == sv);
            }
            return true;
        }
        k = k + 1;
    }
    proof {
        assert(tree.deep_view().len() == tree@.len());
    }
    false
}

/// Evaluate one detection rule against the directory at `path`, returning the
/// claiming descriptor's name and icon on a match.
pub fn check_pattern(
    tree: &Vec<FsEntry>,
    path: &Vec<String>,
    pattern: &DetectionPattern,
    descriptor: &EcosystemDescriptor,
) -> (r: Option<(String, String)>)
    ensures
        r is Some <==> pattern_matches(pattern@, tree.deep_view(), path.deep_view()),
        r is Some ==> r.unwrap().0@ == descriptor@.name && r.unwrap().1@ == descriptor@.icon,
{
    let n = path.len();
    if n == 0 {
        proof {
            assert(path.deep_view().len() == 0);
        }
        return None;
    }
    let name: &String = &path[n - 1];
    proof {
        assert(path.deep_view()[n - 1] == path@[n - 1]@);
        assert(name@ == path.deep_view().last());
    }
    let matched: bool = match pattern {
        DetectionPattern::DirectoryName(nm) => string_eq(name, nm),
        DetectionPattern::DirectoryWithSibling { dir_name, sibling } => {
            string_eq(name, dir_name) && has_sibling_file(tree, path, sibling)
        },
        DetectionPattern::GlobPattern(g) => {
            let nv = str_to_chars(name.as_str());
            let gv = str_to_chars(g.as_str());
            if gv.len() > 0 && gv[0] == '*' {
                let suf = subrange_chars(&gv, 1, gv.len());
                proof {
                    assert(suf@ =~= gv@.drop_first());
                }
                ends_with_chars(&nv, &suf)
            } else if gv.len() > 0 && gv[gv.len() - 1] == '*' {
                let pre = subrange_chars(&gv, 0, gv.len() - 1);
                proof {
                    assert(pre@ =~= gv@.drop_last());
                }
                starts_with_chars(&nv, &pre)
            } else {
                false
            }
        },
    };
    if matched {
        Some((descriptor.name.clone(), descriptor.icon.clone()))
    } else {
        None
    }
}

/// Evaluate one descriptor's rules in order against the directory at `path`.
pub fn check_descriptor(
    tree: &Vec<FsEntry>,
    path: &Vec<String>,
    descriptor: &EcosystemDescriptor,
) -> (r: Option<(String, String)>)
    ensures
        r is Some <==> descriptor_matches(descriptor@, tree.deep_view(), path.deep_view()),
        r is Some ==> r.unwrap().0@ == descriptor@.name && r.unwrap().1@ == descriptor@.icon,
{
    let n = descriptor.patterns.len();
    let mut i: usize = 0;
    while i < n
        invariant
            n == descriptor.patterns@.len(),
            i <= n,
            forall|j: int|
                0 <= j < i ==> !pattern_matches(
                    #[trigger] descriptor@.patterns[j],
                    tree.deep_view(),
                    path.deep_view(),
                ),
        decreases n - i,
    {
        proof {
            assert(descriptor@.patterns[i as int] == descriptor.patterns@[i as int]@);
        }
        let res = check_pattern(tree, path, &descriptor.patterns[i], descriptor);
        match res {
            Some(x) => {
                proof {
                    assert(pattern_matches(
                        descriptor@.patterns[i as int],
                        tree.deep_view(),
                        path.deep_view(),
                    ));
                }
                return Some(x);
            },
            None => {},
        }
        i = i + 1;
    }
    proof {
        assert(descriptor@.patterns.len() == n);
    }
    None
}

/// The first descriptor, in the given order, that claims the directory at
/// `path`, as its name and icon.
pub fn first_matching_cleaner(
    tree: &Vec<FsEntry>,
    path: &Vec<String>,
    cleaners: &Vec<EcosystemDescriptor>,
) -> (r: Option<(String, String)>)
    ensures
        match first_match(cleaners.deep_view(), tree.deep_view(), path.deep_view()) {
            Some(d) => r is Some && r.unwrap().0@ == d.name && r.unwrap().1@ == d.icon,
            None => r is None,
        },
{
    let ghost cd = cleaners.deep_view();
    let ghost td = tree.deep_view();
    let ghost pd = path.deep_view();
    let n = cleaners.len();
    let mut i: usize = 0;
    while i < n
        invariant
            n == cleaners@.len(),
            i <= n,
            cd == cleaners.deep_view(),
            td == tree.deep_view(),
            pd == path.deep_view(),
            cd.len() == n,
            forall|j: int| 0 <= j < i ==> !descriptor_matches(#[trigger] cd[j], td, pd),
        decreases n - i,
    {
        proof {
            assert(cd[i as int] == cleaners@[i as int].deep_view());
        }
        let res = check_descriptor(tree, path, &cleaners[i]);
        match res {
            Some(x) => {
                proof {
                    lemma_first_match_skip(cd, td, pd, i as int);
                    assert(cd.skip(i as int)[0] == cd[i as int]);
                }
                return Some(x);
            },
            None => {},
        }
        i = i + 1;
    }
    proof {
        lemma_first_match_skip(cd, td, pd, n as int);
        assert(cd.skip(n as int) =~= Seq::<DescriptorSpec>::empty());
    }
    None
}

/// The byte sum of all regular files strictly below `path`, saturating at
/// the integer's maximum.
pub fn calculate_dir_size(tree: &Vec<FsEntry>, path: &Vec<String>) -> (r: u64)
    ensures
        r == sat64(dir_size(tree.deep_view(), path.deep_view())),
{
    let ghost td = tree.deep_view();
    let ghost pd = path.deep_view();
    let n = tree.len();
    let mut total: u64 = 0;
    let mut k: usize = 0;
    proof {
        assert(td.take(0) =~= Seq::<FsEntrySpec>::empty());
    }
    while k < n
        invariant
            n == tree@.len(),
            k <= n,
            td == tree.deep_view(),
            pd == path.deep_view(),
            td.len() == n,
            total == sat64(dir_size(td.take(k as int), pd)),
        decreases n - k,
    {
        let ghost pre_size = dir_size(td.take(k as int), pd);
        proof {
            lemma_dir_size_nonneg(td.take(k as int), pd);
            assert(td[k as int] == tree@[k as int].deep_view());
            assert(td.take(k + 1).drop_last() =~= td.take(k as int));
            assert(td.take(k + 1).last() == td[k as int]);
        }
        let e = &tree[k];
        if !e.is_dir && path_strictly_under(path, &e.path) {
            total = total.saturating_add(e.size);
        }
        k = k + 1;
        proof {
            lemma_dir_size_nonneg(td.take(k as int), pd);
        }
    }
    proof {
        assert(td.take(n as int) =~= td);
    }
    total
}

/// Whether `path` lies at or below an already-accepted item.
pub fn is_nested(items: &Vec<FoundItem>, path: &Vec<String>) -> (r: bool)
    ensures
        r == nested_in(items.deep_view(), path.deep_view()),
{
    let n = items.len();
    let mut k: usize = 0;
    while k < n
        invariant
            n == items@.len(),
            k <= n,
            forall|m: int|
                0 <= m < k ==> !is_prefix_of(
                    (#[trigger] items.deep_view()[m]).path,
                    path.deep_view(),
                ),
        decreases n - k,
    {
        proof {
            assert(items.deep_view()[k as int] == items@[k as int].deep_view());
        }
        if path_is_prefix(&items[k].path, path) {
            proof {
                assert(is_prefix_of(items.deep_view()[k as int].path, path.deep_view()));
            }
            return true;
        }
        k = k + 1;
    }
    proof {
        assert(items.deep_view().len() == n);
    }
    false
}

proof fn lemma_insert_desc_at(s: Seq<FoundItemSpec>, x: FoundItemSpec, p: int)
    requires
        0 <= p <= s.len(),
        forall|j: int| 0 <= j < p ==> (#[trigger] s[j]).size >= x.size,
        p < s.len() ==> s[p].size < x.size,
    ensures
        insert_desc(s, x) == s.take(p) + seq![x] + s.skip(p),
    decreases p,
{
    if p == 0 {
        if s.len() == 0 {
            assert(insert_desc(s, x) =~= s.take(0) + seq![x] + s.skip(0));
        } else {
            assert(s[0].size < x.size);
            assert(insert_desc(s, x) == seq![x] + s);
            assert(seq![x] + s =~= s.take(0) + seq![x] + s.skip(0));
        }
    } else {
        assert(s[0].size >= x.size);
        assert forall|j: int| 0 <= j < p - 1 implies (#[trigger] s.drop_first()[j]).size
            >= x.size by {
            assert(s.drop_first()[j] == s[j + 1]);
        }
        if p - 1 < s.drop_first().len() {
            assert(s.drop_first()[p - 1] == s[p]);
        }
        lemma_insert_desc_at(s.drop_first(), x, p - 1);
        assert(insert_desc(s, x) == seq![s[0]] + insert_desc(s.drop_first(), x));
        assert(seq![s[0]] + (s.drop_first().take(p - 1) + seq![x] + s.drop_first().skip(p - 1))
            =~= s.take(p) + seq![x] + s.skip(p));
    }
}

/// Rank found items by size, descending; equal sizes keep their order.
pub fn sort_items_desc(items: Vec<FoundItem>) -> (r: Vec<FoundItem>)
    ensures
        r.deep_view() == sort_by_size(items.deep_view()),
{
    let ghost iseq = items.deep_view();
    let mut src = items;
    let mut out: Vec<FoundItem> = Vec::new();
    proof {
        assert(src.deep_view() =~= iseq.skip(0));
        assert(out.deep_view() =~= sort_by_size(iseq.take(0)));
    }
    while src.len() > 0
        invariant
            src@.len() <= iseq.len(),
            src.deep_view() == iseq.skip(iseq.len() - src@.len()),
            out.deep_view() == sort_by_size(iseq.take(iseq.len() - src@.len())),
        decreases src@.len(),
    {
        let ghost k = iseq.len() - src@.len();
        let ghost out_pre = out.deep_view();
        let ghost src_pre = src@;
        let ghost src_deep_pre = src.deep_view();
        let x = src.remove(0);
        let ghost xv = x.deep_view();
        proof {
            assert(src_deep_pre[0] == src_pre[0].deep_view());
            assert(xv == iseq[k as int]);
            assert(src@ =~= src_pre.drop_first());
            assert forall|j: int| 0 <= j < src@.len() implies src.deep_view()[j] == iseq.skip(
                k as int + 1,
            )[j] by {
                assert(src@[j] == src_pre[j + 1]);
                assert(src_deep_pre[j + 1] == src_pre[j + 1].deep_view());
            }
            assert(src.deep_view() =~= iseq.skip(k as int + 1));
        }
        let mut p: usize = 0;
        while p < out.len() && out[p].size >= x.size
            invariant
                p <= out@.len(),
                out.deep_view() == out_pre,
                xv == x.deep_view(),
                forall|j: int| 0 <= j < p ==> (#[trigger] out_pre[j]).size >= xv.size,
            decreases out@.len() - p,
        {
            proof {
                assert(out_pre[p as int] == out@[p as int].deep_view());
            }
            p = p + 1;
        }
        proof {
            if p < out@.len() {
                assert(out_pre[p as int] == out@[p as int].deep_view());
                assert(out_pre[p as int].size < xv.size);
            }
        }
        out.insert(p, x);
        proof {
            assert(out.deep_view() =~= out_pre.take(p as int) + seq![xv] + out_pre.skip(
                p as int,
            ));
            lemma_insert_desc_at(out_pre, xv, p as int);
            assert(iseq.take(k as int + 1).drop_last() =~= iseq.take(k as int));
            assert(iseq.take(k as int + 1).last() == iseq[k as int]);
            assert(out.deep_view() == sort_by_size(iseq.take(k as int + 1)));
        }
    }
    proof {
        assert(iseq.take(iseq.len() as int) =~= iseq);
    }
    out
}


/// What holds of every accepted item: its path is a directory of the
/// snapshot, the named ecosystem is the first catalog entry claiming it, its
/// size is the saturated byte sum below it, and that size is positive.
pub open spec fn item_ok(
    tree: Seq<FsEntrySpec>,
    cleaners: Seq<DescriptorSpec>,
    it: FoundItemSpec,
) -> bool {
    &&& exists|m: int| 0 <= m < tree.len() && (#[trigger] tree[m]).is_dir && tree[m].path == it.path
    &&& first_match(cleaners, tree, it.path) is Some
    &&& it.ecosystem == first_match(cleaners, tree, it.path).unwrap().name
    &&& it.icon == first_match(cleaners, tree, it.path).unwrap().icon
    &&& it.size == sat64(dir_size(tree, it.path))
    &&& it.size > 0
}

/// Every item of `s` satisfies `item_ok`.
pub open spec fn all_items_ok(
    tree: Seq<FsEntrySpec>,
    cleaners: Seq<DescriptorSpec>,
    s: Seq<FoundItemSpec>,
) -> bool {
    forall|k: int| 0 <= k < s.len() ==> item_ok(tree, cleaners, #[trigger] s[k])
}

proof fn lemma_accepted_from_ok(
    tree: Seq<FsEntrySpec>,
    cleaners: Seq<DescriptorSpec>,
    i: int,
    acc: Seq<FoundItemSpec>,
)
    requires
        0 <= i <= tree.len(),
        all_items_ok(tree, cleaners, acc),
    ensures
        all_items_ok(tree, cleaners, accepted_from(tree, cleaners, i, acc)),
    decreases tree.len() - i,
{
    if i < tree.len() {
        let next = step_accepted(tree, cleaners, acc, tree[i]);
        assert forall|k: int| 0 <= k < next.len() implies item_ok(tree, cleaners, #[trigger] next[k]) by {
            if k < acc.len() {
                assert(next[k] == acc[k]);
            } else {
                lemma_dir_size_nonneg(tree, tree[i].path);
            }
        }
        lemma_accepted_from_ok(tree, cleaners, i + 1, next);
    }
}

/// Ancestors stand before their descendants: no later snapshot entry is a
/// strict ancestor of an earlier one, as a pre-order walk guarantees.
pub open spec fn ancestors_first(tree: Seq<FsEntrySpec>) -> bool {
    forall|i: int, j: int|
        0 <= i < j < tree.len() ==> !strictly_under(
            (#[trigger] tree[j]).path,
            (#[trigger] tree[i]).path,
        )
}

/// No item's path lies strictly below another item's path.
pub open spec fn no_nested_pair(s: Seq<FoundItemSpec>) -> bool {
    forall|k1: int, k2: int|
        0 <= k1 < s.len() && 0 <= k2 < s.len() ==> !strictly_under(
            (#[trigger] s[k1]).path,
            (#[trigger] s[k2]).path,
        )
}

proof fn lemma_accepted_from_no_nesting(
    tree: Seq<FsEntrySpec>,
    cleaners: Seq<DescriptorSpec>,
    i: int,
    acc: Seq<FoundItemSpec>,
)
    requires
        ancestors_first(tree),
        0 <= i <= tree.len(),
        no_nested_pair(acc),
        forall|k: int|
            0 <= k < acc.len() ==> exists|m: int|
                0 <= m < i && (#[trigger] tree[m]).path == (#[trigger] acc[k]).path,
    ensures
        no_nested_pair(accepted_from(tree, cleaners, i, acc)),
    decreases tree.len() - i,
{
    if i < tree.len() {
        let next = step_accepted(tree, cleaners, acc, tree[i]);
        if next.len() > acc.len() {
            assert(next == acc.push(found_item_spec(tree, tree[i].path, first_match(
                cleaners,
                tree,
                tree[i].path,
            ).unwrap())));
            assert(!nested_in(acc, tree[i].path));
            assert forall|k1: int, k2: int|
                0 <= k1 < next.len() && 0 <= k2 < next.len() implies !strictly_under(
                (#[trigger] next[k1]).path,
                (#[trigger] next[k2]).path,
            ) by {
                if k1 < acc.len() && k2 < acc.len() {
                    assert(next[k1] == acc[k1]);
                    assert(next[k2] == acc[k2]);
                } else if k1 < acc.len() && k2 == acc.len() {
                    assert(next[k1] == acc[k1]);
                    assert(next[k2].path == tree[i].path);
                    assert(!is_prefix_of(acc[k1].path, tree[i].path));
                } else if k1 == acc.len() && k2 < acc.len() {
                    assert(next[k2] == acc[k2]);
                    assert(next[k1].path == tree[i].path);
                    let m = choose|m: int| 0 <= m < i && tree[m].path == acc[k2].path;
                    assert(!strictly_under(tree[i].path, tree[m].path));
                } else {
                    assert(next[k1].path == tree[i].path);
                    assert(next[k2].path == tree[i].path);
                }
            }
            assert forall|k: int| 0 <= k < next.len() implies exists|m: int|
                0 <= m < i + 1 && (#[trigger] tree[m]).path == (#[trigger] next[k]).path by {
                if k < acc.len() {
                    assert(next[k] == acc[k]);
                    let m = choose|m: int| 0 <= m < i && tree[m].path == acc[k].path;
                    assert(0 <= m < i + 1 && tree[m].path == next[k].path);
                } else {
                    assert(tree[i].path == next[k].path);
                }
            }
        } else {
            assert(next == acc);
            assert forall|k: int| 0 <= k < next.len() implies exists|m: int|
                0 <= m < i + 1 && (#[trigger] tree[m]).path == (#[trigger] next[k]).path by {
                let m = choose|m: int| 0 <= m < i && tree[m].path == acc[k].path;
                assert(0 <= m < i + 1 && tree[m].path == next[k].path);
            }
        }
        lemma_accepted_from_no_nesting(tree, cleaners, i + 1, next);
    }
}

/// A directory with no qualifying rule match never appears in scan results.
pub proof fn lemma_unmatched_never_reported(
    tree: Seq<FsEntrySpec>,
    cleaners: Seq<DescriptorSpec>,
    path: Seq<Seq<char>>,
)
    requires
        first_match(cleaners, tree, path) is None,
    ensures
        forall|k: int|
            0 <= k < scan_results(tree, cleaners).len() ==> (#[trigger] scan_results(
                tree,
                cleaners,
            )[k]).path != path,
{
    lemma_accepted_from_ok(tree, cleaners, 0, Seq::empty());
    lemma_sort_contains(accepted_items(tree, cleaners));
    assert forall|k: int|
        0 <= k < scan_results(tree, cleaners).len() implies (#[trigger] scan_results(
        tree,
        cleaners,
    )[k]).path != path by {
        let it = scan_results(tree, cleaners)[k];
        assert(sort_by_size(accepted_items(tree, cleaners))[k] == it);
        assert(sort_by_size(accepted_items(tree, cleaners)).contains(it));
        assert(accepted_items(tree, cleaners).contains(it));
        let w = choose|w: int|
            0 <= w < accepted_items(tree, cleaners).len() && accepted_items(tree, cleaners)[w]
                == it;
        assert(item_ok(tree, cleaners, it));
    }
}

/// Every reported size is exactly the saturated byte sum of the regular
/// files strictly below the reported path, and is positive; the scan is a
/// function of the snapshot, so an unchanged snapshot yields an identical
/// result.
pub proof fn lemma_sizes_exact(tree: Seq<FsEntrySpec>, cleaners: Seq<DescriptorSpec>)
    ensures
        forall|k: int|
            0 <= k < scan_results(tree, cleaners).len() ==> (#[trigger] scan_results(
                tree,
                cleaners,
            )[k]).size == sat64(dir_size(tree, scan_results(tree, cleaners)[k].path))
                && scan_results(tree, cleaners)[k].size > 0,
{
    lemma_accepted_from_ok(tree, cleaners, 0, Seq::empty());
    lemma_sort_contains(accepted_items(tree, cleaners));
    assert forall|k: int|
        0 <= k < scan_results(tree, cleaners).len() implies (#[trigger] scan_results(
        tree,
        cleaners,
    )[k]).size == sat64(dir_size(tree, scan_results(tree, cleaners)[k].path)) && scan_results(
        tree,
        cleaners,
    )[k].size > 0 by {
        let it = scan_results(tree, cleaners)[k];
        assert(sort_by_size(accepted_items(tree, cleaners))[k] == it);
        assert(sort_by_size(accepted_items(tree, cleaners)).contains(it));
        assert(accepted_items(tree, cleaners).contains(it));
        let w = choose|w: int|
            0 <= w < accepted_items(tree, cleaners).len() && accepted_items(tree, cleaners)[w]
                == it;
        assert(item_ok(tree, cleaners, it));
    }
}

/// No two results of one scan are related as ancestor and descendant,
/// provided ancestors stand before their descendants in the snapshot, as a
/// pre-order walk lists them.
pub proof fn lemma_no_nesting(tree: Seq<FsEntrySpec>, cleaners: Seq<DescriptorSpec>)
    requires
        ancestors_first(tree),
    ensures
        no_nested_pair(scan_results(tree, cleaners)),
{
    lemma_accepted_from_no_nesting(tree, cleaners, 0, Seq::empty());
    lemma_sort_contains(accepted_items(tree, cleaners));
    let acc = accepted_items(tree, cleaners);
    let res = scan_results(tree, cleaners);
    assert forall|k1: int, k2: int|
        0 <= k1 < res.len() && 0 <= k2 < res.len() implies !strictly_under(
        (#[trigger] res[k1]).path,
        (#[trigger] res[k2]).path,
    ) by {
        assert(sort_by_size(acc)[k1] == res[k1]);
        assert(sort_by_size(acc)[k2] == res[k2]);
        assert(sort_by_size(acc).contains(res[k1]));
        assert(sort_by_size(acc).contains(res[k2]));
        assert(acc.contains(res[k1]));
        assert(acc.contains(res[k2]));
        let w1 = choose|w: int| 0 <= w < acc.len() && acc[w] == res[k1];
        let w2 = choose|w: int| 0 <= w < acc.len() && acc[w] == res[k2];
        assert(!strictly_under(acc[w1].path, acc[w2].path));
    }
}

/// Scan a snapshot with the given descriptors: apply each descriptor's rules
/// to every directory, first registered wins; refuse matches nested at or
/// below an accepted item and matches of zero size; rank by size descending,
/// equal sizes keeping discovery order.
pub fn scan_with_cleaners(
    tree: &Vec<FsEntry>,
    cleaners: &Vec<EcosystemDescriptor>,
) -> (r: Vec<FoundItem>)
    ensures
        r.deep_view() == scan_results(tree.deep_view(), cleaners.deep_view()),
        sorted_desc(r.deep_view()),
        forall|k: int| 0 <= k < r@.len() ==> (#[trigger] r@[k]).size > 0,
{
    let ghost td = tree.deep_view();
    let ghost cd = cleaners.deep_view();
    let mut items: Vec<FoundItem> = Vec::new();
    let mut i: usize = 0;
    proof {
        assert(items.deep_view() =~= Seq::<FoundItemSpec>::empty());
    }
    while i < tree.len()
        invariant
            i <= tree@.len(),
            td == tree.deep_view(),
            cd == cleaners.deep_view(),
            td.len() == tree@.len(),
            accepted_items(td, cd) == accepted_from(td, cd, i as int, items.deep_view()),
        decreases tree@.len() - i,
    {
        let ghost pre = items.deep_view();
        let ghost idx = i as int;
        proof {
            assert(td[idx] == tree@[idx].deep_view());
        }
        let e = &tree[i];
        proof {
            assert(e.path.deep_view() == td[idx].path);
        }
        if e.is_dir {
            let fm = first_matching_cleaner(tree, &e.path, cleaners);
            match fm {
                Some(pair) => {
                    if !is_nested(&items, &e.path) {
                        let size = calculate_dir_size(tree, &e.path);
                        if size > 0 {
                            let p = copy_strings(&e.path);
                            let item = FoundItem {
                                path: p,
                                ecosystem: pair.0,
                                icon: pair.1,
                                size: size,
                            };
                            items.push(item);
                            proof {
                                lemma_dir_size_nonneg(td, td[idx].path);
                                let d = first_match(cd, td, td[idx].path).unwrap();
                                assert(items.deep_view() =~= pre.push(
                                    found_item_spec(td, td[idx].path, d),
                                ));
                            }
                        } else {
                            proof {
                                lemma_dir_size_nonneg(td, td[idx].path);
                            }
                        }
                    }
                },
                None => {},
            }
        }
        proof {
            assert(items.deep_view() == step_accepted(td, cd, pre, td[idx]));
            assert(accepted_from(td, cd, idx, pre) == accepted_from(
                td,
                cd,
                idx + 1,
                step_accepted(td, cd, pre, td[idx]),
            ));
        }
        i = i + 1;
    }
    proof {
        assert(accepted_items(td, cd) == items.deep_view());
    }
    let sorted = sort_items_desc(items);
    proof {
        lemma_sort_sorted(accepted_items(td, cd));
        lemma_accepted_from_ok(td, cd, 0, Seq::empty());
        lemma_sort_contains(accepted_items(td, cd));
        assert forall|k: int| 0 <= k < sorted@.len() implies (#[trigger] sorted@[k]).size > 0 by {
            let it = sorted.deep_view()[k];
            assert(it == sorted@[k].deep_view());
            assert(sort_by_size(accepted_items(td, cd))[k] == it);
            assert(sort_by_size(accepted_items(td, cd)).contains(it));
            assert(accepted_items(td, cd).contains(it));
            let w = choose|w: int|
                0 <= w < accepted_items(td, cd).len() && accepted_items(td, cd)[w] == it;
            assert(item_ok(td, cd, it));
        }
    }
    sorted
}

/// Scan a snapshot with every registered ecosystem.
pub fn scan_directory(tree: &Vec<FsEntry>) -> (r: Vec<FoundItem>)
    ensures
        r.deep_view() == scan_results(tree.deep_view(), catalog()),
        sorted_desc(r.deep_view()),
        forall|k: int| 0 <= k < r@.len() ==> (#[trigger] r@[k]).size > 0,
{
    let cleaners = get_all_cleaners();
    scan_with_cleaners(tree, &cleaners)
}

/// Scan a snapshot filtered to one ecosystem, resolved by name; an unknown
/// name yields the empty result, and the caller reports the available names.
pub fn scan_directory_filtered(tree: &Vec<FsEntry>, language: &str) -> (r: Vec<FoundItem>)
    ensures
        match find_match(catalog(), language@) {
            Some(d) => r.deep_view() == scan_results(tree.deep_view(), seq![d]),
            None => r.deep_view() == Seq::<FoundItemSpec>::empty(),
        },
        sorted_desc(r.deep_view()),
        forall|k: int| 0 <= k < r@.len() ==> (#[trigger] r@[k]).size > 0,
{
    let found = get_cleaner_by_name(language);
    match found {
        Some(d) => {
            let mut one: Vec<EcosystemDescriptor> = Vec::new();
            let ghost dv = d@;
            one.push(d);
            proof {
                assert(one.deep_view() =~= seq![dv]);
            }
            scan_with_cleaners(tree, &one)
        },
        None => {
            let r: Vec<FoundItem> = Vec::new();
            proof {
                assert(r.deep_view() =~= Seq::<FoundItemSpec>::empty());
            }
            r
        },
    }
}


/// The mathematical sum of the reported sizes.
pub open spec fn sum_sizes(s: Seq<FoundItemSpec>) -> int
    decreases s.len(),
{
    if s.len() == 0 {
        0
    } else {
        sum_sizes(s.drop_last()) + s.last().size as int
    }
}

proof fn lemma_sum_sizes_nonneg(s: Seq<FoundItemSpec>)
    ensures
        sum_sizes(s) >= 0,
    decreases s.len(),
{
    if s.len() > 0 {
        lemma_sum_sizes_nonneg(s.drop_last());
    }
}

/// The total of the reported sizes, saturating at the integer's maximum: the
/// space that cleaning every item would reclaim.
pub fn total_size(items: &Vec<FoundItem>) -> (r: u64)
    ensures
        r == sat64(sum_sizes(items.deep_view())),
{
    let ghost iseq = items.deep_view();
    let n = items.len();
    let mut total: u64 = 0;
    let mut k: usize = 0;
    proof {
        assert(iseq.take(0) =~= Seq::<FoundItemSpec>::empty());
    }
    while k < n
        invariant
            n == items@.len(),
            k <= n,
            iseq == items.deep_view(),
            iseq.len() == n,
            total == sat64(sum_sizes(iseq.take(k as int))),
        decreases n - k,
    {
        proof {
            lemma_sum_sizes_nonneg(iseq.take(k as int));
            assert(iseq[k as int] == items@[k as int].deep_view());
            assert(iseq.take(k + 1).drop_last() =~= iseq.take(k as int));
            assert(iseq.take(k + 1).last() == iseq[k as int]);
        }
        total = total.saturating_add(items[k].size);
        k = k + 1;
        proof {
            lemma_sum_sizes_nonneg(iseq.take(k as int));
        }
    }
    proof {
        assert(iseq.take(n as int) =~= iseq);
    }
    total
}

} // verus!
