//! Verified text helpers over character vectors.
//!
//! Directory names, patterns and package-manager output are handled as
//! `Vec<char>` so that every operation has an exact sequence-level
//! specification.

use vstd::prelude::*;

verus! {

use vstd::string::StrSliceExecFns;

/// The whitespace characters that `trim_chars` removes at either edge.
pub open spec fn is_space(c: char) -> bool {
    c == ' ' || c == '\t' || c == '\r' || c == '\n'
}

/// `pre` stands at the beginning of `s`.
pub open spec fn is_prefix_of<T>(pre: Seq<T>, s: Seq<T>) -> bool {
    pre.len() <= s.len() && s.take(pre.len() as int) == pre
}

/// `suf` stands at the end of `s`.
pub open spec fn is_suffix_of<T>(suf: Seq<T>, s: Seq<T>) -> bool {
    suf.len() <= s.len() && s.skip(s.len() - suf.len()) == suf
}

/// The ASCII-lowercase image of one character.
pub open spec fn lower_char(c: char) -> char {
    if 'A' <= c <= 'Z' {
        (c as u8 + 32) as char
    } else {
        c
    }
}

/// ASCII-lowercase of a whole sequence.
pub open spec fn lower(s: Seq<char>) -> Seq<char> {
    s.map_values(|c: char| lower_char(c))
}

/// Lowercase with the separator characters `.` and `-` removed: the form in
/// which ecosystem names are compared.
pub open spec fn normalized(s: Seq<char>) -> Seq<char>
    decreases s.len(),
{
    if s.len() == 0 {
        Seq::empty()
    } else {
        let c = lower_char(s.last());
        normalized(s.drop_last()) + (if c == '.' || c == '-' {
            Seq::<char>::empty()
        } else {
            seq![c]
        })
    }
}

/// Index of the first occurrence of `c` in `s`; the length of `s` when absent.
pub open spec fn index_of_char(s: Seq<char>, c: char) -> nat
    decreases s.len(),
{
    if s.len() == 0 {
        0
    } else if s[0] == c {
        0
    } else {
        1 + index_of_char(s.drop_first(), c)
    }
}

/// Index of the first occurrence of the two-character pattern `a b` in `s`;
/// the length of `s` when absent.
pub open spec fn index_of_pair(s: Seq<char>, a: char, b: char) -> nat
    decreases s.len(),
{
    if s.len() < 2 {
        s.len()
    } else if s[0] == a && s[1] == b {
        0
    } else {
        1 + index_of_pair(s.drop_first(), a, b)
    }
}

/// `s` without its leading whitespace.
pub open spec fn trim_start(s: Seq<char>) -> Seq<char>
    decreases s.len(),
{
    if s.len() > 0 && is_space(s[0]) {
        trim_start(s.drop_first())
    } else {
        s
    }
}

/// `s` without its trailing whitespace.
pub open spec fn trim_end(s: Seq<char>) -> Seq<char>
    decreases s.len(),
{
    if s.len() > 0 && is_space(s.last()) {
        trim_end(s.drop_last())
    } else {
        s
    }
}

/// `s` without whitespace at either edge.
pub open spec fn trim(s: Seq<char>) -> Seq<char> {
    trim_end(trim_start(s))
}

/// `s` with every leading repetition of `pat` removed.
pub open spec fn strip_prefix_all(s: Seq<char>, pat: Seq<char>) -> Seq<char>
    decreases s.len(),
{
    if pat.len() > 0 && is_prefix_of(pat, s) {
        strip_prefix_all(s.skip(pat.len() as int), pat)
    } else {
        s
    }
}

/// `s` without a single trailing carriage return, as a line separator leaves it.
pub open spec fn strip_cr(s: Seq<char>) -> Seq<char> {
    if s.len() > 0 && s.last() == '\r' {
        s.drop_last()
    } else {
        s
    }
}

/// `s` divided at newline characters, each piece without its trailing
/// carriage return; a trailing newline does not open a final empty line.
pub open spec fn split_lines(s: Seq<char>) -> Seq<Seq<char>>
    decreases s.len(),
{
    if s.len() == 0 {
        Seq::empty()
    } else {
        let i = index_of_char(s, '\n') as int;
        if i >= s.len() {
            seq![strip_cr(s)]
        } else {
            seq![strip_cr(s.take(i))] + split_lines(s.skip(i + 1))
        }
    }
}

pub proof fn lemma_index_of_char_props(s: Seq<char>, c: char)
    ensures
        index_of_char(s, c) <= s.len(),
        index_of_char(s, c) < s.len() ==> s[index_of_char(s, c) as int] == c,
        forall|j: int| 0 <= j < index_of_char(s, c) ==> s[j] != c,
    decreases s.len(),
{
    if s.len() == 0 {
    } else if s[0] == c {
    } else {
        lemma_index_of_char_props(s.drop_first(), c);
        assert forall|j: int| 0 <= j < index_of_char(s, c) implies s[j] != c by {
            if j > 0 {
                assert(s.drop_first()[j - 1] == s[j]);
            }
        }
    }
}

pub proof fn lemma_index_of_pair_props(s: Seq<char>, a: char, b: char)
    ensures
        index_of_pair(s, a, b) <= s.len(),
        index_of_pair(s, a, b) + 2 <= s.len() ==> s[index_of_pair(s, a, b) as int] == a
            && s[index_of_pair(s, a, b) as int + 1] == b,
        index_of_pair(s, a, b) + 2 > s.len() ==> index_of_pair(s, a, b) == s.len(),
        forall|j: int|
            0 <= j < index_of_pair(s, a, b) && j + 2 <= s.len() ==> !(#[trigger] s[j] == a && s[j + 1] == b),
    decreases s.len(),
{
    if s.len() < 2 {
    } else if s[0] == a && s[1] == b {
    } else {
        lemma_index_of_pair_props(s.drop_first(), a, b);
        assert forall|j: int|
            0 <= j < index_of_pair(s, a, b) && j + 2 <= s.len() implies !(#[trigger] s[j] == a && s[j + 1]
            == b) by {
            if j > 0 {
                assert(s.drop_first()[j - 1] == s[j]);
                assert(s.drop_first()[j] == s[j + 1]);
            }
        }
    }
}

/// A found pair never stands closer to the end than two characters: when the
/// pair is present its index leaves room for both characters.
pub proof fn lemma_index_of_pair_found(s: Seq<char>, a: char, b: char)
    ensures
        index_of_pair(s, a, b) < s.len() ==> index_of_pair(s, a, b) + 2 <= s.len(),
    decreases s.len(),
{
    if s.len() < 2 {
    } else if s[0] == a && s[1] == b {
    } else {
        lemma_index_of_pair_found(s.drop_first(), a, b);
    }
}

proof fn lemma_trim_start_skip(s: Seq<char>, k: int)
    requires
        0 <= k <= s.len(),
        forall|j: int| 0 <= j < k ==> is_space(s[j]),
        k == s.len() || !is_space(s[k]),
    ensures
        trim_start(s) == s.skip(k),
    decreases k,
{
    if k == 0 {
        assert(s.skip(0) =~= s);
    } else {
        assert(is_space(s[0]));
        lemma_trim_start_skip(s.drop_first(), k - 1);
        assert(s.drop_first().skip(k - 1) =~= s.skip(k));
    }
}

proof fn lemma_trim_end_take(s: Seq<char>, k: int)
    requires
        0 <= k <= s.len(),
        forall|j: int| k <= j < s.len() ==> is_space(s[j]),
        k == 0 || !is_space(s[k - 1]),
    ensures
        trim_end(s) == s.take(k),
    decreases s.len(),
{
    if k == s.len() {
        assert(s.take(k) =~= s);
    } else {
        assert(is_space(s.last()));
        lemma_trim_end_take(s.drop_last(), k);
        assert(s.drop_last().take(k) =~= s.take(k));
    }
}

/// Copy the characters of a string slice into a vector.
pub fn str_to_chars(s: &str) -> (r: Vec<char>)
    ensures
        r@ == s@,
{
    let n: usize = s.unicode_len();
    let mut r: Vec<char> = Vec::new();
    let mut i: usize = 0;
    while i < n
        invariant
            n == s@.len(),
            i <= n,
            r@ == s@.take(i as int),
        decreases n - i,
    {
        let c = s.get_char(i);
        r.push(c);
        i = i + 1;
        proof {
            assert(r@ =~= s@.take(i as int));
        }
    }
    proof {
        assert(r@ =~= s@);
    }
    r
}

/// Relies on `String::push` from std: it appends exactly the given character.
#[verifier::external_body]
fn push_char(s: &mut String, c: char)
    ensures
        final(s)@ == old(s)@.push(c),
{
    s.push(c);
}

/// Build a string whose characters are exactly those of `v`.
pub fn chars_to_string(v: &Vec<char>) -> (r: String)
    ensures
        r@ == v@,
{
    let mut r = String::new();
    let mut i: usize = 0;
    while i < v.len()
        invariant
            i <= v@.len(),
            r@ == v@.take(i as int),
        decreases v@.len() - i,
    {
        push_char(&mut r, v[i]);
        i = i + 1;
        proof {
            assert(r@ =~= v@.take(i as int));
        }
    }
    proof {
        assert(r@ =~= v@);
    }
    r
}

/// Whether two string slices hold the same characters.
pub fn str_eq(a: &str, b: &str) -> (r: bool)
    ensures
        r == (a@ == b@),
{
    let av = str_to_chars(a);
    let bv = str_to_chars(b);
    eq_chars(&av, &bv)
}

/// Whether two character vectors are equal.
pub fn eq_chars(a: &Vec<char>, b: &Vec<char>) -> (r: bool)
    ensures
        r == (a@ == b@),
{
    if a.len() != b.len() {
        return false;
    }
    let mut i: usize = 0;
    while i < a.len()
        invariant
            a@.len() == b@.len(),
            i <= a@.len(),
            forall|j: int| 0 <= j < i ==> a@[j] == b@[j],
        decreases a@.len() - i,
    {
        if a[i] != b[i] {
            return false;
        }
        i = i + 1;
    }
    proof {
        assert(a@ =~= b@);
    }
    true
}

/// Whether the character vector `pre` stands at the beginning of `s`.
pub fn starts_with_chars(s: &Vec<char>, pre: &Vec<char>) -> (r: bool)
    ensures
        r == is_prefix_of(pre@, s@),
{
    if pre.len() > s.len() {
        proof {
            assert(!is_prefix_of(pre@, s@));
        }
        return false;
    }
    let mut i: usize = 0;
    while i < pre.len()
        invariant
            pre@.len() <= s@.len(),
            i <= pre@.len(),
            forall|j: int| 0 <= j < i ==> s@[j] == pre@[j],
        decreases pre@.len() - i,
    {
        if s[i] != pre[i] {
            proof {
                assert(s@.take(pre@.len() as int)[i as int] != pre@[i as int]);
            }
            return false;
        }
        i = i + 1;
    }
    proof {
        assert(s@.take(pre@.len() as int) =~= pre@);
    }
    true
}

/// Whether the character vector `suf` stands at the end of `s`.
pub fn ends_with_chars(s: &Vec<char>, suf: &Vec<char>) -> (r: bool)
    ensures
        r == is_suffix_of(suf@, s@),
{
    if suf.len() > s.len() {
        proof {
            assert(!is_suffix_of(suf@, s@));
        }
        return false;
    }
    let n: usize = s.len();
    let m: usize = suf.len();
    let off: usize = n - m;
    let mut i: usize = 0;
    while i < m
        invariant
            n == s@.len(),
            m == suf@.len(),
            m <= n,
            off == n - m,
            i <= m,
            forall|j: int| 0 <= j < i ==> s@[off + j] == suf@[j],
        decreases m - i,
    {
        if s[off + i] != suf[i] {
            proof {
                assert(s@.skip(s@.len() - suf@.len())[i as int] != suf@[i as int]);
            }
            return false;
        }
        i = i + 1;
    }
    proof {
        assert(s@.skip(s@.len() - suf@.len()) =~= suf@);
    }
    true
}

/// Copy the characters of `v` from `from` (inclusive) to `to` (exclusive).
pub fn subrange_chars(v: &Vec<char>, from: usize, to: usize) -> (r: Vec<char>)
    requires
        from <= to <= v@.len(),
    ensures
        r@ == v@.subrange(from as int, to as int),
{
    let mut r: Vec<char> = Vec::new();
    let mut i: usize = from;
    while i < to
        invariant
            from <= i <= to <= v@.len(),
            r@ == v@.subrange(from as int, i as int),
        decreases to - i,
    {
        r.push(v[i]);
        i = i + 1;
        proof {
            assert(r@ =~= v@.subrange(from as int, i as int));
        }
    }
    r
}

/// The ASCII-lowercase image of one character.
pub fn lower_char_exec(c: char) -> (r: char)
    ensures
        r == lower_char(c),
{
    if 'A' <= c && c <= 'Z' {
        let b = c as u8;
        (b + 32) as char
    } else {
        c
    }
}

/// The ASCII-lowercase image of a whole character vector.
pub fn lower_chars(v: &Vec<char>) -> (r: Vec<char>)
    ensures
        r@ == lower(v@),
{
    let mut r: Vec<char> = Vec::new();
    let mut i: usize = 0;
    while i < v.len()
        invariant
            i <= v@.len(),
            r@.len() == i,
            forall|j: int| 0 <= j < i ==> r@[j] == lower_char(v@[j]),
        decreases v@.len() - i,
    {
        r.push(lower_char_exec(v[i]));
        i = i + 1;
    }
    proof {
        assert(r@ =~= lower(v@));
    }
    r
}

/// Lowercase `v` and remove the separator characters `.` and `-`.
pub fn normalize_chars(v: &Vec<char>) -> (r: Vec<char>)
    ensures
        r@ == normalized(v@),
{
    let mut r: Vec<char> = Vec::new();
    let mut i: usize = 0;
    while i < v.len()
        invariant
            i <= v@.len(),
            r@ == normalized(v@.take(i as int)),
        decreases v@.len() - i,
    {
        let c = lower_char_exec(v[i]);
        if c != '.' && c != '-' {
            r.push(c);
        }
        i = i + 1;
        proof {
            assert(v@.take(i as int).drop_last() =~= v@.take(i - 1));
            assert(v@.take(i as int).last() == v@[i - 1]);
            assert(r@ =~= normalized(v@.take(i as int)));
        }
    }
    proof {
        assert(v@.take(v@.len() as int) =~= v@);
    }
    r
}

/// Index of the first occurrence of `c` in `v` at or after `from`; the length
/// of `v` when absent.
pub fn find_char_from(v: &Vec<char>, c: char, from: usize) -> (r: usize)
    requires
        from <= v@.len(),
    ensures
        r == from + index_of_char(v@.skip(from as int), c),
        r <= v@.len(),
        r < v@.len() ==> v@[r as int] == c,
        forall|j: int| from <= j < r ==> v@[j] != c,
{
    let n: usize = v.len();
    let mut i: usize = from;
    while i < n
        invariant
            from <= i <= n,
            n == v@.len(),
            forall|j: int| from <= j < i ==> v@[j] != c,
        decreases n - i,
    {
        if v[i] == c {
            proof {
                lemma_index_of_char_props(v@.skip(from as int), c);
                let k = index_of_char(v@.skip(from as int), c) as int;
                assert(forall|j: int|
                    0 <= j < i - from ==> v@.skip(from as int)[j] == v@[from + j]);
                assert(v@.skip(from as int)[i - from] == c);
                if k < i - from {
                    assert(v@.skip(from as int)[k] == c);
                    assert(v@[from + k] == c);
                }
                if k > i - from {
                    assert(v@.skip(from as int)[i - from] != c);
                }
            }
            return i;
        }
        i = i + 1;
    }
    proof {
        lemma_index_of_char_props(v@.skip(from as int), c);
        let k = index_of_char(v@.skip(from as int), c) as int;
        if k < n - from {
            assert(v@.skip(from as int)[k] == c);
            assert(v@[from + k] == c);
        }
    }
    n
}

/// Index of the first occurrence of the pair `a b` in `v`; the length of `v`
/// when absent.
pub fn find_pair(v: &Vec<char>, a: char, b: char) -> (r: usize)
    ensures
        r == index_of_pair(v@, a, b),
{
    let n: usize = v.len();
    if n < 2 {
        proof {
            lemma_index_of_pair_props(v@, a, b);
        }
        return n;
    }
    let mut i: usize = 0;
    while i < n - 1
        invariant
            n == v@.len(),
            n >= 2,
            i <= n - 1,
            forall|j: int| 0 <= j < i ==> !(#[trigger] v@[j] == a && v@[j + 1] == b),
        decreases n - i,
    {
        if v[i] == a && v[i + 1] == b {
            proof {
                lemma_index_of_pair_props(v@, a, b);
                lemma_index_of_pair_found(v@, a, b);
                let k = index_of_pair(v@, a, b) as int;
                if k < i {
                    assert(!(v@[k] == a && v@[k + 1] == b));
                }
            }
            return i;
        }
        i = i + 1;
    }
    proof {
        lemma_index_of_pair_props(v@, a, b);
        lemma_index_of_pair_found(v@, a, b);
        let k = index_of_pair(v@, a, b) as int;
        if k + 2 <= n {
            assert(!(v@[k] == a && v@[k + 1] == b));
        }
    }
    n
}

/// `v` without whitespace at either edge.
pub fn trim_chars(v: &Vec<char>) -> (r: Vec<char>)
    ensures
        r@ == trim(v@),
{
    let n: usize = v.len();
    let mut a: usize = 0;
    while a < n && is_space_exec(v[a])
        invariant
            a <= n,
            n == v@.len(),
            forall|j: int| 0 <= j < a ==> is_space(v@[j]),
        decreases n - a,
    {
        a = a + 1;
    }
    proof {
        lemma_trim_start_skip(v@, a as int);
    }
    let mut b: usize = n;
    while b > a && is_space_exec(v[b - 1])
        invariant
            a <= b <= n,
            n == v@.len(),
            forall|j: int| b <= j < n ==> is_space(v@[j]),
            forall|j: int| 0 <= j < a ==> is_space(v@[j]),
            a == n || !is_space(v@[a as int]),
        decreases b,
    {
        b = b - 1;
    }
    proof {
        let t = v@.skip(a as int);
        assert(forall|j: int| 0 <= j < t.len() ==> t[j] == v@[a + j]);
        lemma_trim_end_take(t, b - a);
        assert(t.take(b - a) =~= v@.subrange(a as int, b as int));
    }
    subrange_chars(v, a, b)
}

/// Whether `c` is one of the whitespace characters that `trim_chars` removes.
pub fn is_space_exec(c: char) -> (r: bool)
    ensures
        r == is_space(c),
{
    c == ' ' || c == '\t' || c == '\r' || c == '\n'
}

/// `v` with every leading repetition of `pat` removed.
pub fn strip_prefix_all_chars(v: &Vec<char>, pat: &Vec<char>) -> (r: Vec<char>)
    ensures
        r@ == strip_prefix_all(v@, pat@),
{
    let mut cur = subrange_chars(v, 0, v.len());
    proof {
        assert(cur@ =~= v@);
    }
    loop
        invariant
            strip_prefix_all(cur@, pat@) == strip_prefix_all(v@, pat@),
        decreases cur@.len() + 1,
    {
        if pat.len() == 0 || !starts_with_chars(&cur, pat) {
            proof {
                assert(strip_prefix_all(cur@, pat@) == cur@);
            }
            return cur;
        }
        let next = subrange_chars(&cur, pat.len(), cur.len());
        proof {
            assert(next@ =~= cur@.skip(pat@.len() as int));
        }
        cur = next;
    }
}

/// `v` without a single trailing carriage return.
pub fn strip_cr_chars(v: &Vec<char>) -> (r: Vec<char>)
    ensures
        r@ == strip_cr(v@),
{
    let n: usize = v.len();
    if n > 0 && v[n - 1] == '\r' {
        subrange_chars(v, 0, n - 1)
    } else {
        proof {
            assert(v@.subrange(0, n as int) =~= v@);
        }
        subrange_chars(v, 0, n)
    }
}

/// Divide `v` at newline characters, each line without its trailing carriage
/// return; a trailing newline opens no final empty line.
pub fn split_lines_chars(v: &Vec<char>) -> (r: Vec<Vec<char>>)
    ensures
        r.deep_view() == split_lines(v@),
{
    let n: usize = v.len();
    let mut r: Vec<Vec<char>> = Vec::new();
    let mut pos: usize = 0;
    proof {
        assert(v@.skip(0) =~= v@);
        assert(r.deep_view() + split_lines(v@.skip(0)) =~= split_lines(v@));
    }
    while pos < n
        invariant
            pos <= n,
            n == v@.len(),
            split_lines(v@) == r.deep_view() + split_lines(v@.skip(pos as int)),
        decreases n - pos,
    {
        let ghost pre = r.deep_view();
        let ghost rest = v@.skip(pos as int);
        let k = find_char_from(v, '\n', pos);
        let raw = subrange_chars(v, pos, k);
        let line = strip_cr_chars(&raw);
        proof {
            lemma_index_of_char_props(rest, '\n');
            assert(k - pos == index_of_char(rest, '\n'));
        }
        r.push(line);
        proof {
            assert(line.deep_view() =~= line@);
            assert(r.deep_view() =~= pre.push(line@));
        }
        if k >= n {
            proof {
                assert(k - pos >= rest.len());
                assert(raw@ =~= rest);
                assert(split_lines(rest) == seq![strip_cr(rest)]);
                assert(pre.push(line@) =~= pre + seq![strip_cr(rest)]);
            }
            return r;
        }
        proof {
            let i = (k - pos) as int;
            assert(0 <= i < rest.len());
            assert(raw@ =~= rest.take(i));
            assert(split_lines(rest) == seq![strip_cr(rest.take(i))] + split_lines(
                rest.skip(i + 1),
            ));
            assert(rest.skip(i + 1) =~= v@.skip(k + 1));
            assert(pre.push(line@) + split_lines(v@.skip(k + 1)) =~= pre + split_lines(rest));
        }
        pos = k + 1;
    }
    proof {
        assert(v@.skip(pos as int) =~= Seq::<char>::empty());
        assert(r.deep_view() + split_lines(v@.skip(pos as int)) =~= r.deep_view());
    }
    r
}

} // verus!
