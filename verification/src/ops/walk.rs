//! Which directory entries a project walk passes over.
use vstd::prelude::*;
use crate::text::{contains_text, ends_with, starts_with, str_eq, text_contains, text_ends_with, text_starts_with};

verus! {

/// Whether `s[i..]` matches the glob `p[j..]`: `*` matches any run of
/// characters, `?` any one character, any other character itself.
pub open spec fn glob_from(s: Seq<char>, p: Seq<char>, i: int, j: int) -> bool
    decreases p.len() - j, s.len() - i,
{
    if j < 0 || i < 0 || j >= p.len() {
        0 <= i && i >= s.len()
    } else if p[j] == '*' {
        glob_from(s, p, i, j + 1) || (i < s.len() && glob_from(s, p, i + 1, j))
    } else {
        i < s.len() && (p[j] == '?' || s[i] == p[j]) && glob_from(s, p, i + 1, j + 1)
    }
}

/// Whether the whole of `s` matches the glob `p`.
pub open spec fn glob_match(s: Seq<char>, p: Seq<char>) -> bool {
    glob_from(s, p, 0, 0)
}

proof fn lemma_star_from(s: Seq<char>, i: int)
    requires
        0 <= i <= s.len(),
    ensures
        glob_from(s, seq!['*'], i, 0),
    decreases s.len() - i,
{
    let p = seq!['*'];
    assert(p.len() == 1 && p[0] == '*');
    if i < s.len() {
        lemma_star_from(s, i + 1);
        assert(glob_from(s, p, i + 1, 0));
    } else {
        assert(glob_from(s, p, i, 1));
    }
}

/// The glob `*` matches every path.
pub proof fn lemma_glob_star(s: Seq<char>)
    ensures
        glob_match(s, seq!['*']),
{
    lemma_star_from(s, 0);
}

proof fn lemma_literal_from(s: Seq<char>, p: Seq<char>, i: int, j: int)
    requires
        0 <= i <= s.len(),
        0 <= j <= p.len(),
        forall|k: int| 0 <= k < p.len() ==> p[k] != '*' && p[k] != '?',
    ensures
        glob_from(s, p, i, j) <==> s.subrange(i, s.len() as int) == p.subrange(j, p.len() as int),
    decreases p.len() - j, s.len() - i,
{
    if j < p.len() {
        if i < s.len() {
            lemma_literal_from(s, p, i + 1, j + 1);
            if s.subrange(i, s.len() as int) == p.subrange(j, p.len() as int) {
                assert(s[i] == s.subrange(i, s.len() as int)[0]);
                assert(s.subrange(i + 1, s.len() as int) =~= s.subrange(i, s.len() as int).drop_first());
                assert(p.subrange(j + 1, p.len() as int) =~= p.subrange(j, p.len() as int).drop_first());
            }
            if s[i] == p[j] && s.subrange(i + 1, s.len() as int) == p.subrange(j + 1, p.len() as int) {
                assert(s.subrange(i, s.len() as int) =~= seq![s[i]] + s.subrange(i + 1, s.len() as int));
                assert(p.subrange(j, p.len() as int) =~= seq![p[j]] + p.subrange(j + 1, p.len() as int));
            }
        } else {
            assert(s.subrange(i, s.len() as int).len() == 0);
        }
    } else {
        assert(p.subrange(j, p.len() as int).len() == 0);
        if i < s.len() {
            assert(s.subrange(i, s.len() as int).len() > 0);
        } else {
            assert(s.subrange(i, s.len() as int) =~= p.subrange(j, p.len() as int));
        }
    }
}

/// A glob without wildcards matches exactly the path spelled as it.
pub proof fn lemma_glob_literal(s: Seq<char>, p: Seq<char>)
    requires
        !is_glob(p),
    ensures
        glob_match(s, p) <==> s == p,
{
    lemma_literal_from(s, p, 0, 0);
    assert(s.subrange(0, s.len() as int) =~= s);
    assert(p.subrange(0, p.len() as int) =~= p);
}

/// Whether a pattern uses glob wildcards.
pub open spec fn is_glob(p: Seq<char>) -> bool {
    exists|k: int| 0 <= k < p.len() && (p[k] == '*' || p[k] == '?')
}

/// Whether `path` matches an exclude pattern: a pattern with `*` or `?` is
/// a glob over the whole path; `dir/` matches paths that hold `dir/` or
/// `dir`; any other pattern matches paths that hold it.
pub open spec fn spec_matches_exclude(path: Seq<char>, pattern: Seq<char>) -> bool {
    if is_glob(pattern) {
        glob_match(path, pattern)
    } else if pattern.len() > 0 && pattern.last() == '/' {
        contains_text(path, pattern) || contains_text(path, pattern.drop_last())
    } else {
        contains_text(path, pattern)
    }
}

fn has_wildcard(pattern: &str) -> (res: bool)
    ensures
        res == is_glob(pattern@),
{
    let m = pattern.unicode_len();
    let mut k: usize = 0;
    while k < m
        invariant
            m == pattern@.len(),
            k <= m,
            forall|q: int| 0 <= q < k ==> !(pattern@[q] == '*' || pattern@[q] == '?'),
        decreases m - k,
    {
        let c = pattern.get_char(k);
        if c == '*' || c == '?' {
            return true;
        }
        k = k + 1;
    }
    false
}

/// Whether the whole of `path` matches the glob `pattern`, row by row of
/// the pattern from its end.
pub fn glob_matches(path: &str, pattern: &str) -> (res: bool)
    ensures
        res == glob_match(path@, pattern@),
{
    let ghost s = path@;
    let ghost p = pattern@;
    let n = path.unicode_len();
    let m = pattern.unicode_len();
    if n == usize::MAX {
        return glob_rec(path, pattern, 0, 0);
    }
    let mut next: Vec<bool> = Vec::new();
    let mut i: usize = 0;
    while i <= n
        invariant
            s == path@,
            p == pattern@,
            n == s.len(),
            m == p.len(),
            n < usize::MAX,
            i <= n + 1,
            next@.len() == i,
            forall|k: int| 0 <= k < i ==> next@[k] == glob_from(s, p, k, m as int),
        decreases n + 1 - i,
    {
        next.push(i == n);
        i = i + 1;
    }
    let mut j: usize = m;
    while j > 0
        invariant
            s == path@,
            p == pattern@,
            n == s.len(),
            m == p.len(),
            n < usize::MAX,
            j <= m,
            next@.len() == n + 1,
            forall|k: int| 0 <= k <= n ==> #[trigger] next@[k] == glob_from(s, p, k, j as int),
        decreases j,
    {
        j = j - 1;
        let c = pattern.get_char(j);
        let mut cur: Vec<bool> = Vec::new();
        let mut q: usize = 0;
        while q <= n
            invariant
                n < usize::MAX,
                q <= n + 1,
                cur@.len() == q,
            decreases n + 1 - q,
        {
            cur.push(false);
            q = q + 1;
        }
        let mut k: usize = n + 1;
        while k > 0
            invariant
                s == path@,
                p == pattern@,
                n == s.len(),
                m == p.len(),
                n < usize::MAX,
                j < m,
                c == p[j as int],
                k <= n + 1,
                cur@.len() == n + 1,
                next@.len() == n + 1,
                forall|t: int| 0 <= t <= n ==> #[trigger] next@[t] == glob_from(s, p, t, j + 1),
                forall|t: int| k <= t <= n ==> #[trigger] cur@[t] == glob_from(s, p, t, j as int),
            decreases k,
        {
            k = k - 1;
            let v = if c == '*' {
                next[k] || (k < n && cur[k + 1])
            } else {
                k < n && (c == '?' || path.get_char(k) == c) && next[k + 1]
            };
            assert(v == glob_from(s, p, k as int, j as int));
            cur.set(k, v);
        }
        next = cur;
    }
    next[0]
}

/// Whether `path[i..]` matches `pattern[j..]`, by recursion on the pattern.
fn glob_rec(path: &str, pattern: &str, i: usize, j: usize) -> (res: bool)
    requires
        i <= path@.len(),
        j <= pattern@.len(),
    ensures
        res == glob_from(path@, pattern@, i as int, j as int),
    decreases pattern@.len() - j, path@.len() - i,
{
    let n = path.unicode_len();
    let m = pattern.unicode_len();
    if j >= m {
        return i >= n;
    }
    let c = pattern.get_char(j);
    if c == '*' {
        glob_rec(path, pattern, i, j + 1) || (i < n && glob_rec(path, pattern, i + 1, j))
    } else {
        i < n && (c == '?' || path.get_char(i) == c) && glob_rec(path, pattern, i + 1, j + 1)
    }
}

pub fn matches_exclude(path: &str, pattern: &str) -> (res: bool)
    ensures
        res == spec_matches_exclude(path@, pattern@),
{
    if has_wildcard(pattern) {
        return glob_matches(path, pattern);
    }
    let n = pattern.unicode_len();
    if n > 0 && pattern.get_char(n - 1) == '/' {
        let stripped = pattern.substring_char(0, n - 1);
        assert(stripped@ =~= pattern@.drop_last());
        text_contains(path, pattern) || text_contains(path, stripped)
    } else {
        text_contains(path, pattern)
    }
}

/// Directories that hold no sources: build output, dependencies, caches.
pub open spec fn is_skip_dir(name: Seq<char>) -> bool {
    ||| name == "target"@
    ||| name == "node_modules"@
    ||| name == ".git"@
    ||| name == "__pycache__"@
    ||| name == "build"@
    ||| name == "dist"@
    ||| name == ".next"@
}

pub open spec fn excluded(path: Seq<char>, exclude: Seq<String>) -> bool {
    exists|k: int| 0 <= k < exclude.len() && spec_matches_exclude(path, (#[trigger] exclude[k])@)
}

/// Whether a walk passes over the entry `name` at `path`, a directory when
/// `is_dir`: hidden directories, directories that hold no sources, and
/// entries whose path matches an exclude pattern.
pub open spec fn spec_skip_entry(name: Seq<char>, path: Seq<char>, is_dir: bool, exclude: Seq<String>) -> bool {
    (is_dir && (starts_with(name, "."@) || is_skip_dir(name))) || excluded(path, exclude)
}

/// A walk passes over hidden directories, the directories `target`,
/// `node_modules`, `.git`, `__pycache__`, `build`, `dist` and `.next`, and
/// every entry whose path matches an exclude pattern; it keeps every file
/// (hidden ones included) whose path matches none.
pub proof fn lemma_walk_skips(name: Seq<char>, path: Seq<char>, is_dir: bool, exclude: Seq<String>)
    ensures
        is_dir && starts_with(name, "."@) ==> spec_skip_entry(name, path, is_dir, exclude),
        is_dir && (name == "target"@ || name == "node_modules"@ || name == ".git"@ || name
            == "__pycache__"@ || name == "build"@ || name == "dist"@ || name == ".next"@)
            ==> spec_skip_entry(name, path, is_dir, exclude),
        excluded(path, exclude) ==> spec_skip_entry(name, path, is_dir, exclude),
        !is_dir && !excluded(path, exclude) ==> !spec_skip_entry(name, path, is_dir, exclude),
{
}

pub fn skip_entry(name: &str, path: &str, is_dir: bool, exclude: &Vec<String>) -> (res: bool)
    ensures
        res == spec_skip_entry(name@, path@, is_dir, exclude@),
{
    if is_dir && text_starts_with(name, ".") {
        return true;
    }
    if is_dir && (str_eq(name, "target") || str_eq(name, "node_modules") || str_eq(name, ".git") || str_eq(
        name,
        "__pycache__",
    ) || str_eq(name, "build") || str_eq(name, "dist") || str_eq(name, ".next")) {
        return true;
    }
    let n = exclude.len();
    let mut k: usize = 0;
    while k < n
        invariant
            n == exclude@.len(),
            k <= n,
            forall|j: int| 0 <= j < k ==> !spec_matches_exclude(path@, (#[trigger] exclude@[j])@),
        decreases n - k,
    {
        if matches_exclude(path, exclude[k].as_str()) {
            return true;
        }
        k = k + 1;
    }
    false
}

} // verus!
