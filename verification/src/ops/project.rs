//! Project: a per-file summary of the supported files of a directory.
use vstd::prelude::*;
use vstd::multiset::Multiset;
use crate::error::AstError;
use crate::languages::{Lang, detected_extension, lang_of_extension, parse_error, supported};
use crate::ops::outline::{self, OutlineItem, outline_of};
use crate::text::{bytes_of, str_eq, source_lines, line_count, starts_with, text_starts_with, lemma_line_spans_len, decimal, push_decimal, decimal_text, pad_left, pad_right, push_padded_left, push_padded_right};

verus! {

/// The summary of one file.
#[derive(Debug)]
pub struct FileSummary {
    pub path: String,
    pub language: String,
    pub lines: usize,
    pub functions: usize,
    pub types: usize,
    pub tests: usize,
}

/// The summaries of all files, ordered by path, with totals.
#[derive(Debug)]
pub struct ProjectSummary {
    pub files: Vec<FileSummary>,
    pub total_files: usize,
    pub total_lines: usize,
}

pub open spec fn is_function_kind(k: Seq<char>) -> bool {
    k == "function"@ || k == "method"@ || k == "rpc"@
}

pub open spec fn is_type_kind(k: Seq<char>) -> bool {
    k == "struct"@ || k == "class"@ || k == "enum"@ || k == "trait"@ || k == "interface"@ || k
        == "message"@ || k == "type_alias"@
}

pub open spec fn is_test_name(n: Seq<char>) -> bool {
    starts_with(n, "test_"@) || starts_with(n, "test "@)
}

/// Counts of functions, types and tests.
pub struct Counts {
    pub functions: nat,
    pub types: nat,
    pub tests: nat,
}

pub open spec fn add_counts(a: Counts, b: Counts) -> Counts {
    Counts { functions: a.functions + b.functions, types: a.types + b.types, tests: a.tests + b.tests }
}

/// What an item counts for by itself: a function (and maybe a test), or a type.
pub open spec fn own_counts(it: OutlineItem) -> Counts {
    let f = is_function_kind(it.kind@);
    Counts {
        functions: if f { 1 } else { 0 },
        types: if !f && is_type_kind(it.kind@) { 1 } else { 0 },
        tests: if f && is_test_name(it.name@) { 1 } else { 0 },
    }
}

/// The counts of `items[..k]` and all items nested in them.
pub open spec fn counts_upto(items: Seq<OutlineItem>, k: int) -> Counts
    decreases items, k,
{
    if k <= 0 || k > items.len() {
        Counts { functions: 0, types: 0, tests: 0 }
    } else {
        add_counts(counts_upto(items, k - 1), counts_in(items[k - 1]))
    }
}

pub open spec fn counts_in(it: OutlineItem) -> Counts
    decreases it, 0int,
{
    add_counts(own_counts(it), counts_upto(it.children@, it.children@.len() as int))
}

/// The number of items of `items[..k]` and all items nested in them.
pub open spec fn size_upto(items: Seq<OutlineItem>, k: int) -> nat
    decreases items, k,
{
    if k <= 0 || k > items.len() {
        0
    } else {
        size_upto(items, k - 1) + size_in(items[k - 1])
    }
}

pub open spec fn size_in(it: OutlineItem) -> nat
    decreases it, 0int,
{
    1 + size_upto(it.children@, it.children@.len() as int)
}

pub open spec fn counts_of(items: Seq<OutlineItem>) -> Counts {
    counts_upto(items, items.len() as int)
}

pub open spec fn size_of(items: Seq<OutlineItem>) -> nat {
    size_upto(items, items.len() as int)
}

/// Every test is a function, and no item counts both as a function and as a
/// type: tests <= functions, functions + types <= items.
pub proof fn lemma_counts_bounded(items: Seq<OutlineItem>, k: int)
    ensures
        counts_upto(items, k).tests <= counts_upto(items, k).functions,
        counts_upto(items, k).functions + counts_upto(items, k).types <= size_upto(items, k),
    decreases items, k,
{
    if 0 < k <= items.len() {
        lemma_counts_bounded(items, k - 1);
        lemma_counts_in_bounded(items[k - 1]);
    }
}

pub proof fn lemma_counts_in_bounded(it: OutlineItem)
    ensures
        counts_in(it).tests <= counts_in(it).functions,
        counts_in(it).functions + counts_in(it).types <= size_in(it),
    decreases it, 0int,
{
    lemma_counts_bounded(it.children@, it.children@.len() as int);
}

/// Functions, methods and rpcs count as functions; structs, classes, enums,
/// traits, interfaces, messages and type aliases count as types; a function
/// whose name starts with `test_` or `test ` counts as a test too.
pub proof fn lemma_kind_counts(it: OutlineItem)
    ensures
        it.kind@ == "function"@ || it.kind@ == "method"@ || it.kind@ == "rpc"@ ==> counts_in(it).functions
            >= 1,
        it.kind@ == "struct"@ || it.kind@ == "class"@ || it.kind@ == "enum"@ || it.kind@ == "trait"@
            || it.kind@ == "interface"@ || it.kind@ == "message"@ || it.kind@ == "type_alias"@
            ==> counts_in(it).types >= 1,
        (it.kind@ == "function"@ || it.kind@ == "method"@ || it.kind@ == "rpc"@) && (starts_with(
            it.name@,
            "test_"@,
        ) || starts_with(it.name@, "test "@)) ==> counts_in(it).tests >= 1,
{
    reveal_strlit("function");
    reveal_strlit("method");
    reveal_strlit("rpc");
    reveal_strlit("struct");
    reveal_strlit("class");
    reveal_strlit("enum");
    reveal_strlit("trait");
    reveal_strlit("interface");
    reveal_strlit("message");
    reveal_strlit("type_alias");
    assert("struct"@.len() != "function"@.len());
    assert("struct"@[0] != "method"@[0]);
    assert("struct"@.len() != "rpc"@.len());
    assert("class"@.len() != "function"@.len());
    assert("class"@.len() != "method"@.len());
    assert("class"@.len() != "rpc"@.len());
    assert("enum"@.len() != "function"@.len());
    assert("enum"@.len() != "method"@.len());
    assert("enum"@.len() != "rpc"@.len());
    assert("trait"@.len() != "function"@.len());
    assert("trait"@.len() != "method"@.len());
    assert("trait"@.len() != "rpc"@.len());
    assert("interface"@.len() != "function"@.len());
    assert("interface"@.len() != "method"@.len());
    assert("interface"@.len() != "rpc"@.len());
    assert("message"@.len() != "function"@.len());
    assert("message"@.len() != "method"@.len());
    assert("message"@.len() != "rpc"@.len());
    assert("type_alias"@.len() != "function"@.len());
    assert("type_alias"@.len() != "method"@.len());
    assert("type_alias"@.len() != "rpc"@.len());
}

/// The counts of a forest take in the counts of each of its items, with
/// all that is nested in it.
pub proof fn lemma_counts_include(items: Seq<OutlineItem>, k: int, j: int)
    requires
        0 <= j < k <= items.len(),
    ensures
        counts_upto(items, k).functions >= counts_in(items[j]).functions,
        counts_upto(items, k).types >= counts_in(items[j]).types,
        counts_upto(items, k).tests >= counts_in(items[j]).tests,
    decreases k,
{
    if j < k - 1 {
        lemma_counts_include(items, k - 1, j);
    }
}

/// A forest grows with each item.
proof fn lemma_size_grows(items: Seq<OutlineItem>, j: int, k: int)
    requires
        0 <= j <= k <= items.len(),
    ensures
        size_upto(items, j) <= size_upto(items, k),
    decreases k - j,
{
    if j < k {
        lemma_size_grows(items, j, k - 1);
    }
}

pub fn is_function_kind_text(k: &str) -> (res: bool)
    ensures
        res == is_function_kind(k@),
{
    str_eq(k, "function") || str_eq(k, "method") || str_eq(k, "rpc")
}

pub fn is_type_kind_text(k: &str) -> (res: bool)
    ensures
        res == is_type_kind(k@),
{
    str_eq(k, "struct") || str_eq(k, "class") || str_eq(k, "enum") || str_eq(k, "trait") || str_eq(
        k,
        "interface",
    ) || str_eq(k, "message") || str_eq(k, "type_alias")
}

/// The number of items, nested ones included, or `None` when it does not fit
/// in a machine word.
pub fn count_all(items: &Vec<OutlineItem>) -> (res: Option<usize>)
    ensures
        match res {
            Some(n) => n == size_of(items@),
            None => size_of(items@) > usize::MAX,
        },
    decreases items@,
{
    let n = items.len();
    let mut total: usize = 0;
    let mut i: usize = 0;
    while i < n
        invariant
            n == items@.len(),
            i <= n,
            total == size_upto(items@, i as int),
        decreases n - i,
    {
        let item = &items[i];
        assert(decreases_to!(items@ => item.children@));
        assert(size_upto(items@, i + 1) == size_upto(items@, i as int) + size_in(items@[i as int]));
        assert(size_in(*item) == 1 + size_of(item.children@));
        let inner = match count_all(&item.children) {
            Some(c) => c,
            None => {
                proof {
                    lemma_size_grows(items@, i + 1, n as int);
                }
                return None;
            },
        };
        if total >= usize::MAX - inner {
            proof {
                lemma_size_grows(items@, i + 1, n as int);
            }
            return None;
        }
        total = total + inner + 1;
        i = i + 1;
    }
    Some(total)
}

/// Adds to the counters the functions, types and tests among `items` and
/// the items nested in them.
pub fn count_items(items: &Vec<OutlineItem>, functions: &mut usize, types: &mut usize, tests: &mut usize)
    requires
        *old(functions) + size_of(items@) <= usize::MAX,
        *old(types) + size_of(items@) <= usize::MAX,
        *old(tests) + size_of(items@) <= usize::MAX,
    ensures
        *final(functions) == *old(functions) + counts_of(items@).functions,
        *final(types) == *old(types) + counts_of(items@).types,
        *final(tests) == *old(tests) + counts_of(items@).tests,
    decreases items@,
{
    let ghost f0 = *functions;
    let ghost ty0 = *types;
    let ghost te0 = *tests;
    let n = items.len();
    let mut i: usize = 0;
    while i < n
        invariant
            n == items@.len(),
            i <= n,
            f0 + size_of(items@) <= usize::MAX,
            ty0 + size_of(items@) <= usize::MAX,
            te0 + size_of(items@) <= usize::MAX,
            *functions == f0 + counts_upto(items@, i as int).functions,
            *types == ty0 + counts_upto(items@, i as int).types,
            *tests == te0 + counts_upto(items@, i as int).tests,
        decreases n - i,
    {
        let item = &items[i];
        proof {
            lemma_counts_bounded(items@, i + 1);
            lemma_size_grows(items@, i + 1, n as int);
            lemma_counts_in_bounded(*item);
            lemma_counts_bounded(items@, i as int);
        }
        if is_function_kind_text(item.kind.as_str()) {
            *functions = *functions + 1;
            if text_starts_with(item.name.as_str(), "test_") || text_starts_with(item.name.as_str(), "test ") {
                *tests = *tests + 1;
            }
        } else if is_type_kind_text(item.kind.as_str()) {
            *types = *types + 1;
        }
        assert(decreases_to!(items@ => item.children@));
        count_items(&item.children, functions, types, tests);
        i = i + 1;
    }
}

} // verus!

verus! {

broadcast use vstd::seq_lib::group_to_multiset_ensures, vstd::multiset::group_multiset_axioms;

/// The summary of a file, from its text and outline.
pub fn summarize_file(path: &str, source: &str, lang: Lang, items: &Vec<OutlineItem>) -> (res: FileSummary)
    requires
        size_of(items@) <= usize::MAX,
    ensures
        res.path@ == path@,
        res.language@ == lang.spec_name(),
        res.lines == source_lines(bytes_of(source@)).len(),
        res.functions == counts_of(items@).functions,
        res.types == counts_of(items@).types,
        res.tests == counts_of(items@).tests,
{
    let mut functions: usize = 0;
    let mut types: usize = 0;
    let mut tests: usize = 0;
    count_items(items, &mut functions, &mut types, &mut tests);
    FileSummary {
        path: path.to_owned(),
        language: lang.name().to_owned(),
        lines: line_count(source),
        functions,
        types,
        tests,
    }
}

/// Whether path `a` sorts before path `b` in `std::path::Path`'s order,
/// which compares paths component by component.
pub uninterp spec fn path_before(a: Seq<char>, b: Seq<char>) -> bool;

/// `<` on `std::path::Path`: the contract claims that the answer is a
/// function of the two paths alone, `path_before`, and, as `Path`'s `Ord` is
/// a total order, that a path that sorts before another is not also sorted
/// after it. Transitivity, which spans three paths, is not stated.
#[verifier::external_body]
fn path_precedes(a: &str, b: &str) -> (res: bool)
    ensures
        res == path_before(a@, b@),
        res ==> !path_before(b@, a@),
{
    std::path::Path::new(a) < std::path::Path::new(b)
}

/// No summary is followed by one whose path sorts before its own.
pub open spec fn in_path_order(fs: Seq<FileSummary>) -> bool {
    forall|i: int| 0 <= i < fs.len() - 1 ==> !path_before(fs[i + 1].path@, #[trigger] fs[i].path@)
}

/// A sequence with one more element has that element once more.
proof fn lemma_insert_multiset<A>(s: Seq<A>, j: int, x: A)
    requires
        0 <= j <= s.len(),
    ensures
        s.insert(j, x).to_multiset() =~= s.to_multiset().insert(x),
{
    let t = s.insert(j, x);
    assert(t.remove(j) =~= s);
    assert(t[j] == x);
    assert(t.to_multiset().count(x) > 0) by {
        assert(t.contains(x));
    }
    assert(s.to_multiset() =~= t.to_multiset().remove(x));
}

/// The summaries in path order (a stable insertion sort).
pub fn sort_by_path(files: Vec<FileSummary>) -> (res: Vec<FileSummary>)
    ensures
        res@.to_multiset() =~= files@.to_multiset(),
        in_path_order(res@),
{
    let mut input = files;
    let mut out: Vec<FileSummary> = Vec::new();
    let ghost all = input@;
    assert(out@.to_multiset() =~= Multiset::empty());
    while input.len() > 0
        invariant
            out@.to_multiset().add(input@.to_multiset()) =~= all.to_multiset(),
            in_path_order(out@),
        decreases input@.len(),
    {
        let ghost before_in = input@;
        let x = input.remove(0);
        assert(input@.to_multiset() =~= before_in.to_multiset().remove(x));
        assert(before_in.to_multiset().count(x) > 0) by {
            assert(before_in.contains(x));
        }
        let mut j = out.len();
        let mut go = j > 0 && path_precedes(x.path.as_str(), out[j - 1].path.as_str());
        while go
            invariant
                j <= out@.len(),
                forall|k: int|
                    j <= k < out@.len() ==> path_before(x.path@, (#[trigger] out@[k]).path@) && !path_before(
                        out@[k].path@,
                        x.path@,
                    ),
                go ==> j > 0 && path_before(x.path@, out@[j - 1].path@) && !path_before(out@[j - 1].path@, x.path@),
                !go ==> j == 0 || !path_before(x.path@, out@[j - 1].path@),
            decreases j,
        {
            j = j - 1;
            go = j > 0 && path_precedes(x.path.as_str(), out[j - 1].path.as_str());
        }
        let ghost before_out = out@;
        out.insert(j, x);
        proof {
            lemma_insert_multiset(before_out, j as int, x);
            let t = out@;
            assert forall|i: int| 0 <= i < t.len() - 1 implies !path_before(t[i + 1].path@, #[trigger] t[i].path@) by {
                if i + 1 < j {
                    assert(t[i] == before_out[i] && t[i + 1] == before_out[i + 1]);
                } else if i + 1 == j {
                    assert(t[i + 1] == x && t[i] == before_out[i]);
                } else if i == j {
                    assert(t[i] == x && t[i + 1] == before_out[i]);
                } else {
                    assert(t[i] == before_out[i - 1] && t[i + 1] == before_out[i]);
                }
            }
        }
    }
    out
}

/// The sum of the line counts of `fs`.
pub open spec fn sum_lines(fs: Seq<FileSummary>) -> nat
    decreases fs.len(),
{
    if fs.len() == 0 {
        0
    } else {
        sum_lines(fs.drop_last()) + fs.last().lines as nat
    }
}

proof fn lemma_sum_lines_remove(s: Seq<FileSummary>, i: int)
    requires
        0 <= i < s.len(),
    ensures
        sum_lines(s) == sum_lines(s.remove(i)) + s[i].lines,
    decreases s.len(),
{
    if i < s.len() - 1 {
        lemma_sum_lines_remove(s.drop_last(), i);
        assert(s.remove(i).drop_last() =~= s.drop_last().remove(i));
        assert(s.remove(i).last() == s.last());
    } else {
        assert(s.remove(i) =~= s.drop_last());
    }
}

/// Reordering keeps the sum.
pub proof fn lemma_sum_lines_permutation(s1: Seq<FileSummary>, s2: Seq<FileSummary>)
    requires
        s1.to_multiset() =~= s2.to_multiset(),
    ensures
        sum_lines(s1) == sum_lines(s2),
    decreases s1.len(),
{
    if s1.len() == 0 {
        assert(s1.to_multiset().len() == 0);
        assert(s2.to_multiset().len() == s2.len());
    } else {
        let x = s1.last();
        assert(s1.contains(x));
        assert(s2.to_multiset().count(x) > 0);
        assert(s2.contains(x));
        let i = choose|i: int| 0 <= i < s2.len() && s2[i] == x;
        assert(s1.remove(s1.len() - 1) =~= s1.drop_last());
        assert(s1.drop_last().to_multiset() =~= s1.to_multiset().remove(x));
        assert(s2.remove(i).to_multiset() =~= s2.to_multiset().remove(x));
        lemma_sum_lines_permutation(s1.drop_last(), s2.remove(i));
        lemma_sum_lines_remove(s2, i);
    }
}

/// The sum of the byte lengths of the texts of `files`.
pub open spec fn total_bytes(files: Seq<(String, String)>) -> nat
    decreases files.len(),
{
    if files.len() == 0 {
        0
    } else {
        total_bytes(files.drop_last()) + bytes_of(files.last().1@).len()
    }
}

proof fn lemma_total_bytes_grows(files: Seq<(String, String)>, k: int)
    requires
        0 <= k <= files.len(),
    ensures
        total_bytes(files.subrange(0, k)) <= total_bytes(files),
    decreases files.len() - k,
{
    if k < files.len() {
        lemma_total_bytes_grows(files, k + 1);
        assert(files.subrange(0, k + 1).drop_last() =~= files.subrange(0, k));
    } else {
        assert(files.subrange(0, k) =~= files);
    }
}

/// `f` summarizes the file at `path` with text `source` and outline `items`.
pub open spec fn summarizes(f: FileSummary, path: Seq<char>, source: Seq<char>, items: Seq<OutlineItem>) -> bool {
    &&& f.path@ == path
    &&& lang_of_extension(detected_extension(path)) matches Some(l)
    &&& f.language@ == l.spec_name()
    &&& outline_of(path, source, items)
    &&& f.lines == source_lines(bytes_of(source)).len()
    &&& f.functions == counts_of(items).functions
    &&& f.types == counts_of(items).types
    &&& f.tests == counts_of(items).tests
}

/// In every file summary, tests are among the functions, and no item is
/// counted both as a function and as a type.
pub proof fn lemma_summary_counts(f: FileSummary, path: Seq<char>, source: Seq<char>, items: Seq<OutlineItem>)
    requires
        summarizes(f, path, source, items),
    ensures
        f.tests <= f.functions,
        f.functions + f.types <= size_of(items),
{
    lemma_counts_bounded(items, items.len() as int);
}

/// `e` is why the file at `path` with text `source` has no summary: its
/// outline failed, or it holds more items than a machine word counts.
pub open spec fn skip_reason(path: Seq<char>, source: Seq<char>, items: Seq<OutlineItem>, e: AstError) -> bool {
    ||| parse_error(path, source, e)
    ||| (e is Overflow && outline_of(path, source, items) && size_of(items) > usize::MAX)
}

pub open spec fn increasing(s: Seq<int>) -> bool {
    forall|a: int, b: int| 0 <= a < b < s.len() ==> s[a] < s[b]
}

/// The first `k` files are accounted for: the summaries come from the
/// files at `origin`, the passed-over files are those at `skip_origin`, both
/// in file order; each file in a supported language is in exactly one of
/// them, and no other file is in either.
pub open spec fn accounted(
    files: Seq<(String, String)>,
    k: int,
    outs: Seq<Seq<OutlineItem>>,
    summaries: Seq<FileSummary>,
    origin: Seq<int>,
    skipped: Seq<(String, AstError)>,
    skip_origin: Seq<int>,
) -> bool {
    &&& 0 <= k <= files.len()
    &&& outs.len() == k
    &&& origin.len() == summaries.len()
    &&& skip_origin.len() == skipped.len()
    &&& increasing(origin)
    &&& increasing(skip_origin)
    &&& forall|x: int| 0 <= x < origin.len() ==> 0 <= #[trigger] origin[x] < k
    &&& forall|x: int| 0 <= x < skip_origin.len() ==> 0 <= #[trigger] skip_origin[x] < k
    &&& forall|x: int, y: int| 0 <= x < origin.len() && 0 <= y < skip_origin.len() ==> origin[x] != skip_origin[y]
    &&& forall|x: int|
        0 <= x < origin.len() ==> summarizes(
            #[trigger] summaries[x],
            files[origin[x]].0@,
            files[origin[x]].1@,
            outs[origin[x]],
        )
    &&& forall|x: int|
        0 <= x < skip_origin.len() ==> {
            &&& (#[trigger] skipped[x]).0@ == files[skip_origin[x]].0@
            &&& skip_reason(files[skip_origin[x]].0@, files[skip_origin[x]].1@, outs[skip_origin[x]], skipped[x].1)
        }
    &&& forall|j: int|
        0 <= j < k && supported((#[trigger] files[j]).0@) ==> origin.contains(j) || skip_origin.contains(j)
    &&& forall|j: int| 0 <= j < k && !supported((#[trigger] files[j]).0@) ==> !origin.contains(j) && !skip_origin.contains(j)
}

/// Summarize `files`, pairs of path and text: a summary per file in a
/// supported language whose outline could be computed, in path order, with
/// totals; the files passed over come back with the reason.
pub fn run(files: &Vec<(String, String)>) -> (res: (ProjectSummary, Vec<(String, AstError)>))
    requires
        total_bytes(files@) <= usize::MAX,
    ensures
        res.0.total_files == res.0.files@.len(),
        res.0.total_lines == sum_lines(res.0.files@),
        in_path_order(res.0.files@),
        exists|outs: Seq<Seq<OutlineItem>>, summaries: Seq<FileSummary>, origin: Seq<int>, skip_origin: Seq<int>|
            {
                &&& #[trigger] accounted(files@, files@.len() as int, outs, summaries, origin, res.1@, skip_origin)
                &&& res.0.files@.to_multiset() == summaries.to_multiset()
            },
{
    let mut summaries: Vec<FileSummary> = Vec::new();
    let mut skipped: Vec<(String, AstError)> = Vec::new();
    let ghost mut outs: Seq<Seq<OutlineItem>> = Seq::empty();
    let ghost mut origin: Seq<int> = Seq::empty();
    let ghost mut skip_origin: Seq<int> = Seq::empty();
    let n = files.len();
    let mut i: usize = 0;
    while i < n
        invariant
            n == files@.len(),
            i <= n,
            total_bytes(files@) <= usize::MAX,
            total_bytes(files@.subrange(0, i as int)) <= total_bytes(files@),
            sum_lines(summaries@) <= total_bytes(files@.subrange(0, i as int)),
            accounted(files@, i as int, outs, summaries@, origin, skipped@, skip_origin),
        decreases n - i,
    {
        let path = files[i].0.as_str();
        let source = files[i].1.as_str();
        let ghost prev_outs = outs;
        let ghost prev_sum = summaries@;
        let ghost prev_origin = origin;
        let ghost prev_skipped = skipped@;
        let ghost prev_skip_origin = skip_origin;
        let ghost mut here: Seq<OutlineItem> = Seq::empty();
        proof {
            lemma_total_bytes_grows(files@, i + 1);
            assert(files@.subrange(0, i + 1).drop_last() =~= files@.subrange(0, i as int));
            lemma_line_spans_len(bytes_of(source@), 0);
        }
        match Lang::detect(path) {
            Err(_) => {},
            Ok(lang) => match outline::run(path, source) {
                Ok(items) => {
                    proof {
                        here = items@;
                    }
                    match count_all(&items) {
                        Some(_) => {
                            let f = summarize_file(path, source, lang, &items);
                            summaries.push(f);
                            assert(summaries@.drop_last() =~= prev_sum);
                            proof {
                                origin = origin.push(i as int);
                            }
                        },
                        None => {
                            skipped.push((files[i].0.clone(), AstError::Overflow));
                            proof {
                                skip_origin = skip_origin.push(i as int);
                            }
                        },
                    }
                },
                Err(e) => {
                    skipped.push((files[i].0.clone(), e));
                    proof {
                        skip_origin = skip_origin.push(i as int);
                    }
                },
            },
        }
        proof {
            outs = prev_outs.push(here);
            let k = i + 1;
            assert forall|x: int| 0 <= x < origin.len() implies summarizes(
                #[trigger] summaries@[x],
                files@[origin[x]].0@,
                files@[origin[x]].1@,
                outs[origin[x]],
            ) by {
                if x < prev_origin.len() {
                    assert(summaries@[x] == prev_sum[x]);
                    assert(origin[x] == prev_origin[x]);
                    assert(outs[origin[x]] == prev_outs[origin[x]]);
                }
            }
            assert forall|x: int| 0 <= x < skip_origin.len() implies {
                &&& (#[trigger] skipped@[x]).0@ == files@[skip_origin[x]].0@
                &&& skip_reason(files@[skip_origin[x]].0@, files@[skip_origin[x]].1@, outs[skip_origin[x]], skipped@[x].1)
            } by {
                if x < prev_skip_origin.len() {
                    assert(skipped@[x] == prev_skipped[x]);
                    assert(skip_origin[x] == prev_skip_origin[x]);
                    assert(outs[skip_origin[x]] == prev_outs[skip_origin[x]]);
                }
            }
            assert forall|j: int|
                0 <= j < k && supported((#[trigger] files@[j]).0@) implies origin.contains(j) || skip_origin.contains(j) by {
                if j < i {
                    if prev_origin.contains(j) {
                        let w = choose|w: int| 0 <= w < prev_origin.len() && prev_origin[w] == j;
                        assert(origin[w] == j);
                    } else {
                        let w = choose|w: int| 0 <= w < prev_skip_origin.len() && prev_skip_origin[w] == j;
                        assert(skip_origin[w] == j);
                    }
                } else {
                    if origin.len() > prev_origin.len() {
                        assert(origin[origin.len() - 1] == j);
                    } else {
                        assert(skip_origin[skip_origin.len() - 1] == j);
                    }
                }
            }
            assert forall|j: int|
                0 <= j < k && !supported((#[trigger] files@[j]).0@) implies !origin.contains(j) && !skip_origin.contains(j) by {
                if origin.contains(j) {
                    let w = choose|w: int| 0 <= w < origin.len() && origin[w] == j;
                    if w < prev_origin.len() {
                        assert(prev_origin[w] == j);
                    }
                }
                if skip_origin.contains(j) {
                    let w = choose|w: int| 0 <= w < skip_origin.len() && skip_origin[w] == j;
                    if w < prev_skip_origin.len() {
                        assert(prev_skip_origin[w] == j);
                    }
                }
            }
        }
        i = i + 1;
    }
    let mut total_lines: usize = 0;
    let mut k: usize = 0;
    let ghost collected = summaries@;
    assert(files@.subrange(0, n as int) =~= files@);
    while k < summaries.len()
        invariant
            summaries@ == collected,
            k <= collected.len(),
            sum_lines(collected) <= usize::MAX,
            total_lines == sum_lines(collected.subrange(0, k as int)),
        decreases collected.len() - k,
    {
        proof {
            assert(collected.subrange(0, k + 1).drop_last() =~= collected.subrange(0, k as int));
            lemma_sum_lines_prefix(collected, k + 1);
        }
        total_lines = total_lines + summaries[k].lines;
        k = k + 1;
    }
    assert(collected.subrange(0, k as int) =~= collected);
    let sorted = sort_by_path(summaries);
    proof {
        lemma_sum_lines_permutation(sorted@, collected);
    }
    let total_files = sorted.len();
    let res = (ProjectSummary { files: sorted, total_files, total_lines }, skipped);
    assert(accounted(files@, files@.len() as int, outs, collected, origin, res.1@, skip_origin));
    res
}

proof fn lemma_sum_lines_prefix(s: Seq<FileSummary>, k: int)
    requires
        0 <= k <= s.len(),
    ensures
        sum_lines(s.subrange(0, k)) <= sum_lines(s),
    decreases s.len() - k,
{
    if k < s.len() {
        lemma_sum_lines_prefix(s, k + 1);
        assert(s.subrange(0, k + 1).drop_last() =~= s.subrange(0, k));
    } else {
        assert(s.subrange(0, k) =~= s);
    }
}

// ---------------------------------------------------------------- text form

/// The line of one file:
/// `  {path:50} {language:>10}  {lines:>4} lines  {fn:>3} fn  {types:>3} types  {tests:>2} tests`.
pub open spec fn summary_line(f: FileSummary) -> Seq<char> {
    "  "@ + pad_right(f.path@, 50) + " "@ + pad_left(f.language@, 10) + "  "@
        + pad_left(decimal(f.lines as nat), 4) + " lines  "@ + pad_left(decimal(f.functions as nat), 3)
        + " fn  "@ + pad_left(decimal(f.types as nat), 3) + " types  "@
        + pad_left(decimal(f.tests as nat), 2) + " tests\n"@
}

/// The lines of the first `k` files.
pub open spec fn summaries_text(fs: Seq<FileSummary>, k: int) -> Seq<char>
    decreases k,
{
    if k <= 0 || k > fs.len() {
        Seq::empty()
    } else {
        summaries_text(fs, k - 1) + summary_line(fs[k - 1])
    }
}

/// The text form of a project summary: the totals, an empty line, then a
/// line per file.
pub open spec fn project_text(p: ProjectSummary) -> Seq<char> {
    decimal(p.total_files as nat) + " files, "@ + decimal(p.total_lines as nat) + " lines\n\n"@
        + summaries_text(p.files@, p.files@.len() as int)
}

fn push_number(out: &mut String, n: usize, width: usize)
    ensures
        final(out)@ == old(out)@ + pad_left(decimal(n as nat), width as nat),
{
    let t = decimal_text(n);
    push_padded_left(out, t.as_str(), width);
}

fn print_summary(f: &FileSummary, out: &mut String)
    ensures
        final(out)@ == old(out)@ + summary_line(*f),
{
    proof {
        reveal_strlit("  ");
        reveal_strlit(" ");
        reveal_strlit(" lines  ");
        reveal_strlit(" fn  ");
        reveal_strlit(" types  ");
        reveal_strlit(" tests\n");
    }
    out.append("  ");
    push_padded_right(out, f.path.as_str(), 50);
    out.append(" ");
    push_padded_left(out, f.language.as_str(), 10);
    out.append("  ");
    push_number(out, f.lines, 4);
    out.append(" lines  ");
    push_number(out, f.functions, 3);
    out.append(" fn  ");
    push_number(out, f.types, 3);
    out.append(" types  ");
    push_number(out, f.tests, 2);
    out.append(" tests\n");
    assert(out@ =~= old(out)@ + summary_line(*f));
}

/// Writes the text form of the summary to `out`.
pub fn print_text(summary: &ProjectSummary, out: &mut String)
    ensures
        final(out)@ == old(out)@ + project_text(*summary),
{
    proof {
        reveal_strlit(" files, ");
        reveal_strlit(" lines\n\n");
    }
    let ghost start = out@;
    push_decimal(out, summary.total_files);
    out.append(" files, ");
    push_decimal(out, summary.total_lines);
    out.append(" lines\n\n");
    let ghost head = out@;
    let n = summary.files.len();
    let mut i: usize = 0;
    assert(out@ =~= head + summaries_text(summary.files@, 0));
    while i < n
        invariant
            n == summary.files@.len(),
            i <= n,
            out@ == head + summaries_text(summary.files@, i as int),
        decreases n - i,
    {
        print_summary(&summary.files[i], out);
        i = i + 1;
        assert(out@ =~= head + summaries_text(summary.files@, i as int));
    }
    assert(out@ =~= start + project_text(*summary));
}

} // verus!
