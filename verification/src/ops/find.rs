//! Find: definitions of a given name (and kind) across files.
use vstd::prelude::*;
use crate::error::AstError;
use crate::languages::{Lang, detected_extension, lang_of_extension, parse_error, supported};
use crate::ops::outline::{self, OutlineItem, opt_text, sig_suffix, outline_of};
use crate::text::{str_eq, decimal, push_decimal};

verus! {

/// A definition found by name.
#[derive(Debug)]
pub struct FindResult {
    pub file: String,
    pub kind: String,
    pub name: String,
    /// One-based first line of the definition.
    pub line: usize,
    pub visibility: Option<String>,
    pub signature: Option<String>,
}

/// Whether an item is called `name` and, with a kind filter, is of that kind.
pub open spec fn is_match(it: OutlineItem, name: Seq<char>, kind_filter: Option<Seq<char>>) -> bool {
    &&& it.name@ == name
    &&& match kind_filter {
        Some(k) => it.kind@ == k,
        None => true,
    }
}

/// The matching items among `items[..k]` and their nested items, in
/// document order (an item before its members).
pub open spec fn matches_upto(items: Seq<OutlineItem>, name: Seq<char>, kind_filter: Option<Seq<char>>, k: int) -> Seq<OutlineItem>
    decreases items, k,
{
    if k <= 0 || k > items.len() {
        Seq::empty()
    } else {
        matches_upto(items, name, kind_filter, k - 1) + matches_in(items[k - 1], name, kind_filter)
    }
}

/// Whether the item has the name but not the kind asked for: the search
/// passes over it and its members.
pub open spec fn passed_over(it: OutlineItem, name: Seq<char>, kind_filter: Option<Seq<char>>) -> bool {
    it.name@ == name && (kind_filter matches Some(k) && it.kind@ != k)
}

/// The item if it matches, then the matches among its members; nothing for
/// an item that is passed over.
pub open spec fn matches_in(it: OutlineItem, name: Seq<char>, kind_filter: Option<Seq<char>>) -> Seq<OutlineItem>
    decreases it, 0int,
{
    if passed_over(it, name, kind_filter) {
        Seq::empty()
    } else {
        (if is_match(it, name, kind_filter) { seq![it] } else { Seq::empty() }) + matches_upto(
            it.children@,
            name,
            kind_filter,
            it.children@.len() as int,
        )
    }
}

/// The result describes the item found in `file`.
pub open spec fn describes(r: FindResult, file: Seq<char>, it: OutlineItem) -> bool {
    &&& r.file@ == file
    &&& r.kind@ == it.kind@
    &&& r.name@ == it.name@
    &&& r.line == it.start_line
    &&& opt_text(r.visibility) == opt_text(it.visibility)
    &&& opt_text(r.signature) == opt_text(it.signature)
}

pub open spec fn all_describe(rs: Seq<FindResult>, file: Seq<char>, its: Seq<OutlineItem>) -> bool {
    &&& rs.len() == its.len()
    &&& forall|i: int| 0 <= i < rs.len() ==> describes(#[trigger] rs[i], file, its[i])
}

pub open spec fn opt_str(o: Option<&str>) -> Option<Seq<char>> {
    match o {
        Some(s) => Some(s@),
        None => None,
    }
}

fn clone_opt(o: &Option<String>) -> (res: Option<String>)
    ensures
        opt_text(res) == opt_text(*o),
{
    match o {
        Some(s) => Some(s.clone()),
        None => None,
    }
}

/// Appends to `results` the items (and nested items) called `name`, of
/// kind `kind_filter` when given, found in `path`.
pub fn collect_matches(
    items: &Vec<OutlineItem>,
    path: &str,
    name: &str,
    kind_filter: Option<&str>,
    results: &mut Vec<FindResult>,
)
    ensures
        final(results)@.len() >= old(results)@.len(),
        final(results)@.subrange(0, old(results)@.len() as int) == old(results)@,
        all_describe(
            final(results)@.subrange(old(results)@.len() as int, final(results)@.len() as int),
            path@,
            matches_upto(items@, name@, opt_str(kind_filter), items@.len() as int),
        ),
    decreases items@,
{
    let ghost base = old(results)@;
    let ghost kf = opt_str(kind_filter);
    let n = items.len();
    let mut i: usize = 0;
    assert(results@.subrange(base.len() as int, results@.len() as int) =~= Seq::<FindResult>::empty());
    while i < n
        invariant
            n == items@.len(),
            i <= n,
            kf == opt_str(kind_filter),
            results@.len() >= base.len(),
            results@.subrange(0, base.len() as int) == base,
            all_describe(
                results@.subrange(base.len() as int, results@.len() as int),
                path@,
                matches_upto(items@, name@, kf, i as int),
            ),
        decreases n - i,
    {
        let item = &items[i];
        let ghost before = results@;
        let same_name = str_eq(item.name.as_str(), name);
        let kind_ok = match kind_filter {
            Some(kf) => str_eq(item.kind.as_str(), kf),
            None => true,
        };
        if same_name && !kind_ok {
            assert(passed_over(*item, name@, kf));
            assert(*item == items@[i as int]);
            assert(matches_in(*item, name@, kf) == Seq::<OutlineItem>::empty());
            assert(matches_upto(items@, name@, kf, i + 1) =~= matches_upto(items@, name@, kf, i as int));
            i = i + 1;
            continue;
        }
        let hit = same_name && kind_ok;
        if hit {
            results.push(
                FindResult {
                    file: path.to_owned(),
                    kind: item.kind.clone(),
                    name: item.name.clone(),
                    line: item.start_line,
                    visibility: clone_opt(&item.visibility),
                    signature: clone_opt(&item.signature),
                },
            );
        }
        let ghost mid = results@;
        assert(mid.subrange(0, base.len() as int) =~= base);
        assert(all_describe(
            mid.subrange(base.len() as int, mid.len() as int),
            path@,
            matches_upto(items@, name@, kf, i as int) + (if is_match(*item, name@, kf) {
                seq![*item]
            } else {
                Seq::empty()
            }),
        )) by {
            if hit {
                assert(mid.subrange(base.len() as int, mid.len() as int) =~= before.subrange(
                    base.len() as int,
                    before.len() as int,
                ).push(mid.last()));
            } else {
                assert(mid == before);
            }
        }
        assert(decreases_to!(items@ => item.children@));
        collect_matches(&item.children, path, name, kind_filter, results);
        let ghost fin = results@;
        assert(fin.subrange(0, base.len() as int) =~= base) by {
            assert(fin.subrange(0, mid.len() as int) == mid);
            assert(fin.subrange(0, base.len() as int) =~= fin.subrange(0, mid.len() as int).subrange(0, base.len() as int));
        }
        assert(fin.subrange(base.len() as int, fin.len() as int) =~= mid.subrange(base.len() as int, mid.len() as int)
            + fin.subrange(mid.len() as int, fin.len() as int));
        assert(*item == items@[i as int]);
        assert(matches_upto(items@, name@, kf, i + 1) == matches_upto(items@, name@, kf, i as int) + matches_in(*item, name@, kf));
        assert(matches_upto(items@, name@, kf, i + 1) =~= matches_upto(items@, name@, kf, i as int) + (
        if is_match(*item, name@, kf) {
            seq![*item]
        } else {
            Seq::empty()
        }) + matches_upto(item.children@, name@, kf, item.children@.len() as int));
        i = i + 1;
    }
}

} // verus!

verus! {

pub proof fn lemma_matches_upto_match(items: Seq<OutlineItem>, name: Seq<char>, kind_filter: Option<Seq<char>>, k: int)
    ensures
        forall|x: int| 0 <= x < matches_upto(items, name, kind_filter, k).len() ==> is_match(
            #[trigger] matches_upto(items, name, kind_filter, k)[x],
            name,
            kind_filter,
        ),
    decreases items, k,
{
    if 0 < k <= items.len() {
        lemma_matches_upto_match(items, name, kind_filter, k - 1);
        lemma_matches_in_match(items[k - 1], name, kind_filter);
        let a = matches_upto(items, name, kind_filter, k - 1);
        let b = matches_in(items[k - 1], name, kind_filter);
        assert forall|x: int| 0 <= x < (a + b).len() implies is_match(#[trigger] (a + b)[x], name, kind_filter) by {
            if x >= a.len() {
                assert((a + b)[x] == b[x - a.len()]);
            }
        }
    }
}

pub proof fn lemma_matches_in_match(it: OutlineItem, name: Seq<char>, kind_filter: Option<Seq<char>>)
    ensures
        forall|x: int| 0 <= x < matches_in(it, name, kind_filter).len() ==> is_match(
            #[trigger] matches_in(it, name, kind_filter)[x],
            name,
            kind_filter,
        ),
    decreases it, 0int,
{
    if !passed_over(it, name, kind_filter) {
        lemma_matches_upto_match(it.children@, name, kind_filter, it.children@.len() as int);
        let a: Seq<OutlineItem> = if is_match(it, name, kind_filter) { seq![it] } else { Seq::empty() };
        let b = matches_upto(it.children@, name, kind_filter, it.children@.len() as int);
        assert forall|x: int| 0 <= x < (a + b).len() implies is_match(#[trigger] (a + b)[x], name, kind_filter) by {
            if x >= a.len() {
                assert((a + b)[x] == b[x - a.len()]);
            }
        }
    }
}

proof fn lemma_upto_contains(
    items: Seq<OutlineItem>,
    name: Seq<char>,
    kind_filter: Option<Seq<char>>,
    k: int,
    j: int,
    x: OutlineItem,
)
    requires
        0 <= j < k <= items.len(),
        matches_in(items[j], name, kind_filter).contains(x),
    ensures
        matches_upto(items, name, kind_filter, k).contains(x),
    decreases k,
{
    let a = matches_upto(items, name, kind_filter, k - 1);
    let b = matches_in(items[k - 1], name, kind_filter);
    assert(matches_upto(items, name, kind_filter, k) == a + b);
    if j == k - 1 {
        let t = choose|t: int| 0 <= t < b.len() && b[t] == x;
        assert((a + b)[a.len() + t] == x);
    } else {
        lemma_upto_contains(items, name, kind_filter, k - 1, j, x);
        let t = choose|t: int| 0 <= t < a.len() && a[t] == x;
        assert((a + b)[t] == x);
    }
}

/// The search looks inside every item that it does not pass over for its
/// kind, a matching item included: whatever it finds among the members of
/// one of the item's children, it finds for the item too.
pub proof fn lemma_members_searched(
    it: OutlineItem,
    name: Seq<char>,
    kind_filter: Option<Seq<char>>,
    j: int,
    x: OutlineItem,
)
    requires
        !passed_over(it, name, kind_filter),
        0 <= j < it.children@.len(),
        matches_in(it.children@[j], name, kind_filter).contains(x),
    ensures
        matches_in(it, name, kind_filter).contains(x),
{
    let cs = it.children@;
    lemma_upto_contains(cs, name, kind_filter, cs.len() as int, j, x);
    let a: Seq<OutlineItem> = if is_match(it, name, kind_filter) { seq![it] } else { Seq::empty() };
    let b = matches_upto(cs, name, kind_filter, cs.len() as int);
    assert(matches_in(it, name, kind_filter) == a + b);
    let t = choose|t: int| 0 <= t < b.len() && b[t] == x;
    assert((a + b)[a.len() + t] == x);
}

/// A matching item is reported first, then its members: a member that
/// matches too is reported with it (a class `T` with a constructor `T`
/// gives both).
pub proof fn lemma_match_and_members(
    it: OutlineItem,
    name: Seq<char>,
    kind_filter: Option<Seq<char>>,
    j: int,
)
    requires
        is_match(it, name, kind_filter),
        0 <= j < it.children@.len(),
        is_match(it.children@[j], name, kind_filter),
    ensures
        matches_in(it, name, kind_filter).len() >= 2,
        matches_in(it, name, kind_filter)[0] == it,
        matches_in(it, name, kind_filter).contains(it.children@[j]),
{
    let c = it.children@[j];
    let cs = it.children@;
    let b = matches_upto(cs, name, kind_filter, cs.len() as int);
    assert(matches_in(c, name, kind_filter) == seq![c] + matches_upto(
        c.children@,
        name,
        kind_filter,
        c.children@.len() as int,
    ));
    assert(matches_in(c, name, kind_filter)[0] == c);
    lemma_members_searched(it, name, kind_filter, j, c);
    assert(matches_in(it, name, kind_filter) == seq![it] + b);
    lemma_upto_contains(cs, name, kind_filter, cs.len() as int, j, c);
    assert(b.len() >= 1);
}

/// `outs[j]` is an outline of the `j`-th file when its language is
/// supported, and empty when it is not, for each of the first `k` files.
pub open spec fn outlines_of(files: Seq<(String, String)>, outs: Seq<Seq<OutlineItem>>, k: int) -> bool {
    &&& 0 <= k <= files.len()
    &&& outs.len() == k
    &&& forall|j: int|
        0 <= j < k ==> if supported((#[trigger] files[j]).0@) {
            outline_of(files[j].0@, files[j].1@, outs[j])
        } else {
            outs[j] == Seq::<OutlineItem>::empty()
        }
}

/// The matches of the first `k` files, each with the path of its file, in
/// file order.
pub open spec fn found_upto(
    files: Seq<(String, String)>,
    outs: Seq<Seq<OutlineItem>>,
    name: Seq<char>,
    kind_filter: Option<Seq<char>>,
    k: int,
) -> Seq<(Seq<char>, OutlineItem)>
    decreases k,
{
    if k <= 0 || k > files.len() || k > outs.len() {
        Seq::empty()
    } else {
        let path = files[k - 1].0@;
        found_upto(files, outs, name, kind_filter, k - 1) + matches_upto(
            outs[k - 1],
            name,
            kind_filter,
            outs[k - 1].len() as int,
        ).map_values(|it: OutlineItem| (path, it))
    }
}

/// Each result describes the match at the same place.
pub open spec fn reports_found(rs: Seq<FindResult>, found: Seq<(Seq<char>, OutlineItem)>) -> bool {
    &&& rs.len() == found.len()
    &&& forall|i: int| 0 <= i < rs.len() ==> describes(#[trigger] rs[i], found[i].0, found[i].1)
}

proof fn lemma_found_upto_prefix(
    files: Seq<(String, String)>,
    outs: Seq<Seq<OutlineItem>>,
    more: Seq<Seq<OutlineItem>>,
    name: Seq<char>,
    kind_filter: Option<Seq<char>>,
    k: int,
)
    requires
        0 <= k <= outs.len() <= more.len(),
        outs == more.subrange(0, outs.len() as int),
    ensures
        found_upto(files, outs, name, kind_filter, k) == found_upto(files, more, name, kind_filter, k),
    decreases k,
{
    if k > 0 {
        lemma_found_upto_prefix(files, outs, more, name, kind_filter, k - 1);
        assert(outs[k - 1] == more[k - 1]);
    }
}

proof fn lemma_found_upto_match(
    files: Seq<(String, String)>,
    outs: Seq<Seq<OutlineItem>>,
    name: Seq<char>,
    kind_filter: Option<Seq<char>>,
    k: int,
)
    ensures
        forall|x: int|
            0 <= x < found_upto(files, outs, name, kind_filter, k).len() ==> is_match(
                (#[trigger] found_upto(files, outs, name, kind_filter, k)[x]).1,
                name,
                kind_filter,
            ),
    decreases k,
{
    if 0 < k <= files.len() && k <= outs.len() {
        lemma_found_upto_match(files, outs, name, kind_filter, k - 1);
        let ms = matches_upto(outs[k - 1], name, kind_filter, outs[k - 1].len() as int);
        lemma_matches_upto_match(outs[k - 1], name, kind_filter, outs[k - 1].len() as int);
        let a = found_upto(files, outs, name, kind_filter, k - 1);
        let path = files[k - 1].0@;
        let b = ms.map_values(|it: OutlineItem| (path, it));
        assert forall|x: int| 0 <= x < (a + b).len() implies is_match(#[trigger] (a + b)[x].1, name, kind_filter) by {
            if x >= a.len() {
                assert((a + b)[x] == b[x - a.len()]);
                assert(b[x - a.len()].1 == ms[x - a.len()]);
            }
        }
    }
}

/// Every item of a file's outline, at any depth, that the search does not
/// skip is among the matches of the search, with the path of its file.
pub proof fn lemma_found_complete(
    files: Seq<(String, String)>,
    outs: Seq<Seq<OutlineItem>>,
    name: Seq<char>,
    kind_filter: Option<Seq<char>>,
    k: int,
    f: int,
    j: int,
    x: OutlineItem,
)
    requires
        0 <= f < k <= files.len(),
        k <= outs.len(),
        0 <= j < outs[f].len(),
        matches_in(outs[f][j], name, kind_filter).contains(x),
    ensures
        found_upto(files, outs, name, kind_filter, k).contains((files[f].0@, x)),
    decreases k,
{
    let path = files[k - 1].0@;
    let a = found_upto(files, outs, name, kind_filter, k - 1);
    let ms = matches_upto(outs[k - 1], name, kind_filter, outs[k - 1].len() as int);
    let b = ms.map_values(|it: OutlineItem| (path, it));
    assert(found_upto(files, outs, name, kind_filter, k) == a + b);
    if f == k - 1 {
        lemma_upto_contains(outs[f], name, kind_filter, outs[f].len() as int, j, x);
        let t = choose|t: int| 0 <= t < ms.len() && ms[t] == x;
        assert(b[t] == (path, x));
        assert((a + b)[a.len() + t] == (path, x));
    } else {
        lemma_found_complete(files, outs, name, kind_filter, k - 1, f, j, x);
        let t = choose|t: int| 0 <= t < a.len() && a[t] == (files[f].0@, x);
        assert((a + b)[t] == (files[f].0@, x));
    }
}

/// Every definition that the search reports has the name asked for and,
/// with a kind filter, that kind.
pub proof fn lemma_find_results_match(
    files: Seq<(String, String)>,
    outs: Seq<Seq<OutlineItem>>,
    name: Seq<char>,
    kind_filter: Option<Seq<char>>,
    rs: Seq<FindResult>,
)
    requires
        reports_found(rs, found_upto(files, outs, name, kind_filter, files.len() as int)),
    ensures
        forall|i: int|
            0 <= i < rs.len() ==> (#[trigger] rs[i]).name@ == name && (kind_filter matches Some(k)
                ==> rs[i].kind@ == k),
{
    let found = found_upto(files, outs, name, kind_filter, files.len() as int);
    lemma_found_upto_match(files, outs, name, kind_filter, files.len() as int);
    assert forall|i: int| 0 <= i < rs.len() implies (#[trigger] rs[i]).name@ == name && (kind_filter matches Some(k)
        ==> rs[i].kind@ == k) by {
        assert(describes(rs[i], found[i].0, found[i].1));
        assert(is_match(found[i].1, name, kind_filter));
    }
}

/// Find the definitions called `name` (of kind `kind_filter`, when given)
/// in `files`, pairs of path and text, in order; files in languages that
/// are not supported are passed over, and the first outline that fails
/// ends the search with its error.
pub fn run(files: &Vec<(String, String)>, name: &str, kind_filter: Option<&str>) -> (res: Result<Vec<FindResult>, AstError>)
    ensures
        match res {
            Ok(rs) => exists|outs: Seq<Seq<OutlineItem>>|
                {
                    &&& outlines_of(files@, outs, files@.len() as int)
                    &&& reports_found(
                        rs@,
                        #[trigger] found_upto(files@, outs, name@, opt_str(kind_filter), files@.len() as int),
                    )
                },
            Err(e) => exists|j: int|
                0 <= j < files@.len() && supported((#[trigger] files@[j]).0@) && parse_error(files@[j].0@, files@[j].1@, e),
        },
{
    let ghost kf = opt_str(kind_filter);
    let ghost mut outs: Seq<Seq<OutlineItem>> = Seq::empty();
    let mut results: Vec<FindResult> = Vec::new();
    let n = files.len();
    let mut i: usize = 0;
    while i < n
        invariant
            n == files@.len(),
            i <= n,
            kf == opt_str(kind_filter),
            outlines_of(files@, outs, i as int),
            reports_found(results@, found_upto(files@, outs, name@, kf, i as int)),
        decreases n - i,
    {
        let path = files[i].0.as_str();
        let source = files[i].1.as_str();
        let ghost before = results@;
        let ghost prev = outs;
        let ghost mut here: Seq<OutlineItem> = Seq::empty();
        if Lang::detect(path).is_ok() {
            let items = match outline::run(path, source) {
                Ok(items) => items,
                Err(e) => {
                    assert(parse_error(files@[i as int].0@, files@[i as int].1@, e));
                    return Err(e);
                },
            };
            collect_matches(&items, path, name, kind_filter, &mut results);
            proof {
                here = items@;
            }
        } else {
            assert(matches_upto(here, name@, kf, 0) =~= Seq::<OutlineItem>::empty());
            assert(results@.subrange(before.len() as int, results@.len() as int) =~= Seq::<FindResult>::empty());
        }
        proof {
            outs = prev.push(here);
            assert(prev =~= outs.subrange(0, prev.len() as int));
            lemma_found_upto_prefix(files@, prev, outs, name@, kf, i as int);
            let old_found = found_upto(files@, prev, name@, kf, i as int);
            let added = matches_upto(here, name@, kf, here.len() as int).map_values(
                |it: OutlineItem| (files@[i as int].0@, it),
            );
            assert(found_upto(files@, outs, name@, kf, i + 1) == old_found + added);
            let part = results@.subrange(before.len() as int, results@.len() as int);
            assert(all_describe(part, path@, matches_upto(here, name@, kf, here.len() as int)));
            assert forall|x: int| 0 <= x < results@.len() implies describes(
                #[trigger] results@[x],
                (old_found + added)[x].0,
                (old_found + added)[x].1,
            ) by {
                if x < before.len() {
                    assert(results@[x] == results@.subrange(0, before.len() as int)[x]);
                } else {
                    assert(part[x - before.len()] == results@[x]);
                }
            }
            assert forall|j: int| 0 <= j < i + 1 implies if supported((#[trigger] files@[j]).0@) {
                outline_of(files@[j].0@, files@[j].1@, outs[j])
            } else {
                outs[j] == Seq::<OutlineItem>::empty()
            } by {
                if j < i {
                    assert(outs[j] == prev[j]);
                }
            }
        }
        i = i + 1;
    }
    Ok(results)
}

// ---------------------------------------------------------------- text form

/// `" ({v})"` for a visibility `v`, nothing without one.
pub open spec fn vis_suffix(v: Option<Seq<char>>) -> Seq<char> {
    match v {
        Some(t) => " ("@ + t + ")"@,
        None => Seq::empty(),
    }
}

/// The line of one result: `{file}:{line} {kind} {name}{vis}{sig}`.
pub open spec fn result_line(r: FindResult) -> Seq<char> {
    r.file@ + ":"@ + decimal(r.line as nat) + " "@ + r.kind@ + " "@ + r.name@
        + vis_suffix(opt_text(r.visibility)) + sig_suffix(opt_text(r.signature)) + "\n"@
}

/// The lines of the first `k` results.
pub open spec fn results_text(rs: Seq<FindResult>, k: int) -> Seq<char>
    decreases k,
{
    if k <= 0 || k > rs.len() {
        Seq::empty()
    } else {
        results_text(rs, k - 1) + result_line(rs[k - 1])
    }
}

/// The text form of a list of results.
pub open spec fn find_text(rs: Seq<FindResult>) -> Seq<char> {
    if rs.len() == 0 {
        "No matches found.\n"@
    } else {
        results_text(rs, rs.len() as int)
    }
}

fn print_result(r: &FindResult, out: &mut String)
    ensures
        final(out)@ == old(out)@ + result_line(*r),
{
    proof {
        reveal_strlit(":");
        reveal_strlit(" ");
        reveal_strlit(" (");
        reveal_strlit(")");
        reveal_strlit("  -- ");
        reveal_strlit("\n");
    }
    out.append(r.file.as_str());
    out.append(":");
    push_decimal(out, r.line);
    out.append(" ");
    out.append(r.kind.as_str());
    out.append(" ");
    out.append(r.name.as_str());
    match &r.visibility {
        Some(v) => {
            out.append(" (");
            out.append(v.as_str());
            out.append(")");
        },
        None => {},
    }
    match &r.signature {
        Some(sig) => {
            out.append("  -- ");
            out.append(sig.as_str());
        },
        None => {},
    }
    out.append("\n");
    assert(out@ =~= old(out)@ + result_line(*r));
}

/// Writes the text form of the results to `out`: one line per result, or a
/// note that nothing was found.
pub fn print_text(results: &Vec<FindResult>, out: &mut String)
    ensures
        final(out)@ == old(out)@ + find_text(results@),
{
    let ghost start = out@;
    let n = results.len();
    if n == 0 {
        out.append("No matches found.\n");
        return;
    }
    let mut i: usize = 0;
    assert(out@ =~= start + results_text(results@, 0));
    while i < n
        invariant
            n == results@.len(),
            i <= n,
            out@ == start + results_text(results@, i as int),
        decreases n - i,
    {
        print_result(&results[i], out);
        i = i + 1;
        assert(out@ =~= start + results_text(results@, i as int));
    }
}

} // verus!
