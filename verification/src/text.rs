//! Text primitives on UTF-8 sources: equality, slicing by byte offsets.
use vstd::prelude::*;
use vstd::utf8::*;
use vstd::string::StringSliceAdditionalSpecFns;
use vstd::string::StrSliceExecFns;

verus! {

broadcast use vstd::utf8::group_utf8_lib;

/// The bytes of a text in UTF-8.
pub open spec fn bytes_of(s: Seq<char>) -> Seq<u8> {
    encode_utf8(s)
}

/// The text between two byte offsets of a UTF-8 byte sequence, when both
/// offsets fall on character boundaries and are in order.
pub open spec fn slice_text(src: Seq<u8>, start: int, end: int) -> Option<Seq<char>> {
    if 0 <= start <= end <= src.len() && is_char_boundary(src, start) && is_char_boundary(src, end) {
        Some(decode_utf8(src.subrange(start, end)))
    } else {
        None
    }
}

/// Equality of two texts.
pub fn str_eq(a: &str, b: &str) -> (res: bool)
    ensures
        res == (a@ == b@),
{
    let ab = a.as_bytes();
    let bb = b.as_bytes();
    if ab.len() != bb.len() {
        return false;
    }
    let mut i: usize = 0;
    while i < ab.len()
        invariant
            ab@ == bytes_of(a@),
            bb@ == bytes_of(b@),
            ab@.len() == bb@.len(),
            i <= ab@.len(),
            forall|j: int| 0 <= j < i ==> ab@[j] == bb@[j],
        decreases ab@.len() - i,
    {
        if ab[i] != bb[i] {
            return false;
        }
        i = i + 1;
    }
    assert(ab@ =~= bb@);
    assert(a@ == decode_utf8(ab@));
    true
}

/// A character boundary of a valid UTF-8 sequence that lies at or before a
/// second boundary is also a boundary of the prefix that ends there.
pub proof fn lemma_boundary_in_prefix(src: Seq<u8>, s: int, e: int)
    requires
        valid_utf8(src),
        0 <= s <= e <= src.len(),
        is_char_boundary(src, s),
        is_char_boundary(src, e),
    ensures
        valid_utf8(src.subrange(0, e)),
        is_char_boundary(src.subrange(0, e), s),
{
    let p = src.subrange(0, e);
    valid_utf8_split(src, e);
    if s == e {
        is_char_boundary_start_end_of_seq(p);
        assert(p.len() == e);
    } else {
        is_char_boundary_iff_not_is_continuation_byte(src, s);
        is_char_boundary_iff_not_is_continuation_byte(p, s);
        assert(p[s] == src[s]);
    }
}

/// The text of `source` between byte offsets `start` and `end`, or `None` when
/// the offsets are out of order, beyond the text, or inside a character.
pub fn slice(source: &str, start: usize, end: usize) -> (res: Option<String>)
    ensures
        match res {
            Some(t) => slice_text(bytes_of(source@), start as int, end as int) == Some(t@),
            None => slice_text(bytes_of(source@), start as int, end as int) is None,
        },
{
    let ghost src = bytes_of(source@);
    let len = source.as_bytes().len();
    if start > end || end > len {
        return None;
    }
    if !source.is_char_boundary(start) || !source.is_char_boundary(end) {
        return None;
    }
    proof {
        lemma_boundary_in_prefix(src, start as int, end as int);
    }
    let (pre, _) = source.split_at(end);
    assert(pre.spec_bytes() =~= src.subrange(0, end as int));
    let (_, mid) = pre.split_at(start);
    assert(mid.spec_bytes() =~= src.subrange(start as int, end as int));
    assert(mid@ == decode_utf8(mid.spec_bytes()));
    Some(mid.to_owned())
}

} // verus!

verus! {

/// Unicode White_Space, which `char::is_whitespace` tests.
pub open spec fn is_whitespace(c: char) -> bool {
    ||| c == '\t' || c == '\n' || c == '\u{0B}' || c == '\u{0C}' || c == '\r' || c == ' '
    ||| c == '\u{85}' || c == '\u{A0}' || c == '\u{1680}'
    ||| ('\u{2000}' <= c && c <= '\u{200A}')
    ||| c == '\u{2028}' || c == '\u{2029}' || c == '\u{202F}' || c == '\u{205F}' || c == '\u{3000}'
}

/// `s` without its leading whitespace.
pub open spec fn trim_start(s: Seq<char>) -> Seq<char>
    decreases s.len(),
{
    if s.len() > 0 && is_whitespace(s[0]) {
        trim_start(s.drop_first())
    } else {
        s
    }
}

/// `s` without its trailing whitespace.
pub open spec fn trim_end(s: Seq<char>) -> Seq<char>
    decreases s.len(),
{
    if s.len() > 0 && is_whitespace(s.last()) {
        trim_end(s.drop_last())
    } else {
        s
    }
}

/// `s` without leading and trailing whitespace (`str::trim`).
pub open spec fn trim(s: Seq<char>) -> Seq<char> {
    trim_end(trim_start(s))
}

pub fn is_whitespace_char(c: char) -> (res: bool)
    ensures
        res == is_whitespace(c),
{
    c == '\t' || c == '\n' || c == '\u{0B}' || c == '\u{0C}' || c == '\r' || c == ' ' || c == '\u{85}'
        || c == '\u{A0}' || c == '\u{1680}' || ('\u{2000}' <= c && c <= '\u{200A}') || c
        == '\u{2028}' || c == '\u{2029}' || c == '\u{202F}' || c == '\u{205F}' || c == '\u{3000}'
}

/// `s` without leading and trailing whitespace.
pub fn trim_text(s: &str) -> (res: String)
    ensures
        res@ == trim(s@),
{
    let n = s.unicode_len();
    assert(s@.subrange(0, n as int) =~= s@);
    let mut i: usize = 0;
    while i < n && is_whitespace_char(s.get_char(i))
        invariant
            n == s@.len(),
            i <= n,
            trim_start(s@) == trim_start(s@.subrange(i as int, n as int)),
        decreases n - i,
    {
        assert(s@.subrange(i as int, n as int).drop_first() =~= s@.subrange(i + 1, n as int));
        i = i + 1;
    }
    assert(trim_start(s@) == s@.subrange(i as int, n as int));
    let mut j: usize = n;
    while j > i && is_whitespace_char(s.get_char(j - 1))
        invariant
            n == s@.len(),
            i <= j <= n,
            trim(s@) == trim_end(s@.subrange(i as int, j as int)),
        decreases j,
    {
        assert(s@.subrange(i as int, j as int).drop_last() =~= s@.subrange(i as int, j - 1));
        j = j - 1;
    }
    let t = s.substring_char(i, j);
    t.to_owned()
}

/// Parts joined with `sep` between consecutive parts (`[&str]::join`).
pub open spec fn join(parts: Seq<Seq<char>>, sep: Seq<char>) -> Seq<char>
    decreases parts.len(),
{
    if parts.len() == 0 {
        Seq::empty()
    } else if parts.len() == 1 {
        parts[0]
    } else {
        join(parts.drop_last(), sep) + sep + parts.last()
    }
}

} // verus!

verus! {

// ---------------------------------------------------------------- numbers

pub open spec fn is_digit(c: char) -> bool {
    '0' <= c && c <= '9'
}

pub open spec fn digit_value(c: char) -> nat {
    (c as u32 - '0' as u32) as nat
}

pub open spec fn all_digits(s: Seq<char>) -> bool {
    forall|i: int| 0 <= i < s.len() ==> is_digit(#[trigger] s[i])
}

/// The number that a string of decimal digits denotes.
pub open spec fn digits_value(s: Seq<char>) -> nat
    decreases s.len(),
{
    if s.len() == 0 {
        0
    } else {
        digits_value(s.drop_last()) * 10 + digit_value(s.last())
    }
}

/// What `str::parse::<usize>` gives: an optional `+`, then one or more
/// decimal digits whose value fits in `usize`.
pub open spec fn parse_usize(s: Seq<char>) -> Option<nat> {
    let t = if s.len() > 0 && s[0] == '+' { s.drop_first() } else { s };
    if t.len() > 0 && all_digits(t) && digits_value(t) <= usize::MAX {
        Some(digits_value(t))
    } else {
        None
    }
}

proof fn lemma_digits_value_grows(s: Seq<char>, k: int)
    requires
        0 <= k <= s.len(),
        all_digits(s),
    ensures
        digits_value(s.subrange(0, k)) <= digits_value(s),
    decreases s.len() - k,
{
    if k < s.len() {
        lemma_digits_value_grows(s, k + 1);
        assert(s.subrange(0, k + 1).drop_last() =~= s.subrange(0, k));
    } else {
        assert(s.subrange(0, k) =~= s);
    }
}

/// `s.parse::<usize>()`, as an option.
pub fn parse_decimal(s: &str) -> (res: Option<usize>)
    ensures
        match res {
            Some(v) => parse_usize(s@) == Some(v as nat),
            None => parse_usize(s@) is None,
        },
{
    let n = s.unicode_len();
    if n == 0 {
        return None;
    }
    let first: usize = if s.get_char(0) == '+' { 1 } else { 0 };
    let ghost t = if s@.len() > 0 && s@[0] == '+' { s@.drop_first() } else { s@ };
    assert(t =~= s@.subrange(first as int, n as int));
    if first >= n {
        return None;
    }
    let mut v: usize = 0;
    let mut i: usize = first;
    while i < n
        invariant
            n == s@.len(),
            first <= i <= n,
            t == s@.subrange(first as int, n as int),
            t == (if s@.len() > 0 && s@[0] == '+' { s@.drop_first() } else { s@ }),
            t.len() > 0,
            all_digits(t.subrange(0, i - first)),
            v as nat == digits_value(t.subrange(0, i - first)),
        decreases n - i,
    {
        let c = s.get_char(i);
        if !('0' <= c && c <= '9') {
            assert(t[i - first] == c);
            return None;
        }
        let d = (c as u32 - '0' as u32) as usize;
        assert(t.subrange(0, i + 1 - first).drop_last() =~= t.subrange(0, i - first));
        assert(all_digits(t.subrange(0, i + 1 - first)));
        assert(digits_value(t.subrange(0, i + 1 - first)) == v * 10 + d);
        if v > (usize::MAX - d) / 10 {
            assert(v * 10 + d > usize::MAX);
            proof {
                lemma_digits_value_grows_prefix(t, i + 1 - first);
            }
            return None;
        }
        v = v * 10 + d;
        i = i + 1;
    }
    assert(t.subrange(0, n - first) =~= t);
    Some(v)
}

proof fn lemma_digits_value_grows_prefix(t: Seq<char>, k: int)
    requires
        0 <= k <= t.len(),
        all_digits(t.subrange(0, k)),
    ensures
        !all_digits(t) || digits_value(t.subrange(0, k)) <= digits_value(t),
{
    if all_digits(t) {
        lemma_digits_value_grows(t, k);
    }
}

// ---------------------------------------------------------------- splitting

/// The index of the first `::` in `s` at or after `i`.
pub open spec fn first_double_colon(s: Seq<char>, i: int) -> Option<int>
    decreases s.len() - i,
{
    if i < 0 || i + 1 >= s.len() {
        None
    } else if s[i] == ':' && s[i + 1] == ':' {
        Some(i)
    } else {
        first_double_colon(s, i + 1)
    }
}

pub proof fn lemma_first_double_colon_range(s: Seq<char>, i: int)
    requires
        0 <= i,
    ensures
        first_double_colon(s, i) matches Some(j) ==> i <= j && j + 1 < s.len() && s[j] == ':' && s[j + 1] == ':',
    decreases s.len() - i,
{
    if i + 1 < s.len() && !(s[i] == ':' && s[i + 1] == ':') {
        lemma_first_double_colon_range(s, i + 1);
    }
}

/// The pieces of `s` between the occurrences of `::`, left to right
/// (`str::split("::")`).
pub open spec fn split_double_colon(s: Seq<char>) -> Seq<Seq<char>>
    decreases s.len(),
{
    match first_double_colon(s, 0) {
        None => seq![s],
        Some(j) => {
            proof {
                lemma_first_double_colon_range(s, 0);
            }
            seq![s.subrange(0, j)] + split_double_colon(s.subrange(j + 2, s.len() as int))
        },
    }
}

/// Splitting at `::` and joining with `::` gives the text back.
pub proof fn lemma_split_join_double_colon(s: Seq<char>)
    ensures
        join(split_double_colon(s), "::"@) == s,
    decreases s.len(),
{
    reveal_strlit("::");
    lemma_first_double_colon_range(s, 0);
    match first_double_colon(s, 0) {
        None => {},
        Some(j) => {
            let rest = s.subrange(j + 2, s.len() as int);
            lemma_split_join_double_colon(rest);
            lemma_join_prepend(s.subrange(0, j), split_double_colon(rest), "::"@);
            assert(s =~= s.subrange(0, j) + "::"@ + rest);
        },
    }
}

/// Joining `[a] + ps` is `a`, the separator, and the join of `ps`, when `ps`
/// is not empty.
pub proof fn lemma_join_prepend(a: Seq<char>, ps: Seq<Seq<char>>, sep: Seq<char>)
    ensures
        ps.len() > 0 ==> join(seq![a] + ps, sep) == a + sep + join(ps, sep),
        ps.len() == 0 ==> join(seq![a] + ps, sep) == a,
    decreases ps.len(),
{
    if ps.len() == 0 {
        assert(seq![a] + ps =~= seq![a]);
    } else if ps.len() == 1 {
        assert((seq![a] + ps).drop_last() =~= seq![a]);
        assert(join(seq![a] + ps, sep) == join(seq![a], sep) + sep + ps[0]);
    } else {
        lemma_join_prepend(a, ps.drop_last(), sep);
        assert((seq![a] + ps).drop_last() =~= seq![a] + ps.drop_last());
        assert(join(seq![a] + ps, sep) == join(seq![a] + ps.drop_last(), sep) + sep + ps.last());
        assert(a + sep + join(ps.drop_last(), sep) + sep + ps.last() =~= a + sep + (join(ps.drop_last(), sep) + sep + ps.last()));
    }
}

} // verus!

verus! {

// ---------------------------------------------------------------- lines

/// The index of the first newline byte of `b` at or after `i`.
pub open spec fn first_newline(b: Seq<u8>, i: int) -> Option<int>
    decreases b.len() - i,
{
    if i < 0 || i >= b.len() {
        None
    } else if b[i] == 10 {
        Some(i)
    } else {
        first_newline(b, i + 1)
    }
}

pub proof fn lemma_first_newline_range(b: Seq<u8>, i: int)
    requires
        0 <= i,
    ensures
        first_newline(b, i) matches Some(j) ==> i <= j < b.len() && b[j] == 10,
    decreases b.len() - i,
{
    if i < b.len() && b[i] != 10 {
        lemma_first_newline_range(b, i + 1);
    }
}

/// The byte ranges of the lines of `b` from offset `from` on, as
/// `str::lines` cuts them: at each newline, without the newline and without
/// a carriage return just before it; a last line needs no newline.
pub open spec fn line_spans(b: Seq<u8>, from: int) -> Seq<(int, int)>
    decreases b.len() - from,
{
    if from < 0 || from >= b.len() {
        Seq::empty()
    } else {
        match first_newline(b, from) {
            None => seq![(from, b.len() as int)],
            Some(j) => {
                proof {
                    lemma_first_newline_range(b, from);
                }
                let e = if j > from && b[j - 1] == 13 { j - 1 } else { j };
                seq![(from, e)] + line_spans(b, j + 1)
            },
        }
    }
}

/// The lines of a source whose UTF-8 bytes are `b`.
pub open spec fn source_lines(b: Seq<u8>) -> Seq<Seq<char>> {
    line_spans(b, 0).map_values(|p: (int, int)| decode_utf8(b.subrange(p.0, p.1)))
}

/// An ASCII byte of valid UTF-8 is a whole character: boundaries lie on
/// both sides of it.
pub proof fn lemma_ascii_boundaries(b: Seq<u8>, i: int)
    requires
        valid_utf8(b),
        0 <= i < b.len(),
        b[i] < 0x80,
    ensures
        is_char_boundary(b, i),
        is_char_boundary(b, i + 1),
{
    is_char_boundary_iff_not_is_continuation_byte(b, i);
    let t = b.subrange(i, b.len() as int);
    valid_utf8_split(b, i);
    if i + 1 == b.len() {
        is_char_boundary_start_end_of_seq(b);
    } else {
        assert(valid_first_scalar(t));
        assert(length_of_first_scalar(t) == 1);
        assert(pop_first_scalar(t) =~= b.subrange(i + 1, b.len() as int));
        let u = pop_first_scalar(t);
        assert(valid_utf8(u));
        assert(u.len() > 0);
        assert(valid_first_scalar(u));
        assert(u[0] == b[i + 1]);
        is_char_boundary_iff_not_is_continuation_byte(b, i + 1);
    }
}

pub open spec fn spans_of(v: Seq<(usize, usize)>) -> Seq<(int, int)> {
    v.map_values(|p: (usize, usize)| (p.0 as int, p.1 as int))
}

/// Every span lies in order inside `b`, between character boundaries.
pub open spec fn spans_ok(b: Seq<u8>, v: Seq<(usize, usize)>) -> bool {
    forall|k: int|
        0 <= k < v.len() ==> {
            &&& (#[trigger] v[k]).0 <= v[k].1 <= b.len()
            &&& is_char_boundary(b, v[k].0 as int)
            &&& is_char_boundary(b, v[k].1 as int)
        }
}

/// The byte ranges of the lines of `source`.
pub fn line_ranges(source: &str) -> (res: Vec<(usize, usize)>)
    ensures
        spans_of(res@) == line_spans(bytes_of(source@), 0),
        spans_ok(bytes_of(source@), res@),
{
    let bytes = source.as_bytes();
    let ghost b = bytes@;
    let n = bytes.len();
    let mut spans: Vec<(usize, usize)> = Vec::new();
    let mut from: usize = 0;
    assert(spans_of(spans@) =~= Seq::<(int, int)>::empty());
    while from < n
        invariant
            b == bytes@,
            b == bytes_of(source@),
            n == b.len(),
            from <= n,
            from == 0 || from == n || b[from - 1] == 10,
            spans_of(spans@) + line_spans(b, from as int) == line_spans(b, 0),
            spans_ok(b, spans@),
        decreases n - from,
    {
        let mut j: usize = from;
        while j < n && bytes[j] != 10
            invariant
                b == bytes@,
                n == b.len(),
                from <= j <= n,
                first_newline(b, from as int) == first_newline(b, j as int),
            decreases n - j,
        {
            j = j + 1;
        }
        proof {
            if from > 0 {
                lemma_ascii_boundaries(b, from - 1);
            } else {
                is_char_boundary_start_end_of_seq(b);
            }
        }
        let ghost prev = spans@;
        if j < n {
            let e = if j > from && bytes[j - 1] == 13 { j - 1 } else { j };
            proof {
                lemma_ascii_boundaries(b, e as int);
            }
            spans.push((from, e));
            assert(spans_of(spans@) =~= spans_of(prev).push((from as int, e as int)));
            assert(spans_of(prev) + line_spans(b, from as int) =~= spans_of(spans@) + line_spans(b, j + 1));
            from = j + 1;
        } else {
            proof {
                is_char_boundary_start_end_of_seq(b);
            }
            spans.push((from, n));
            assert(spans_of(spans@) =~= spans_of(prev).push((from as int, n as int)));
            assert(spans_of(prev) + line_spans(b, from as int) =~= spans_of(spans@) + line_spans(b, n as int));
            from = n;
        }
    }
    assert(spans_of(spans@) + line_spans(b, from as int) =~= spans_of(spans@));
    spans
}

/// The number of lines of `source` (`source.lines().count()`).
pub fn line_count(source: &str) -> (res: usize)
    ensures
        res == source_lines(bytes_of(source@)).len(),
{
    let spans = line_ranges(source);
    assert(spans_of(spans@).len() == spans@.len());
    spans.len()
}

} // verus!

verus! {

/// A source has no more lines than bytes.
pub proof fn lemma_line_spans_len(b: Seq<u8>, from: int)
    requires
        0 <= from,
    ensures
        line_spans(b, from).len() <= if from < b.len() { b.len() - from } else { 0 },
    decreases b.len() - from,
{
    if from < b.len() {
        lemma_first_newline_range(b, from);
        match first_newline(b, from) {
            None => {},
            Some(j) => {
                lemma_line_spans_len(b, j + 1);
            },
        }
    }
}

/// Whether `s` begins with `p`.
pub open spec fn starts_with(s: Seq<char>, p: Seq<char>) -> bool {
    p.len() <= s.len() && s.subrange(0, p.len() as int) == p
}

pub fn text_starts_with(s: &str, p: &str) -> (res: bool)
    ensures
        res == starts_with(s@, p@),
{
    let n = s.unicode_len();
    let m = p.unicode_len();
    if m > n {
        return false;
    }
    let mut i: usize = 0;
    while i < m
        invariant
            n == s@.len(),
            m == p@.len(),
            m <= n,
            i <= m,
            forall|k: int| 0 <= k < i ==> s@[k] == p@[k],
        decreases m - i,
    {
        if s.get_char(i) != p.get_char(i) {
            assert(s@.subrange(0, m as int)[i as int] != p@[i as int]);
            return false;
        }
        i = i + 1;
    }
    assert(s@.subrange(0, m as int) =~= p@);
    true
}

} // verus!

verus! {

/// Whether `p` occurs in `s`.
pub open spec fn contains_text(s: Seq<char>, p: Seq<char>) -> bool {
    exists|i: int| 0 <= i <= s.len() - p.len() && #[trigger] s.subrange(i, i + p.len()) == p
}

/// Whether `s` ends with `p`.
pub open spec fn ends_with(s: Seq<char>, p: Seq<char>) -> bool {
    p.len() <= s.len() && s.subrange(s.len() - p.len(), s.len() as int) == p
}

pub fn text_contains(s: &str, p: &str) -> (res: bool)
    ensures
        res == contains_text(s@, p@),
{
    let n = s.unicode_len();
    let m = p.unicode_len();
    if m > n {
        return false;
    }
    let last = n - m;
    let mut i: usize = 0;
    loop
        invariant
            n == s@.len(),
            m == p@.len(),
            m <= n,
            last == n - m,
            i <= last,
            forall|k: int| 0 <= k < i ==> #[trigger] s@.subrange(k, k + m) != p@,
        decreases last - i,
    {
        let window = s.substring_char(i, i + m);
        if str_eq(window, p) {
            return true;
        }
        if i == last {
            return false;
        }
        i = i + 1;
    }
}

pub fn text_ends_with(s: &str, p: &str) -> (res: bool)
    ensures
        res == ends_with(s@, p@),
{
    let n = s.unicode_len();
    let m = p.unicode_len();
    if m > n {
        return false;
    }
    str_eq(s.substring_char(n - m, n), p)
}

// ---------------------------------------------------------------- rendering

pub open spec fn digit_char(d: nat) -> char {
    if d == 0 {
        '0'
    } else if d == 1 {
        '1'
    } else if d == 2 {
        '2'
    } else if d == 3 {
        '3'
    } else if d == 4 {
        '4'
    } else if d == 5 {
        '5'
    } else if d == 6 {
        '6'
    } else if d == 7 {
        '7'
    } else if d == 8 {
        '8'
    } else {
        '9'
    }
}

/// The decimal digits of `n`, as `usize`'s `Display` writes them.
pub open spec fn decimal(n: nat) -> Seq<char>
    decreases n,
{
    if n < 10 {
        seq![digit_char(n)]
    } else {
        decimal(n / 10).push(digit_char(n % 10))
    }
}

fn digit_text(d: usize) -> (res: &'static str)
    requires
        d < 10,
    ensures
        res@ == seq![digit_char(d as nat)],
{
    proof {
        reveal_strlit("0");
        reveal_strlit("1");
        reveal_strlit("2");
        reveal_strlit("3");
        reveal_strlit("4");
        reveal_strlit("5");
        reveal_strlit("6");
        reveal_strlit("7");
        reveal_strlit("8");
        reveal_strlit("9");
    }
    let r = if d == 0 {
        "0"
    } else if d == 1 {
        "1"
    } else if d == 2 {
        "2"
    } else if d == 3 {
        "3"
    } else if d == 4 {
        "4"
    } else if d == 5 {
        "5"
    } else if d == 6 {
        "6"
    } else if d == 7 {
        "7"
    } else if d == 8 {
        "8"
    } else {
        "9"
    };
    assert(r@ =~= seq![digit_char(d as nat)]);
    r
}

/// Appends the decimal digits of `n` to `out`.
pub fn push_decimal(out: &mut String, n: usize)
    ensures
        final(out)@ == old(out)@ + decimal(n as nat),
    decreases n,
{
    if n < 10 {
        out.append(digit_text(n));
    } else {
        push_decimal(out, n / 10);
        out.append(digit_text(n % 10));
        assert(decimal(n as nat) =~= decimal((n / 10) as nat) + seq![digit_char((n % 10) as nat)]);
    }
}

/// `n` spaces.
pub open spec fn spaces(n: nat) -> Seq<char> {
    Seq::new(n, |_i: int| ' ')
}

/// Appends `n` spaces to `out`.
pub fn push_spaces(out: &mut String, n: usize)
    ensures
        final(out)@ == old(out)@ + spaces(n as nat),
{
    proof {
        reveal_strlit(" ");
    }
    let ghost start = out@;
    let mut i: usize = 0;
    assert(out@ =~= start + spaces(0));
    while i < n
        invariant
            i <= n,
            out@ == start + spaces(i as nat),
        decreases n - i,
    {
        out.append(" ");
        i = i + 1;
        proof {
            reveal_strlit(" ");
        }
        assert(" "@ =~= seq![' ']);
        assert(out@ =~= start + spaces(i as nat));
    }
}

/// `s` padded with spaces on the right to `width` characters (`{:width}`).
pub open spec fn pad_right(s: Seq<char>, width: nat) -> Seq<char> {
    if s.len() < width { s + spaces((width - s.len()) as nat) } else { s }
}

/// `s` padded with spaces on the left to `width` characters (`{:>width}`).
pub open spec fn pad_left(s: Seq<char>, width: nat) -> Seq<char> {
    if s.len() < width { spaces((width - s.len()) as nat) + s } else { s }
}

pub fn push_padded_right(out: &mut String, s: &str, width: usize)
    ensures
        final(out)@ == old(out)@ + pad_right(s@, width as nat),
{
    let n = s.unicode_len();
    out.append(s);
    if n < width {
        push_spaces(out, width - n);
    }
}

pub fn push_padded_left(out: &mut String, s: &str, width: usize)
    ensures
        final(out)@ == old(out)@ + pad_left(s@, width as nat),
{
    let n = s.unicode_len();
    if n < width {
        push_spaces(out, width - n);
    }
    out.append(s);
}

proof fn lemma_digit_char(d: nat)
    requires
        d < 10,
    ensures
        is_digit(digit_char(d)),
        digit_value(digit_char(d)) == d,
{
}

/// The decimal digits of `n` are digits, and they denote `n`.
pub proof fn lemma_decimal_digits(n: nat)
    ensures
        decimal(n).len() > 0,
        all_digits(decimal(n)),
        digits_value(decimal(n)) == n,
    decreases n,
{
    if n < 10 {
        lemma_digit_char(n);
        assert(decimal(n).drop_last() =~= Seq::<char>::empty());
        assert(digits_value(decimal(n)) == digits_value(decimal(n).drop_last()) * 10 + digit_value(decimal(n).last()));
    } else {
        lemma_decimal_digits(n / 10);
        lemma_digit_char(n % 10);
        let s = decimal(n);
        assert(s.drop_last() =~= decimal(n / 10));
        assert(s.last() == digit_char(n % 10));
        assert((n / 10) * 10 + n % 10 == n) by (nonlinear_arith);
        assert(digits_value(s) == digits_value(s.drop_last()) * 10 + digit_value(s.last()));
        assert(digits_value(s.drop_last()) == n / 10);
        assert forall|i: int| 0 <= i < s.len() implies is_digit(#[trigger] s[i]) by {
            if i < s.len() - 1 {
                assert(s[i] == decimal(n / 10)[i]);
            }
        }
    }
}

/// Reading back the decimal digits of a number that fits in `usize` gives
/// the number.
pub proof fn lemma_parse_decimal_roundtrip(n: nat)
    requires
        n <= usize::MAX,
    ensures
        parse_usize(decimal(n)) == Some(n),
{
    lemma_decimal_digits(n);
    assert(is_digit(decimal(n)[0]));
}

/// The decimal digits of `n` as a text.
pub fn decimal_text(n: usize) -> (res: String)
    ensures
        res@ == decimal(n as nat),
{
    let mut s = String::new();
    push_decimal(&mut s, n);
    assert(s@ =~= decimal(n as nat));
    s
}

/// The last character boundary of `b` at or before `k`.
pub open spec fn floor_boundary(b: Seq<u8>, k: int) -> int
    decreases k,
{
    if k <= 0 || is_char_boundary(b, k) {
        if k <= 0 { 0 } else { k }
    } else {
        floor_boundary(b, k - 1)
    }
}

} // verus!
