//! Query: the captures of a tree-sitter query over a file.
use vstd::prelude::*;
use tree_sitter::{Language, Node, Query, QueryCapture, QueryCursor, QueryMatches, StreamingIterator, Tree};
use crate::error::AstError;
use crate::languages::{Lang, detected_extension, lang_of_extension};
use crate::parser::{parse_tree, node_end_byte, node_end_position, node_start_byte, node_start_position};
use crate::text::{bytes_of, slice, slice_text, decimal, push_decimal, floor_boundary};
use vstd::utf8::{decode_utf8, encode_utf8_valid_utf8, is_char_boundary_start_end_of_seq};

verus! {

#[verifier::external_type_specification]
#[verifier::external_body]
pub struct ExQuery(Query);

/// One capture of one match, as positions.
pub struct RawCapture {
    /// The index of the capture's name in the query.
    pub index: u32,
    pub start_byte: usize,
    pub end_byte: usize,
    pub start_row: usize,
    pub start_col: usize,
    pub end_row: usize,
    pub end_col: usize,
}

/// A capture with its name, text and one-based lines.
#[derive(Debug)]
pub struct QueryMatch {
    pub capture_name: String,
    pub text: String,
    pub start_line: usize,
    pub end_line: usize,
    pub start_col: usize,
    pub end_col: usize,
}

/// The message of the error that `Query::new` gives `text` in the
/// tree-sitter-rust grammar, or `None` when the query compiles.
pub uninterp spec fn rust_query_error(text: Seq<char>) -> Option<Seq<char>>;

/// `tree_sitter::Query::new` of `text` in the tree-sitter-rust grammar: the
/// compiled query, or the error's message, as named by `rust_query_error`.
#[verifier::external_body]
fn compile_rust_query(text: &str) -> (res: Result<Query, String>)
    ensures
        res is Err <==> rust_query_error(text@) is Some,
        res matches Err(m) ==> rust_query_error(text@) == Some(m@),
{
    Query::new(&tree_sitter_rust::LANGUAGE.into(), text).map_err(|e| e.to_string())
}

/// The message of the error that `Query::new` gives `text` in the
/// tree-sitter-cpp grammar, or `None` when the query compiles.
pub uninterp spec fn cpp_query_error(text: Seq<char>) -> Option<Seq<char>>;

/// `tree_sitter::Query::new` of `text` in the tree-sitter-cpp grammar: the
/// compiled query, or the error's message, as named by `cpp_query_error`.
#[verifier::external_body]
fn compile_cpp_query(text: &str) -> (res: Result<Query, String>)
    ensures
        res is Err <==> cpp_query_error(text@) is Some,
        res matches Err(m) ==> cpp_query_error(text@) == Some(m@),
{
    Query::new(&tree_sitter_cpp::LANGUAGE.into(), text).map_err(|e| e.to_string())
}

/// The message of the error that `Query::new` gives `text` in the
/// tree-sitter-typescript's TypeScript grammar, or `None` when the query compiles.
pub uninterp spec fn typescript_query_error(text: Seq<char>) -> Option<Seq<char>>;

/// `tree_sitter::Query::new` of `text` in the tree-sitter-typescript's TypeScript grammar: the
/// compiled query, or the error's message, as named by `typescript_query_error`.
#[verifier::external_body]
fn compile_typescript_query(text: &str) -> (res: Result<Query, String>)
    ensures
        res is Err <==> typescript_query_error(text@) is Some,
        res matches Err(m) ==> typescript_query_error(text@) == Some(m@),
{
    Query::new(&tree_sitter_typescript::LANGUAGE_TYPESCRIPT.into(), text).map_err(|e| e.to_string())
}

/// The message of the error that `Query::new` gives `text` in the
/// tree-sitter-typescript's TSX grammar, or `None` when the query compiles.
pub uninterp spec fn tsx_query_error(text: Seq<char>) -> Option<Seq<char>>;

/// `tree_sitter::Query::new` of `text` in the tree-sitter-typescript's TSX grammar: the
/// compiled query, or the error's message, as named by `tsx_query_error`.
#[verifier::external_body]
fn compile_tsx_query(text: &str) -> (res: Result<Query, String>)
    ensures
        res is Err <==> tsx_query_error(text@) is Some,
        res matches Err(m) ==> tsx_query_error(text@) == Some(m@),
{
    Query::new(&tree_sitter_typescript::LANGUAGE_TSX.into(), text).map_err(|e| e.to_string())
}

/// The message of the error that `Query::new` gives `text` in the
/// tree-sitter-python grammar, or `None` when the query compiles.
pub uninterp spec fn python_query_error(text: Seq<char>) -> Option<Seq<char>>;

/// `tree_sitter::Query::new` of `text` in the tree-sitter-python grammar: the
/// compiled query, or the error's message, as named by `python_query_error`.
#[verifier::external_body]
fn compile_python_query(text: &str) -> (res: Result<Query, String>)
    ensures
        res is Err <==> python_query_error(text@) is Some,
        res matches Err(m) ==> python_query_error(text@) == Some(m@),
{
    Query::new(&tree_sitter_python::LANGUAGE.into(), text).map_err(|e| e.to_string())
}

/// The message of the error that `Query::new` gives `text` in the
/// tree-sitter-proto grammar, or `None` when the query compiles.
pub uninterp spec fn proto_query_error(text: Seq<char>) -> Option<Seq<char>>;

/// `tree_sitter::Query::new` of `text` in the tree-sitter-proto grammar: the
/// compiled query, or the error's message, as named by `proto_query_error`.
#[verifier::external_body]
fn compile_proto_query(text: &str) -> (res: Result<Query, String>)
    ensures
        res is Err <==> proto_query_error(text@) is Some,
        res matches Err(m) ==> proto_query_error(text@) == Some(m@),
{
    Query::new(&tree_sitter_proto::LANGUAGE.into(), text).map_err(|e| e.to_string())
}

/// The message of the error that `Query::new` gives `text` in the grammar
/// of `lang`, or `None` when the query compiles.
pub open spec fn query_error(lang: Lang, text: Seq<char>) -> Option<Seq<char>> {
    match lang {
        Lang::Rust => rust_query_error(text),
        Lang::Cpp => cpp_query_error(text),
        Lang::Typescript => typescript_query_error(text),
        Lang::Tsx => tsx_query_error(text),
        Lang::Python => python_query_error(text),
        Lang::Protobuf => proto_query_error(text),
    }
}

/// `text` compiled as a query in the grammar of `lang`.
fn compile_query(lang: Lang, text: &str) -> (res: Result<Query, String>)
    ensures
        res is Err <==> query_error(lang, text@) is Some,
        res matches Err(m) ==> query_error(lang, text@) == Some(m@),
{
    match lang {
        Lang::Rust => compile_rust_query(text),
        Lang::Cpp => compile_cpp_query(text),
        Lang::Typescript => compile_typescript_query(text),
        Lang::Tsx => compile_tsx_query(text),
        Lang::Python => compile_python_query(text),
        Lang::Protobuf => compile_proto_query(text),
    }
}

/// `Query::capture_names`: the names of the query's captures, by index.
#[verifier::external_body]
fn capture_names(query: &Query) -> Vec<String> {
    query.capture_names().iter().map(|s| s.to_string()).collect()
}

#[verifier::external_type_specification]
#[verifier::external_body]
pub struct ExQueryCursor(QueryCursor);

#[verifier::external_type_specification]
#[verifier::external_body]
pub struct ExQueryCapture<'tree>(QueryCapture<'tree>);

/// The matches of a query over a tree, as `QueryCursor::matches` streams
/// them. Verus does not take a declaration of `tree_sitter::QueryMatches`,
/// whose parameters are bound by tree-sitter's `TextProvider`, so the
/// stream is held here, out of Verus's sight.
#[verifier::external_body]
pub struct MatchStream<'a> {
    matches: QueryMatches<'a, 'a, &'a [u8], &'a [u8]>,
}

/// `QueryCursor::new`: a cursor with default options.
#[verifier::external_body]
fn new_query_cursor() -> QueryCursor {
    QueryCursor::new()
}

/// `QueryCursor::matches` of `query` over the whole tree of `source`.
/// Nothing is claimed of the matches.
#[verifier::external_body]
fn cursor_matches<'a>(cursor: &'a mut QueryCursor, query: &'a Query, tree: &'a Tree, source: &'a str) -> MatchStream<'a> {
    MatchStream { matches: cursor.matches(query, tree.root_node(), source.as_bytes()) }
}

/// `StreamingIterator::next` on the matches: the captures of the next match,
/// or `None` when there is none left. Nothing is claimed of them.
#[verifier::external_body]
fn next_match_captures<'a>(stream: &mut MatchStream<'a>) -> Option<Vec<QueryCapture<'a>>> {
    stream.matches.next().map(|m| m.captures.to_vec())
}

/// The `index` field of a capture: the position of its name in the query.
#[verifier::external_body]
fn capture_index(capture: &QueryCapture) -> u32 {
    capture.index
}

/// The `node` field of a capture.
#[verifier::external_body]
fn capture_node<'a>(capture: &QueryCapture<'a>) -> Node<'a> {
    capture.node
}

/// The captures of one match, as positions: one for each capture of the
/// match, in the match's order.
fn match_captures(captures: &Vec<QueryCapture>) -> (res: Vec<RawCapture>)
    ensures
        res@.len() == captures@.len(),
{
    let n = captures.len();
    let mut out: Vec<RawCapture> = Vec::new();
    let mut i: usize = 0;
    while i < n
        invariant
            n == captures@.len(),
            i <= n,
            out@.len() == i,
        decreases n - i,
    {
        let c = &captures[i];
        let node = capture_node(c);
        let (start_row, start_col) = node_start_position(&node);
        let (end_row, end_col) = node_end_position(&node);
        out.push(
            RawCapture {
                index: capture_index(c),
                start_byte: node_start_byte(&node),
                end_byte: node_end_byte(&node),
                start_row,
                start_col,
                end_row,
                end_col,
            },
        );
        i = i + 1;
    }
    out
}

/// The captures of the matches, one batch per match, joined in order.
pub open spec fn joined(batches: Seq<Seq<RawCapture>>) -> Seq<RawCapture>
    decreases batches.len(),
{
    if batches.len() == 0 {
        Seq::empty()
    } else {
        joined(batches.drop_last()) + batches.last()
    }
}

/// The number of captures over all matches.
pub open spec fn total_captures(batches: Seq<Seq<RawCapture>>) -> int
    decreases batches.len(),
{
    if batches.len() == 0 {
        0
    } else {
        total_captures(batches.drop_last()) + batches.last().len()
    }
}

/// Every capture of every match is reported: as many results as the
/// matches have captures together.
pub proof fn lemma_joined_len(batches: Seq<Seq<RawCapture>>)
    ensures
        joined(batches).len() == total_captures(batches),
    decreases batches.len(),
{
    if batches.len() > 0 {
        lemma_joined_len(batches.drop_last());
    }
}

/// The captures of match `i` stand in the results as they are, after those
/// of the matches before it.
pub proof fn lemma_joined_batch(batches: Seq<Seq<RawCapture>>, i: int)
    requires
        0 <= i < batches.len(),
    ensures
        total_captures(batches.take(i)) + batches[i].len() <= joined(batches).len(),
        joined(batches).subrange(
            total_captures(batches.take(i)),
            total_captures(batches.take(i)) + batches[i].len(),
        ) == batches[i],
    decreases batches.len(),
{
    let last = batches.len() - 1;
    let init = batches.drop_last();
    lemma_joined_len(init);
    lemma_joined_len(batches.take(i));
    if i == last {
        assert(batches.take(i) =~= init);
        assert(joined(batches).subrange(
            total_captures(init),
            total_captures(init) + batches[i].len(),
        ) =~= batches[i]);
    } else {
        lemma_joined_batch(init, i);
        assert(init.take(i) =~= batches.take(i));
        assert(init[i] == batches[i]);
        assert(joined(batches).subrange(
            total_captures(batches.take(i)),
            total_captures(batches.take(i)) + batches[i].len(),
        ) =~= joined(init).subrange(
            total_captures(batches.take(i)),
            total_captures(batches.take(i)) + batches[i].len(),
        ));
    }
}

/// The captures of all matches of `query` over the tree, in the order
/// tree-sitter yields them, as positions; `Overflow` if there are more
/// matches than a machine word counts.
fn query_captures(query: &Query, tree: &Tree, source: &str) -> (res: Result<Vec<RawCapture>, AstError>)
    ensures
        res matches Err(e) ==> e is Overflow,
{
    let mut cursor = new_query_cursor();
    let mut matches = cursor_matches(&mut cursor, query, tree, source);
    let mut out: Vec<RawCapture> = Vec::new();
    let ghost mut batches: Seq<Seq<RawCapture>> = Seq::empty();
    let mut remaining: usize = usize::MAX;
    loop
        invariant
            out@ == joined(batches),
        decreases remaining,
    {
        let captures = match next_match_captures(&mut matches) {
            None => {
                proof {
                    lemma_joined_len(batches);
                }
                return Ok(out);
            },
            Some(captures) => captures,
        };
        if remaining == 0 {
            return Err(AstError::Overflow);
        }
        remaining = remaining - 1;
        let mut batch = match_captures(&captures);
        let ghost prev = batches;
        proof {
            batches = batches.push(batch@);
            assert(batches.drop_last() =~= prev);
        }
        out.append(&mut batch);
    }
}

/// The capture's name exists, its range is text, and its rows can be
/// numbered from one.
pub open spec fn capture_ok(c: RawCapture, names: Seq<String>, src: Seq<u8>) -> bool {
    &&& c.index < names.len()
    &&& slice_text(src, c.start_byte as int, c.end_byte as int) is Some
    &&& c.start_row < usize::MAX
    &&& c.end_row < usize::MAX
}

/// Why a capture cannot be reported.
pub open spec fn capture_error(c: RawCapture, names: Seq<String>, src: Seq<u8>) -> AstError {
    if c.index >= names.len() {
        AstError::InvalidCaptureIndex(c.index)
    } else if slice_text(src, c.start_byte as int, c.end_byte as int) is None {
        AstError::InvalidText
    } else {
        AstError::MalformedTree
    }
}

/// The match reports the capture.
pub open spec fn reports(m: QueryMatch, c: RawCapture, names: Seq<String>, src: Seq<u8>) -> bool {
    &&& m.capture_name@ == names[c.index as int]@
    &&& slice_text(src, c.start_byte as int, c.end_byte as int) == Some(m.text@)
    &&& m.start_line == c.start_row + 1
    &&& m.end_line == c.end_row + 1
    &&& m.start_col == c.start_col
    &&& m.end_col == c.end_col
}

/// The matches report the captures, or the first capture that cannot be
/// reported tells the error.
pub open spec fn captures_reported(
    res: Result<Vec<QueryMatch>, AstError>,
    raw: Seq<RawCapture>,
    names: Seq<String>,
    src: Seq<u8>,
) -> bool {
    match res {
        Ok(ms) => {
            &&& ms@.len() == raw.len()
            &&& forall|i: int| 0 <= i < raw.len() ==> reports(#[trigger] ms@[i], raw[i], names, src)
        },
        Err(e) => exists|i: int|
            {
                &&& 0 <= i < raw.len()
                &&& forall|j: int| 0 <= j < i ==> capture_ok(#[trigger] raw[j], names, src)
                &&& !capture_ok(#[trigger] raw[i], names, src)
                &&& e == capture_error(raw[i], names, src)
            },
    }
}

/// The captures with their names, texts and one-based lines.
pub fn captures_to_matches(raw: &Vec<RawCapture>, names: &Vec<String>, source: &str) -> (res: Result<Vec<QueryMatch>, AstError>)
    ensures
        captures_reported(res, raw@, names@, bytes_of(source@)),
{
    let ghost src = bytes_of(source@);
    let mut out: Vec<QueryMatch> = Vec::new();
    let n = raw.len();
    let mut i: usize = 0;
    while i < n
        invariant
            n == raw@.len(),
            i <= n,
            src == bytes_of(source@),
            out@.len() == i,
            forall|j: int| 0 <= j < i ==> capture_ok(#[trigger] raw@[j], names@, src),
            forall|j: int| 0 <= j < i ==> reports(#[trigger] out@[j], raw@[j], names@, src),
        decreases n - i,
    {
        let c = &raw[i];
        if c.index as usize >= names.len() {
            assert(!capture_ok(raw@[i as int], names@, src));
            return Err(AstError::InvalidCaptureIndex(c.index));
        }
        let capture_name = names[c.index as usize].clone();
        let text = match slice(source, c.start_byte, c.end_byte) {
            Some(t) => t,
            None => {
                assert(!capture_ok(raw@[i as int], names@, src));
                return Err(AstError::InvalidText);
            },
        };
        if c.start_row == usize::MAX || c.end_row == usize::MAX {
            assert(!capture_ok(raw@[i as int], names@, src));
            return Err(AstError::MalformedTree);
        }
        out.push(
            QueryMatch {
                capture_name,
                text,
                start_line: c.start_row + 1,
                end_line: c.end_row + 1,
                start_col: c.start_col,
                end_col: c.end_col,
            },
        );
        i = i + 1;
    }
    Ok(out)
}

/// The captures of `query` over `source`, the text of the file at `path`.
pub fn run(path: &str, source: &str, query: &str) -> (res: Result<Vec<QueryMatch>, AstError>)
    ensures
        match lang_of_extension(detected_extension(path@)) {
            None => res matches Err(AstError::UnsupportedExtension(e)) && e@ == detected_extension(path@),
            Some(lang) => match query_error(lang, query@) {
                Some(m) => res matches Err(AstError::InvalidQuery(x)) && x@ == m,
                None => !(res matches Err(AstError::InvalidQuery(_))) && !(res matches Err(
                    AstError::UnsupportedExtension(_),
                )),
            },
        },
        res is Ok ==> exists|raw: Seq<RawCapture>, names: Seq<String>|
            #[trigger] captures_reported(res, raw, names, bytes_of(source@)),
        res matches Err(e) && (e is InvalidCaptureIndex || e is InvalidText || e is MalformedTree) ==> exists|
            raw: Seq<RawCapture>,
            names: Seq<String>,
        | #[trigger] captures_reported(res, raw, names, bytes_of(source@)),
{
    let lang = Lang::detect(path)?;
    let tree = parse_tree(lang, source);
    let compiled = match compile_query(lang, query) {
        Ok(q) => q,
        Err(message) => return Err(AstError::InvalidQuery(message)),
    };
    let names = capture_names(&compiled);
    let raw = query_captures(&compiled, &tree, source)?;
    let res = captures_to_matches(&raw, &names, source);
    assert(captures_reported(res, raw@, names@, bytes_of(source@)));
    res
}

// ---------------------------------------------------------------- text form

/// `L:C` for a capture on one line, `L:C-L:C` for one over several.
pub open spec fn location(m: QueryMatch) -> Seq<char> {
    if m.start_line == m.end_line {
        decimal(m.start_line as nat) + ":"@ + decimal(m.start_col as nat)
    } else {
        decimal(m.start_line as nat) + ":"@ + decimal(m.start_col as nat) + "-"@
            + decimal(m.end_line as nat) + ":"@ + decimal(m.end_col as nat)
    }
}

/// A capture's text as shown: one over 80 bytes is cut at the last
/// character boundary at or before byte 77 and ends in `...`.
pub open spec fn shown_text(t: Seq<char>) -> Seq<char> {
    let b = bytes_of(t);
    if b.len() > 80 {
        decode_utf8(b.subrange(0, floor_boundary(b, 77))) + "..."@
    } else {
        t
    }
}

/// The line of one capture: `@{name} [{location}] {text}`.
pub open spec fn match_line(m: QueryMatch) -> Seq<char> {
    "@"@ + m.capture_name@ + " ["@ + location(m) + "] "@ + shown_text(m.text@) + "\n"@
}

/// The lines of the first `k` captures.
pub open spec fn matches_text(ms: Seq<QueryMatch>, k: int) -> Seq<char>
    decreases k,
{
    if k <= 0 || k > ms.len() {
        Seq::empty()
    } else {
        matches_text(ms, k - 1) + match_line(ms[k - 1])
    }
}

/// The text form of a list of captures.
pub open spec fn query_text(ms: Seq<QueryMatch>) -> Seq<char> {
    if ms.len() == 0 {
        "No matches.\n"@
    } else {
        matches_text(ms, ms.len() as int)
    }
}

fn shown(text: &str) -> (res: String)
    ensures
        res@ == shown_text(text@),
{
    let ghost b = bytes_of(text@);
    let len = text.as_bytes().len();
    if len <= 80 {
        return text.to_owned();
    }
    let mut k: usize = 77;
    while k > 0 && !text.is_char_boundary(k)
        invariant
            b == bytes_of(text@),
            len == b.len(),
            len > 80,
            k <= 77,
            floor_boundary(b, 77) == floor_boundary(b, k as int),
        decreases k,
    {
        k = k - 1;
    }
    proof {
        encode_utf8_valid_utf8(text@);
        is_char_boundary_start_end_of_seq(b);
    }
    match slice(text, 0, k) {
        Some(mut t) => {
            proof {
                reveal_strlit("...");
            }
            t.append("...");
            t
        },
        None => {
            assert(false);
            text.to_owned()
        },
    }
}

fn print_match(r: &QueryMatch, out: &mut String)
    ensures
        final(out)@ == old(out)@ + match_line(*r),
{
    proof {
        reveal_strlit("@");
        reveal_strlit(" [");
        reveal_strlit(":");
        reveal_strlit("-");
        reveal_strlit("] ");
        reveal_strlit("\n");
    }
    out.append("@");
    out.append(r.capture_name.as_str());
    out.append(" [");
    push_decimal(out, r.start_line);
    out.append(":");
    push_decimal(out, r.start_col);
    if r.start_line != r.end_line {
        out.append("-");
        push_decimal(out, r.end_line);
        out.append(":");
        push_decimal(out, r.end_col);
    }
    out.append("] ");
    let t = shown(r.text.as_str());
    out.append(t.as_str());
    out.append("\n");
    assert(out@ =~= old(out)@ + match_line(*r));
}

/// Writes the text form of the captures to `out`: one line per capture, or
/// a note that there was none.
pub fn print_text(results: &Vec<QueryMatch>, out: &mut String)
    ensures
        final(out)@ == old(out)@ + query_text(results@),
{
    let ghost start = out@;
    let n = results.len();
    if n == 0 {
        out.append("No matches.\n");
        return;
    }
    let mut i: usize = 0;
    assert(out@ =~= start + matches_text(results@, 0));
    while i < n
        invariant
            n == results@.len(),
            i <= n,
            out@ == start + matches_text(results@, i as int),
        decreases n - i,
    {
        print_match(&results[i], out);
        i = i + 1;
        assert(out@ =~= start + matches_text(results@, i as int));
    }
}

} // verus!
