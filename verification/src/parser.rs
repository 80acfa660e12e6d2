//! Parsing with tree-sitter, and the rebuilding of its tree as
//! [`SyntaxNode`]s from the rows that list its nodes.
use vstd::prelude::*;
use tree_sitter::{Language, Node, Parser, Tree};
use crate::error::AstError;
use crate::languages::Lang;
use crate::syntax::SyntaxNode;
use crate::text::bytes_of;

verus! {

#[verifier::external_type_specification]
#[verifier::external_body]
pub struct ExLanguage(Language);

#[verifier::external_type_specification]
#[verifier::external_body]
pub struct ExTree(Tree);

#[verifier::external_type_specification]
#[verifier::external_body]
pub struct ExNode<'tree>(Node<'tree>);

/// One node of a tree-sitter tree as plain values: what the node is, where
/// it stands, and how many children it has.
#[derive(Clone, Copy)]
pub struct NodeRow {
    pub kind: &'static str,
    pub field: Option<&'static str>,
    pub named: bool,
    pub start_byte: usize,
    pub end_byte: usize,
    pub start_row: usize,
    pub start_col: usize,
    pub end_row: usize,
    pub end_col: usize,
    pub child_count: usize,
}

/// The nodes of a tree, in document order (a node before its children):
/// the `i`-th is the node that `TreeCursor::goto_descendant(i)` reaches from
/// the root.
pub uninterp spec fn tree_rows(tree: Tree) -> Seq<NodeRow>;

/// The nodes of the tree that tree-sitter-rust's grammar gives `source`.
pub uninterp spec fn rust_parse(source: Seq<char>) -> Seq<NodeRow>;

/// The nodes of the tree that tree-sitter-cpp's grammar gives `source`.
pub uninterp spec fn cpp_parse(source: Seq<char>) -> Seq<NodeRow>;

/// The nodes of the tree that tree-sitter-typescript's TypeScript grammar
/// gives `source`.
pub uninterp spec fn typescript_parse(source: Seq<char>) -> Seq<NodeRow>;

/// The nodes of the tree that tree-sitter-typescript's TSX grammar gives
/// `source`.
pub uninterp spec fn tsx_parse(source: Seq<char>) -> Seq<NodeRow>;

/// The nodes of the tree that tree-sitter-python's grammar gives `source`.
pub uninterp spec fn python_parse(source: Seq<char>) -> Seq<NodeRow>;

/// The nodes of the tree that tree-sitter-proto's grammar gives `source`.
pub uninterp spec fn proto_parse(source: Seq<char>) -> Seq<NodeRow>;

/// The nodes of the tree that the grammar of `lang` gives `source`.
pub open spec fn lang_rows(lang: Lang, source: Seq<char>) -> Seq<NodeRow> {
    match lang {
        Lang::Rust => rust_parse(source),
        Lang::Cpp => cpp_parse(source),
        Lang::Typescript => typescript_parse(source),
        Lang::Tsx => tsx_parse(source),
        Lang::Python => python_parse(source),
        Lang::Protobuf => proto_parse(source),
    }
}

/// `Parser::parse` of `source` (no previous tree) with
/// `tree_sitter_rust::LANGUAGE` installed. The grammar's ABI version (15)
/// lies in the range `Parser::set_language` accepts (13 to 15), and `parse`
/// without a progress callback returns `None` only when no language is set,
/// so the contract claims a tree, whose nodes are named `rust_parse`.
#[verifier::external_body]
fn parse_rust(source: &str) -> (res: Option<Tree>)
    ensures
        res is Some,
        res matches Some(t) ==> tree_rows(t) == rust_parse(source@),
{
    let mut parser = Parser::new();
    parser.set_language(&tree_sitter_rust::LANGUAGE.into()).ok()?;
    parser.parse(source, None)
}

/// `Parser::parse` of `source` with `tree_sitter_cpp::LANGUAGE` (ABI 14)
/// installed; as for `parse_rust`, the contract claims a tree.
#[verifier::external_body]
fn parse_cpp(source: &str) -> (res: Option<Tree>)
    ensures
        res is Some,
        res matches Some(t) ==> tree_rows(t) == cpp_parse(source@),
{
    let mut parser = Parser::new();
    parser.set_language(&tree_sitter_cpp::LANGUAGE.into()).ok()?;
    parser.parse(source, None)
}

/// `Parser::parse` of `source` with
/// `tree_sitter_typescript::LANGUAGE_TYPESCRIPT` (ABI 14) installed; the
/// contract claims a tree.
#[verifier::external_body]
fn parse_typescript(source: &str) -> (res: Option<Tree>)
    ensures
        res is Some,
        res matches Some(t) ==> tree_rows(t) == typescript_parse(source@),
{
    let mut parser = Parser::new();
    parser.set_language(&tree_sitter_typescript::LANGUAGE_TYPESCRIPT.into()).ok()?;
    parser.parse(source, None)
}

/// `Parser::parse` of `source` with `tree_sitter_typescript::LANGUAGE_TSX`
/// (ABI 14) installed; the contract claims a tree.
#[verifier::external_body]
fn parse_tsx(source: &str) -> (res: Option<Tree>)
    ensures
        res is Some,
        res matches Some(t) ==> tree_rows(t) == tsx_parse(source@),
{
    let mut parser = Parser::new();
    parser.set_language(&tree_sitter_typescript::LANGUAGE_TSX.into()).ok()?;
    parser.parse(source, None)
}

/// `Parser::parse` of `source` with `tree_sitter_python::LANGUAGE` (ABI 15)
/// installed; the contract claims a tree.
#[verifier::external_body]
fn parse_python(source: &str) -> (res: Option<Tree>)
    ensures
        res is Some,
        res matches Some(t) ==> tree_rows(t) == python_parse(source@),
{
    let mut parser = Parser::new();
    parser.set_language(&tree_sitter_python::LANGUAGE.into()).ok()?;
    parser.parse(source, None)
}

/// `Parser::parse` of `source` with `tree_sitter_proto::LANGUAGE` (ABI 15)
/// installed; the contract claims a tree.
#[verifier::external_body]
fn parse_proto(source: &str) -> (res: Option<Tree>)
    ensures
        res is Some,
        res matches Some(t) ==> tree_rows(t) == proto_parse(source@),
{
    let mut parser = Parser::new();
    parser.set_language(&tree_sitter_proto::LANGUAGE.into()).ok()?;
    parser.parse(source, None)
}

/// `Node::descendant_count` of the root: the number of nodes of the tree.
#[verifier::external_body]
fn tree_len(tree: &Tree) -> (res: usize)
    ensures
        res == tree_rows(*tree).len(),
{
    tree.root_node().descendant_count()
}

/// The `i`-th node of the tree, reached by `TreeCursor::goto_descendant`
/// from the root, as a row.
#[verifier::external_body]
fn tree_row(tree: &Tree, i: usize) -> (res: NodeRow)
    requires
        i < tree_rows(*tree).len(),
    ensures
        res == tree_rows(*tree)[i as int],
{
    let mut cursor = tree.walk();
    cursor.goto_descendant(i);
    let (node, field) = (cursor.node(), cursor.field_name());
    let (start, end) = (node.start_position(), node.end_position());
    NodeRow {
        kind: node.kind(), field, named: node.is_named(),
        start_byte: node.start_byte(), end_byte: node.end_byte(),
        start_row: start.row, start_col: start.column, end_row: end.row, end_col: end.column,
        child_count: node.child_count(),
    }
}

/// `Node::start_byte`.
#[verifier::external_body]
pub(crate) fn node_start_byte(node: &Node) -> usize {
    node.start_byte()
}

/// `Node::end_byte`.
#[verifier::external_body]
pub(crate) fn node_end_byte(node: &Node) -> usize {
    node.end_byte()
}

/// `Node::start_position`, as (row, column).
#[verifier::external_body]
pub(crate) fn node_start_position(node: &Node) -> (usize, usize) {
    let p = node.start_position();
    (p.row, p.column)
}

/// `Node::end_position`, as (row, column).
#[verifier::external_body]
pub(crate) fn node_end_position(node: &Node) -> (usize, usize) {
    let p = node.end_position();
    (p.row, p.column)
}

/// The tree-sitter tree of `source` in the grammar of `lang`.
pub fn parse_tree(lang: Lang, source: &str) -> (res: Tree)
    ensures
        tree_rows(res) == lang_rows(lang, source@),
{
    let parsed = match lang {
        Lang::Rust => parse_rust(source),
        Lang::Cpp => parse_cpp(source),
        Lang::Typescript => parse_typescript(source),
        Lang::Tsx => parse_tsx(source),
        Lang::Python => parse_python(source),
        Lang::Protobuf => parse_proto(source),
    };
    parsed.unwrap()
}

// ---------------------------------------------------------------- trees from rows

/// The node agrees with the row: same kind, field, positions, and as many
/// children as the row counts.
pub open spec fn row_matches(n: SyntaxNode, r: NodeRow) -> bool {
    &&& n.kind == r.kind
    &&& n.field == r.field
    &&& n.named == r.named
    &&& n.start_byte == r.start_byte
    &&& n.end_byte == r.end_byte
    &&& n.start_row == r.start_row
    &&& n.start_col == r.start_col
    &&& n.end_row == r.end_row
    &&& n.end_col == r.end_col
    &&& n.children@.len() == r.child_count
}

/// The number of nodes of a subtree.
pub open spec fn size(n: SyntaxNode) -> nat
    decreases n, 1int,
{
    1 + sizes_upto(n.children@, n.children@.len() as int)
}

/// The number of nodes of the subtrees `cs[..k]`.
pub open spec fn sizes_upto(cs: Seq<SyntaxNode>, k: int) -> nat
    decreases cs, k,
{
    if k <= 0 || k > cs.len() {
        0
    } else {
        sizes_upto(cs, k - 1) + size(cs[k - 1])
    }
}

/// The subtree `n` is the one that `rows` list from position `i` on: its
/// node is row `i`, and each child is listed right after the subtrees of
/// the children before it.
pub open spec fn from_rows(n: SyntaxNode, rows: Seq<NodeRow>, i: int) -> bool
    decreases n,
{
    &&& 0 <= i < rows.len()
    &&& row_matches(n, rows[i])
    &&& forall|k: int|
        0 <= k < n.children@.len() ==> from_rows(
            #[trigger] n.children@[k],
            rows,
            i + 1 + sizes_upto(n.children@, k),
        )
}

/// `tree` is the whole tree that `rows` list.
pub open spec fn tree_of_rows(tree: SyntaxNode, rows: Seq<NodeRow>) -> bool {
    from_rows(tree, rows, 0) && size(tree) == rows.len()
}

/// `tree` is the syntax tree that the grammar of `lang` gives `source`, and
/// its positions fit the source.
pub open spec fn parsed(tree: SyntaxNode, lang: Lang, source: Seq<char>) -> bool {
    tree_of_rows(tree, lang_rows(lang, source)) && tree.wf(bytes_of(source))
}

/// Whether the grammar of `lang` gives `source` a tree whose positions fit
/// the source.
pub open spec fn parse_ok(lang: Lang, source: Seq<char>) -> bool {
    exists|t: SyntaxNode| parsed(t, lang, source)
}

proof fn lemma_sizes_push(cs: Seq<SyntaxNode>, c: SyntaxNode, k: int)
    requires
        0 <= k <= cs.len(),
    ensures
        sizes_upto(cs.push(c), k) == sizes_upto(cs, k),
    decreases k,
{
    if k > 0 {
        lemma_sizes_push(cs, c, k - 1);
        assert(cs.push(c)[k - 1] == cs[k - 1]);
    }
}

/// The fields that well-formedness reads agree.
pub open spec fn same_place(a: SyntaxNode, b: SyntaxNode) -> bool {
    &&& a.start_byte == b.start_byte
    &&& a.end_byte == b.end_byte
    &&& a.start_row == b.start_row
    &&& a.end_row == b.end_row
}

proof fn lemma_wf_same(a: SyntaxNode, b: SyntaxNode, src: Seq<u8>)
    requires
        same_place(a, b),
        a.children@.len() == b.children@.len(),
        forall|k: int|
            0 <= k < a.children@.len() ==> same_place(#[trigger] a.children@[k], b.children@[k]) && a.children@[k].wf(
                src,
            ) == b.children@[k].wf(src),
    ensures
        a.wf(src) == b.wf(src),
{
    if a.wf(src) {
        lemma_wf_one_way(a, b, src);
    }
    if b.wf(src) {
        assert forall|k: int| 0 <= k < b.children@.len() implies same_place(#[trigger] b.children@[k], a.children@[k])
            && b.children@[k].wf(src) == a.children@[k].wf(src) by {
            assert(same_place(a.children@[k], b.children@[k]));
        }
        lemma_wf_one_way(b, a, src);
    }
}

proof fn lemma_wf_one_way(a: SyntaxNode, b: SyntaxNode, src: Seq<u8>)
    requires
        same_place(a, b),
        a.children@.len() == b.children@.len(),
        forall|k: int|
            0 <= k < a.children@.len() ==> same_place(#[trigger] a.children@[k], b.children@[k]) && a.children@[k].wf(
                src,
            ) == b.children@[k].wf(src),
        a.wf(src),
    ensures
        b.wf(src),
{
    assert forall|k: int| 0 <= k < b.children@.len() implies {
        &&& b.start_byte <= (#[trigger] b.children@[k]).start_byte
        &&& b.children@[k].end_byte <= b.end_byte
        &&& b.start_row <= b.children@[k].start_row
        &&& b.children@[k].end_row <= b.end_row
        &&& b.children@[k].wf(src)
    } by {
        assert(same_place(a.children@[k], b.children@[k]));
        assert(a.start_byte <= a.children@[k].start_byte);
    }
    assert forall|j: int, k: int| 0 <= j < k < b.children@.len() implies #[trigger] b.children@[j].end_byte
        <= #[trigger] b.children@[k].start_byte by {
        assert(same_place(a.children@[j], b.children@[j]));
        assert(same_place(a.children@[k], b.children@[k]));
        assert(a.children@[j].end_byte <= a.children@[k].start_byte);
    }
}

/// Two subtrees that the same rows list from the same position have the
/// same size and are well formed together.
proof fn lemma_from_rows_same(a: SyntaxNode, b: SyntaxNode, rows: Seq<NodeRow>, i: int, src: Seq<u8>)
    requires
        from_rows(a, rows, i),
        from_rows(b, rows, i),
    ensures
        size(a) == size(b),
        a.wf(src) == b.wf(src),
    decreases a, a.children@.len() + 1,
{
    let n = a.children@.len();
    assert forall|k: int| 0 <= k <= n implies sizes_upto(a.children@, k) == sizes_upto(b.children@, k) by {
        lemma_sizes_same_upto(a, b, rows, i, src, k);
    }
    assert forall|k: int| 0 <= k < n implies same_place(#[trigger] a.children@[k], b.children@[k])
        && a.children@[k].wf(src) == b.children@[k].wf(src) by {
        let j = i + 1 + sizes_upto(a.children@, k);
        assert(from_rows(a.children@[k], rows, j));
        assert(from_rows(b.children@[k], rows, j));
        lemma_from_rows_same(a.children@[k], b.children@[k], rows, j, src);
    }
    lemma_wf_same(a, b, src);
    lemma_sizes_same_upto(a, b, rows, i, src, n as int);
}

proof fn lemma_sizes_same_upto(a: SyntaxNode, b: SyntaxNode, rows: Seq<NodeRow>, i: int, src: Seq<u8>, k: int)
    requires
        from_rows(a, rows, i),
        from_rows(b, rows, i),
        0 <= k <= a.children@.len(),
    ensures
        sizes_upto(a.children@, k) == sizes_upto(b.children@, k),
    decreases a, k,
{
    if k > 0 {
        lemma_sizes_same_upto(a, b, rows, i, src, k - 1);
        let j = i + 1 + sizes_upto(a.children@, k - 1);
        assert(from_rows(a.children@[k - 1], rows, j));
        assert(from_rows(b.children@[k - 1], rows, j));
        lemma_from_rows_same(a.children@[k - 1], b.children@[k - 1], rows, j, src);
    }
}

/// The subtree that `rows` list from position `i`, with the position after
/// it; `None` when the rows list no such subtree.
fn build_node(rows: &Vec<NodeRow>, i: usize) -> (res: Option<(SyntaxNode, usize)>)
    ensures
        match res {
            Some((n, next)) => from_rows(n, rows@, i as int) && next == i + size(n) && next <= rows@.len(),
            None => forall|t: SyntaxNode| !(#[trigger] from_rows(t, rows@, i as int) && i + size(t) <= rows@.len()),
        },
    decreases rows@.len() - i,
{
    if i >= rows.len() {
        return None;
    }
    let row = rows[i];
    let mut children: Vec<SyntaxNode> = Vec::new();
    let mut j: usize = i + 1;
    let mut k: usize = 0;
    while k < row.child_count
        invariant
            i < rows@.len(),
            row == rows@[i as int],
            k <= row.child_count,
            children@.len() == k,
            j == i + 1 + sizes_upto(children@, k as int),
            j <= rows@.len(),
            forall|q: int|
                0 <= q < k ==> from_rows(#[trigger] children@[q], rows@, i + 1 + sizes_upto(children@, q)),
            forall|t: SyntaxNode|
                #[trigger] from_rows(t, rows@, i as int) && i + size(t) <= rows@.len() ==> sizes_upto(
                    t.children@,
                    k as int,
                ) == sizes_upto(children@, k as int),
        decreases row.child_count - k,
    {
        let ghost before = children@;
        if j >= rows.len() {
            proof {
                assert forall|t: SyntaxNode| !(#[trigger] from_rows(t, rows@, i as int) && i + size(t) <= rows@.len()) by {
                    if from_rows(t, rows@, i as int) && i + size(t) <= rows@.len() {
                        lemma_prefix_size(t, k as int + 1);
                        assert(from_rows(t.children@[k as int], rows@, i + 1 + sizes_upto(t.children@, k as int)));
                    }
                }
            }
            return None;
        }
        match build_node(rows, j) {
            None => {
                proof {
                    assert forall|t: SyntaxNode| !(#[trigger] from_rows(t, rows@, i as int) && i + size(t) <= rows@.len()) by {
                        if from_rows(t, rows@, i as int) && i + size(t) <= rows@.len() {
                            lemma_prefix_size(t, k as int + 1);
                            let c = t.children@[k as int];
                            assert(from_rows(c, rows@, j as int));
                            assert(j + size(c) <= rows@.len());
                        }
                    }
                }
                return None;
            },
            Some((c, next)) => {
                children.push(c);
                proof {
                    lemma_sizes_push(before, c, k as int);
                    assert(children@[k as int] == c);
                    assert(sizes_upto(children@, k + 1) == sizes_upto(before, k as int) + size(c));
                    assert forall|q: int| 0 <= q < k + 1 implies from_rows(
                        #[trigger] children@[q],
                        rows@,
                        i + 1 + sizes_upto(children@, q),
                    ) by {
                        lemma_sizes_push(before, c, q);
                        if q < k {
                            assert(children@[q] == before[q]);
                        }
                    }
                    assert forall|t: SyntaxNode|
                        #[trigger] from_rows(t, rows@, i as int) && i + size(t) <= rows@.len() implies sizes_upto(
                            t.children@,
                            k + 1,
                        ) == sizes_upto(children@, k + 1) by {
                        let tc = t.children@[k as int];
                        assert(from_rows(tc, rows@, i + 1 + sizes_upto(t.children@, k as int)));
                        lemma_from_rows_same(tc, c, rows@, j as int, Seq::empty());
                    }
                }
                j = next;
                k = k + 1;
            },
        }
    }
    let node = SyntaxNode {
        kind: row.kind,
        field: row.field,
        named: row.named,
        start_byte: row.start_byte,
        end_byte: row.end_byte,
        start_row: row.start_row,
        start_col: row.start_col,
        end_row: row.end_row,
        end_col: row.end_col,
        children,
    };
    proof {
        assert(node.children@ == children@);
        assert forall|q: int| 0 <= q < node.children@.len() implies from_rows(
            #[trigger] node.children@[q],
            rows@,
            i + 1 + sizes_upto(node.children@, q),
        ) by {}
    }
    Some((node, j))
}

/// A subtree is at least as large as the subtrees of its first `k` children
/// together, plus its own node.
proof fn lemma_prefix_size(t: SyntaxNode, k: int)
    requires
        0 <= k <= t.children@.len(),
    ensures
        1 + sizes_upto(t.children@, k) <= size(t),
{
    lemma_sizes_grow(t.children@, k, t.children@.len() as int);
}

proof fn lemma_sizes_grow(cs: Seq<SyntaxNode>, k: int, m: int)
    requires
        0 <= k <= m <= cs.len(),
    ensures
        sizes_upto(cs, k) <= sizes_upto(cs, m),
    decreases m - k,
{
    if k < m {
        lemma_sizes_grow(cs, k, m - 1);
    }
}

/// The rows of all nodes of `tree`.
fn read_rows(tree: &Tree) -> (res: Vec<NodeRow>)
    ensures
        res@ == tree_rows(*tree),
{
    let n = tree_len(tree);
    let mut rows: Vec<NodeRow> = Vec::new();
    let mut i: usize = 0;
    while i < n
        invariant
            n == tree_rows(*tree).len(),
            i <= n,
            rows@ == tree_rows(*tree).subrange(0, i as int),
        decreases n - i,
    {
        rows.push(tree_row(tree, i));
        i = i + 1;
        assert(rows@ =~= tree_rows(*tree).subrange(0, i as int));
    }
    assert(tree_rows(*tree).subrange(0, n as int) =~= tree_rows(*tree));
    rows
}

/// Parses `source` in the grammar of `lang` and rebuilds the tree. A tree
/// whose positions do not fit the source is refused.
pub fn parse_with(lang: Lang, source: &str) -> (res: Result<SyntaxNode, AstError>)
    ensures
        match res {
            Ok(tree) => parsed(tree, lang, source@),
            Err(e) => e is MalformedTree && !parse_ok(lang, source@),
        },
{
    let tree = parse_tree(lang, source);
    let rows = read_rows(&tree);
    let ghost src = bytes_of(source@);
    match build_node(&rows, 0) {
        Some((node, next)) => {
            if next == rows.len() && node.check_wf(source) {
                return Ok(node);
            }
            proof {
                assert forall|t: SyntaxNode| !parsed(t, lang, source@) by {
                    if parsed(t, lang, source@) {
                        lemma_from_rows_same(t, node, rows@, 0, src);
                    }
                }
            }
            Err(AstError::MalformedTree)
        },
        None => {
            proof {
                assert forall|t: SyntaxNode| !parsed(t, lang, source@) by {
                    if parsed(t, lang, source@) {
                        assert(from_rows(t, rows@, 0) && 0 + size(t) <= rows@.len());
                    }
                }
            }
            Err(AstError::MalformedTree)
        },
    }
}

} // verus!
