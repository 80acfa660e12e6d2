//! Skeleton: the source with function bodies replaced by a placeholder.
use vstd::prelude::*;
use vstd::utf8::*;
use crate::error::AstError;
use crate::languages::{parse_file, parse_error, Lang, detected_extension, lang_of_extension};
use crate::parser::parsed;
use crate::syntax::SyntaxNode;
use crate::text::{bytes_of, slice, slice_text};

verus! {

broadcast use vstd::utf8::group_utf8_lib;

/// Whether `n`, a child of a node of kind `parent_kind`, is a function body.
pub open spec fn spec_is_function_body(n: SyntaxNode, parent_kind: Seq<char>, lang: Lang) -> bool {
    let k = n.kind@;
    match lang {
        Lang::Rust => k == "block"@ && (parent_kind == "function_item"@ || parent_kind
            == "closure_expression"@),
        Lang::Cpp => k == "compound_statement"@ && parent_kind == "function_definition"@,
        Lang::Typescript | Lang::Tsx => k == "statement_block"@ && (parent_kind
            == "function_declaration"@ || parent_kind == "method_definition"@ || parent_kind
            == "arrow_function"@),
        Lang::Python => k == "block"@ && parent_kind == "function_definition"@,
        Lang::Protobuf => false,
    }
}

/// Whether a function body lies somewhere below `n`.
pub open spec fn has_nested(n: SyntaxNode, lang: Lang) -> bool
    decreases n, 1int,
{
    nested_from(n.children@, n.kind@, lang, 0)
}

/// Whether one of `cs[i..]`, children of a node of kind `parent_kind`, is a
/// function body or has one below it.
pub open spec fn nested_from(cs: Seq<SyntaxNode>, parent_kind: Seq<char>, lang: Lang, i: int) -> bool
    decreases cs, cs.len() - i,
{
    if i < 0 || i >= cs.len() {
        false
    } else {
        spec_is_function_body(cs[i], parent_kind, lang) || has_nested(cs[i], lang) || nested_from(
            cs,
            parent_kind,
            lang,
            i + 1,
        )
    }
}

/// The source text between two byte offsets.
pub open spec fn piece(src: Seq<u8>, a: int, b: int) -> Seq<char> {
    decode_utf8(src.subrange(a, b))
}

/// The skeleton of `n` after its first `k` children: the text produced so
/// far and the offset up to which the source has been consumed.
pub open spec fn skel_state(n: SyntaxNode, src: Seq<u8>, lang: Lang, k: int) -> (Seq<char>, int)
    decreases n.children@, k,
{
    if k <= 0 || k > n.children@.len() {
        (Seq::empty(), n.start_byte as int)
    } else {
        let (out, last) = skel_state(n, src, lang, k - 1);
        let c = n.children@[k - 1];
        if spec_is_function_body(c, n.kind@, lang) {
            (out + piece(src, last, c.start_byte as int) + lang.spec_body_placeholder(), c.end_byte as int)
        } else if has_nested(c, lang) {
            (out + piece(src, last, c.start_byte as int) + skel(c, src, lang), c.end_byte as int)
        } else {
            (out, last)
        }
    }
}

/// The text of `n` with every function body below it replaced by the
/// language's placeholder.
pub open spec fn skel(n: SyntaxNode, src: Seq<u8>, lang: Lang) -> Seq<char>
    decreases n, 1int,
{
    let (out, last) = skel_state(n, src, lang, n.children@.len() as int);
    if last < n.end_byte {
        out + piece(src, last, n.end_byte as int)
    } else {
        out
    }
}

/// No child from `i` on has a function body in or below it.
proof fn lemma_no_nested_from(cs: Seq<SyntaxNode>, parent_kind: Seq<char>, lang: Lang, i: int, k: int)
    requires
        0 <= i <= k < cs.len(),
        !nested_from(cs, parent_kind, lang, i),
    ensures
        !spec_is_function_body(cs[k], parent_kind, lang),
        !has_nested(cs[k], lang),
    decreases k - i,
{
    if i < k {
        lemma_no_nested_from(cs, parent_kind, lang, i + 1, k);
    }
}

/// Without a function body below `n`, no child changes the skeleton.
proof fn lemma_skel_state_unchanged(n: SyntaxNode, src: Seq<u8>, lang: Lang, k: int)
    requires
        !has_nested(n, lang),
        0 <= k <= n.children@.len(),
    ensures
        skel_state(n, src, lang, k) == (Seq::<char>::empty(), n.start_byte as int),
    decreases k,
{
    if k > 0 {
        lemma_skel_state_unchanged(n, src, lang, k - 1);
        lemma_no_nested_from(n.children@, n.kind@, lang, 0, k - 1);
    }
}

/// A node with no function body below it is its own skeleton: the skeleton
/// is exactly the node's text.
pub proof fn lemma_skeleton_without_bodies(n: SyntaxNode, src: Seq<u8>, lang: Lang)
    requires
        n.wf(src),
        !has_nested(n, lang),
    ensures
        n.text(src) == Some(skel(n, src, lang)),
{
    lemma_skel_state_unchanged(n, src, lang, n.children@.len() as int);
    if n.start_byte == n.end_byte {
        assert(src.subrange(n.start_byte as int, n.end_byte as int) =~= Seq::<u8>::empty());
        assert(decode_utf8(Seq::<u8>::empty()) =~= Seq::<char>::empty()) by {
            assert(encode_utf8(Seq::<char>::empty()) =~= Seq::<u8>::empty());
        }
    }
}

proof fn lemma_no_nested_protobuf(n: SyntaxNode)
    ensures
        !has_nested(n, Lang::Protobuf),
    decreases n, 1int,
{
    lemma_no_nested_from_protobuf(n.children@, n.kind@, 0);
}

proof fn lemma_no_nested_from_protobuf(cs: Seq<SyntaxNode>, parent_kind: Seq<char>, i: int)
    ensures
        !nested_from(cs, parent_kind, Lang::Protobuf, i),
    decreases cs, cs.len() - i,
{
    if 0 <= i < cs.len() {
        lemma_no_nested_protobuf(cs[i]);
        lemma_no_nested_from_protobuf(cs, parent_kind, i + 1);
    }
}

/// Protobuf has no function bodies: the skeleton of a Protobuf tree is its
/// text, unchanged.
pub proof fn lemma_protobuf_skeleton_is_text(n: SyntaxNode, src: Seq<u8>)
    requires
        n.wf(src),
    ensures
        n.text(src) == Some(skel(n, src, Lang::Protobuf)),
{
    lemma_no_nested_protobuf(n);
    lemma_skeleton_without_bodies(n, src, Lang::Protobuf);
}

/// In TypeScript and TSX, the statement block of a function declaration, a
/// method or an arrow function is a function body: the skeleton copies the
/// text before it, writes `{ /* ... */ }` in its place, and goes on after
/// its end, so that nothing inside the block survives.
pub proof fn lemma_ts_body_replaced(n: SyntaxNode, src: Seq<u8>, lang: Lang, k: int)
    requires
        lang == Lang::Typescript || lang == Lang::Tsx,
        n.kind@ == "function_declaration"@ || n.kind@ == "method_definition"@ || n.kind@
            == "arrow_function"@,
        0 <= k < n.children@.len(),
        n.children@[k].kind@ == "statement_block"@,
    ensures
        skel_state(n, src, lang, k + 1) == (
            skel_state(n, src, lang, k).0 + piece(src, skel_state(n, src, lang, k).1, n.children@[k].start_byte as int)
                + "{ /* ... */ }"@,
            n.children@[k].end_byte as int,
        ),
{
}

/// In Rust, the block of a function or a closure is a function body: the
/// skeleton writes `{ todo!() }` in its place and goes on after its end.
pub proof fn lemma_rust_body_replaced(n: SyntaxNode, src: Seq<u8>, k: int)
    requires
        n.kind@ == "function_item"@ || n.kind@ == "closure_expression"@,
        0 <= k < n.children@.len(),
        n.children@[k].kind@ == "block"@,
    ensures
        skel_state(n, src, Lang::Rust, k + 1) == (
            skel_state(n, src, Lang::Rust, k).0 + piece(src, skel_state(n, src, Lang::Rust, k).1, n.children@[k].start_byte as int)
                + "{ todo!() }"@,
            n.children@[k].end_byte as int,
        ),
{
}

/// In C++, the compound statement of a function definition is its body: the
/// skeleton writes `{ /* ... */ }` in its place and goes on after its end.
pub proof fn lemma_cpp_body_replaced(n: SyntaxNode, src: Seq<u8>, k: int)
    requires
        n.kind@ == "function_definition"@,
        0 <= k < n.children@.len(),
        n.children@[k].kind@ == "compound_statement"@,
    ensures
        skel_state(n, src, Lang::Cpp, k + 1) == (
            skel_state(n, src, Lang::Cpp, k).0 + piece(src, skel_state(n, src, Lang::Cpp, k).1, n.children@[k].start_byte as int)
                + "{ /* ... */ }"@,
            n.children@[k].end_byte as int,
        ),
{
}

/// In Python, the block of a function definition is its body: the skeleton
/// writes `pass` in its place and goes on after its end.
pub proof fn lemma_python_body_replaced(n: SyntaxNode, src: Seq<u8>, k: int)
    requires
        n.kind@ == "function_definition"@,
        0 <= k < n.children@.len(),
        n.children@[k].kind@ == "block"@,
    ensures
        skel_state(n, src, Lang::Python, k + 1) == (
            skel_state(n, src, Lang::Python, k).0 + piece(src, skel_state(n, src, Lang::Python, k).1, n.children@[k].start_byte as int)
                + "pass"@,
            n.children@[k].end_byte as int,
        ),
{
}

pub fn is_function_body(node: &SyntaxNode, parent: &SyntaxNode, lang: Lang) -> (res: bool)
    ensures
        res == spec_is_function_body(*node, parent.kind@, lang),
{
    match lang {
        Lang::Rust => node.is_kind("block") && (parent.is_kind("function_item") || parent.is_kind(
            "closure_expression",
        )),
        Lang::Cpp => node.is_kind("compound_statement") && parent.is_kind("function_definition"),
        Lang::Typescript | Lang::Tsx => node.is_kind("statement_block") && (parent.is_kind(
            "function_declaration",
        ) || parent.is_kind("method_definition") || parent.is_kind("arrow_function")),
        Lang::Python => node.is_kind("block") && parent.is_kind("function_definition"),
        Lang::Protobuf => false,
    }
}

pub fn has_nested_functions(node: &SyntaxNode, lang: Lang) -> (res: bool)
    ensures
        res == has_nested(*node, lang),
    decreases node, 1int,
{
    let ghost cs = node.children@;
    let n = node.children.len();
    let mut i: usize = 0;
    while i < n
        invariant
            n == cs.len(),
            cs == node.children@,
            i <= n,
            nested_from(cs, node.kind@, lang, 0) == nested_from(cs, node.kind@, lang, i as int),
        decreases n - i,
    {
        let child = &node.children[i];
        if is_function_body(child, node, lang) {
            return true;
        }
        if has_nested_functions(child, lang) {
            return true;
        }
        i = i + 1;
    }
    false
}

/// Appends the skeleton of `node` to `output`.
pub fn build_skeleton(node: &SyntaxNode, source: &str, lang: Lang, output: &mut String)
    requires
        node.wf(bytes_of(source@)),
    ensures
        final(output)@ == old(output)@ + skel(*node, bytes_of(source@), lang),
    decreases node, 1int,
{
    let ghost src = bytes_of(source@);
    let ghost cs = node.children@;
    let ghost start = old(output)@;
    let n = node.children.len();
    let mut last_end = node.start_byte;
    let mut i: usize = 0;
    assert(output@ =~= start + skel_state(*node, src, lang, 0).0);
    while i < n
        invariant
            n == cs.len(),
            cs == node.children@,
            src == bytes_of(source@),
            node.wf(src),
            i <= n,
            last_end == skel_state(*node, src, lang, i as int).1,
            output@ == start + skel_state(*node, src, lang, i as int).0,
            node.start_byte <= last_end <= node.end_byte,
            is_char_boundary(src, last_end as int),
            forall|k: int| i <= k < n ==> last_end <= (#[trigger] cs[k]).start_byte,
        decreases n - i,
    {
        let child = &node.children[i];
        assert(child.wf(src));
        let ghost prev_out = output@;
        let body = is_function_body(child, node, lang);
        let nested = if body { false } else { has_nested_functions(child, lang) };
        if body || nested {
            let text = match slice(source, last_end, child.start_byte) {
                Some(t) => t,
                None => {
                    assert(slice_text(src, last_end as int, child.start_byte as int) is Some);
                    return;
                },
            };
            output.append(text.as_str());
            if body {
                output.append(lang.body_placeholder());
            } else {
                build_skeleton(child, source, lang, output);
            }
            assert(output@ =~= start + skel_state(*node, src, lang, i + 1).0);
            last_end = child.end_byte;
            assert forall|k: int| i + 1 <= k < n implies last_end <= (#[trigger] cs[k]).start_byte by {
                assert(cs[i as int].end_byte <= cs[k].start_byte);
            }
        }
        i = i + 1;
    }
    if last_end < node.end_byte {
        let text = match slice(source, last_end, node.end_byte) {
            Some(t) => t,
            None => {
                assert(slice_text(src, last_end as int, node.end_byte as int) is Some);
                return;
            },
        };
        output.append(text.as_str());
    }
}

/// The skeleton of the tree of `source`.
pub fn skeleton_of(root: &SyntaxNode, source: &str, lang: Lang) -> (res: String)
    requires
        root.wf(bytes_of(source@)),
    ensures
        res@ == skel(*root, bytes_of(source@), lang),
{
    let mut output = String::new();
    build_skeleton(root, source, lang, &mut output);
    assert(output@ =~= skel(*root, bytes_of(source@), lang));
    output
}

/// The skeleton of `source`, the text of the file at `path`.
pub fn run(path: &str, source: &str) -> (res: Result<String, AstError>)
    ensures
        match res {
            Ok(t) => exists|tree: SyntaxNode, lang: Lang|
                {
                    &&& lang_of_extension(detected_extension(path@)) == Some(lang)
                    &&& parsed(tree, lang, source@)
                    &&& t@ == #[trigger] skel(tree, bytes_of(source@), lang)
                },
            Err(e) => parse_error(path@, source@, e),
        },
{
    let (tree, lang) = parse_file(path, source)?;
    let out = skeleton_of(&tree, source, lang);
    assert(out@ == skel(tree, bytes_of(source@), lang));
    Ok(out)
}

} // verus!
