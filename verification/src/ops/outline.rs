//! Outline: the definitions of a file with kinds, names, line ranges,
//! visibility, signatures and nested members.
use vstd::prelude::*;
use crate::error::AstError;
use crate::languages::{parse_file, parse_error, Lang, detected_extension, lang_of_extension, spec_is_body_container, is_body_container};
use crate::parser::parsed;
use crate::syntax::{SyntaxNode, first_of_kind, lemma_first_of_kind_range};
use crate::text::{bytes_of, str_eq, trim, trim_text, join, decimal, push_decimal};

verus! {

/// The model of an outline item.
pub struct ItemSpec {
    pub kind: Seq<char>,
    pub name: Seq<char>,
    pub start_line: int,
    pub end_line: int,
    pub visibility: Option<Seq<char>>,
    pub signature: Option<Seq<char>>,
    pub children: Seq<ItemSpec>,
}

/// One definition in a file's outline.
#[derive(Debug)]
pub struct OutlineItem {
    pub kind: String,
    pub name: String,
    /// One-based first line.
    pub start_line: usize,
    /// One-based last line.
    pub end_line: usize,
    pub visibility: Option<String>,
    pub signature: Option<String>,
    pub children: Vec<OutlineItem>,
}

pub open spec fn opt_text(o: Option<String>) -> Option<Seq<char>> {
    match o {
        Some(s) => Some(s@),
        None => None,
    }
}

impl OutlineItem {
    /// The item is the value that the model `m` describes.
    pub open spec fn models(self, m: ItemSpec) -> bool
        decreases self,
    {
        &&& self.kind@ == m.kind
        &&& self.name@ == m.name
        &&& self.start_line == m.start_line
        &&& self.end_line == m.end_line
        &&& opt_text(self.visibility) == m.visibility
        &&& opt_text(self.signature) == m.signature
        &&& self.children@.len() == m.children.len()
        &&& forall|i: int|
            0 <= i < self.children@.len() ==> (#[trigger] self.children@[i]).models(m.children[i])
    }
}

/// Each item is the value its model describes.
pub open spec fn all_model(items: Seq<OutlineItem>, ms: Seq<ItemSpec>) -> bool {
    &&& items.len() == ms.len()
    &&& forall|i: int| 0 <= i < items.len() ==> (#[trigger] items[i]).models(ms[i])
}

pub open spec fn opt_models(o: Option<OutlineItem>, m: Option<ItemSpec>) -> bool {
    match (o, m) {
        (Some(a), Some(b)) => a.models(b),
        (None, None) => true,
        _ => false,
    }
}

pub open spec fn opt_seq(o: Option<ItemSpec>) -> Seq<ItemSpec> {
    match o {
        Some(x) => seq![x],
        None => Seq::empty(),
    }
}

/// The one-based line of a zero-based row.
pub open spec fn line(row: usize) -> int {
    row + 1
}

/// The text of the child under field `f`.
pub open spec fn field_text(n: SyntaxNode, f: Seq<char>, src: Seq<u8>) -> Option<Seq<char>> {
    match n.field_child(f) {
        Some(c) => c.text(src),
        None => None,
    }
}

pub open spec fn or_default(o: Option<Seq<char>>, d: Seq<char>) -> Seq<char> {
    match o {
        Some(t) => t,
        None => d,
    }
}

pub open spec fn or_unknown(o: Option<Seq<char>>) -> Seq<char> {
    or_default(o, "<unknown>"@)
}

/// The text of the first child of kind `k`.
pub open spec fn kind_text(n: SyntaxNode, k: Seq<char>, src: Seq<u8>) -> Option<Seq<char>> {
    match first_of_kind(n.children@, k, 0) {
        Some(j) => n.children@[j].text(src),
        None => None,
    }
}

/// The text of a node, or nothing when its range is not text.
pub open spec fn text_or_empty(n: SyntaxNode, src: Seq<u8>) -> Seq<char> {
    or_default(n.text(src), Seq::empty())
}

/// The texts of `cs[..k]` joined by single spaces, where an empty
/// accumulation takes no space before the next text.
pub open spec fn sig_acc(cs: Seq<SyntaxNode>, src: Seq<u8>, k: int) -> Seq<char>
    decreases k,
{
    if k <= 0 {
        Seq::empty()
    } else {
        let acc = sig_acc(cs, src, k - 1);
        let sep = if acc.len() > 0 { acc + " "@ } else { acc };
        sep + text_or_empty(cs[k - 1], src)
    }
}

/// The index of the first child of kind `k`, or the number of children.
pub open spec fn index_or_len(cs: Seq<SyntaxNode>, k: Seq<char>) -> int {
    match first_of_kind(cs, k, 0) {
        Some(i) => i,
        None => cs.len() as int,
    }
}

/// A function's signature: the text of the children before its body, trimmed.
pub open spec fn fn_signature(n: SyntaxNode, src: Seq<u8>, body_kind: Seq<char>) -> Seq<char> {
    trim(sig_acc(n.children@, src, index_or_len(n.children@, body_kind)))
}

pub open spec fn item(
    kind: Seq<char>,
    name: Seq<char>,
    n: SyntaxNode,
    visibility: Option<Seq<char>>,
    signature: Option<Seq<char>>,
    children: Seq<ItemSpec>,
) -> ItemSpec {
    ItemSpec {
        kind,
        name,
        start_line: line(n.start_row),
        end_line: line(n.end_row),
        visibility,
        signature,
        children,
    }
}

// ---------------------------------------------------------------- Rust

/// Outline kind of a Rust node kind.
pub open spec fn rust_kind(k: Seq<char>) -> Option<Seq<char>> {
    if k == "function_item"@ {
        Some("function"@)
    } else if k == "struct_item"@ {
        Some("struct"@)
    } else if k == "enum_item"@ {
        Some("enum"@)
    } else if k == "trait_item"@ {
        Some("trait"@)
    } else if k == "impl_item"@ {
        Some("impl"@)
    } else if k == "type_item"@ {
        Some("type_alias"@)
    } else if k == "const_item"@ {
        Some("const"@)
    } else if k == "static_item"@ {
        Some("static"@)
    } else if k == "mod_item"@ {
        Some("module"@)
    } else if k == "use_declaration"@ {
        Some("use"@)
    } else if k == "macro_definition"@ {
        Some("macro"@)
    } else {
        None
    }
}

/// Texts of `cs[..k]` other than the `impl` keyword and where clauses.
pub open spec fn impl_parts(cs: Seq<SyntaxNode>, src: Seq<u8>, k: int) -> Seq<Seq<char>>
    decreases k,
{
    if k <= 0 {
        Seq::empty()
    } else {
        let c = cs[k - 1];
        let rest = impl_parts(cs, src, k - 1);
        if c.kind@ == "impl"@ || c.kind@ == "where_clause"@ {
            rest
        } else {
            match c.text(src) {
                Some(t) => rest.push(t),
                None => rest,
            }
        }
    }
}

/// The name of a Rust item: for an impl, the words of its header.
pub open spec fn rust_name(n: SyntaxNode, src: Seq<u8>) -> Seq<char> {
    if n.kind@ == "impl_item"@ {
        join(impl_parts(n.children@, src, index_or_len(n.children@, "declaration_list"@)), " "@)
    } else {
        or_unknown(field_text(n, "name"@, src))
    }
}

pub open spec fn rust_item_of(n: SyntaxNode, src: Seq<u8>) -> Option<ItemSpec>
    decreases n, 4int,
{
    match rust_kind(n.kind@) {
        None => None,
        Some(kind) => Some(
            item(
                kind,
                rust_name(n, src),
                n,
                kind_text(n, "visibility_modifier"@, src),
                if kind == "function"@ {
                    Some(fn_signature(n, src, "block"@))
                } else {
                    None
                },
                if kind == "impl"@ || kind == "trait"@ || kind == "module"@ {
                    body_items(n, src, Lang::Rust)
                } else {
                    Seq::empty()
                },
            ),
        ),
    }
}

// ---------------------------------------------------------------- C++

/// Outline kind of a C++ node kind (templates aside).
pub open spec fn cpp_kind(n: SyntaxNode) -> Option<Seq<char>> {
    let k = n.kind@;
    if k == "function_definition"@ {
        Some("function"@)
    } else if k == "declaration"@ && first_of_kind(n.children@, "function_declarator"@, 0) is Some {
        Some("function_decl"@)
    } else if k == "class_specifier"@ {
        Some("class"@)
    } else if k == "struct_specifier"@ {
        Some("struct"@)
    } else if k == "enum_specifier"@ {
        Some("enum"@)
    } else if k == "namespace_definition"@ {
        Some("namespace"@)
    } else if k == "type_definition"@ {
        Some("typedef"@)
    } else {
        None
    }
}

/// Declarator kinds that wrap the declared name.
pub open spec fn is_name_wrapper(k: Seq<char>) -> bool {
    k == "function_declarator"@ || k == "qualified_identifier"@ || k == "pointer_declarator"@
        || k == "reference_declarator"@
}

/// The child under field `name`, else the one under `declarator`.
pub open spec fn name_or_declarator(n: SyntaxNode) -> Option<SyntaxNode> {
    match n.field_child("name"@) {
        Some(c) => Some(c),
        None => n.field_child("declarator"@),
    }
}

/// The innermost name below a chain of declarators.
pub open spec fn innermost(d: SyntaxNode) -> SyntaxNode
    decreases d,
{
    if is_name_wrapper(d.kind@) {
        match crate::syntax::first_with_field(d.children@, "name"@, 0) {
            Some(j) => {
                proof {
                    crate::syntax::lemma_first_with_field_range(d.children@, "name"@, 0);
                }
                innermost(d.children@[j])
            },
            None => match crate::syntax::first_with_field(d.children@, "declarator"@, 0) {
                Some(j) => {
                    proof {
                        crate::syntax::lemma_first_with_field_range(d.children@, "declarator"@, 0);
                    }
                    innermost(d.children@[j])
                },
                None => d,
            },
        }
    } else {
        d
    }
}

/// The index of the last of `cs[..k]` of kind `type_identifier` or `identifier`.
pub open spec fn last_identifier(cs: Seq<SyntaxNode>, k: int) -> Option<int>
    decreases k,
{
    if k <= 0 {
        None
    } else if cs[k - 1].kind@ == "type_identifier"@ || cs[k - 1].kind@ == "identifier"@ {
        Some(k - 1)
    } else {
        last_identifier(cs, k - 1)
    }
}

/// The name of a C++ definition.
pub open spec fn cpp_name(n: SyntaxNode, src: Seq<u8>) -> Seq<char> {
    let k = n.kind@;
    if k == "namespace_definition"@ {
        match field_text(n, "name"@, src) {
            Some(t) => t,
            None => or_default(field_text(n, "namespace_identifier"@, src), "<anonymous>"@),
        }
    } else if k == "type_definition"@ {
        match field_text(n, "declarator"@, src) {
            Some(t) => t,
            None => match last_identifier(n.children@, n.children@.len() as int) {
                Some(j) => or_unknown(n.children@[j].text(src)),
                None => "<unknown>"@,
            },
        }
    } else {
        match name_or_declarator(n) {
            Some(d) => or_unknown(innermost(d).text(src)),
            None => "<unknown>"@,
        }
    }
}

pub open spec fn cpp_item_of(n: SyntaxNode, src: Seq<u8>) -> Option<ItemSpec>
    decreases n, 4int,
{
    if n.kind@ == "template_declaration"@ {
        match cpp_first_item(n.children@, src, 0) {
            Some(it) => Some(ItemSpec { kind: "template_"@ + it.kind, start_line: line(n.start_row), ..it }),
            None => None,
        }
    } else {
        match cpp_kind(n) {
            None => None,
            Some(kind) => Some(
                item(
                    kind,
                    cpp_name(n, src),
                    n,
                    None,
                    if kind == "function"@ || kind == "function_decl"@ {
                        Some(fn_signature(n, src, "compound_statement"@))
                    } else {
                        None
                    },
                    if kind == "class"@ || kind == "struct"@ || kind == "namespace"@ {
                        body_items(n, src, Lang::Cpp)
                    } else {
                        Seq::empty()
                    },
                ),
            ),
        }
    }
}

/// The item of the first of `cs[i..]` that has one, as C++.
pub open spec fn cpp_first_item(cs: Seq<SyntaxNode>, src: Seq<u8>, i: int) -> Option<ItemSpec>
    decreases cs, cs.len() - i,
{
    if i < 0 || i >= cs.len() {
        None
    } else {
        match cpp_item_of(cs[i], src) {
            Some(it) => Some(it),
            None => cpp_first_item(cs, src, i + 1),
        }
    }
}

/// C/C++ wrappers (guards, typedefs, `extern "C"`, ...) whose contents count
/// as top-level definitions.
pub open spec fn spec_should_recurse_cpp(k: Seq<char>) -> bool {
    ||| k == "type_definition"@
    ||| k == "linkage_specification"@
    ||| k == "declaration"@
    ||| k == "expression_statement"@
    ||| k == "preproc_ifdef"@
    ||| k == "preproc_if"@
    ||| k == "preproc_elif"@
    ||| k == "preproc_else"@
    ||| k == "ERROR"@
}

// ---------------------------------------------------------------- TypeScript

pub open spec fn ts_kind(k: Seq<char>) -> Option<Seq<char>> {
    if k == "function_declaration"@ {
        Some("function"@)
    } else if k == "class_declaration"@ {
        Some("class"@)
    } else if k == "interface_declaration"@ {
        Some("interface"@)
    } else if k == "enum_declaration"@ {
        Some("enum"@)
    } else if k == "type_alias_declaration"@ {
        Some("type_alias"@)
    } else if k == "method_definition"@ {
        Some("method"@)
    } else {
        None
    }
}

/// A `const`/`let` declaration: its first declarator, as a function when it
/// holds an arrow function.
pub open spec fn ts_lexical_of(n: SyntaxNode, src: Seq<u8>) -> Option<ItemSpec> {
    match first_of_kind(n.children@, "variable_declarator"@, 0) {
        None => None,
        Some(j) => {
            let d = n.children@[j];
            let has_arrow = match d.field_child("value"@) {
                Some(v) => v.kind@ == "arrow_function"@,
                None => false,
            };
            Some(
                item(
                    if has_arrow { "function"@ } else { "const"@ },
                    or_unknown(field_text(d, "name"@, src)),
                    n,
                    None,
                    None,
                    Seq::empty(),
                ),
            )
        },
    }
}

pub open spec fn ts_item_of(n: SyntaxNode, src: Seq<u8>) -> Option<ItemSpec>
    decreases n, 4int,
{
    if n.kind@ == "lexical_declaration"@ {
        ts_lexical_of(n, src)
    } else if n.kind@ == "export_statement"@ {
        match ts_first_item(n.children@, src, 0) {
            Some(it) => Some(
                ItemSpec { visibility: Some("export"@), start_line: line(n.start_row), ..it },
            ),
            None => None,
        }
    } else {
        match ts_kind(n.kind@) {
            None => None,
            Some(kind) => Some(
                item(
                    kind,
                    or_unknown(field_text(n, "name"@, src)),
                    n,
                    None,
                    if kind == "function"@ || kind == "method"@ {
                        Some(fn_signature(n, src, "statement_block"@))
                    } else {
                        None
                    },
                    if kind == "class"@ || kind == "interface"@ {
                        body_items(n, src, Lang::Typescript)
                    } else {
                        Seq::empty()
                    },
                ),
            ),
        }
    }
}

pub open spec fn ts_first_item(cs: Seq<SyntaxNode>, src: Seq<u8>, i: int) -> Option<ItemSpec>
    decreases cs, cs.len() - i,
{
    if i < 0 || i >= cs.len() {
        None
    } else {
        match ts_item_of(cs[i], src) {
            Some(it) => Some(it),
            None => ts_first_item(cs, src, i + 1),
        }
    }
}

// ---------------------------------------------------------------- Python

/// `def name(params) -> ret`, from the fields of a function definition.
pub open spec fn py_signature(n: SyntaxNode, src: Seq<u8>) -> Seq<char> {
    let ret = match field_text(n, "return_type"@, src) {
        Some(t) => " -> "@ + t,
        None => Seq::empty(),
    };
    "def "@ + or_default(field_text(n, "name"@, src), Seq::empty()) + or_default(
        field_text(n, "parameters"@, src),
        "()"@,
    ) + ret
}

pub open spec fn py_item_of(n: SyntaxNode, src: Seq<u8>) -> Option<ItemSpec>
    decreases n, 4int,
{
    if n.kind@ == "decorated_definition"@ {
        match py_first_item(n.children@, src, 0) {
            Some(it) => Some(ItemSpec { start_line: line(n.start_row), ..it }),
            None => None,
        }
    } else if n.kind@ == "function_definition"@ {
        Some(
            item(
                "function"@,
                or_unknown(field_text(n, "name"@, src)),
                n,
                None,
                Some(py_signature(n, src)),
                Seq::empty(),
            ),
        )
    } else if n.kind@ == "class_definition"@ {
        Some(
            item(
                "class"@,
                or_unknown(field_text(n, "name"@, src)),
                n,
                None,
                None,
                py_blocks(n.children@, src, n.children@.len() as int),
            ),
        )
    } else {
        None
    }
}

pub open spec fn py_first_item(cs: Seq<SyntaxNode>, src: Seq<u8>, i: int) -> Option<ItemSpec>
    decreases cs, cs.len() - i,
{
    if i < 0 || i >= cs.len() {
        None
    } else {
        match py_item_of(cs[i], src) {
            Some(it) => Some(it),
            None => py_first_item(cs, src, i + 1),
        }
    }
}

/// The items of the statements in the blocks among `cs[..k]`.
pub open spec fn py_blocks(cs: Seq<SyntaxNode>, src: Seq<u8>, k: int) -> Seq<ItemSpec>
    decreases cs, k,
{
    if k <= 0 || k > cs.len() {
        Seq::empty()
    } else {
        py_blocks(cs, src, k - 1) + if cs[k - 1].kind@ == "block"@ {
            py_stmts(cs[k - 1].children@, src, cs[k - 1].children@.len() as int)
        } else {
            Seq::empty()
        }
    }
}

/// The items of `cs[..k]`, as Python statements.
pub open spec fn py_stmts(cs: Seq<SyntaxNode>, src: Seq<u8>, k: int) -> Seq<ItemSpec>
    decreases cs, k,
{
    if k <= 0 || k > cs.len() {
        Seq::empty()
    } else {
        py_stmts(cs, src, k - 1) + opt_seq(py_item_of(cs[k - 1], src))
    }
}

// ---------------------------------------------------------------- Protobuf

pub open spec fn is_proto_kind(k: Seq<char>) -> bool {
    k == "message"@ || k == "enum"@ || k == "service"@ || k == "rpc"@
}

pub open spec fn is_proto_name_kind(k: Seq<char>) -> bool {
    k == "message_name"@ || k == "enum_name"@ || k == "service_name"@ || k == "rpc_name"@
}

/// The index of the first of `cs[i..]` whose kind names a protobuf definition.
pub open spec fn first_proto_name(cs: Seq<SyntaxNode>, i: int) -> Option<int>
    decreases cs.len() - i,
{
    if i < 0 || i >= cs.len() {
        None
    } else if is_proto_name_kind(cs[i].kind@) {
        Some(i)
    } else {
        first_proto_name(cs, i + 1)
    }
}

pub open spec fn proto_name(n: SyntaxNode, src: Seq<u8>) -> Seq<char> {
    match field_text(n, "name"@, src) {
        Some(t) => t,
        None => match first_proto_name(n.children@, 0) {
            Some(j) => or_unknown(n.children@[j].text(src)),
            None => "<unknown>"@,
        },
    }
}

pub open spec fn proto_item_of(n: SyntaxNode, src: Seq<u8>) -> Option<ItemSpec>
    decreases n, 4int,
{
    if is_proto_kind(n.kind@) {
        Some(
            item(
                n.kind@,
                proto_name(n, src),
                n,
                None,
                None,
                if n.kind@ == "message"@ || n.kind@ == "service"@ {
                    body_items(n, src, Lang::Protobuf)
                } else {
                    Seq::empty()
                },
            ),
        )
    } else {
        None
    }
}

// ---------------------------------------------------------------- all languages

/// The outline item of a node, if it is a definition.
pub open spec fn item_of(n: SyntaxNode, src: Seq<u8>, lang: Lang) -> Option<ItemSpec>
    decreases n, 5int,
{
    match lang {
        Lang::Rust => rust_item_of(n, src),
        Lang::Cpp => cpp_item_of(n, src),
        Lang::Typescript | Lang::Tsx => ts_item_of(n, src),
        Lang::Python => py_item_of(n, src),
        Lang::Protobuf => proto_item_of(n, src),
    }
}

/// The items inside the body containers of a definition.
pub open spec fn body_items(n: SyntaxNode, src: Seq<u8>, lang: Lang) -> Seq<ItemSpec>
    decreases n, 3int,
{
    bodies(n.children@, src, lang, n.children@.len() as int)
}

/// The items of the body containers among `cs[..k]`.
pub open spec fn bodies(cs: Seq<SyntaxNode>, src: Seq<u8>, lang: Lang, k: int) -> Seq<ItemSpec>
    decreases cs, k,
{
    if k <= 0 || k > cs.len() {
        Seq::empty()
    } else {
        bodies(cs, src, lang, k - 1) + if spec_is_body_container(cs[k - 1].kind@) {
            members(cs[k - 1].children@, src, lang, cs[k - 1].children@.len() as int)
        } else {
            Seq::empty()
        }
    }
}

/// The items of `cs[..k]`.
pub open spec fn members(cs: Seq<SyntaxNode>, src: Seq<u8>, lang: Lang, k: int) -> Seq<ItemSpec>
    decreases cs, k,
{
    if k <= 0 || k > cs.len() {
        Seq::empty()
    } else {
        members(cs, src, lang, k - 1) + opt_seq(item_of(cs[k - 1], src, lang))
    }
}

/// The outline of the children of `n`; in C++ the contents of wrappers that
/// are no definition themselves count too.
pub open spec fn collect(n: SyntaxNode, src: Seq<u8>, lang: Lang) -> Seq<ItemSpec>
    decreases n, 2int,
{
    collect_upto(n.children@, src, lang, n.children@.len() as int)
}

pub open spec fn collect_upto(cs: Seq<SyntaxNode>, src: Seq<u8>, lang: Lang, k: int) -> Seq<ItemSpec>
    decreases cs, k,
{
    if k <= 0 || k > cs.len() {
        Seq::empty()
    } else {
        let c = cs[k - 1];
        collect_upto(cs, src, lang, k - 1) + match item_of(c, src, lang) {
            Some(it) => seq![it],
            None => if lang == Lang::Cpp && spec_should_recurse_cpp(c.kind@) {
                collect(c, src, lang)
            } else {
                Seq::empty()
            },
        }
    }
}

} // verus!

verus! {

// ---------------------------------------------------------------- helpers

/// The text of the child of `n` under field `f`.
pub fn extract_child_text(n: &SyntaxNode, f: &str, source: &str) -> (res: Option<String>)
    ensures
        opt_text(res) == field_text(*n, f@, bytes_of(source@)),
{
    match n.child_by_field_name(f) {
        Some(c) => c.text_in(source),
        None => None,
    }
}

fn or_default_text(o: Option<String>, d: &str) -> (res: String)
    ensures
        res@ == or_default(opt_text(o), d@),
{
    match o {
        Some(t) => t,
        None => d.to_owned(),
    }
}

fn text_or_empty_of(n: &SyntaxNode, source: &str) -> (res: String)
    ensures
        res@ == text_or_empty(*n, bytes_of(source@)),
{
    match n.text_in(source) {
        Some(t) => t,
        None => {
            proof {
                reveal_strlit("");
            }
            let e = "".to_owned();
            assert(e@ =~= Seq::<char>::empty());
            e
        },
    }
}

/// Extract a function signature by collecting all children before the body
/// node, whose kind is `body_kind`.
pub fn extract_fn_signature(node: &SyntaxNode, source: &str, body_kind: &str) -> (res: String)
    ensures
        res@ == fn_signature(*node, bytes_of(source@), body_kind@),
{
    let ghost src = bytes_of(source@);
    let ghost cs = node.children@;
    let n = node.children.len();
    let mut sig = "".to_owned();
    proof {
        reveal_strlit("");
        assert(sig@ =~= Seq::<char>::empty());
    }
    let mut i: usize = 0;
    while i < n && !node.children[i].is_kind(body_kind)
        invariant
            n == cs.len(),
            cs == node.children@,
            src == bytes_of(source@),
            i <= n,
            sig@ == sig_acc(cs, src, i as int),
            first_of_kind(cs, body_kind@, 0) == first_of_kind(cs, body_kind@, i as int),
        decreases n - i,
    {
        if !sig.as_str().is_empty() {
            sig.append(" ");
        }
        let t = text_or_empty_of(&node.children[i], source);
        sig.append(t.as_str());
        i = i + 1;
    }
    assert(i as int == index_or_len(cs, body_kind@));
    trim_text(sig.as_str())
}

fn new_item(
    kind: &str,
    name: String,
    n: &SyntaxNode,
    visibility: Option<String>,
    signature: Option<String>,
    children: Vec<OutlineItem>,
    Ghost(ms): Ghost<Seq<ItemSpec>>,
    Ghost(src): Ghost<Seq<u8>>,
) -> (res: OutlineItem)
    requires
        n.wf(src),
        all_model(children@, ms),
    ensures
        res.models(item(kind@, name@, *n, opt_text(visibility), opt_text(signature), ms)),
{
    OutlineItem {
        kind: kind.to_owned(),
        name,
        start_line: n.start_row + 1,
        end_line: n.end_row + 1,
        visibility,
        signature,
        children,
    }
}

// ---------------------------------------------------------------- Rust

/// The text of the first child of kind `k`.
fn child_text_of_kind(node: &SyntaxNode, k: &str, source: &str) -> (res: Option<String>)
    ensures
        opt_text(res) == kind_text(*node, k@, bytes_of(source@)),
{
    let ghost cs = node.children@;
    let n = node.children.len();
    let mut i: usize = 0;
    while i < n
        invariant
            n == cs.len(),
            cs == node.children@,
            i <= n,
            first_of_kind(cs, k@, 0) == first_of_kind(cs, k@, i as int),
        decreases n - i,
    {
        if node.children[i].is_kind(k) {
            return node.children[i].text_in(source);
        }
        i = i + 1;
    }
    None
}

fn rust_kind_of(k: &str) -> (res: Option<&'static str>)
    ensures
        match res {
            Some(s) => rust_kind(k@) == Some(s@),
            None => rust_kind(k@) is None,
        },
{
    if str_eq(k, "function_item") {
        Some("function")
    } else if str_eq(k, "struct_item") {
        Some("struct")
    } else if str_eq(k, "enum_item") {
        Some("enum")
    } else if str_eq(k, "trait_item") {
        Some("trait")
    } else if str_eq(k, "impl_item") {
        Some("impl")
    } else if str_eq(k, "type_item") {
        Some("type_alias")
    } else if str_eq(k, "const_item") {
        Some("const")
    } else if str_eq(k, "static_item") {
        Some("static")
    } else if str_eq(k, "mod_item") {
        Some("module")
    } else if str_eq(k, "use_declaration") {
        Some("use")
    } else if str_eq(k, "macro_definition") {
        Some("macro")
    } else {
        None
    }
}

/// The words of an impl header: its children before the body, without the
/// `impl` keyword and where clauses, joined by spaces.
fn impl_header_name(node: &SyntaxNode, source: &str) -> (res: String)
    ensures
        res@ == join(
            impl_parts(
                node.children@,
                bytes_of(source@),
                index_or_len(node.children@, "declaration_list"@),
            ),
            " "@,
        ),
{
    let ghost src = bytes_of(source@);
    let ghost cs = node.children@;
    let n = node.children.len();
    let mut out = "".to_owned();
    proof {
        reveal_strlit("");
        assert(out@ =~= Seq::<char>::empty());
    }
    let mut first = true;
    let mut i: usize = 0;
    while i < n && !node.children[i].is_kind("declaration_list")
        invariant
            n == cs.len(),
            cs == node.children@,
            src == bytes_of(source@),
            i <= n,
            out@ == join(impl_parts(cs, src, i as int), " "@),
            first == (impl_parts(cs, src, i as int).len() == 0),
            first_of_kind(cs, "declaration_list"@, 0) == first_of_kind(cs, "declaration_list"@, i as int),
        decreases n - i,
    {
        let c = &node.children[i];
        let ghost parts = impl_parts(cs, src, i as int);
        if !c.is_kind("impl") && !c.is_kind("where_clause") {
            match c.text_in(source) {
                Some(t) => {
                    if !first {
                        out.append(" ");
                    }
                    out.append(t.as_str());
                    first = false;
                    assert(parts.push(t@).drop_last() =~= parts);
                },
                None => {},
            }
        }
        i = i + 1;
    }
    out
}

fn extract_name(node: &SyntaxNode, source: &str) -> (res: String)
    ensures
        res@ == rust_name(*node, bytes_of(source@)),
{
    if node.is_kind("impl_item") {
        impl_header_name(node, source)
    } else {
        or_default_text(extract_child_text(node, "name", source), "<unknown>")
    }
}

fn rust_item(node: &SyntaxNode, source: &str) -> (res: Option<OutlineItem>)
    requires
        node.wf(bytes_of(source@)),
    ensures
        opt_models(res, rust_item_of(*node, bytes_of(source@))),
    decreases node, 4int,
{
    let ghost src = bytes_of(source@);
    let kind = match rust_kind_of(node.kind) {
        Some(k) => k,
        None => return None,
    };
    let name = extract_name(node, source);
    let visibility = child_text_of_kind(node, "visibility_modifier", source);
    let signature = if str_eq(kind, "function") {
        Some(extract_fn_signature(node, source, "block"))
    } else {
        None
    };
    let ghost ms = if kind@ == "impl"@ || kind@ == "trait"@ || kind@ == "module"@ {
        body_items(*node, src, Lang::Rust)
    } else {
        Seq::empty()
    };
    let children = if str_eq(kind, "impl") || str_eq(kind, "trait") || str_eq(kind, "module") {
        collect_body_items(node, source, Lang::Rust)
    } else {
        Vec::new()
    };
    Some(new_item(kind, name, node, visibility, signature, children, Ghost(ms), Ghost(src)))
}

// ---------------------------------------------------------------- C++

fn has_function_declarator(node: &SyntaxNode) -> (res: bool)
    ensures
        res == (first_of_kind(node.children@, "function_declarator"@, 0) is Some),
{
    let ghost cs = node.children@;
    let n = node.children.len();
    let mut i: usize = 0;
    while i < n
        invariant
            n == cs.len(),
            cs == node.children@,
            i <= n,
            first_of_kind(cs, "function_declarator"@, 0) == first_of_kind(cs, "function_declarator"@, i as int),
        decreases n - i,
    {
        if node.children[i].is_kind("function_declarator") {
            return true;
        }
        i = i + 1;
    }
    false
}

fn cpp_kind_of(node: &SyntaxNode) -> (res: Option<&'static str>)
    ensures
        match res {
            Some(s) => cpp_kind(*node) == Some(s@),
            None => cpp_kind(*node) is None,
        },
{
    if node.is_kind("function_definition") {
        Some("function")
    } else if node.is_kind("declaration") && has_function_declarator(node) {
        Some("function_decl")
    } else if node.is_kind("class_specifier") {
        Some("class")
    } else if node.is_kind("struct_specifier") {
        Some("struct")
    } else if node.is_kind("enum_specifier") {
        Some("enum")
    } else if node.is_kind("namespace_definition") {
        Some("namespace")
    } else if node.is_kind("type_definition") {
        Some("typedef")
    } else {
        None
    }
}

fn is_name_wrapper_kind(k: &str) -> (res: bool)
    ensures
        res == is_name_wrapper(k@),
{
    str_eq(k, "function_declarator") || str_eq(k, "qualified_identifier") || str_eq(
        k,
        "pointer_declarator",
    ) || str_eq(k, "reference_declarator")
}

/// The node that holds the name below a chain of declarators.
pub fn innermost_declarator(d: &SyntaxNode) -> (res: &SyntaxNode)
    ensures
        *res == innermost(*d),
    decreases d,
{
    if is_name_wrapper_kind(d.kind) {
        match d.child_by_field_name("name") {
            Some(inner) => {
                proof {
                    crate::syntax::lemma_first_with_field_range(d.children@, "name"@, 0);
                }
                innermost_declarator(inner)
            },
            None => match d.child_by_field_name("declarator") {
                Some(inner) => {
                    proof {
                        crate::syntax::lemma_first_with_field_range(d.children@, "declarator"@, 0);
                    }
                    innermost_declarator(inner)
                },
                None => d,
            },
        }
    } else {
        d
    }
}

/// The text of the innermost name below a chain of declarators, or
/// `<unknown>`.
pub fn extract_innermost_name(d: &SyntaxNode, source: &str) -> (res: String)
    ensures
        res@ == or_unknown(innermost(*d).text(bytes_of(source@))),
{
    or_default_text(innermost_declarator(d).text_in(source), "<unknown>")
}

fn last_identifier_index(node: &SyntaxNode) -> (res: Option<usize>)
    ensures
        match res {
            Some(j) => last_identifier(node.children@, node.children@.len() as int) == Some(j as int),
            None => last_identifier(node.children@, node.children@.len() as int) is None,
        },
{
    let ghost cs = node.children@;
    let mut k: usize = node.children.len();
    while k > 0
        invariant
            cs == node.children@,
            k <= cs.len(),
            last_identifier(cs, cs.len() as int) == last_identifier(cs, k as int),
        decreases k,
    {
        let c = &node.children[k - 1];
        if c.is_kind("type_identifier") || c.is_kind("identifier") {
            return Some(k - 1);
        }
        k = k - 1;
    }
    None
}

/// The name of a C++ definition.
pub fn extract_name_cpp(node: &SyntaxNode, source: &str) -> (res: String)
    ensures
        res@ == cpp_name(*node, bytes_of(source@)),
{
    if node.is_kind("namespace_definition") {
        match extract_child_text(node, "name", source) {
            Some(t) => t,
            None => or_default_text(extract_child_text(node, "namespace_identifier", source), "<anonymous>"),
        }
    } else if node.is_kind("type_definition") {
        match extract_child_text(node, "declarator", source) {
            Some(t) => t,
            None => match last_identifier_index(node) {
                Some(j) => {
                    proof {
                        lemma_last_identifier_range(node.children@, node.children@.len() as int);
                    }
                    or_default_text(node.children[j].text_in(source), "<unknown>")
                },
                None => "<unknown>".to_owned(),
            },
        }
    } else {
        let d = match node.child_by_field_name("name") {
            Some(c) => Some(c),
            None => node.child_by_field_name("declarator"),
        };
        match d {
            Some(d) => extract_innermost_name(d, source),
            None => "<unknown>".to_owned(),
        }
    }
}

proof fn lemma_last_identifier_range(cs: Seq<SyntaxNode>, k: int)
    requires
        k <= cs.len(),
    ensures
        last_identifier(cs, k) matches Some(j) ==> 0 <= j < k,
    decreases k,
{
    if k > 0 {
        lemma_last_identifier_range(cs, k - 1);
    }
}

fn cpp_item(node: &SyntaxNode, source: &str) -> (res: Option<OutlineItem>)
    requires
        node.wf(bytes_of(source@)),
    ensures
        opt_models(res, cpp_item_of(*node, bytes_of(source@))),
    decreases node, 4int,
{
    let ghost src = bytes_of(source@);
    if node.is_kind("template_declaration") {
        return cpp_template_item(node, source);
    }
    let kind = match cpp_kind_of(node) {
        Some(k) => k,
        None => return None,
    };
    let name = extract_name_cpp(node, source);
    let signature = if str_eq(kind, "function") || str_eq(kind, "function_decl") {
        Some(extract_fn_signature(node, source, "compound_statement"))
    } else {
        None
    };
    let ghost ms = if kind@ == "class"@ || kind@ == "struct"@ || kind@ == "namespace"@ {
        body_items(*node, src, Lang::Cpp)
    } else {
        Seq::empty()
    };
    let children = if str_eq(kind, "class") || str_eq(kind, "struct") || str_eq(kind, "namespace") {
        collect_body_items(node, source, Lang::Cpp)
    } else {
        Vec::new()
    };
    Some(new_item(kind, name, node, None, signature, children, Ghost(ms), Ghost(src)))
}

/// A template: the definition it declares, with kind `template_<kind>` and
/// the template's first line.
fn cpp_template_item(node: &SyntaxNode, source: &str) -> (res: Option<OutlineItem>)
    requires
        node.wf(bytes_of(source@)),
        node.kind@ == "template_declaration"@,
    ensures
        opt_models(res, cpp_item_of(*node, bytes_of(source@))),
    decreases node, 3int,
{
    let ghost src = bytes_of(source@);
    let ghost cs = node.children@;
    let n = node.children.len();
    let mut i: usize = 0;
    while i < n
        invariant
            n == cs.len(),
            cs == node.children@,
            src == bytes_of(source@),
            node.wf(src),
            i <= n,
            cpp_first_item(cs, src, 0) == cpp_first_item(cs, src, i as int),
            node.kind@ == "template_declaration"@,
        decreases n - i,
    {
        let child = &node.children[i];
        assert(child.wf(src));
        let found = cpp_item(child, source);
        assert(found is Some ==> cpp_first_item(cs, src, i as int) == cpp_item_of(*child, src));
        match found {
            Some(mut it) => {
                let mut kind = "template_".to_owned();
                kind.append(it.kind.as_str());
                it.kind = kind;
                it.start_line = node.start_row + 1;
                return Some(it);
            },
            None => {},
        }
        i = i + 1;
    }
    None
}

// ---------------------------------------------------------------- TypeScript

fn ts_kind_of(k: &str) -> (res: Option<&'static str>)
    ensures
        match res {
            Some(s) => ts_kind(k@) == Some(s@),
            None => ts_kind(k@) is None,
        },
{
    if str_eq(k, "function_declaration") {
        Some("function")
    } else if str_eq(k, "class_declaration") {
        Some("class")
    } else if str_eq(k, "interface_declaration") {
        Some("interface")
    } else if str_eq(k, "enum_declaration") {
        Some("enum")
    } else if str_eq(k, "type_alias_declaration") {
        Some("type_alias")
    } else if str_eq(k, "method_definition") {
        Some("method")
    } else {
        None
    }
}

fn ts_item(node: &SyntaxNode, source: &str) -> (res: Option<OutlineItem>)
    requires
        node.wf(bytes_of(source@)),
    ensures
        opt_models(res, ts_item_of(*node, bytes_of(source@))),
    decreases node, 4int,
{
    let ghost src = bytes_of(source@);
    if node.is_kind("lexical_declaration") {
        return ts_lexical_item(node, source);
    }
    if node.is_kind("export_statement") {
        return ts_export_item(node, source);
    }
    let kind = match ts_kind_of(node.kind) {
        Some(k) => k,
        None => return None,
    };
    let name = or_default_text(extract_child_text(node, "name", source), "<unknown>");
    let signature = if str_eq(kind, "function") || str_eq(kind, "method") {
        Some(extract_fn_signature(node, source, "statement_block"))
    } else {
        None
    };
    let ghost ms = if kind@ == "class"@ || kind@ == "interface"@ {
        body_items(*node, src, Lang::Typescript)
    } else {
        Seq::empty()
    };
    let children = if str_eq(kind, "class") || str_eq(kind, "interface") {
        collect_body_items(node, source, Lang::Typescript)
    } else {
        Vec::new()
    };
    Some(new_item(kind, name, node, None, signature, children, Ghost(ms), Ghost(src)))
}

fn ts_lexical_item(node: &SyntaxNode, source: &str) -> (res: Option<OutlineItem>)
    requires
        node.wf(bytes_of(source@)),
        node.kind@ == "lexical_declaration"@,
    ensures
        opt_models(res, ts_item_of(*node, bytes_of(source@))),
{
    let ghost src = bytes_of(source@);
    let ghost cs = node.children@;
    let n = node.children.len();
    let mut i: usize = 0;
    while i < n
        invariant
            n == cs.len(),
            cs == node.children@,
            src == bytes_of(source@),
            node.wf(src),
            i <= n,
            first_of_kind(cs, "variable_declarator"@, 0) == first_of_kind(cs, "variable_declarator"@, i as int),
            node.kind@ == "lexical_declaration"@,
        decreases n - i,
    {
        let child = &node.children[i];
        if child.is_kind("variable_declarator") {
            let name = or_default_text(extract_child_text(child, "name", source), "<unknown>");
            let has_arrow = match child.child_by_field_name("value") {
                Some(v) => v.is_kind("arrow_function"),
                None => false,
            };
            let kind = if has_arrow { "function" } else { "const" };
            let ghost ms = Seq::<ItemSpec>::empty();
            return Some(new_item(kind, name, node, None, None, Vec::new(), Ghost(ms), Ghost(src)));
        }
        i = i + 1;
    }
    None
}

/// An export: the definition it exports, with visibility `export` and the
/// export's first line.
fn ts_export_item(node: &SyntaxNode, source: &str) -> (res: Option<OutlineItem>)
    requires
        node.wf(bytes_of(source@)),
        node.kind@ == "export_statement"@,
        node.kind@ != "lexical_declaration"@,
    ensures
        opt_models(res, ts_item_of(*node, bytes_of(source@))),
    decreases node, 3int,
{
    let ghost src = bytes_of(source@);
    let ghost cs = node.children@;
    let n = node.children.len();
    let mut i: usize = 0;
    while i < n
        invariant
            n == cs.len(),
            cs == node.children@,
            src == bytes_of(source@),
            node.wf(src),
            i <= n,
            ts_first_item(cs, src, 0) == ts_first_item(cs, src, i as int),
            node.kind@ == "export_statement"@,
            node.kind@ != "lexical_declaration"@,
        decreases n - i,
    {
        let child = &node.children[i];
        assert(child.wf(src));
        let found = ts_item(child, source);
        assert(found is Some ==> ts_first_item(cs, src, i as int) == ts_item_of(*child, src));
        match found {
            Some(mut it) => {
                it.visibility = Some("export".to_owned());
                it.start_line = node.start_row + 1;
                return Some(it);
            },
            None => {},
        }
        i = i + 1;
    }
    None
}

// ---------------------------------------------------------------- Python

fn python_item(node: &SyntaxNode, source: &str) -> (res: Option<OutlineItem>)
    requires
        node.wf(bytes_of(source@)),
    ensures
        opt_models(res, py_item_of(*node, bytes_of(source@))),
    decreases node, 4int,
{
    let ghost src = bytes_of(source@);
    if node.is_kind("decorated_definition") {
        return python_decorated_item(node, source);
    }
    if node.is_kind("function_definition") {
        let name = or_default_text(extract_child_text(node, "name", source), "<unknown>");
        let signature = extract_fn_signature_python(node, source);
        let ghost ms = Seq::<ItemSpec>::empty();
        Some(new_item("function", name, node, None, Some(signature), Vec::new(), Ghost(ms), Ghost(src)))
    } else if node.is_kind("class_definition") {
        let name = or_default_text(extract_child_text(node, "name", source), "<unknown>");
        let children = collect_body_items_python(node, source);
        let ghost ms = py_blocks(node.children@, src, node.children@.len() as int);
        Some(new_item("class", name, node, None, None, children, Ghost(ms), Ghost(src)))
    } else {
        None
    }
}

/// A decorated definition: the definition, with the decorators' first line.
fn python_decorated_item(node: &SyntaxNode, source: &str) -> (res: Option<OutlineItem>)
    requires
        node.wf(bytes_of(source@)),
        node.kind@ == "decorated_definition"@,
    ensures
        opt_models(res, py_item_of(*node, bytes_of(source@))),
    decreases node, 3int,
{
    let ghost src = bytes_of(source@);
    let ghost cs = node.children@;
    let n = node.children.len();
    let mut i: usize = 0;
    while i < n
        invariant
            n == cs.len(),
            cs == node.children@,
            src == bytes_of(source@),
            node.wf(src),
            i <= n,
            py_first_item(cs, src, 0) == py_first_item(cs, src, i as int),
            node.kind@ == "decorated_definition"@,
        decreases n - i,
    {
        let child = &node.children[i];
        assert(child.wf(src));
        let found = python_item(child, source);
        assert(found is Some ==> py_first_item(cs, src, i as int) == py_item_of(*child, src));
        match found {
            Some(mut it) => {
                it.start_line = node.start_row + 1;
                return Some(it);
            },
            None => {},
        }
        i = i + 1;
    }
    None
}

/// `def name(params) -> ret` of a Python function definition.
pub fn extract_fn_signature_python(node: &SyntaxNode, source: &str) -> (res: String)
    ensures
        res@ == py_signature(*node, bytes_of(source@)),
{
    let name = or_default_text(extract_child_text(node, "name", source), "");
    let params = or_default_text(extract_child_text(node, "parameters", source), "()");
    let mut sig = "def ".to_owned();
    sig.append(name.as_str());
    sig.append(params.as_str());
    match extract_child_text(node, "return_type", source) {
        Some(t) => {
            sig.append(" -> ");
            sig.append(t.as_str());
        },
        None => {},
    }
    proof {
        reveal_strlit("");
        assert(""@ =~= Seq::<char>::empty());
    }
    assert(sig@ =~= py_signature(*node, bytes_of(source@)));
    sig
}

/// The definitions among the statements of a class body.
fn collect_body_items_python(node: &SyntaxNode, source: &str) -> (res: Vec<OutlineItem>)
    requires
        node.wf(bytes_of(source@)),
    ensures
        all_model(res@, py_blocks(node.children@, bytes_of(source@), node.children@.len() as int)),
    decreases node, 3int,
{
    let ghost src = bytes_of(source@);
    let ghost cs = node.children@;
    let mut items: Vec<OutlineItem> = Vec::new();
    let n = node.children.len();
    let mut i: usize = 0;
    while i < n
        invariant
            n == cs.len(),
            cs == node.children@,
            src == bytes_of(source@),
            node.wf(src),
            i <= n,
            all_model(items@, py_blocks(cs, src, i as int)),
        decreases n - i,
    {
        let child = &node.children[i];
        assert(child.wf(src));
        if child.is_kind("block") {
            let ghost ccs = child.children@;
            let m = child.children.len();
            let ghost before = items@;
            let mut j: usize = 0;
            while j < m
                invariant
                    m == ccs.len(),
                    ccs == child.children@,
                    cs == node.children@,
                    i < n,
                    n == cs.len(),
                    *child == cs[i as int],
                    src == bytes_of(source@),
                    child.wf(src),
                    j <= m,
                    items@.len() >= before.len(),
                    items@.subrange(0, before.len() as int) == before,
                    all_model(before, py_blocks(cs, src, i as int)),
                    all_model(items@.subrange(before.len() as int, items@.len() as int), py_stmts(ccs, src, j as int)),
                decreases m - j,
            {
                let stmt = &child.children[j];
                assert(stmt.wf(src));
                assert(decreases_to!(node => stmt));
                let ghost prev = items@;
                match python_item(stmt, source) {
                    Some(it) => {
                        items.push(it);
                        assert(items@.subrange(before.len() as int, items@.len() as int)
                            =~= prev.subrange(before.len() as int, prev.len() as int).push(it));
                    },
                    None => {},
                }
                assert(items@.subrange(0, before.len() as int) =~= prev.subrange(0, before.len() as int));
                j = j + 1;
            }
            assert(items@ =~= before + items@.subrange(before.len() as int, items@.len() as int));
        }
        i = i + 1;
    }
    items
}

// ---------------------------------------------------------------- Protobuf

fn is_proto_name_kind_str(k: &str) -> (res: bool)
    ensures
        res == is_proto_name_kind(k@),
{
    str_eq(k, "message_name") || str_eq(k, "enum_name") || str_eq(k, "service_name") || str_eq(k, "rpc_name")
}

fn proto_name_of(node: &SyntaxNode, source: &str) -> (res: String)
    ensures
        res@ == proto_name(*node, bytes_of(source@)),
{
    match extract_child_text(node, "name", source) {
        Some(t) => t,
        None => {
            let ghost cs = node.children@;
            let n = node.children.len();
            let mut i: usize = 0;
            while i < n
                invariant
                    n == cs.len(),
                    cs == node.children@,
                    i <= n,
                    field_text(*node, "name"@, bytes_of(source@)) is None,
                    first_proto_name(cs, 0) == first_proto_name(cs, i as int),
                decreases n - i,
            {
                if is_proto_name_kind_str(node.children[i].kind) {
                    return or_default_text(node.children[i].text_in(source), "<unknown>");
                }
                i = i + 1;
            }
            "<unknown>".to_owned()
        },
    }
}

fn proto_item(node: &SyntaxNode, source: &str) -> (res: Option<OutlineItem>)
    requires
        node.wf(bytes_of(source@)),
    ensures
        opt_models(res, proto_item_of(*node, bytes_of(source@))),
    decreases node, 4int,
{
    let ghost src = bytes_of(source@);
    if !(node.is_kind("message") || node.is_kind("enum") || node.is_kind("service") || node.is_kind("rpc")) {
        return None;
    }
    let name = proto_name_of(node, source);
    let ghost ms = if node.kind@ == "message"@ || node.kind@ == "service"@ {
        body_items(*node, src, Lang::Protobuf)
    } else {
        Seq::empty()
    };
    let children = if node.is_kind("message") || node.is_kind("service") {
        collect_body_items(node, source, Lang::Protobuf)
    } else {
        Vec::new()
    };
    Some(new_item(node.kind, name, node, None, None, children, Ghost(ms), Ghost(src)))
}

// ---------------------------------------------------------------- all languages

/// The outline item of a node, if it is a definition.
pub fn node_to_item(node: &SyntaxNode, source: &str, lang: Lang) -> (res: Option<OutlineItem>)
    requires
        node.wf(bytes_of(source@)),
    ensures
        opt_models(res, item_of(*node, bytes_of(source@), lang)),
    decreases node, 5int,
{
    match lang {
        Lang::Rust => rust_item(node, source),
        Lang::Cpp => cpp_item(node, source),
        Lang::Typescript | Lang::Tsx => ts_item(node, source),
        Lang::Python => python_item(node, source),
        Lang::Protobuf => proto_item(node, source),
    }
}

/// The items inside the body containers of a definition.
pub fn collect_body_items(node: &SyntaxNode, source: &str, lang: Lang) -> (res: Vec<OutlineItem>)
    requires
        node.wf(bytes_of(source@)),
    ensures
        all_model(res@, body_items(*node, bytes_of(source@), lang)),
    decreases node, 3int,
{
    let ghost src = bytes_of(source@);
    let ghost cs = node.children@;
    let mut items: Vec<OutlineItem> = Vec::new();
    let n = node.children.len();
    let mut i: usize = 0;
    while i < n
        invariant
            n == cs.len(),
            cs == node.children@,
            src == bytes_of(source@),
            node.wf(src),
            i <= n,
            all_model(items@, bodies(cs, src, lang, i as int)),
        decreases n - i,
    {
        let child = &node.children[i];
        assert(child.wf(src));
        if is_body_container(child.kind) {
            let ghost ccs = child.children@;
            let m = child.children.len();
            let ghost before = items@;
            let mut j: usize = 0;
            while j < m
                invariant
                    m == ccs.len(),
                    ccs == child.children@,
                    cs == node.children@,
                    i < n,
                    n == cs.len(),
                    *child == cs[i as int],
                    src == bytes_of(source@),
                    child.wf(src),
                    j <= m,
                    items@.len() >= before.len(),
                    items@.subrange(0, before.len() as int) == before,
                    all_model(before, bodies(cs, src, lang, i as int)),
                    all_model(items@.subrange(before.len() as int, items@.len() as int), members(ccs, src, lang, j as int)),
                decreases m - j,
            {
                let inner = &child.children[j];
                assert(inner.wf(src));
                assert(decreases_to!(node => inner));
                let ghost prev = items@;
                match node_to_item(inner, source, lang) {
                    Some(it) => {
                        items.push(it);
                        assert(items@.subrange(before.len() as int, items@.len() as int)
                            =~= prev.subrange(before.len() as int, prev.len() as int).push(it));
                    },
                    None => {},
                }
                assert(items@.subrange(0, before.len() as int) =~= prev.subrange(0, before.len() as int));
                j = j + 1;
            }
            assert(items@ =~= before + items@.subrange(before.len() as int, items@.len() as int));
        }
        i = i + 1;
    }
    items
}

} // verus!

verus! {

/// Whether a C/C++ node may wrap top-level definitions.
pub fn should_recurse_cpp(kind: &str) -> (res: bool)
    ensures
        res == spec_should_recurse_cpp(kind@),
{
    str_eq(kind, "type_definition") || str_eq(kind, "linkage_specification") || str_eq(kind, "declaration")
        || str_eq(kind, "expression_statement") || str_eq(kind, "preproc_ifdef") || str_eq(kind, "preproc_if")
        || str_eq(kind, "preproc_elif") || str_eq(kind, "preproc_else") || str_eq(kind, "ERROR")
}

/// The outline of the children of `node`.
pub fn collect_items(node: &SyntaxNode, source: &str, lang: Lang) -> (res: Vec<OutlineItem>)
    requires
        node.wf(bytes_of(source@)),
    ensures
        all_model(res@, collect(*node, bytes_of(source@), lang)),
    decreases node, 2int,
{
    let ghost src = bytes_of(source@);
    let ghost cs = node.children@;
    let mut items: Vec<OutlineItem> = Vec::new();
    let n = node.children.len();
    let mut i: usize = 0;
    while i < n
        invariant
            n == cs.len(),
            cs == node.children@,
            src == bytes_of(source@),
            node.wf(src),
            i <= n,
            all_model(items@, collect_upto(cs, src, lang, i as int)),
        decreases n - i,
    {
        let child = &node.children[i];
        assert(child.wf(src));
        let ghost prev = items@;
        match node_to_item(child, source, lang) {
            Some(it) => {
                items.push(it);
            },
            None => {
                if lang == Lang::Cpp && should_recurse_cpp(child.kind) {
                    let mut sub = collect_items(child, source, lang);
                    let ghost subv = sub@;
                    items.append(&mut sub);
                    assert(items@ == prev + subv);
                }
            },
        }
        i = i + 1;
    }
    items
}

/// `items` is the outline of `source`, the text of the file at `path`: the
/// outline of the syntax tree that the grammar of the path's language gives
/// the text.
pub open spec fn outline_of(path: Seq<char>, source: Seq<char>, items: Seq<OutlineItem>) -> bool {
    match lang_of_extension(detected_extension(path)) {
        Some(lang) => exists|tree: SyntaxNode|
            parsed(tree, lang, source) && all_model(items, #[trigger] collect(tree, bytes_of(source), lang)),
        None => false,
    }
}

/// The outline of `source`, the text of the file at `path`.
pub fn run(path: &str, source: &str) -> (res: Result<Vec<OutlineItem>, AstError>)
    ensures
        match res {
            Ok(items) => outline_of(path@, source@, items@),
            Err(e) => parse_error(path@, source@, e),
        },
{
    let (tree, lang) = parse_file(path, source)?;
    let items = collect_items(&tree, source, lang);
    assert(all_model(items@, collect(tree, bytes_of(source@), lang)));
    Ok(items)
}

// ---------------------------------------------------------------- line ranges

/// The item starts no later than it ends, within lines `lo..=hi`.
pub open spec fn within(m: ItemSpec, lo: int, hi: int) -> bool {
    lo <= m.start_line && m.start_line <= m.end_line && m.end_line <= hi
}

/// Every member lies within the lines of the item it belongs to, at every
/// depth.
pub open spec fn lines_nested(m: ItemSpec) -> bool
    decreases m,
{
    forall|i: int|
        0 <= i < m.children.len() ==> within(#[trigger] m.children[i], m.start_line, m.end_line)
            && lines_nested(m.children[i])
}

/// Each item lies within lines `lo..=hi`, its members nested in it.
pub open spec fn all_within(ms: Seq<ItemSpec>, lo: int, hi: int) -> bool {
    forall|i: int| 0 <= i < ms.len() ==> within(#[trigger] ms[i], lo, hi) && lines_nested(ms[i])
}

/// Well-formed nodes whose rows lie within rows `lo..=hi`.
pub open spec fn rows_within(cs: Seq<SyntaxNode>, src: Seq<u8>, lo: int, hi: int) -> bool {
    forall|i: int|
        0 <= i < cs.len() ==> (#[trigger] cs[i]).wf(src) && lo <= cs[i].start_row && cs[i].end_row <= hi
}

proof fn lemma_all_within_concat(a: Seq<ItemSpec>, b: Seq<ItemSpec>, lo: int, hi: int)
    requires
        all_within(a, lo, hi),
        all_within(b, lo, hi),
    ensures
        all_within(a + b, lo, hi),
{
    assert forall|i: int| 0 <= i < (a + b).len() implies within(#[trigger] (a + b)[i], lo, hi) && lines_nested((a + b)[i]) by {
        if i >= a.len() {
            assert((a + b)[i] == b[i - a.len()]);
        } else {
            assert((a + b)[i] == a[i]);
        }
    }
}

proof fn lemma_children_rows(n: SyntaxNode, src: Seq<u8>)
    requires
        n.wf(src),
    ensures
        rows_within(n.children@, src, n.start_row as int, n.end_row as int),
{
}

/// An item made from node `n` with members inside `n` lies within `n`.
proof fn lemma_item_within(
    kind: Seq<char>,
    name: Seq<char>,
    n: SyntaxNode,
    src: Seq<u8>,
    visibility: Option<Seq<char>>,
    signature: Option<Seq<char>>,
    children: Seq<ItemSpec>,
)
    requires
        n.wf(src),
        all_within(children, line(n.start_row), line(n.end_row)),
    ensures
        within(item(kind, name, n, visibility, signature, children), line(n.start_row), line(n.end_row)),
        lines_nested(item(kind, name, n, visibility, signature, children)),
{
}

/// An item whose first line moves up, to `start`, still holds its members.
proof fn lemma_item_moved_start(it: ItemSpec, moved: ItemSpec, start: int, lo: int, hi: int)
    requires
        within(it, lo, hi),
        lines_nested(it),
        lo <= start <= it.start_line,
        moved.start_line == start,
        moved.end_line == it.end_line,
        moved.children == it.children,
    ensures
        within(moved, lo, hi),
        lines_nested(moved),
{
    assert forall|i: int| 0 <= i < moved.children.len() implies within(#[trigger] moved.children[i], moved.start_line, moved.end_line)
        && lines_nested(moved.children[i]) by {
        assert(within(it.children[i], it.start_line, it.end_line));
    }
}

proof fn lemma_item_of_lines(n: SyntaxNode, src: Seq<u8>, lang: Lang)
    requires
        n.wf(src),
    ensures
        item_of(n, src, lang) matches Some(it) ==> within(it, line(n.start_row), line(n.end_row)) && lines_nested(it),
    decreases n, 5int,
{
    match lang {
        Lang::Rust => lemma_rust_item_lines(n, src),
        Lang::Cpp => lemma_cpp_item_lines(n, src),
        Lang::Typescript | Lang::Tsx => lemma_ts_item_lines(n, src),
        Lang::Python => lemma_py_item_lines(n, src),
        Lang::Protobuf => lemma_proto_item_lines(n, src),
    }
}

proof fn lemma_rust_item_lines(n: SyntaxNode, src: Seq<u8>)
    requires
        n.wf(src),
    ensures
        rust_item_of(n, src) matches Some(it) ==> within(it, line(n.start_row), line(n.end_row)) && lines_nested(it),
    decreases n, 4int,
{
    if let Some(kind) = rust_kind(n.kind@) {
        lemma_body_lines(n, src, Lang::Rust);
        let children = if kind == "impl"@ || kind == "trait"@ || kind == "module"@ {
            body_items(n, src, Lang::Rust)
        } else {
            Seq::empty()
        };
        lemma_item_within(
            kind,
            rust_name(n, src),
            n,
            src,
            kind_text(n, "visibility_modifier"@, src),
            if kind == "function"@ { Some(fn_signature(n, src, "block"@)) } else { None },
            children,
        );
    }
}

proof fn lemma_cpp_item_lines(n: SyntaxNode, src: Seq<u8>)
    requires
        n.wf(src),
    ensures
        cpp_item_of(n, src) matches Some(it) ==> within(it, line(n.start_row), line(n.end_row)) && lines_nested(it),
    decreases n, 4int,
{
    if n.kind@ == "template_declaration"@ {
        lemma_children_rows(n, src);
        lemma_cpp_first_lines(n.children@, src, 0, n.start_row as int, n.end_row as int);
        if let Some(it) = cpp_first_item(n.children@, src, 0) {
            let moved = ItemSpec { kind: "template_"@ + it.kind, start_line: line(n.start_row), ..it };
            lemma_item_moved_start(it, moved, line(n.start_row), line(n.start_row), line(n.end_row));
        }
    } else if let Some(kind) = cpp_kind(n) {
        lemma_body_lines(n, src, Lang::Cpp);
        let children = if kind == "class"@ || kind == "struct"@ || kind == "namespace"@ {
            body_items(n, src, Lang::Cpp)
        } else {
            Seq::empty()
        };
        lemma_item_within(
            kind,
            cpp_name(n, src),
            n,
            src,
            None,
            if kind == "function"@ || kind == "function_decl"@ {
                Some(fn_signature(n, src, "compound_statement"@))
            } else {
                None
            },
            children,
        );
    }
}

proof fn lemma_cpp_first_lines(cs: Seq<SyntaxNode>, src: Seq<u8>, i: int, lo: int, hi: int)
    requires
        rows_within(cs, src, lo, hi),
    ensures
        cpp_first_item(cs, src, i) matches Some(it) ==> within(it, lo + 1, hi + 1) && lines_nested(it),
    decreases cs, cs.len() - i,
{
    if 0 <= i < cs.len() {
        assert(cs[i].wf(src));
        lemma_cpp_item_lines(cs[i], src);
        lemma_cpp_first_lines(cs, src, i + 1, lo, hi);
    }
}

proof fn lemma_ts_item_lines(n: SyntaxNode, src: Seq<u8>)
    requires
        n.wf(src),
    ensures
        ts_item_of(n, src) matches Some(it) ==> within(it, line(n.start_row), line(n.end_row)) && lines_nested(it),
    decreases n, 4int,
{
    if n.kind@ == "lexical_declaration"@ {
    } else if n.kind@ == "export_statement"@ {
        lemma_children_rows(n, src);
        lemma_ts_first_lines(n.children@, src, 0, n.start_row as int, n.end_row as int);
        if let Some(it) = ts_first_item(n.children@, src, 0) {
            let moved = ItemSpec { visibility: Some("export"@), start_line: line(n.start_row), ..it };
            lemma_item_moved_start(it, moved, line(n.start_row), line(n.start_row), line(n.end_row));
        }
    } else if let Some(kind) = ts_kind(n.kind@) {
        lemma_body_lines(n, src, Lang::Typescript);
        let children = if kind == "class"@ || kind == "interface"@ {
            body_items(n, src, Lang::Typescript)
        } else {
            Seq::empty()
        };
        lemma_item_within(
            kind,
            or_unknown(field_text(n, "name"@, src)),
            n,
            src,
            None,
            if kind == "function"@ || kind == "method"@ {
                Some(fn_signature(n, src, "statement_block"@))
            } else {
                None
            },
            children,
        );
    }
}

proof fn lemma_ts_first_lines(cs: Seq<SyntaxNode>, src: Seq<u8>, i: int, lo: int, hi: int)
    requires
        rows_within(cs, src, lo, hi),
    ensures
        ts_first_item(cs, src, i) matches Some(it) ==> within(it, lo + 1, hi + 1) && lines_nested(it),
    decreases cs, cs.len() - i,
{
    if 0 <= i < cs.len() {
        assert(cs[i].wf(src));
        lemma_ts_item_lines(cs[i], src);
        lemma_ts_first_lines(cs, src, i + 1, lo, hi);
    }
}

proof fn lemma_py_item_lines(n: SyntaxNode, src: Seq<u8>)
    requires
        n.wf(src),
    ensures
        py_item_of(n, src) matches Some(it) ==> within(it, line(n.start_row), line(n.end_row)) && lines_nested(it),
    decreases n, 4int,
{
    lemma_children_rows(n, src);
    if n.kind@ == "decorated_definition"@ {
        lemma_py_first_lines(n.children@, src, 0, n.start_row as int, n.end_row as int);
        if let Some(it) = py_first_item(n.children@, src, 0) {
            let moved = ItemSpec { start_line: line(n.start_row), ..it };
            lemma_item_moved_start(it, moved, line(n.start_row), line(n.start_row), line(n.end_row));
        }
    } else if n.kind@ == "class_definition"@ {
        lemma_py_blocks_lines(n.children@, src, n.children@.len() as int, n.start_row as int, n.end_row as int);
    }
}

proof fn lemma_py_first_lines(cs: Seq<SyntaxNode>, src: Seq<u8>, i: int, lo: int, hi: int)
    requires
        rows_within(cs, src, lo, hi),
    ensures
        py_first_item(cs, src, i) matches Some(it) ==> within(it, lo + 1, hi + 1) && lines_nested(it),
    decreases cs, cs.len() - i,
{
    if 0 <= i < cs.len() {
        assert(cs[i].wf(src));
        lemma_py_item_lines(cs[i], src);
        lemma_py_first_lines(cs, src, i + 1, lo, hi);
    }
}

proof fn lemma_py_blocks_lines(cs: Seq<SyntaxNode>, src: Seq<u8>, k: int, lo: int, hi: int)
    requires
        rows_within(cs, src, lo, hi),
    ensures
        all_within(py_blocks(cs, src, k), lo + 1, hi + 1),
    decreases cs, k,
{
    if 0 < k <= cs.len() {
        lemma_py_blocks_lines(cs, src, k - 1, lo, hi);
        let c = cs[k - 1];
        assert(c.wf(src));
        if c.kind@ == "block"@ {
            lemma_children_rows(c, src);
            lemma_py_stmts_lines(c.children@, src, c.children@.len() as int, c.start_row as int, c.end_row as int);
            lemma_all_within_concat(
                py_blocks(cs, src, k - 1),
                py_stmts(c.children@, src, c.children@.len() as int),
                lo + 1,
                hi + 1,
            );
        } else {
            assert(py_blocks(cs, src, k) =~= py_blocks(cs, src, k - 1));
        }
    }
}

proof fn lemma_py_stmts_lines(cs: Seq<SyntaxNode>, src: Seq<u8>, k: int, lo: int, hi: int)
    requires
        rows_within(cs, src, lo, hi),
    ensures
        all_within(py_stmts(cs, src, k), lo + 1, hi + 1),
    decreases cs, k,
{
    if 0 < k <= cs.len() {
        lemma_py_stmts_lines(cs, src, k - 1, lo, hi);
        assert(cs[k - 1].wf(src));
        lemma_py_item_lines(cs[k - 1], src);
        lemma_all_within_concat(py_stmts(cs, src, k - 1), opt_seq(py_item_of(cs[k - 1], src)), lo + 1, hi + 1);
    }
}

proof fn lemma_proto_item_lines(n: SyntaxNode, src: Seq<u8>)
    requires
        n.wf(src),
    ensures
        proto_item_of(n, src) matches Some(it) ==> within(it, line(n.start_row), line(n.end_row)) && lines_nested(it),
    decreases n, 4int,
{
    if is_proto_kind(n.kind@) {
        lemma_body_lines(n, src, Lang::Protobuf);
        let children = if n.kind@ == "message"@ || n.kind@ == "service"@ {
            body_items(n, src, Lang::Protobuf)
        } else {
            Seq::empty()
        };
        lemma_item_within(n.kind@, proto_name(n, src), n, src, None, None, children);
    }
}

proof fn lemma_body_lines(n: SyntaxNode, src: Seq<u8>, lang: Lang)
    requires
        n.wf(src),
    ensures
        all_within(body_items(n, src, lang), line(n.start_row), line(n.end_row)),
    decreases n, 3int,
{
    lemma_children_rows(n, src);
    lemma_bodies_lines(n.children@, src, lang, n.children@.len() as int, n.start_row as int, n.end_row as int);
}

proof fn lemma_bodies_lines(cs: Seq<SyntaxNode>, src: Seq<u8>, lang: Lang, k: int, lo: int, hi: int)
    requires
        rows_within(cs, src, lo, hi),
    ensures
        all_within(bodies(cs, src, lang, k), lo + 1, hi + 1),
    decreases cs, k,
{
    if 0 < k <= cs.len() {
        lemma_bodies_lines(cs, src, lang, k - 1, lo, hi);
        let c = cs[k - 1];
        assert(c.wf(src));
        if spec_is_body_container(c.kind@) {
            lemma_children_rows(c, src);
            lemma_members_lines(c.children@, src, lang, c.children@.len() as int, c.start_row as int, c.end_row as int);
            lemma_all_within_concat(
                bodies(cs, src, lang, k - 1),
                members(c.children@, src, lang, c.children@.len() as int),
                lo + 1,
                hi + 1,
            );
        } else {
            assert(bodies(cs, src, lang, k) =~= bodies(cs, src, lang, k - 1));
        }
    }
}

proof fn lemma_members_lines(cs: Seq<SyntaxNode>, src: Seq<u8>, lang: Lang, k: int, lo: int, hi: int)
    requires
        rows_within(cs, src, lo, hi),
    ensures
        all_within(members(cs, src, lang, k), lo + 1, hi + 1),
    decreases cs, k,
{
    if 0 < k <= cs.len() {
        lemma_members_lines(cs, src, lang, k - 1, lo, hi);
        assert(cs[k - 1].wf(src));
        lemma_item_of_lines(cs[k - 1], src, lang);
        lemma_all_within_concat(members(cs, src, lang, k - 1), opt_seq(item_of(cs[k - 1], src, lang)), lo + 1, hi + 1);
    }
}

proof fn lemma_collect_upto_lines(cs: Seq<SyntaxNode>, src: Seq<u8>, lang: Lang, k: int, lo: int, hi: int)
    requires
        rows_within(cs, src, lo, hi),
    ensures
        all_within(collect_upto(cs, src, lang, k), lo + 1, hi + 1),
    decreases cs, k,
{
    if 0 < k <= cs.len() {
        lemma_collect_upto_lines(cs, src, lang, k - 1, lo, hi);
        let c = cs[k - 1];
        assert(c.wf(src));
        lemma_item_of_lines(c, src, lang);
        lemma_collect_lines(c, src, lang);
        let added = match item_of(c, src, lang) {
            Some(it) => seq![it],
            None => if lang == Lang::Cpp && spec_should_recurse_cpp(c.kind@) {
                collect(c, src, lang)
            } else {
                Seq::empty()
            },
        };
        lemma_all_within_concat(collect_upto(cs, src, lang, k - 1), added, lo + 1, hi + 1);
    }
}

proof fn lemma_collect_lines(n: SyntaxNode, src: Seq<u8>, lang: Lang)
    requires
        n.wf(src),
    ensures
        all_within(collect(n, src, lang), line(n.start_row), line(n.end_row)),
    decreases n, 2int,
{
    lemma_children_rows(n, src);
    lemma_collect_upto_lines(n.children@, src, lang, n.children@.len() as int, n.start_row as int, n.end_row as int);
}

/// In the outline of a tree, every item starts no later than it ends, lies
/// within the lines of the tree, and holds its members within its own lines,
/// at every depth.
pub proof fn lemma_outline_lines(tree: SyntaxNode, src: Seq<u8>, lang: Lang)
    requires
        tree.wf(src),
    ensures
        all_within(collect(tree, src, lang), line(tree.start_row), line(tree.end_row)),
{
    lemma_collect_lines(tree, src, lang);
}

// ---------------------------------------------------------------- what the outline lists

/// A C++ `enum` is a definition of kind `enum`: its item carries its name
/// (the text of its `name` child, where that is a plain type name) and its
/// one-based first and last lines, and has no members.
pub proof fn lemma_cpp_enum_item(n: SyntaxNode, src: Seq<u8>)
    requires
        n.kind@ == "enum_specifier"@,
    ensures
        item_of(n, src, Lang::Cpp) == Some(
            ItemSpec {
                kind: "enum"@,
                name: cpp_name(n, src),
                start_line: n.start_row + 1,
                end_line: n.end_row + 1,
                visibility: None,
                signature: None,
                children: Seq::empty(),
            },
        ),
        n.field_child("name"@) matches Some(c) ==> (c.kind@ == "type_identifier"@ ==> cpp_name(n, src)
            == or_unknown(c.text(src))),
{
    assert("enum_specifier"@ != "template_declaration"@) by {
        reveal_strlit("enum_specifier");
        reveal_strlit("template_declaration");
        assert("enum_specifier"@.len() != "template_declaration"@.len());
    }
    assert("enum_specifier"@ != "function_definition"@) by {
        reveal_strlit("enum_specifier");
        reveal_strlit("function_definition");
        assert("enum_specifier"@.len() != "function_definition"@.len());
    }
    assert("enum_specifier"@ != "declaration"@) by {
        reveal_strlit("enum_specifier");
        reveal_strlit("declaration");
        assert("enum_specifier"@.len() != "declaration"@.len());
    }
    assert("enum_specifier"@ != "class_specifier"@) by {
        reveal_strlit("enum_specifier");
        reveal_strlit("class_specifier");
        assert("enum_specifier"@.len() != "class_specifier"@.len());
    }
    assert("enum_specifier"@ != "struct_specifier"@) by {
        reveal_strlit("enum_specifier");
        reveal_strlit("struct_specifier");
        assert("enum_specifier"@.len() != "struct_specifier"@.len());
    }
    assert("enum_specifier"@ != "namespace_definition"@) by {
        reveal_strlit("enum_specifier");
        reveal_strlit("namespace_definition");
        assert("enum_specifier"@.len() != "namespace_definition"@.len());
    }
    assert("enum_specifier"@ != "type_definition"@) by {
        reveal_strlit("enum_specifier");
        reveal_strlit("type_definition");
        assert("enum_specifier"@.len() != "type_definition"@.len());
    }
    assert("enum"@ != "function"@) by {
        reveal_strlit("enum");
        reveal_strlit("function");
        assert("enum"@.len() != "function"@.len());
    }
    assert("enum"@ != "function_decl"@) by {
        reveal_strlit("enum");
        reveal_strlit("function_decl");
        assert("enum"@.len() != "function_decl"@.len());
    }
    assert("enum"@ != "class"@) by {
        reveal_strlit("enum");
        reveal_strlit("class");
        assert("enum"@.len() != "class"@.len());
    }
    assert("enum"@ != "struct"@) by {
        reveal_strlit("enum");
        reveal_strlit("struct");
        assert("enum"@.len() != "struct"@.len());
    }
    assert("enum"@ != "namespace"@) by {
        reveal_strlit("enum");
        reveal_strlit("namespace");
        assert("enum"@.len() != "namespace"@.len());
    }
    if let Some(c) = n.field_child("name"@) {
        if c.kind@ == "type_identifier"@ {
            assert("type_identifier"@ != "function_declarator"@) by {
                reveal_strlit("type_identifier");
                reveal_strlit("function_declarator");
                assert("type_identifier"@.len() != "function_declarator"@.len());
            }
            assert("type_identifier"@ != "qualified_identifier"@) by {
                reveal_strlit("type_identifier");
                reveal_strlit("qualified_identifier");
                assert("type_identifier"@.len() != "qualified_identifier"@.len());
            }
            assert("type_identifier"@ != "pointer_declarator"@) by {
                reveal_strlit("type_identifier");
                reveal_strlit("pointer_declarator");
                assert("type_identifier"@.len() != "pointer_declarator"@.len());
            }
            assert("type_identifier"@ != "reference_declarator"@) by {
                reveal_strlit("type_identifier");
                reveal_strlit("reference_declarator");
                assert("type_identifier"@.len() != "reference_declarator"@.len());
            }
            assert(!is_name_wrapper(c.kind@));
        }
    }
}

/// Whether `o` is an item of kind `kind` on the lines of node `n`.
pub open spec fn lists_as(o: Option<ItemSpec>, kind: Seq<char>, n: SyntaxNode) -> bool {
    o matches Some(it) && it.kind == kind && it.start_line == n.start_row + 1 && it.end_line == n.end_row + 1
}

/// The outline kinds of C++ definitions: a function definition is a
/// `function`, a class a `class`, a struct a `struct`, an enum an `enum`, a
/// namespace a `namespace` and a typedef a `typedef`, each on its own lines.
pub proof fn lemma_cpp_kinds(n: SyntaxNode, src: Seq<u8>)
    ensures
        n.kind@ == "function_definition"@ ==> lists_as(item_of(n, src, Lang::Cpp), "function"@, n),
        n.kind@ == "class_specifier"@ ==> lists_as(item_of(n, src, Lang::Cpp), "class"@, n),
        n.kind@ == "struct_specifier"@ ==> lists_as(item_of(n, src, Lang::Cpp), "struct"@, n),
        n.kind@ == "enum_specifier"@ ==> lists_as(item_of(n, src, Lang::Cpp), "enum"@, n),
        n.kind@ == "namespace_definition"@ ==> lists_as(item_of(n, src, Lang::Cpp), "namespace"@, n),
        n.kind@ == "type_definition"@ ==> lists_as(item_of(n, src, Lang::Cpp), "typedef"@, n),
{
    reveal_strlit("template_declaration");
    reveal_strlit("function_definition");
    reveal_strlit("declaration");
    reveal_strlit("class_specifier");
    reveal_strlit("struct_specifier");
    reveal_strlit("enum_specifier");
    reveal_strlit("namespace_definition");
    reveal_strlit("type_definition");
    assert("function_definition"@.len() != "template_declaration"@.len());
    assert("declaration"@.len() != "template_declaration"@.len());
    assert("declaration"@.len() != "function_definition"@.len());
    assert("class_specifier"@.len() != "template_declaration"@.len());
    assert("class_specifier"@.len() != "function_definition"@.len());
    assert("class_specifier"@.len() != "declaration"@.len());
    assert("struct_specifier"@.len() != "template_declaration"@.len());
    assert("struct_specifier"@.len() != "function_definition"@.len());
    assert("struct_specifier"@.len() != "declaration"@.len());
    assert("struct_specifier"@.len() != "class_specifier"@.len());
    assert("enum_specifier"@.len() != "template_declaration"@.len());
    assert("enum_specifier"@.len() != "function_definition"@.len());
    assert("enum_specifier"@.len() != "declaration"@.len());
    assert("enum_specifier"@.len() != "class_specifier"@.len());
    assert("enum_specifier"@.len() != "struct_specifier"@.len());
    assert("namespace_definition"@[0] != "template_declaration"@[0]);
    assert("namespace_definition"@.len() != "function_definition"@.len());
    assert("namespace_definition"@.len() != "declaration"@.len());
    assert("namespace_definition"@.len() != "class_specifier"@.len());
    assert("namespace_definition"@.len() != "struct_specifier"@.len());
    assert("namespace_definition"@.len() != "enum_specifier"@.len());
    assert("type_definition"@.len() != "template_declaration"@.len());
    assert("type_definition"@.len() != "function_definition"@.len());
    assert("type_definition"@.len() != "declaration"@.len());
    assert("type_definition"@[0] != "class_specifier"@[0]);
    assert("type_definition"@.len() != "struct_specifier"@.len());
    assert("type_definition"@.len() != "enum_specifier"@.len());
    assert("type_definition"@.len() != "namespace_definition"@.len());
}

/// The outline kinds of Rust items: function, struct, enum, trait, impl,
/// type alias, const, static, module, use and macro, each on its own lines.
pub proof fn lemma_rust_kinds(n: SyntaxNode, src: Seq<u8>)
    ensures
        n.kind@ == "function_item"@ ==> lists_as(item_of(n, src, Lang::Rust), "function"@, n),
        n.kind@ == "struct_item"@ ==> lists_as(item_of(n, src, Lang::Rust), "struct"@, n),
        n.kind@ == "enum_item"@ ==> lists_as(item_of(n, src, Lang::Rust), "enum"@, n),
        n.kind@ == "trait_item"@ ==> lists_as(item_of(n, src, Lang::Rust), "trait"@, n),
        n.kind@ == "impl_item"@ ==> lists_as(item_of(n, src, Lang::Rust), "impl"@, n),
        n.kind@ == "type_item"@ ==> lists_as(item_of(n, src, Lang::Rust), "type_alias"@, n),
        n.kind@ == "const_item"@ ==> lists_as(item_of(n, src, Lang::Rust), "const"@, n),
        n.kind@ == "static_item"@ ==> lists_as(item_of(n, src, Lang::Rust), "static"@, n),
        n.kind@ == "mod_item"@ ==> lists_as(item_of(n, src, Lang::Rust), "module"@, n),
        n.kind@ == "use_declaration"@ ==> lists_as(item_of(n, src, Lang::Rust), "use"@, n),
        n.kind@ == "macro_definition"@ ==> lists_as(item_of(n, src, Lang::Rust), "macro"@, n),
{
    reveal_strlit("function_item");
    reveal_strlit("struct_item");
    reveal_strlit("enum_item");
    reveal_strlit("trait_item");
    reveal_strlit("impl_item");
    reveal_strlit("type_item");
    reveal_strlit("const_item");
    reveal_strlit("static_item");
    reveal_strlit("mod_item");
    reveal_strlit("use_declaration");
    reveal_strlit("macro_definition");
    assert("struct_item"@.len() != "function_item"@.len());
    assert("enum_item"@.len() != "function_item"@.len());
    assert("enum_item"@.len() != "struct_item"@.len());
    assert("trait_item"@.len() != "function_item"@.len());
    assert("trait_item"@.len() != "struct_item"@.len());
    assert("trait_item"@.len() != "enum_item"@.len());
    assert("impl_item"@.len() != "function_item"@.len());
    assert("impl_item"@.len() != "struct_item"@.len());
    assert("impl_item"@[0] != "enum_item"@[0]);
    assert("impl_item"@.len() != "trait_item"@.len());
    assert("type_item"@.len() != "function_item"@.len());
    assert("type_item"@.len() != "struct_item"@.len());
    assert("type_item"@[0] != "enum_item"@[0]);
    assert("type_item"@.len() != "trait_item"@.len());
    assert("type_item"@[0] != "impl_item"@[0]);
    assert("const_item"@.len() != "function_item"@.len());
    assert("const_item"@.len() != "struct_item"@.len());
    assert("const_item"@.len() != "enum_item"@.len());
    assert("const_item"@[0] != "trait_item"@[0]);
    assert("const_item"@.len() != "impl_item"@.len());
    assert("const_item"@.len() != "type_item"@.len());
    assert("static_item"@.len() != "function_item"@.len());
    assert("static_item"@[2] != "struct_item"@[2]);
    assert("static_item"@.len() != "enum_item"@.len());
    assert("static_item"@.len() != "trait_item"@.len());
    assert("static_item"@.len() != "impl_item"@.len());
    assert("static_item"@.len() != "type_item"@.len());
    assert("static_item"@.len() != "const_item"@.len());
    assert("mod_item"@.len() != "function_item"@.len());
    assert("mod_item"@.len() != "struct_item"@.len());
    assert("mod_item"@.len() != "enum_item"@.len());
    assert("mod_item"@.len() != "trait_item"@.len());
    assert("mod_item"@.len() != "impl_item"@.len());
    assert("mod_item"@.len() != "type_item"@.len());
    assert("mod_item"@.len() != "const_item"@.len());
    assert("mod_item"@.len() != "static_item"@.len());
    assert("use_declaration"@.len() != "function_item"@.len());
    assert("use_declaration"@.len() != "struct_item"@.len());
    assert("use_declaration"@.len() != "enum_item"@.len());
    assert("use_declaration"@.len() != "trait_item"@.len());
    assert("use_declaration"@.len() != "impl_item"@.len());
    assert("use_declaration"@.len() != "type_item"@.len());
    assert("use_declaration"@.len() != "const_item"@.len());
    assert("use_declaration"@.len() != "static_item"@.len());
    assert("use_declaration"@.len() != "mod_item"@.len());
    assert("macro_definition"@.len() != "function_item"@.len());
    assert("macro_definition"@.len() != "struct_item"@.len());
    assert("macro_definition"@.len() != "enum_item"@.len());
    assert("macro_definition"@.len() != "trait_item"@.len());
    assert("macro_definition"@.len() != "impl_item"@.len());
    assert("macro_definition"@.len() != "type_item"@.len());
    assert("macro_definition"@.len() != "const_item"@.len());
    assert("macro_definition"@.len() != "static_item"@.len());
    assert("macro_definition"@.len() != "mod_item"@.len());
    assert("macro_definition"@.len() != "use_declaration"@.len());
}

/// The outline kinds of TypeScript definitions: function, class, interface,
/// enum, type alias and method, each on its own lines.
pub proof fn lemma_ts_kinds(n: SyntaxNode, src: Seq<u8>)
    ensures
        n.kind@ == "function_declaration"@ ==> lists_as(item_of(n, src, Lang::Typescript), "function"@, n),
        n.kind@ == "class_declaration"@ ==> lists_as(item_of(n, src, Lang::Typescript), "class"@, n),
        n.kind@ == "interface_declaration"@ ==> lists_as(item_of(n, src, Lang::Typescript), "interface"@, n),
        n.kind@ == "enum_declaration"@ ==> lists_as(item_of(n, src, Lang::Typescript), "enum"@, n),
        n.kind@ == "type_alias_declaration"@ ==> lists_as(item_of(n, src, Lang::Typescript), "type_alias"@, n),
        n.kind@ == "method_definition"@ ==> lists_as(item_of(n, src, Lang::Typescript), "method"@, n),
{
    reveal_strlit("lexical_declaration");
    reveal_strlit("export_statement");
    reveal_strlit("function_declaration");
    reveal_strlit("class_declaration");
    reveal_strlit("interface_declaration");
    reveal_strlit("enum_declaration");
    reveal_strlit("type_alias_declaration");
    reveal_strlit("method_definition");
    assert("function_declaration"@.len() != "lexical_declaration"@.len());
    assert("function_declaration"@.len() != "export_statement"@.len());
    assert("class_declaration"@.len() != "lexical_declaration"@.len());
    assert("class_declaration"@.len() != "export_statement"@.len());
    assert("class_declaration"@.len() != "function_declaration"@.len());
    assert("interface_declaration"@.len() != "lexical_declaration"@.len());
    assert("interface_declaration"@.len() != "export_statement"@.len());
    assert("interface_declaration"@.len() != "function_declaration"@.len());
    assert("interface_declaration"@.len() != "class_declaration"@.len());
    assert("enum_declaration"@.len() != "lexical_declaration"@.len());
    assert("enum_declaration"@[1] != "export_statement"@[1]);
    assert("enum_declaration"@.len() != "function_declaration"@.len());
    assert("enum_declaration"@.len() != "class_declaration"@.len());
    assert("enum_declaration"@.len() != "interface_declaration"@.len());
    assert("type_alias_declaration"@.len() != "lexical_declaration"@.len());
    assert("type_alias_declaration"@.len() != "export_statement"@.len());
    assert("type_alias_declaration"@.len() != "function_declaration"@.len());
    assert("type_alias_declaration"@.len() != "class_declaration"@.len());
    assert("type_alias_declaration"@.len() != "interface_declaration"@.len());
    assert("type_alias_declaration"@.len() != "enum_declaration"@.len());
    assert("method_definition"@.len() != "lexical_declaration"@.len());
    assert("method_definition"@.len() != "export_statement"@.len());
    assert("method_definition"@.len() != "function_declaration"@.len());
    assert("method_definition"@[0] != "class_declaration"@[0]);
    assert("method_definition"@.len() != "interface_declaration"@.len());
    assert("method_definition"@.len() != "enum_declaration"@.len());
    assert("method_definition"@.len() != "type_alias_declaration"@.len());
}

/// The outline kinds of Python definitions: a `def` is a function and a
/// `class` a class, each on its own lines.
pub proof fn lemma_python_kinds(n: SyntaxNode, src: Seq<u8>)
    ensures
        n.kind@ == "function_definition"@ ==> lists_as(item_of(n, src, Lang::Python), "function"@, n),
        n.kind@ == "class_definition"@ ==> lists_as(item_of(n, src, Lang::Python), "class"@, n),
{
    reveal_strlit("decorated_definition");
    reveal_strlit("function_definition");
    reveal_strlit("class_definition");
    assert("function_definition"@.len() != "decorated_definition"@.len());
    assert("class_definition"@.len() != "decorated_definition"@.len());
    assert("class_definition"@.len() != "function_definition"@.len());
}

/// The outline kinds of Protobuf definitions: a message, an enum, a
/// service and an rpc keep their own names as kinds, each on its own lines.
pub proof fn lemma_proto_kinds(n: SyntaxNode, src: Seq<u8>)
    ensures
        n.kind@ == "message"@ ==> lists_as(item_of(n, src, Lang::Protobuf), "message"@, n),
        n.kind@ == "enum"@ ==> lists_as(item_of(n, src, Lang::Protobuf), "enum"@, n),
        n.kind@ == "service"@ ==> lists_as(item_of(n, src, Lang::Protobuf), "service"@, n),
        n.kind@ == "rpc"@ ==> lists_as(item_of(n, src, Lang::Protobuf), "rpc"@, n),
{
    reveal_strlit("message");
    reveal_strlit("enum");
    reveal_strlit("service");
    reveal_strlit("rpc");
    assert("enum"@.len() != "message"@.len());
    assert("service"@[0] != "message"@[0]);
    assert("service"@.len() != "enum"@.len());
    assert("rpc"@.len() != "message"@.len());
    assert("rpc"@.len() != "enum"@.len());
    assert("rpc"@.len() != "service"@.len());
}

/// Every definition among `cs[..k]` has its item in the outline of `cs[..k]`.
pub proof fn lemma_collect_lists(cs: Seq<SyntaxNode>, src: Seq<u8>, lang: Lang, k: int, j: int)
    requires
        0 <= j < k <= cs.len(),
        item_of(cs[j], src, lang) is Some,
    ensures
        collect_upto(cs, src, lang, k).contains(item_of(cs[j], src, lang).unwrap()),
    decreases k,
{
    let a = collect_upto(cs, src, lang, k - 1);
    let x = item_of(cs[j], src, lang).unwrap();
    if j == k - 1 {
        assert(collect_upto(cs, src, lang, k) == a + seq![x]);
        assert((a + seq![x])[a.len() as int] == x);
    } else {
        lemma_collect_lists(cs, src, lang, k - 1, j);
        let b = collect_upto(cs, src, lang, k).subrange(a.len() as int, collect_upto(cs, src, lang, k).len() as int);
        assert(collect_upto(cs, src, lang, k) =~= a + b);
        let t = choose|t: int| 0 <= t < a.len() && a[t] == x;
        assert((a + b)[t] == x);
    }
}

/// Every definition among `cs[..k]` has its item among the members `cs[..k]` give.
pub proof fn lemma_members_list(cs: Seq<SyntaxNode>, src: Seq<u8>, lang: Lang, k: int, j: int)
    requires
        0 <= j < k <= cs.len(),
        item_of(cs[j], src, lang) is Some,
    ensures
        members(cs, src, lang, k).contains(item_of(cs[j], src, lang).unwrap()),
    decreases k,
{
    let a = members(cs, src, lang, k - 1);
    let x = item_of(cs[j], src, lang).unwrap();
    if j == k - 1 {
        assert(members(cs, src, lang, k) == a + seq![x]);
        assert((a + seq![x])[a.len() as int] == x);
    } else {
        lemma_members_list(cs, src, lang, k - 1, j);
        let b = opt_seq(item_of(cs[k - 1], src, lang));
        assert(members(cs, src, lang, k) == a + b);
        let t = choose|t: int| 0 <= t < a.len() && a[t] == x;
        assert((a + b)[t] == x);
    }
}

/// Every definition directly inside a body container among `cs[..k]` has
/// its item among the body items.
proof fn lemma_bodies_list(cs: Seq<SyntaxNode>, src: Seq<u8>, lang: Lang, k: int, b: int, j: int)
    requires
        0 <= b < k <= cs.len(),
        spec_is_body_container(cs[b].kind@),
        0 <= j < cs[b].children@.len(),
        item_of(cs[b].children@[j], src, lang) is Some,
    ensures
        bodies(cs, src, lang, k).contains(item_of(cs[b].children@[j], src, lang).unwrap()),
    decreases k,
{
    let a = bodies(cs, src, lang, k - 1);
    let x = item_of(cs[b].children@[j], src, lang).unwrap();
    let c = cs[k - 1];
    let m = if spec_is_body_container(c.kind@) {
        members(c.children@, src, lang, c.children@.len() as int)
    } else {
        Seq::empty()
    };
    assert(bodies(cs, src, lang, k) == a + m);
    if b == k - 1 {
        lemma_members_list(c.children@, src, lang, c.children@.len() as int, j);
        let t = choose|t: int| 0 <= t < m.len() && m[t] == x;
        assert((a + m)[a.len() + t] == x);
    } else {
        lemma_bodies_list(cs, src, lang, k - 1, b, j);
        let t = choose|t: int| 0 <= t < a.len() && a[t] == x;
        assert((a + m)[t] == x);
    }
}

/// A C++ enum at the top level of a file is listed in the file's outline,
/// which is then not empty.
pub proof fn lemma_cpp_enum_listed(tree: SyntaxNode, src: Seq<u8>, j: int)
    requires
        0 <= j < tree.children@.len(),
        tree.children@[j].kind@ == "enum_specifier"@,
    ensures
        collect(tree, src, Lang::Cpp).contains(item_of(tree.children@[j], src, Lang::Cpp).unwrap()),
        collect(tree, src, Lang::Cpp).len() > 0,
        item_of(tree.children@[j], src, Lang::Cpp) matches Some(it) && it.kind == "enum"@,
{
    lemma_cpp_enum_item(tree.children@[j], src);
    lemma_collect_lists(tree.children@, src, Lang::Cpp, tree.children@.len() as int, j);
}

/// Every definition directly inside the body of a C++ class, struct or
/// namespace is listed among that definition's members.
pub proof fn lemma_cpp_members_listed(n: SyntaxNode, src: Seq<u8>, b: int, j: int)
    requires
        n.kind@ == "class_specifier"@ || n.kind@ == "struct_specifier"@
            || n.kind@ == "namespace_definition"@,
        0 <= b < n.children@.len(),
        spec_is_body_container(n.children@[b].kind@),
        0 <= j < n.children@[b].children@.len(),
        item_of(n.children@[b].children@[j], src, Lang::Cpp) is Some,
    ensures
        item_of(n, src, Lang::Cpp) matches Some(it) && it.children.contains(
            item_of(n.children@[b].children@[j], src, Lang::Cpp).unwrap(),
        ),
{
    lemma_bodies_list(n.children@, src, Lang::Cpp, n.children@.len() as int, b, j);
    reveal_strlit("template_declaration");
    reveal_strlit("function_definition");
    reveal_strlit("declaration");
    reveal_strlit("class_specifier");
    reveal_strlit("struct_specifier");
    reveal_strlit("enum_specifier");
    reveal_strlit("namespace_definition");
    assert("class_specifier"@.len() != "template_declaration"@.len());
    assert("class_specifier"@.len() != "function_definition"@.len());
    assert("class_specifier"@.len() != "declaration"@.len());
    assert("struct_specifier"@.len() != "template_declaration"@.len());
    assert("struct_specifier"@.len() != "function_definition"@.len());
    assert("struct_specifier"@.len() != "declaration"@.len());
    assert("struct_specifier"@.len() != "class_specifier"@.len());
    assert("namespace_definition"@[0] != "template_declaration"@[0]);
    assert("namespace_definition"@.len() != "function_definition"@.len());
    assert("namespace_definition"@.len() != "declaration"@.len());
    assert("namespace_definition"@.len() != "class_specifier"@.len());
    assert("namespace_definition"@.len() != "struct_specifier"@.len());
    assert("namespace_definition"@.len() != "enum_specifier"@.len());
}

/// A C++ enum directly inside the body of a class, struct or namespace is
/// listed among that definition's members, as an `enum`.
pub proof fn lemma_cpp_member_enum_listed(n: SyntaxNode, src: Seq<u8>, b: int, j: int)
    requires
        n.kind@ == "class_specifier"@ || n.kind@ == "struct_specifier"@ || n.kind@
            == "namespace_definition"@,
        0 <= b < n.children@.len(),
        spec_is_body_container(n.children@[b].kind@),
        0 <= j < n.children@[b].children@.len(),
        n.children@[b].children@[j].kind@ == "enum_specifier"@,
    ensures
        item_of(n, src, Lang::Cpp) matches Some(it) && it.children.contains(
            item_of(n.children@[b].children@[j], src, Lang::Cpp).unwrap(),
        ),
        item_of(n.children@[b].children@[j], src, Lang::Cpp) matches Some(e) && e.kind == "enum"@,
{
    lemma_cpp_enum_item(n.children@[b].children@[j], src);
    lemma_cpp_members_listed(n, src, b, j);
}

/// Every item directly inside the body of a Rust impl, trait or module is
/// listed among that item's members.
pub proof fn lemma_rust_members_listed(n: SyntaxNode, src: Seq<u8>, b: int, j: int)
    requires
        n.kind@ == "impl_item"@ || n.kind@ == "trait_item"@ || n.kind@ == "mod_item"@,
        0 <= b < n.children@.len(),
        spec_is_body_container(n.children@[b].kind@),
        0 <= j < n.children@[b].children@.len(),
        item_of(n.children@[b].children@[j], src, Lang::Rust) is Some,
    ensures
        item_of(n, src, Lang::Rust) matches Some(it) && it.children.contains(
            item_of(n.children@[b].children@[j], src, Lang::Rust).unwrap(),
        ),
{
    lemma_bodies_list(n.children@, src, Lang::Rust, n.children@.len() as int, b, j);
    reveal_strlit("function_item");
    reveal_strlit("struct_item");
    reveal_strlit("enum_item");
    reveal_strlit("trait_item");
    reveal_strlit("impl_item");
    reveal_strlit("type_item");
    reveal_strlit("const_item");
    reveal_strlit("static_item");
    reveal_strlit("mod_item");
    assert("impl_item"@.len() != "function_item"@.len());
    assert("impl_item"@.len() != "struct_item"@.len());
    assert("impl_item"@[0] != "enum_item"@[0]);
    assert("impl_item"@.len() != "trait_item"@.len());
    assert("trait_item"@.len() != "function_item"@.len());
    assert("trait_item"@.len() != "struct_item"@.len());
    assert("trait_item"@.len() != "enum_item"@.len());
    assert("mod_item"@.len() != "function_item"@.len());
    assert("mod_item"@.len() != "struct_item"@.len());
    assert("mod_item"@.len() != "enum_item"@.len());
    assert("mod_item"@.len() != "trait_item"@.len());
    assert("mod_item"@.len() != "impl_item"@.len());
    assert("mod_item"@.len() != "type_item"@.len());
    assert("mod_item"@.len() != "const_item"@.len());
    assert("mod_item"@.len() != "static_item"@.len());
}

/// Every definition directly inside the body of a TypeScript class or
/// interface is listed among that definition's members.
pub proof fn lemma_ts_members_listed(n: SyntaxNode, src: Seq<u8>, b: int, j: int)
    requires
        n.kind@ == "class_declaration"@ || n.kind@ == "interface_declaration"@,
        0 <= b < n.children@.len(),
        spec_is_body_container(n.children@[b].kind@),
        0 <= j < n.children@[b].children@.len(),
        item_of(n.children@[b].children@[j], src, Lang::Typescript) is Some,
    ensures
        item_of(n, src, Lang::Typescript) matches Some(it) && it.children.contains(
            item_of(n.children@[b].children@[j], src, Lang::Typescript).unwrap(),
        ),
{
    lemma_bodies_list(n.children@, src, Lang::Typescript, n.children@.len() as int, b, j);
    reveal_strlit("lexical_declaration");
    reveal_strlit("export_statement");
    reveal_strlit("function_declaration");
    reveal_strlit("class_declaration");
    reveal_strlit("interface_declaration");
    assert("class_declaration"@.len() != "lexical_declaration"@.len());
    assert("class_declaration"@.len() != "export_statement"@.len());
    assert("class_declaration"@.len() != "function_declaration"@.len());
    assert("interface_declaration"@.len() != "lexical_declaration"@.len());
    assert("interface_declaration"@.len() != "export_statement"@.len());
    assert("interface_declaration"@.len() != "function_declaration"@.len());
    assert("interface_declaration"@.len() != "class_declaration"@.len());
}

/// Every definition directly inside the body of a Protobuf message or
/// service is listed among that definition's members.
pub proof fn lemma_proto_members_listed(n: SyntaxNode, src: Seq<u8>, b: int, j: int)
    requires
        n.kind@ == "message"@ || n.kind@ == "service"@,
        0 <= b < n.children@.len(),
        spec_is_body_container(n.children@[b].kind@),
        0 <= j < n.children@[b].children@.len(),
        item_of(n.children@[b].children@[j], src, Lang::Protobuf) is Some,
    ensures
        item_of(n, src, Lang::Protobuf) matches Some(it) && it.children.contains(
            item_of(n.children@[b].children@[j], src, Lang::Protobuf).unwrap(),
        ),
{
    lemma_bodies_list(n.children@, src, Lang::Protobuf, n.children@.len() as int, b, j);
}

proof fn lemma_py_stmts_list(cs: Seq<SyntaxNode>, src: Seq<u8>, k: int, j: int)
    requires
        0 <= j < k <= cs.len(),
        py_item_of(cs[j], src) is Some,
    ensures
        py_stmts(cs, src, k).contains(py_item_of(cs[j], src).unwrap()),
    decreases k,
{
    let a = py_stmts(cs, src, k - 1);
    let x = py_item_of(cs[j], src).unwrap();
    let b = opt_seq(py_item_of(cs[k - 1], src));
    assert(py_stmts(cs, src, k) == a + b);
    if j == k - 1 {
        assert((a + b)[a.len() as int] == x);
    } else {
        lemma_py_stmts_list(cs, src, k - 1, j);
        let t = choose|t: int| 0 <= t < a.len() && a[t] == x;
        assert((a + b)[t] == x);
    }
}

proof fn lemma_py_blocks_list(cs: Seq<SyntaxNode>, src: Seq<u8>, k: int, b: int, j: int)
    requires
        0 <= b < k <= cs.len(),
        cs[b].kind@ == "block"@,
        0 <= j < cs[b].children@.len(),
        py_item_of(cs[b].children@[j], src) is Some,
    ensures
        py_blocks(cs, src, k).contains(py_item_of(cs[b].children@[j], src).unwrap()),
    decreases k,
{
    let a = py_blocks(cs, src, k - 1);
    let x = py_item_of(cs[b].children@[j], src).unwrap();
    let c = cs[k - 1];
    let m = if c.kind@ == "block"@ {
        py_stmts(c.children@, src, c.children@.len() as int)
    } else {
        Seq::empty()
    };
    assert(py_blocks(cs, src, k) == a + m);
    if b == k - 1 {
        lemma_py_stmts_list(c.children@, src, c.children@.len() as int, j);
        let t = choose|t: int| 0 <= t < m.len() && m[t] == x;
        assert((a + m)[a.len() + t] == x);
    } else {
        lemma_py_blocks_list(cs, src, k - 1, b, j);
        let t = choose|t: int| 0 <= t < a.len() && a[t] == x;
        assert((a + m)[t] == x);
    }
}

/// Every definition directly inside the block of a Python class is listed
/// among the class's members.
pub proof fn lemma_python_members_listed(n: SyntaxNode, src: Seq<u8>, b: int, j: int)
    requires
        n.kind@ == "class_definition"@,
        0 <= b < n.children@.len(),
        n.children@[b].kind@ == "block"@,
        0 <= j < n.children@[b].children@.len(),
        item_of(n.children@[b].children@[j], src, Lang::Python) is Some,
    ensures
        item_of(n, src, Lang::Python) matches Some(it) && it.children.contains(
            item_of(n.children@[b].children@[j], src, Lang::Python).unwrap(),
        ),
{
    lemma_py_blocks_list(n.children@, src, n.children@.len() as int, b, j);
    reveal_strlit("class_definition");
    reveal_strlit("decorated_definition");
    reveal_strlit("function_definition");
    assert("class_definition"@.len() != "decorated_definition"@.len());
    assert("class_definition"@[0] != "function_definition"@[0]);
}

// ---------------------------------------------------------------- text form

/// `"{v} "` for a visibility `v`, nothing without one.
pub open spec fn vis_prefix(v: Option<Seq<char>>) -> Seq<char> {
    match v {
        Some(t) => t + " "@,
        None => Seq::empty(),
    }
}

/// `"  -- {s}"` for a signature `s`, nothing without one.
pub open spec fn sig_suffix(sig: Option<Seq<char>>) -> Seq<char> {
    match sig {
        Some(t) => "  -- "@ + t,
        None => Seq::empty(),
    }
}

/// The line of one item: `{pad}{vis}{kind} {name} [{start}:{end}]{sig}`.
pub open spec fn item_line(it: OutlineItem, pad: Seq<char>) -> Seq<char> {
    pad + vis_prefix(opt_text(it.visibility)) + it.kind@ + " "@ + it.name@ + " ["@
        + decimal(it.start_line as nat) + ":"@ + decimal(it.end_line as nat) + "]"@
        + sig_suffix(opt_text(it.signature)) + "\n"@
}

/// The text of an item and, indented two more spaces, of its members.
pub open spec fn item_text(it: OutlineItem, pad: Seq<char>) -> Seq<char>
    decreases it, 1int, 0int,
{
    item_line(it, pad) + members_text(it, pad + "  "@, it.children@.len() as int)
}

/// The text of the first `k` members of `it`.
pub open spec fn members_text(it: OutlineItem, pad: Seq<char>, k: int) -> Seq<char>
    decreases it, 0int, k,
{
    if k <= 0 || k > it.children@.len() {
        Seq::empty()
    } else {
        members_text(it, pad, k - 1) + item_text(it.children@[k - 1], pad)
    }
}

/// The text of the first `k` items of an outline.
pub open spec fn items_text(items: Seq<OutlineItem>, k: int) -> Seq<char>
    decreases k,
{
    if k <= 0 || k > items.len() {
        Seq::empty()
    } else {
        items_text(items, k - 1) + item_text(items[k - 1], Seq::empty())
    }
}

fn print_item(item: &OutlineItem, pad: &str, out: &mut String)
    ensures
        final(out)@ == old(out)@ + item_text(*item, pad@),
    decreases item,
{
    proof {
        reveal_strlit(" ");
        reveal_strlit(" [");
        reveal_strlit(":");
        reveal_strlit("]");
        reveal_strlit("  -- ");
        reveal_strlit("\n");
        reveal_strlit("  ");
    }
    let ghost start = out@;
    out.append(pad);
    match &item.visibility {
        Some(v) => {
            out.append(v.as_str());
            out.append(" ");
        },
        None => {},
    }
    out.append(item.kind.as_str());
    out.append(" ");
    out.append(item.name.as_str());
    out.append(" [");
    push_decimal(out, item.start_line);
    out.append(":");
    push_decimal(out, item.end_line);
    out.append("]");
    match &item.signature {
        Some(sig) => {
            out.append("  -- ");
            out.append(sig.as_str());
        },
        None => {},
    }
    out.append("\n");
    assert(out@ =~= start + item_line(*item, pad@));
    let mut inner = pad.to_owned();
    inner.append("  ");
    let ghost ipad = inner@;
    assert(ipad =~= pad@ + "  "@);
    let n = item.children.len();
    let mut i: usize = 0;
    while i < n
        invariant
            n == item.children@.len(),
            i <= n,
            inner@ == ipad,
            out@ == start + item_line(*item, pad@) + members_text(*item, ipad, i as int),
        decreases n - i,
    {
        print_item(&item.children[i], inner.as_str(), out);
        i = i + 1;
        assert(out@ =~= start + item_line(*item, pad@) + members_text(*item, ipad, i as int));
    }
    assert(out@ =~= old(out)@ + item_text(*item, pad@));
}

/// Writes the text form of an outline to `out`: one line per item, members
/// indented by two spaces per level.
pub fn print_text(items: &Vec<OutlineItem>, out: &mut String)
    ensures
        final(out)@ == old(out)@ + items_text(items@, items@.len() as int),
{
    proof {
        reveal_strlit("");
    }
    let ghost start = out@;
    let n = items.len();
    let mut i: usize = 0;
    assert(out@ =~= start + items_text(items@, 0));
    while i < n
        invariant
            n == items@.len(),
            i <= n,
            out@ == start + items_text(items@, i as int),
        decreases n - i,
    {
        print_item(&items[i], "", out);
        proof {
            reveal_strlit("");
        }
        assert(""@ =~= Seq::<char>::empty());
        i = i + 1;
        assert(out@ =~= start + items_text(items@, i as int));
    }
}

} // verus!
