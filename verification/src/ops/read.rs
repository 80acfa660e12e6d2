//! Read: the source text of one definition, addressed by name
//! (`Type::member`) or by a line range (`start:end`).
use vstd::prelude::*;
use vstd::string::StrSliceExecFns;
use crate::error::AstError;
use crate::languages::{parse_file, parse_error, Lang, detected_extension, lang_of_extension, spec_is_body_container, is_body_container};
use crate::ops::outline::{field_text, or_unknown, innermost, is_name_wrapper, extract_child_text, extract_innermost_name};
use crate::parser::{parsed, parse_ok};
use crate::syntax::SyntaxNode;
use crate::text::{bytes_of, str_eq, join, parse_usize, parse_decimal, split_double_colon, first_double_colon,
    lemma_first_double_colon_range, lemma_split_join_double_colon, source_lines, line_ranges, spans_of, spans_ok, line_spans, slice,
    decimal, is_digit, lemma_decimal_digits, lemma_parse_decimal_roundtrip, ends_with, text_ends_with, line_count};

verus! {

// ---------------------------------------------------------------- node sets

/// Groups of node kinds that name the definition that holds them.
pub enum KindSet {
    /// Names of protobuf definitions and fields.
    ProtoDefinitionName,
    /// Names of protobuf messages, services and oneofs.
    ProtoContainerName,
    /// Module names of Python imports.
    PythonImportName,
}

pub open spec fn in_kind_set(set: KindSet, k: Seq<char>) -> bool {
    match set {
        KindSet::ProtoDefinitionName => k == "message_name"@ || k == "enum_name"@ || k == "service_name"@
            || k == "rpc_name"@ || k == "oneof_name"@ || k == "field_name"@,
        KindSet::ProtoContainerName => k == "message_name"@ || k == "service_name"@ || k == "oneof_name"@,
        KindSet::PythonImportName => k == "dotted_name"@ || k == "aliased_import"@,
    }
}

pub fn kind_in_set(set: &KindSet, k: &str) -> (res: bool)
    ensures
        res == in_kind_set(*set, k@),
{
    match set {
        KindSet::ProtoDefinitionName => str_eq(k, "message_name") || str_eq(k, "enum_name") || str_eq(
            k,
            "service_name",
        ) || str_eq(k, "rpc_name") || str_eq(k, "oneof_name") || str_eq(k, "field_name"),
        KindSet::ProtoContainerName => str_eq(k, "message_name") || str_eq(k, "service_name") || str_eq(
            k,
            "oneof_name",
        ),
        KindSet::PythonImportName => str_eq(k, "dotted_name") || str_eq(k, "aliased_import"),
    }
}

/// The first of `cs[i..]` whose kind is in `set`.
pub open spec fn first_in_set(cs: Seq<SyntaxNode>, set: KindSet, i: int) -> Option<SyntaxNode>
    decreases cs.len() - i,
{
    if i < 0 || i >= cs.len() {
        None
    } else if in_kind_set(set, cs[i].kind@) {
        Some(cs[i])
    } else {
        first_in_set(cs, set, i + 1)
    }
}

pub fn find_first_in_set<'a>(node: &'a SyntaxNode, set: &KindSet) -> (res: Option<&'a SyntaxNode>)
    ensures
        match res {
            Some(c) => first_in_set(node.children@, *set, 0) == Some(*c),
            None => first_in_set(node.children@, *set, 0) is None,
        },
{
    let ghost cs = node.children@;
    let n = node.children.len();
    let mut i: usize = 0;
    while i < n
        invariant
            n == cs.len(),
            cs == node.children@,
            i <= n,
            first_in_set(cs, *set, 0) == first_in_set(cs, *set, i as int),
        decreases n - i,
    {
        if kind_in_set(set, node.children[i].kind) {
            return Some(&node.children[i]);
        }
        i = i + 1;
    }
    None
}

/// The first named child of `cs[i..]`.
pub open spec fn first_named(cs: Seq<SyntaxNode>, i: int) -> Option<SyntaxNode>
    decreases cs.len() - i,
{
    if i < 0 || i >= cs.len() {
        None
    } else if cs[i].named {
        Some(cs[i])
    } else {
        first_named(cs, i + 1)
    }
}

fn find_first_named(node: &SyntaxNode) -> (res: Option<&SyntaxNode>)
    ensures
        match res {
            Some(c) => first_named(node.children@, 0) == Some(*c),
            None => first_named(node.children@, 0) is None,
        },
{
    let ghost cs = node.children@;
    let n = node.children.len();
    let mut i: usize = 0;
    while i < n
        invariant
            n == cs.len(),
            cs == node.children@,
            i <= n,
            first_named(cs, 0) == first_named(cs, i as int),
        decreases n - i,
    {
        if node.children[i].named {
            return Some(&node.children[i]);
        }
        i = i + 1;
    }
    None
}

pub open spec fn text_of_opt(c: Option<SyntaxNode>, src: Seq<u8>) -> Option<Seq<char>> {
    match c {
        Some(n) => n.text(src),
        None => None,
    }
}

fn text_of_node_opt(c: Option<&SyntaxNode>, source: &str) -> (res: Option<String>)
    ensures
        crate::ops::outline::opt_text(res) == text_of_opt(
            match c {
                Some(n) => Some(*n),
                None => None,
            },
            bytes_of(source@),
        ),
{
    match c {
        Some(n) => n.text_in(source),
        None => None,
    }
}

/// The child under field `a`, else the one under field `b`.
pub open spec fn field_or(n: SyntaxNode, a: Seq<char>, b: Seq<char>) -> Option<SyntaxNode> {
    match n.field_child(a) {
        Some(c) => Some(c),
        None => n.field_child(b),
    }
}

fn child_by_field_or<'a>(n: &'a SyntaxNode, a: &str, b: &str) -> (res: Option<&'a SyntaxNode>)
    ensures
        match res {
            Some(c) => field_or(*n, a@, b@) == Some(*c),
            None => field_or(*n, a@, b@) is None,
        },
{
    match n.child_by_field_name(a) {
        Some(c) => Some(c),
        None => n.child_by_field_name(b),
    }
}

// ---------------------------------------------------------------- names

/// The index of the first `<` in `s`.
pub open spec fn first_lt(s: Seq<char>, i: int) -> Option<int>
    decreases s.len() - i,
{
    if i < 0 || i >= s.len() {
        None
    } else if s[i] == '<' {
        Some(i)
    } else {
        first_lt(s, i + 1)
    }
}

/// A type name without its generic parameters: the text before the first `<`.
pub open spec fn spec_strip_generics(s: Seq<char>) -> Seq<char> {
    match first_lt(s, 0) {
        Some(i) => s.subrange(0, i),
        None => s,
    }
}

proof fn lemma_first_lt_range(s: Seq<char>, i: int)
    requires
        0 <= i,
    ensures
        first_lt(s, i) matches Some(j) ==> i <= j < s.len() && s[j] == '<',
        first_lt(s, i) is None ==> forall|k: int| i <= k < s.len() ==> s[k] != '<',
    decreases s.len() - i,
{
    if i < s.len() {
        lemma_first_lt_range(s, i + 1);
    }
}

/// The stripped name is a prefix of the name with no `<` in it.
pub proof fn lemma_strip_generics(s: Seq<char>)
    ensures
        spec_strip_generics(s).len() <= s.len(),
        spec_strip_generics(s) == s.subrange(0, spec_strip_generics(s).len() as int),
        forall|k: int| 0 <= k < spec_strip_generics(s).len() ==> spec_strip_generics(s)[k] != '<',
{
    lemma_first_lt_range(s, 0);
    match first_lt(s, 0) {
        Some(i) => {
            assert forall|k: int| 0 <= k < i implies s[k] != '<' by {
                lemma_first_lt_before(s, 0, k);
            }
        },
        None => {
            assert(s.subrange(0, s.len() as int) =~= s);
        },
    }
}

proof fn lemma_first_lt_before(s: Seq<char>, i: int, k: int)
    requires
        0 <= i <= k < s.len(),
        first_lt(s, i) matches Some(j) && k < j,
    ensures
        s[k] != '<',
    decreases k - i,
{
    if i < k {
        lemma_first_lt_before(s, i + 1, k);
    }
}

/// Strip generic parameters from a type name: `BinaryWalker<'a>` -> `BinaryWalker`.
pub fn strip_generics(name: &str) -> (res: String)
    ensures
        res@ == spec_strip_generics(name@),
{
    let n = name.unicode_len();
    let mut i: usize = 0;
    while i < n && name.get_char(i) != '<'
        invariant
            n == name@.len(),
            i <= n,
            first_lt(name@, 0) == first_lt(name@, i as int),
        decreases n - i,
    {
        i = i + 1;
    }
    if i == n {
        assert(name@.subrange(0, n as int) =~= name@);
    }
    name.substring_char(0, i).to_owned()
}

pub open spec fn is_rust_container(k: Seq<char>) -> bool {
    k == "impl_item"@ || k == "trait_item"@ || k == "struct_item"@ || k == "enum_item"@ || k
        == "mod_item"@ || k == "union_item"@
}

pub open spec fn is_cpp_container(k: Seq<char>) -> bool {
    k == "class_specifier"@ || k == "struct_specifier"@ || k == "namespace_definition"@ || k
        == "union_specifier"@
}

pub open spec fn is_ts_container(k: Seq<char>) -> bool {
    k == "class_declaration"@ || k == "abstract_class_declaration"@ || k == "interface_declaration"@
        || k == "internal_module"@ || k == "module"@
}

pub open spec fn is_proto_container(k: Seq<char>) -> bool {
    k == "message"@ || k == "service"@ || k == "oneof"@
}

/// The kind that wraps a definition, whose name then comes from inside it.
pub open spec fn transparent_kind(lang: Lang) -> Option<Seq<char>> {
    match lang {
        Lang::Cpp => Some("template_declaration"@),
        Lang::Typescript | Lang::Tsx => Some("export_statement"@),
        Lang::Python => Some("decorated_definition"@),
        _ => None,
    }
}

/// The type name that a container (impl, class, trait, ...) defines.
pub open spec fn container_name(n: SyntaxNode, src: Seq<u8>, lang: Lang) -> Option<Seq<char>>
    decreases n, 1int,
{
    let k = n.kind@;
    if transparent_kind(lang) == Some(k) {
        first_container_name(n.children@, src, lang, 0)
    } else {
        match lang {
            Lang::Rust => if is_rust_container(k) {
                match text_of_opt(field_or(n, "type"@, "name"@), src) {
                    Some(t) => Some(spec_strip_generics(t)),
                    None => None,
                }
            } else {
                None
            },
            Lang::Cpp => if is_cpp_container(k) {
                field_text(n, "name"@, src)
            } else {
                None
            },
            Lang::Typescript | Lang::Tsx => if is_ts_container(k) {
                field_text(n, "name"@, src)
            } else {
                None
            },
            Lang::Python => if k == "class_definition"@ {
                field_text(n, "name"@, src)
            } else {
                None
            },
            Lang::Protobuf => if is_proto_container(k) {
                text_of_opt(
                    match n.field_child("name"@) {
                        Some(c) => Some(c),
                        None => first_in_set(n.children@, KindSet::ProtoContainerName, 0),
                    },
                    src,
                )
            } else {
                None
            },
        }
    }
}

/// The first container name among `cs[i..]`.
pub open spec fn first_container_name(cs: Seq<SyntaxNode>, src: Seq<u8>, lang: Lang, i: int) -> Option<Seq<char>>
    decreases cs, cs.len() - i,
{
    if i < 0 || i >= cs.len() {
        None
    } else {
        match container_name(cs[i], src, lang) {
            Some(t) => Some(t),
            None => first_container_name(cs, src, lang, i + 1),
        }
    }
}

pub open spec fn is_rust_definition(k: Seq<char>) -> bool {
    k == "function_item"@ || k == "struct_item"@ || k == "enum_item"@ || k == "trait_item"@ || k
        == "type_item"@ || k == "const_item"@ || k == "static_item"@ || k == "mod_item"@ || k
        == "macro_definition"@ || k == "union_item"@
}

pub open spec fn is_cpp_definition(k: Seq<char>) -> bool {
    k == "function_definition"@ || k == "class_specifier"@ || k == "struct_specifier"@ || k
        == "enum_specifier"@ || k == "union_specifier"@ || k == "concept_definition"@ || k
        == "namespace_definition"@
}

pub open spec fn is_ts_definition(k: Seq<char>) -> bool {
    k == "function_declaration"@ || k == "generator_function_declaration"@ || k
        == "class_declaration"@ || k == "abstract_class_declaration"@ || k == "interface_declaration"@
        || k == "enum_declaration"@ || k == "type_alias_declaration"@ || k == "method_definition"@
        || k == "internal_module"@ || k == "module"@
}

pub open spec fn is_python_import(k: Seq<char>) -> bool {
    k == "import_statement"@ || k == "import_from_statement"@ || k == "future_import_statement"@
}

pub open spec fn is_proto_definition(k: Seq<char>) -> bool {
    k == "message"@ || k == "enum"@ || k == "service"@ || k == "rpc"@ || k == "oneof"@ || k
        == "field"@
}

/// The innermost declared name, or `<unknown>`.
pub open spec fn innermost_name(d: SyntaxNode, src: Seq<u8>) -> Seq<char> {
    or_unknown(innermost(d).text(src))
}

/// The name that a definition node is addressed by.
pub open spec fn definition_name(n: SyntaxNode, src: Seq<u8>, lang: Lang) -> Option<Seq<char>>
    decreases n, 1int,
{
    let k = n.kind@;
    match lang {
        Lang::Rust => if is_rust_definition(k) {
            field_text(n, "name"@, src)
        } else if k == "impl_item"@ {
            field_text(n, "type"@, src)
        } else if k == "use_declaration"@ {
            field_text(n, "argument"@, src)
        } else if k == "field_declaration"@ {
            text_of_opt(field_or(n, "name"@, "type"@), src)
        } else {
            None
        },
        Lang::Cpp => if is_cpp_definition(k) {
            match field_or(n, "name"@, "declarator"@) {
                Some(d) => Some(innermost_name(d, src)),
                None => None,
            }
        } else if k == "field_declaration"@ {
            match n.field_child("declarator"@) {
                Some(d) => Some(innermost_name(d, src)),
                None => None,
            }
        } else if k == "using_declaration"@ || k == "friend_declaration"@ {
            text_of_opt(first_named(n.children@, 0), src)
        } else if k == "preproc_include"@ {
            field_text(n, "path"@, src)
        } else {
            None
        },
        Lang::Typescript | Lang::Tsx => if is_ts_definition(k) {
            field_text(n, "name"@, src)
        } else if k == "public_field_definition"@ {
            text_of_opt(field_or(n, "name"@, "property"@), src)
        } else if k == "import_statement"@ || k == "import_require_clause"@ {
            field_text(n, "source"@, src)
        } else {
            None
        },
        Lang::Python => if k == "function_definition"@ || k == "class_definition"@ || k
            == "type_alias_statement"@ {
            field_text(n, "name"@, src)
        } else if is_python_import(k) {
            text_of_opt(
                match n.field_child("module_name"@) {
                    Some(c) => Some(c),
                    None => first_in_set(n.children@, KindSet::PythonImportName, 0),
                },
                src,
            )
        } else if k == "decorated_definition"@ {
            first_definition_name(n.children@, src, lang, 0)
        } else {
            None
        },
        Lang::Protobuf => if is_proto_definition(k) {
            text_of_opt(
                match n.field_child("name"@) {
                    Some(c) => Some(c),
                    None => first_in_set(n.children@, KindSet::ProtoDefinitionName, 0),
                },
                src,
            )
        } else {
            None
        },
    }
}

/// The first definition name among `cs[i..]`.
pub open spec fn first_definition_name(cs: Seq<SyntaxNode>, src: Seq<u8>, lang: Lang, i: int) -> Option<Seq<char>>
    decreases cs, cs.len() - i,
{
    if i < 0 || i >= cs.len() {
        None
    } else {
        match definition_name(cs[i], src, lang) {
            Some(t) => Some(t),
            None => first_definition_name(cs, src, lang, i + 1),
        }
    }
}

/// Nodes whose children are searched as if they were the parent's.
pub open spec fn spec_is_wrapper_node(n: SyntaxNode, lang: Lang) -> bool {
    let k = n.kind@;
    match lang {
        Lang::Typescript | Lang::Tsx => k == "export_statement"@,
        Lang::Python => k == "decorated_definition"@,
        Lang::Cpp => k == "template_declaration"@ || k == "linkage_specification"@ || k
            == "preproc_ifdef"@ || k == "preproc_if"@ || k == "declaration"@ || k
            == "field_declaration"@ || k == "ERROR"@,
        Lang::Rust => k == "foreign_mod_item"@,
        Lang::Protobuf => false,
    }
}

// ---------------------------------------------------------------- searches

/// The first definition called `name` among `cs[i..]`, looking into body
/// containers and wrappers depth first.
pub open spec fn named_from(cs: Seq<SyntaxNode>, src: Seq<u8>, lang: Lang, name: Seq<char>, i: int) -> Option<SyntaxNode>
    decreases cs, cs.len() - i,
{
    if i < 0 || i >= cs.len() {
        None
    } else {
        let c = cs[i];
        if definition_name(c, src, lang) == Some(name) {
            Some(c)
        } else if (spec_is_body_container(c.kind@) || spec_is_wrapper_node(c, lang)) && named_from(
            c.children@,
            src,
            lang,
            name,
            0,
        ) is Some {
            named_from(c.children@, src, lang, name, 0)
        } else {
            named_from(cs, src, lang, name, i + 1)
        }
    }
}

/// The definition called `name` found from `parent`.
pub open spec fn spec_find_named_child(parent: SyntaxNode, src: Seq<u8>, lang: Lang, name: Seq<char>) -> Option<SyntaxNode> {
    named_from(parent.children@, src, lang, name, 0)
}

// ---------------------------------------------------------------- `Type+Trait` containers

/// The index of the first `+` in `s` at or after `i`.
pub open spec fn first_plus(s: Seq<char>, i: int) -> Option<int>
    decreases s.len() - i,
{
    if i < 0 || i >= s.len() {
        None
    } else if s[i] == '+' {
        Some(i)
    } else {
        first_plus(s, i + 1)
    }
}

proof fn lemma_first_plus_range(s: Seq<char>, i: int)
    requires
        0 <= i,
    ensures
        first_plus(s, i) matches Some(j) ==> i <= j < s.len(),
    decreases s.len() - i,
{
    if i < s.len() && s[i] != '+' {
        lemma_first_plus_range(s, i + 1);
    }
}

/// Whether the trait path `t` (generics aside) names trait `tr`: it is
/// `tr`, or ends in `::tr`.
pub open spec fn trait_matches(t: Seq<char>, tr: Seq<char>) -> bool {
    spec_strip_generics(t) == tr || ends_with(spec_strip_generics(t), "::"@ + tr)
}

/// Whether one of `cs[i..]`, or one of their children, has the text `tr`.
pub open spec fn names_from(cs: Seq<SyntaxNode>, src: Seq<u8>, tr: Seq<char>, i: int) -> bool
    decreases cs, cs.len() - i,
{
    if i < 0 || i >= cs.len() {
        false
    } else {
        cs[i].text(src) == Some(tr) || child_names_from(cs[i].children@, src, tr, 0) || names_from(
            cs,
            src,
            tr,
            i + 1,
        )
    }
}

/// Whether one of `cs[i..]` has the text `tr`.
pub open spec fn child_names_from(cs: Seq<SyntaxNode>, src: Seq<u8>, tr: Seq<char>, i: int) -> bool
    decreases cs.len() - i,
{
    if i < 0 || i >= cs.len() {
        false
    } else {
        cs[i].text(src) == Some(tr) || child_names_from(cs, src, tr, i + 1)
    }
}

/// The node kinds that list the bases of a class: TypeScript's heritage,
/// C++'s base class clause, Python's superclass list.
pub open spec fn is_heritage_kind(k: Seq<char>) -> bool {
    k == "class_heritage"@ || k == "base_class_clause"@ || k == "argument_list"@
}

/// Whether one of `cs[i..]` lists bases and names `tr` among them.
pub open spec fn heritage_from(cs: Seq<SyntaxNode>, src: Seq<u8>, tr: Seq<char>, i: int) -> bool
    decreases cs.len() - i,
{
    if i < 0 || i >= cs.len() {
        false
    } else {
        (is_heritage_kind(cs[i].kind@) && names_from(cs[i].children@, src, tr, 0)) || heritage_from(
            cs,
            src,
            tr,
            i + 1,
        )
    }
}

/// Whether container `c` is an implementation of trait or interface `tr`:
/// a Rust impl of that trait, or a class that lists it among its bases.
pub open spec fn implements(c: SyntaxNode, src: Seq<u8>, lang: Lang, tr: Seq<char>) -> bool {
    match lang {
        Lang::Rust => c.kind@ == "impl_item"@ && match field_text(c, "trait"@, src) {
            Some(t) => trait_matches(t, tr),
            None => false,
        },
        Lang::Protobuf => false,
        _ => heritage_from(c.children@, src, tr, 0),
    }
}

/// Whether container `c` is the one an address part names: `Type`, or
/// `Type+Trait` for the implementation of `Trait` for `Type`.
pub open spec fn container_matches(c: SyntaxNode, src: Seq<u8>, lang: Lang, tname: Seq<char>) -> bool {
    match first_plus(tname, 0) {
        None => container_name(c, src, lang) == Some(tname),
        Some(k) => container_name(c, src, lang) == Some(tname.subrange(0, k)) && implements(
            c,
            src,
            lang,
            tname.subrange(k + 1, tname.len() as int),
        ),
    }
}

fn any_child_named(node: &SyntaxNode, source: &str, tr: &str) -> (res: bool)
    ensures
        res == child_names_from(node.children@, bytes_of(source@), tr@, 0),
{
    let ghost cs = node.children@;
    let ghost src = bytes_of(source@);
    let n = node.children.len();
    let mut i: usize = 0;
    while i < n
        invariant
            n == cs.len(),
            cs == node.children@,
            src == bytes_of(source@),
            i <= n,
            child_names_from(cs, src, tr@, 0) == child_names_from(cs, src, tr@, i as int),
        decreases n - i,
    {
        let named = match node.children[i].text_in(source) {
            Some(t) => str_eq(t.as_str(), tr),
            None => false,
        };
        if named {
            return true;
        }
        i = i + 1;
    }
    false
}

fn lists_name(node: &SyntaxNode, source: &str, tr: &str) -> (res: bool)
    ensures
        res == names_from(node.children@, bytes_of(source@), tr@, 0),
{
    let ghost cs = node.children@;
    let ghost src = bytes_of(source@);
    let n = node.children.len();
    let mut i: usize = 0;
    while i < n
        invariant
            n == cs.len(),
            cs == node.children@,
            src == bytes_of(source@),
            i <= n,
            names_from(cs, src, tr@, 0) == names_from(cs, src, tr@, i as int),
        decreases n - i,
    {
        let c = &node.children[i];
        let named = match c.text_in(source) {
            Some(t) => str_eq(t.as_str(), tr),
            None => false,
        };
        if named || any_child_named(c, source, tr) {
            return true;
        }
        i = i + 1;
    }
    false
}

fn lists_base(node: &SyntaxNode, source: &str, tr: &str) -> (res: bool)
    ensures
        res == heritage_from(node.children@, bytes_of(source@), tr@, 0),
{
    let ghost cs = node.children@;
    let ghost src = bytes_of(source@);
    let n = node.children.len();
    let mut i: usize = 0;
    while i < n
        invariant
            n == cs.len(),
            cs == node.children@,
            src == bytes_of(source@),
            i <= n,
            heritage_from(cs, src, tr@, 0) == heritage_from(cs, src, tr@, i as int),
        decreases n - i,
    {
        let c = &node.children[i];
        let heritage = c.is_kind("class_heritage") || c.is_kind("base_class_clause") || c.is_kind("argument_list");
        if heritage && lists_name(c, source, tr) {
            return true;
        }
        i = i + 1;
    }
    false
}

/// Whether the trait path `t` names trait `tr`.
fn trait_path_matches(t: &str, tr: &str) -> (res: bool)
    ensures
        res == trait_matches(t@, tr@),
{
    let base = strip_generics(t);
    if str_eq(base.as_str(), tr) {
        return true;
    }
    let mut suffix = "::".to_owned();
    suffix.append(tr);
    proof {
        reveal_strlit("::");
    }
    text_ends_with(base.as_str(), suffix.as_str())
}

fn implements_exec(c: &SyntaxNode, source: &str, lang: Lang, tr: &str) -> (res: bool)
    ensures
        res == implements(*c, bytes_of(source@), lang, tr@),
{
    match lang {
        Lang::Rust => {
            if !c.is_kind("impl_item") {
                return false;
            }
            match extract_child_text(c, "trait", source) {
                Some(t) => trait_path_matches(t.as_str(), tr),
                None => false,
            }
        },
        Lang::Protobuf => false,
        _ => lists_base(c, source, tr),
    }
}

/// Whether container `c` is the one the address part `tname` names.
fn container_matches_exec(c: &SyntaxNode, source: &str, lang: Lang, tname: &str) -> (res: bool)
    ensures
        res == container_matches(*c, bytes_of(source@), lang, tname@),
{
    let n = tname.unicode_len();
    let mut k: usize = 0;
    while k < n && tname.get_char(k) != '+'
        invariant
            n == tname@.len(),
            k <= n,
            first_plus(tname@, 0) == first_plus(tname@, k as int),
        decreases n - k,
    {
        k = k + 1;
    }
    let name = get_container_type_name(c, source, lang);
    if k == n {
        return match name {
            Some(t) => str_eq(t.as_str(), tname),
            None => false,
        };
    }
    let base = tname.substring_char(0, k);
    let tr = tname.substring_char(k + 1, n);
    match name {
        Some(t) => str_eq(t.as_str(), base) && implements_exec(c, source, lang, tr),
        None => false,
    }
}

/// The member `member` of the first container, in document order among
/// `cs[i..]` and their descendants, that defines `tname` and has it.
pub open spec fn member_from(
    cs: Seq<SyntaxNode>,
    src: Seq<u8>,
    lang: Lang,
    tname: Seq<char>,
    member: Seq<char>,
    i: int,
) -> Option<SyntaxNode>
    decreases cs, cs.len() - i,
{
    if i < 0 || i >= cs.len() {
        None
    } else {
        let c = cs[i];
        let here = if container_matches(c, src, lang, tname) {
            spec_find_named_child(c, src, lang, member)
        } else {
            None
        };
        if here is Some {
            here
        } else if member_from(c.children@, src, lang, tname, member, 0) is Some {
            member_from(c.children@, src, lang, tname, member, 0)
        } else {
            member_from(cs, src, lang, tname, member, i + 1)
        }
    }
}

} // verus!

verus! {

fn is_transparent(node: &SyntaxNode, lang: Lang) -> (res: bool)
    ensures
        res == (transparent_kind(lang) == Some(node.kind@)),
{
    match lang {
        Lang::Cpp => node.is_kind("template_declaration"),
        Lang::Typescript | Lang::Tsx => node.is_kind("export_statement"),
        Lang::Python => node.is_kind("decorated_definition"),
        _ => false,
    }
}

/// Get the type name that a container (impl, class, trait) defines.
pub fn get_container_type_name(node: &SyntaxNode, source: &str, lang: Lang) -> (res: Option<String>)
    ensures
        crate::ops::outline::opt_text(res) == container_name(*node, bytes_of(source@), lang),
    decreases node, 1int,
{
    let ghost src = bytes_of(source@);
    if is_transparent(node, lang) {
        let ghost cs = node.children@;
        let n = node.children.len();
        let mut i: usize = 0;
        while i < n
            invariant
                n == cs.len(),
                cs == node.children@,
                src == bytes_of(source@),
                i <= n,
                first_container_name(cs, src, lang, 0) == first_container_name(cs, src, lang, i as int),
                container_name(*node, src, lang) == first_container_name(cs, src, lang, 0),
            decreases n - i,
        {
            match get_container_type_name(&node.children[i], source, lang) {
                Some(t) => return Some(t),
                None => {},
            }
            i = i + 1;
        }
        return None;
    }
    match lang {
        Lang::Rust => {
            if node.is_kind("impl_item") || node.is_kind("trait_item") || node.is_kind("struct_item")
                || node.is_kind("enum_item") || node.is_kind("mod_item") || node.is_kind("union_item") {
                match text_of_node_opt(child_by_field_or(node, "type", "name"), source) {
                    Some(t) => Some(strip_generics(t.as_str())),
                    None => None,
                }
            } else {
                None
            }
        },
        Lang::Cpp => {
            if node.is_kind("class_specifier") || node.is_kind("struct_specifier") || node.is_kind(
                "namespace_definition",
            ) || node.is_kind("union_specifier") {
                extract_child_text(node, "name", source)
            } else {
                None
            }
        },
        Lang::Typescript | Lang::Tsx => {
            if node.is_kind("class_declaration") || node.is_kind("abstract_class_declaration")
                || node.is_kind("interface_declaration") || node.is_kind("internal_module")
                || node.is_kind("module") {
                extract_child_text(node, "name", source)
            } else {
                None
            }
        },
        Lang::Python => {
            if node.is_kind("class_definition") {
                extract_child_text(node, "name", source)
            } else {
                None
            }
        },
        Lang::Protobuf => {
            if node.is_kind("message") || node.is_kind("service") || node.is_kind("oneof") {
                let c = match node.child_by_field_name("name") {
                    Some(c) => Some(c),
                    None => find_first_in_set(node, &KindSet::ProtoContainerName),
                };
                text_of_node_opt(c, source)
            } else {
                None
            }
        },
    }
}

/// The name that a definition node is addressed by.
pub fn get_definition_name(node: &SyntaxNode, source: &str, lang: Lang) -> (res: Option<String>)
    ensures
        crate::ops::outline::opt_text(res) == definition_name(*node, bytes_of(source@), lang),
    decreases node, 1int,
{
    let ghost src = bytes_of(source@);
    match lang {
        Lang::Rust => {
            if node.is_kind("function_item") || node.is_kind("struct_item") || node.is_kind("enum_item")
                || node.is_kind("trait_item") || node.is_kind("type_item") || node.is_kind("const_item")
                || node.is_kind("static_item") || node.is_kind("mod_item") || node.is_kind(
                "macro_definition",
            ) || node.is_kind("union_item") {
                extract_child_text(node, "name", source)
            } else if node.is_kind("impl_item") {
                extract_child_text(node, "type", source)
            } else if node.is_kind("use_declaration") {
                extract_child_text(node, "argument", source)
            } else if node.is_kind("field_declaration") {
                text_of_node_opt(child_by_field_or(node, "name", "type"), source)
            } else {
                None
            }
        },
        Lang::Cpp => {
            if node.is_kind("function_definition") || node.is_kind("class_specifier") || node.is_kind(
                "struct_specifier",
            ) || node.is_kind("enum_specifier") || node.is_kind("union_specifier") || node.is_kind(
                "concept_definition",
            ) || node.is_kind("namespace_definition") {
                match child_by_field_or(node, "name", "declarator") {
                    Some(d) => Some(extract_innermost_name(d, source)),
                    None => None,
                }
            } else if node.is_kind("field_declaration") {
                match node.child_by_field_name("declarator") {
                    Some(d) => Some(extract_innermost_name(d, source)),
                    None => None,
                }
            } else if node.is_kind("using_declaration") || node.is_kind("friend_declaration") {
                text_of_node_opt(find_first_named(node), source)
            } else if node.is_kind("preproc_include") {
                extract_child_text(node, "path", source)
            } else {
                None
            }
        },
        Lang::Typescript | Lang::Tsx => {
            if node.is_kind("function_declaration") || node.is_kind("generator_function_declaration")
                || node.is_kind("class_declaration") || node.is_kind("abstract_class_declaration")
                || node.is_kind("interface_declaration") || node.is_kind("enum_declaration")
                || node.is_kind("type_alias_declaration") || node.is_kind("method_definition")
                || node.is_kind("internal_module") || node.is_kind("module") {
                extract_child_text(node, "name", source)
            } else if node.is_kind("public_field_definition") {
                text_of_node_opt(child_by_field_or(node, "name", "property"), source)
            } else if node.is_kind("import_statement") || node.is_kind("import_require_clause") {
                extract_child_text(node, "source", source)
            } else {
                None
            }
        },
        Lang::Python => {
            if node.is_kind("function_definition") || node.is_kind("class_definition") || node.is_kind(
                "type_alias_statement",
            ) {
                extract_child_text(node, "name", source)
            } else if node.is_kind("import_statement") || node.is_kind("import_from_statement")
                || node.is_kind("future_import_statement") {
                let c = match node.child_by_field_name("module_name") {
                    Some(c) => Some(c),
                    None => find_first_in_set(node, &KindSet::PythonImportName),
                };
                text_of_node_opt(c, source)
            } else if node.is_kind("decorated_definition") {
                let ghost cs = node.children@;
                let n = node.children.len();
                let mut i: usize = 0;
                while i < n
                    invariant
                        n == cs.len(),
                        cs == node.children@,
                        src == bytes_of(source@),
                        i <= n,
                        first_definition_name(cs, src, lang, 0) == first_definition_name(cs, src, lang, i as int),
                        definition_name(*node, src, lang) == first_definition_name(cs, src, lang, 0),
                    decreases n - i,
                {
                    match get_definition_name(&node.children[i], source, lang) {
                        Some(t) => return Some(t),
                        None => {},
                    }
                    i = i + 1;
                }
                None
            } else {
                None
            }
        },
        Lang::Protobuf => {
            if node.is_kind("message") || node.is_kind("enum") || node.is_kind("service") || node.is_kind(
                "rpc",
            ) || node.is_kind("oneof") || node.is_kind("field") {
                let c = match node.child_by_field_name("name") {
                    Some(c) => Some(c),
                    None => find_first_in_set(node, &KindSet::ProtoDefinitionName),
                };
                text_of_node_opt(c, source)
            } else {
                None
            }
        },
    }
}

pub fn is_wrapper_node(node: &SyntaxNode, lang: Lang) -> (res: bool)
    ensures
        res == spec_is_wrapper_node(*node, lang),
{
    match lang {
        Lang::Typescript | Lang::Tsx => node.is_kind("export_statement"),
        Lang::Python => node.is_kind("decorated_definition"),
        Lang::Cpp => node.is_kind("template_declaration") || node.is_kind("linkage_specification")
            || node.is_kind("preproc_ifdef") || node.is_kind("preproc_if") || node.is_kind("declaration")
            || node.is_kind("field_declaration") || node.is_kind("ERROR"),
        Lang::Rust => node.is_kind("foreign_mod_item"),
        Lang::Protobuf => false,
    }
}

/// Whether `node` defines `name`.
fn defines(node: &SyntaxNode, source: &str, lang: Lang, name: &str) -> (res: bool)
    ensures
        res == (definition_name(*node, bytes_of(source@), lang) == Some(name@)),
{
    match get_definition_name(node, source, lang) {
        Some(dn) => str_eq(dn.as_str(), name),
        None => false,
    }
}

/// The definition called `name` below `parent`: a child, or a definition
/// inside a child that is a body container or a wrapper, depth first.
pub fn find_named_child<'a>(parent: &'a SyntaxNode, source: &str, lang: Lang, name: &str) -> (res: Option<&'a SyntaxNode>)
    ensures
        match res {
            Some(c) => spec_find_named_child(*parent, bytes_of(source@), lang, name@) == Some(*c),
            None => spec_find_named_child(*parent, bytes_of(source@), lang, name@) is None,
        },
    decreases parent,
{
    let ghost src = bytes_of(source@);
    let ghost cs = parent.children@;
    let n = parent.children.len();
    let mut i: usize = 0;
    while i < n
        invariant
            n == cs.len(),
            cs == parent.children@,
            src == bytes_of(source@),
            i <= n,
            named_from(cs, src, lang, name@, 0) == named_from(cs, src, lang, name@, i as int),
        decreases n - i,
    {
        let c = &parent.children[i];
        if defines(c, source, lang, name) {
            return Some(c);
        }
        if is_body_container(c.kind) || is_wrapper_node(c, lang) {
            match find_named_child(c, source, lang, name) {
                Some(found) => return Some(found),
                None => {},
            }
        }
        i = i + 1;
    }
    None
}

/// The member `member` of the first container defining `tname` that has it,
/// among the descendants of `node` in document order.
pub fn find_member_in_containers<'a>(
    node: &'a SyntaxNode,
    source: &str,
    lang: Lang,
    tname: &str,
    member: &str,
) -> (res: Option<&'a SyntaxNode>)
    ensures
        match res {
            Some(c) => member_from(node.children@, bytes_of(source@), lang, tname@, member@, 0) == Some(*c),
            None => member_from(node.children@, bytes_of(source@), lang, tname@, member@, 0) is None,
        },
    decreases node,
{
    let ghost src = bytes_of(source@);
    let ghost cs = node.children@;
    let n = node.children.len();
    let mut i: usize = 0;
    while i < n
        invariant
            n == cs.len(),
            cs == node.children@,
            src == bytes_of(source@),
            i <= n,
            member_from(cs, src, lang, tname@, member@, 0) == member_from(cs, src, lang, tname@, member@, i as int),
        decreases n - i,
    {
        let c = &node.children[i];
        let is_container = container_matches_exec(c, source, lang, tname);
        if is_container {
            match find_named_child(c, source, lang, member) {
                Some(found) => return Some(found),
                None => {},
            }
        }
        match find_member_in_containers(c, source, lang, tname, member) {
            Some(found) => return Some(found),
            None => {},
        }
        i = i + 1;
    }
    None
}

} // verus!

verus! {

// ---------------------------------------------------------------- addresses

/// The index of the first `:` of `s` at or after `i`.
pub open spec fn first_colon(s: Seq<char>, i: int) -> Option<int>
    decreases s.len() - i,
{
    if i < 0 || i >= s.len() {
        None
    } else if s[i] == ':' {
        Some(i)
    } else {
        first_colon(s, i + 1)
    }
}

proof fn lemma_first_colon_range(s: Seq<char>, i: int)
    requires
        0 <= i,
    ensures
        first_colon(s, i) matches Some(j) ==> i <= j < s.len(),
    decreases s.len() - i,
{
    if i < s.len() && s[i] != ':' {
        lemma_first_colon_range(s, i + 1);
    }
}

/// A line range address `start:end`: two numbers around the first colon.
pub open spec fn line_range(addr: Seq<char>) -> Option<(nat, nat)> {
    match first_colon(addr, 0) {
        None => None,
        Some(i) => match (
            parse_usize(addr.subrange(0, i)),
            parse_usize(addr.subrange(i + 1, addr.len() as int)),
        ) {
            (Some(a), Some(b)) => Some((a, b)),
            _ => None,
        },
    }
}

proof fn lemma_first_colon_skips_digits(s: Seq<char>, i: int, k: int)
    requires
        0 <= i <= k < s.len(),
        s[k] == ':',
        forall|j: int| i <= j < k ==> is_digit(#[trigger] s[j]),
    ensures
        first_colon(s, i) == Some(k),
    decreases k - i,
{
    if i < k {
        assert(is_digit(s[i]));
        lemma_first_colon_skips_digits(s, i + 1, k);
    }
}

/// A line range written as `{start}:{end}`, the form in which the outline
/// shows an item's lines, is read back as that range.
pub proof fn lemma_line_range_roundtrip(start: nat, end: nat)
    requires
        start <= usize::MAX,
        end <= usize::MAX,
    ensures
        line_range(decimal(start) + ":"@ + decimal(end)) == Some((start, end)),
{
    reveal_strlit(":");
    let a = decimal(start);
    let b = decimal(end);
    let addr = a + ":"@ + b;
    lemma_decimal_digits(start);
    lemma_parse_decimal_roundtrip(start);
    lemma_parse_decimal_roundtrip(end);
    assert forall|j: int| 0 <= j < a.len() implies is_digit(#[trigger] addr[j]) by {
        assert(addr[j] == a[j]);
    }
    lemma_first_colon_skips_digits(addr, 0, a.len() as int);
    assert(addr.subrange(0, a.len() as int) =~= a);
    assert(addr.subrange(a.len() as int + 1, addr.len() as int) =~= b);
}

/// A line range that reaches past the last line asks for the lines up to
/// the last: `start:end` selects what `start:lines` selects when
/// `end >= lines`.
pub proof fn lemma_line_range_clamped(src: Seq<u8>, start: int, end: int)
    requires
        range_fits(start, end, source_lines(src).len() as int),
        end >= source_lines(src).len(),
    ensures
        range_fits(start, source_lines(src).len() as int, source_lines(src).len() as int),
        selected_lines(src, start, end) == selected_lines(src, start, source_lines(src).len() as int),
        clamp_end(end, source_lines(src).len() as int) == clamp_end(
            source_lines(src).len() as int,
            source_lines(src).len() as int,
        ),
{
}

/// The address as a line range, if it is one.
pub fn parse_line_range(address: &str) -> (res: Option<(usize, usize)>)
    ensures
        match res {
            Some((a, b)) => line_range(address@) == Some((a as nat, b as nat)),
            None => line_range(address@) is None,
        },
{
    let n = address.unicode_len();
    let mut i: usize = 0;
    while i < n && address.get_char(i) != ':'
        invariant
            n == address@.len(),
            i <= n,
            first_colon(address@, 0) == first_colon(address@, i as int),
        decreases n - i,
    {
        i = i + 1;
    }
    if i == n {
        return None;
    }
    let first = address.substring_char(0, i);
    let second = address.substring_char(i + 1, n);
    match (parse_decimal(first), parse_decimal(second)) {
        (Some(a), Some(b)) => Some((a, b)),
        _ => None,
    }
}

pub open spec fn texts(v: Seq<String>) -> Seq<Seq<char>> {
    v.map_values(|p: String| p@)
}

/// The pieces of `address` between its `::` separators.
pub fn split_address(address: &str) -> (res: Vec<String>)
    ensures
        texts(res@) == split_double_colon(address@),
{
    let ghost s = address@;
    let n = address.unicode_len();
    let mut parts: Vec<String> = Vec::new();
    let mut i: usize = 0;
    let mut j: usize = 0;
    assert(s.subrange(0, n as int) =~= s);
    while j < n
        invariant
            n == s.len(),
            s == address@,
            i <= j <= n,
            texts(parts@) + split_double_colon(s.subrange(i as int, n as int)) == split_double_colon(s),
            first_double_colon(s.subrange(i as int, n as int), 0) == first_double_colon(
                s.subrange(i as int, n as int),
                (j - i) as int,
            ),
        decreases n - j,
    {
        let ghost rest = s.subrange(i as int, n as int);
        if j + 1 < n && address.get_char(j) == ':' && address.get_char(j + 1) == ':' {
            assert(rest[j - i] == ':' && rest[j - i + 1] == ':');
            assert(first_double_colon(rest, 0) == Some((j - i) as int));
            let piece = address.substring_char(i, j).to_owned();
            let ghost prev = parts@;
            parts.push(piece);
            assert(rest.subrange(0, (j - i) as int) =~= s.subrange(i as int, j as int));
            assert(rest.subrange((j - i) + 2, rest.len() as int) =~= s.subrange(j + 2, n as int));
            assert(texts(parts@) =~= texts(prev).push(piece@));
            assert(texts(prev) + split_double_colon(rest) =~= texts(parts@) + split_double_colon(
                s.subrange(j + 2, n as int),
            ));
            i = j + 2;
            j = j + 2;
        } else {
            j = j + 1;
        }
    }
    let ghost rest = s.subrange(i as int, n as int);
    assert(first_double_colon(rest, 0) is None);
    let piece = address.substring_char(i, n).to_owned();
    let ghost prev = parts@;
    parts.push(piece);
    assert(texts(parts@) =~= texts(prev).push(piece@));
    assert(texts(prev) + split_double_colon(rest) =~= texts(parts@));
    parts
}

/// What reading an address comes to.
pub enum ReadOutcome {
    Text(Seq<char>),
    BadLineRange(nat, nat, nat),
    EmptyAddress,
    NotFound(Seq<char>),
    NotFoundIn(Seq<char>, Seq<char>),
    BadText,
}

/// The node that the address parts name, or the outcome when there is none.
pub open spec fn address_target(root: SyntaxNode, src: Seq<u8>, lang: Lang, parts: Seq<Seq<char>>) -> Result<SyntaxNode, ReadOutcome> {
    if parts.len() == 0 {
        Err(ReadOutcome::EmptyAddress)
    } else if parts.len() == 1 {
        match spec_find_named_child(root, src, lang, parts[0]) {
            Some(n) => Ok(n),
            None => Err(ReadOutcome::NotFound(parts[0])),
        }
    } else {
        match member_from(root.children@, src, lang, parts[0], parts[1], 0) {
            Some(n) => Ok(n),
            None => Err(ReadOutcome::NotFoundIn(parts[1], join(parts, "::"@))),
        }
    }
}

/// The selected lines `start..=end` (one-based) of a source, `end` cut to the
/// last line.
pub open spec fn selected_lines(src: Seq<u8>, start: int, end: int) -> Seq<Seq<char>> {
    let ls = source_lines(src);
    ls.subrange(start - 1, if end < ls.len() { end } else { ls.len() as int })
}

/// Whether `start:end` selects lines of a source with `lines` lines.
pub open spec fn range_fits(start: int, end: int, lines: int) -> bool {
    start != 0 && start <= lines && end >= start
}

// ---------------------------------------------------------------- C++ containers

proof fn lemma_no_plus(s: Seq<char>, i: int)
    requires
        forall|q: int| 0 <= q < s.len() ==> s[q] != '+',
    ensures
        first_plus(s, i) is None,
    decreases s.len() - i,
{
    if 0 <= i < s.len() {
        lemma_no_plus(s, i + 1);
    }
}

/// In C++, a class, a struct, a union and a namespace alike are containers,
/// named by their `name` child: an address part that is that name (with no
/// `+Trait`) picks the container.
pub proof fn lemma_cpp_container(n: SyntaxNode, src: Seq<u8>, t: Seq<char>)
    requires
        n.kind@ == "class_specifier"@ || n.kind@ == "struct_specifier"@ || n.kind@ == "union_specifier"@
            || n.kind@ == "namespace_definition"@,
        field_text(n, "name"@, src) == Some(t),
        forall|q: int| 0 <= q < t.len() ==> t[q] != '+',
    ensures
        container_name(n, src, Lang::Cpp) == Some(t),
        container_matches(n, src, Lang::Cpp, t),
{
    assert(n.kind@ != "template_declaration"@) by {
        reveal_strlit("class_specifier");
        reveal_strlit("struct_specifier");
        reveal_strlit("union_specifier");
        reveal_strlit("namespace_definition");
        reveal_strlit("template_declaration");
        assert("class_specifier"@.len() != "template_declaration"@.len());
        assert("struct_specifier"@.len() != "template_declaration"@.len());
        assert("union_specifier"@.len() != "template_declaration"@.len());
        assert("namespace_definition"@[0] != "template_declaration"@[0]);
    }
    lemma_no_plus(t, 0);
}

/// In C++, when a container (class, struct, union or namespace) named `t`
/// holds a definition `m`, the search for `t::m` that reaches the container
/// gives that definition.
pub proof fn lemma_cpp_member_found(cs: Seq<SyntaxNode>, src: Seq<u8>, i: int, t: Seq<char>, m: Seq<char>)
    requires
        0 <= i < cs.len(),
        cs[i].kind@ == "class_specifier"@ || cs[i].kind@ == "struct_specifier"@ || cs[i].kind@
            == "union_specifier"@ || cs[i].kind@ == "namespace_definition"@,
        field_text(cs[i], "name"@, src) == Some(t),
        forall|q: int| 0 <= q < t.len() ==> t[q] != '+',
        spec_find_named_child(cs[i], src, Lang::Cpp, m) is Some,
    ensures
        member_from(cs, src, Lang::Cpp, t, m, i) == spec_find_named_child(cs[i], src, Lang::Cpp, m),
{
    lemma_cpp_container(cs[i], src, t);
}

/// In C++, reading `T::m` from a file whose first definition is a class,
/// struct, union or namespace `T` holding a definition `m` gives the text
/// of that definition.
pub proof fn lemma_cpp_read_member(root: SyntaxNode, src: Seq<u8>, addr: Seq<char>, t: Seq<char>, m: Seq<char>)
    requires
        line_range(addr) is None,
        split_double_colon(addr) == seq![t, m],
        root.children@.len() > 0,
        root.children@[0].kind@ == "class_specifier"@ || root.children@[0].kind@ == "struct_specifier"@
            || root.children@[0].kind@ == "union_specifier"@ || root.children@[0].kind@
            == "namespace_definition"@,
        field_text(root.children@[0], "name"@, src) == Some(t),
        forall|q: int| 0 <= q < t.len() ==> t[q] != '+',
        spec_find_named_child(root.children@[0], src, Lang::Cpp, m) is Some,
    ensures
        address_target(root, src, Lang::Cpp, seq![t, m]) == Ok::<SyntaxNode, ReadOutcome>(
            spec_find_named_child(root.children@[0], src, Lang::Cpp, m).unwrap(),
        ),
        spec_find_named_child(root.children@[0], src, Lang::Cpp, m).unwrap().text(src) matches Some(x)
            ==> read_outcome(root, src, Lang::Cpp, addr) == ReadOutcome::Text(x),
{
    lemma_cpp_member_found(root.children@, src, 0, t, m);
}

/// The Rust containers (impl, trait, struct, enum, mod, union) are named
/// by the text of their `type` child, else of their `name` child, generic
/// arguments cut off.
pub proof fn lemma_rust_containers(n: SyntaxNode, src: Seq<u8>, t: Seq<char>)
    requires
        n.kind@ == "impl_item"@ || n.kind@ == "trait_item"@ || n.kind@ == "struct_item"@
            || n.kind@ == "enum_item"@ || n.kind@ == "mod_item"@ || n.kind@ == "union_item"@,
        text_of_opt(field_or(n, "type"@, "name"@), src) == Some(t),
    ensures
        container_name(n, src, Lang::Rust) == Some(spec_strip_generics(t)),
{
}

/// The TypeScript containers (class, abstract class, interface, namespace,
/// module) are named by the text of their `name` child.
pub proof fn lemma_ts_containers(n: SyntaxNode, src: Seq<u8>, lang: Lang, t: Seq<char>)
    requires
        lang == Lang::Typescript || lang == Lang::Tsx,
        n.kind@ == "class_declaration"@ || n.kind@ == "abstract_class_declaration"@
            || n.kind@ == "interface_declaration"@ || n.kind@ == "internal_module"@
            || n.kind@ == "module"@,
        field_text(n, "name"@, src) == Some(t),
    ensures
        container_name(n, src, lang) == Some(t),
{
    reveal_strlit("class_declaration");
    reveal_strlit("abstract_class_declaration");
    reveal_strlit("interface_declaration");
    reveal_strlit("internal_module");
    reveal_strlit("module");
    reveal_strlit("export_statement");
    assert("class_declaration"@.len() != "export_statement"@.len());
    assert("abstract_class_declaration"@.len() != "export_statement"@.len());
    assert("interface_declaration"@.len() != "export_statement"@.len());
    assert("internal_module"@.len() != "export_statement"@.len());
    assert("module"@.len() != "export_statement"@.len());
}

/// A Python class is a container named by the text of its `name` child.
pub proof fn lemma_python_containers(n: SyntaxNode, src: Seq<u8>, t: Seq<char>)
    requires
        n.kind@ == "class_definition"@,
        field_text(n, "name"@, src) == Some(t),
    ensures
        container_name(n, src, Lang::Python) == Some(t),
{
    reveal_strlit("class_definition");
    reveal_strlit("decorated_definition");
    assert("class_definition"@.len() != "decorated_definition"@.len());
}

/// The Protobuf containers (message, service, oneof) are named by the text
/// of their `name` child.
pub proof fn lemma_proto_containers(n: SyntaxNode, src: Seq<u8>, t: Seq<char>)
    requires
        n.kind@ == "message"@ || n.kind@ == "service"@ || n.kind@ == "oneof"@,
        field_text(n, "name"@, src) == Some(t),
    ensures
        container_name(n, src, Lang::Protobuf) == Some(t),
{
}

/// Rust functions, structs, enums, traits, type aliases, consts, statics,
/// modules, macros and unions are addressed by the text of their `name` child.
pub proof fn lemma_rust_definitions(n: SyntaxNode, src: Seq<u8>, t: Seq<char>)
    requires
        n.kind@ == "function_item"@ || n.kind@ == "struct_item"@ || n.kind@ == "enum_item"@
            || n.kind@ == "trait_item"@ || n.kind@ == "type_item"@ || n.kind@ == "const_item"@
            || n.kind@ == "static_item"@ || n.kind@ == "mod_item"@
            || n.kind@ == "macro_definition"@ || n.kind@ == "union_item"@,
        field_text(n, "name"@, src) == Some(t),
    ensures
        definition_name(n, src, Lang::Rust) == Some(t),
{
}

/// TypeScript functions, generators, classes, interfaces, enums, type
/// aliases, methods, namespaces and modules are addressed by the text of
/// their `name` child.
pub proof fn lemma_ts_definitions(n: SyntaxNode, src: Seq<u8>, lang: Lang, t: Seq<char>)
    requires
        lang == Lang::Typescript || lang == Lang::Tsx,
        n.kind@ == "function_declaration"@ || n.kind@ == "generator_function_declaration"@
            || n.kind@ == "class_declaration"@ || n.kind@ == "abstract_class_declaration"@
            || n.kind@ == "interface_declaration"@ || n.kind@ == "enum_declaration"@
            || n.kind@ == "type_alias_declaration"@ || n.kind@ == "method_definition"@
            || n.kind@ == "internal_module"@ || n.kind@ == "module"@,
        field_text(n, "name"@, src) == Some(t),
    ensures
        definition_name(n, src, lang) == Some(t),
{
}

/// Python functions, classes and type aliases are addressed by the text of
/// their `name` child.
pub proof fn lemma_python_definitions(n: SyntaxNode, src: Seq<u8>, t: Seq<char>)
    requires
        n.kind@ == "function_definition"@ || n.kind@ == "class_definition"@
            || n.kind@ == "type_alias_statement"@,
        field_text(n, "name"@, src) == Some(t),
    ensures
        definition_name(n, src, Lang::Python) == Some(t),
{
}

/// Protobuf messages, enums, services, rpcs, oneofs and fields are
/// addressed by the text of their `name` child.
pub proof fn lemma_proto_definitions(n: SyntaxNode, src: Seq<u8>, t: Seq<char>)
    requires
        n.kind@ == "message"@ || n.kind@ == "enum"@ || n.kind@ == "service"@
            || n.kind@ == "rpc"@ || n.kind@ == "oneof"@ || n.kind@ == "field"@,
        field_text(n, "name"@, src) == Some(t),
    ensures
        definition_name(n, src, Lang::Protobuf) == Some(t),
{
}

/// C++ functions, classes, structs, enums, unions, concepts and namespaces
/// whose `name` child is a plain identifier are addressed by its text.
pub proof fn lemma_cpp_definitions(n: SyntaxNode, src: Seq<u8>, c: SyntaxNode)
    requires
        n.kind@ == "function_definition"@ || n.kind@ == "class_specifier"@
            || n.kind@ == "struct_specifier"@ || n.kind@ == "enum_specifier"@
            || n.kind@ == "union_specifier"@ || n.kind@ == "concept_definition"@
            || n.kind@ == "namespace_definition"@,
        n.field_child("name"@) == Some(c),
        c.kind@ == "identifier"@ || c.kind@ == "type_identifier"@ || c.kind@ == "namespace_identifier"@,
    ensures
        definition_name(n, src, Lang::Cpp) == Some(or_unknown(c.text(src))),
{
    reveal_strlit("identifier");
    reveal_strlit("type_identifier");
    reveal_strlit("namespace_identifier");
    reveal_strlit("function_declarator");
    reveal_strlit("qualified_identifier");
    reveal_strlit("pointer_declarator");
    reveal_strlit("reference_declarator");
    assert("identifier"@.len() != "function_declarator"@.len());
    assert("identifier"@.len() != "qualified_identifier"@.len());
    assert("identifier"@.len() != "pointer_declarator"@.len());
    assert("identifier"@.len() != "reference_declarator"@.len());
    assert("type_identifier"@.len() != "function_declarator"@.len());
    assert("type_identifier"@.len() != "qualified_identifier"@.len());
    assert("type_identifier"@.len() != "pointer_declarator"@.len());
    assert("type_identifier"@.len() != "reference_declarator"@.len());
    assert("namespace_identifier"@.len() != "function_declarator"@.len());
    assert("namespace_identifier"@[0] != "qualified_identifier"@[0]);
    assert("namespace_identifier"@.len() != "pointer_declarator"@.len());
    assert("namespace_identifier"@[0] != "reference_declarator"@[0]);
    assert(!is_name_wrapper(c.kind@));
}

// ---------------------------------------------------------------- the search by name

/// What the search by name finds is a definition of that name.
pub proof fn lemma_named_from_sound(cs: Seq<SyntaxNode>, src: Seq<u8>, lang: Lang, name: Seq<char>, i: int)
    ensures
        named_from(cs, src, lang, name, i) matches Some(x) ==> definition_name(x, src, lang) == Some(name),
    decreases cs, cs.len() - i,
{
    if 0 <= i < cs.len() {
        let c = cs[i];
        if definition_name(c, src, lang) != Some(name) {
            if spec_is_body_container(c.kind@) || spec_is_wrapper_node(c, lang) {
                assert(decreases_to!(cs => c));
                lemma_named_from_sound(c.children@, src, lang, name, 0);
            }
            lemma_named_from_sound(cs, src, lang, name, i + 1);
        }
    }
}

/// When the search by name finds nothing from `cs[i]` on, no node among
/// `cs[i..]` is a definition of that name, and none is found inside the
/// body containers and wrappers among them.
pub proof fn lemma_named_from_complete(
    cs: Seq<SyntaxNode>,
    src: Seq<u8>,
    lang: Lang,
    name: Seq<char>,
    i: int,
    j: int,
)
    requires
        0 <= i <= j < cs.len(),
        named_from(cs, src, lang, name, i) is None,
    ensures
        definition_name(cs[j], src, lang) != Some(name),
        spec_is_body_container(cs[j].kind@) || spec_is_wrapper_node(cs[j], lang) ==> named_from(
            cs[j].children@,
            src,
            lang,
            name,
            0,
        ) is None,
    decreases j - i,
{
    if i < j {
        lemma_named_from_complete(cs, src, lang, name, i + 1, j);
    }
}

/// The search by name looks inside the members of definitions (body
/// containers) and inside wrappers: C++ templates, `extern "C"` blocks,
/// preprocessor conditionals, declarations, field declarations and error
/// nodes; TypeScript exports; Python decorated definitions; Rust `extern`
/// blocks. When it finds nothing among `cs[i..]`, nothing inside those is
/// named so either.
pub proof fn lemma_search_enters(
    cs: Seq<SyntaxNode>,
    src: Seq<u8>,
    lang: Lang,
    name: Seq<char>,
    i: int,
    j: int,
)
    requires
        0 <= i <= j < cs.len(),
        named_from(cs, src, lang, name, i) is None,
        ({
            let k = cs[j].kind@;
            ||| k == "declaration_list"@ || k == "field_declaration_list"@ || k == "block"@
            ||| k == "class_body"@ || k == "interface_body"@ || k == "enum_body"@
            ||| k == "message_body"@ || k == "service_body"@
            ||| lang == Lang::Cpp && (k == "template_declaration"@ || k == "linkage_specification"@
                || k == "preproc_ifdef"@ || k == "preproc_if"@ || k == "declaration"@
                || k == "field_declaration"@ || k == "ERROR"@)
            ||| (lang == Lang::Typescript || lang == Lang::Tsx) && k == "export_statement"@
            ||| lang == Lang::Python && k == "decorated_definition"@
            ||| lang == Lang::Rust && k == "foreign_mod_item"@
        }),
    ensures
        named_from(cs[j].children@, src, lang, name, 0) is None,
{
    lemma_named_from_complete(cs, src, lang, name, i, j);
}

// ---------------------------------------------------------------- names are texts below

proof fn lemma_child_below(n: SyntaxNode, i: int, d: SyntaxNode)
    requires
        0 <= i < n.children@.len(),
        n.children@[i] == d || n.children@[i].below(d),
    ensures
        n.below(d),
{
    assert(n.children@[i] == d || n.children@[i].below(d));
}

/// What lies below a well-formed node is well formed.
proof fn lemma_below_wf(n: SyntaxNode, src: Seq<u8>, d: SyntaxNode)
    requires
        n.wf(src),
        n.below(d),
    ensures
        d.wf(src),
    decreases n,
{
    let i = choose|i: int| 0 <= i < n.children@.len() && (n.children@[i] == d || (#[trigger] n.children@[i]).below(d));
    assert(n.children@[i].wf(src));
    if n.children@[i] != d {
        lemma_below_wf(n.children@[i], src, d);
    }
}

proof fn lemma_field_child_below(n: SyntaxNode, f: Seq<char>)
    ensures
        n.field_child(f) matches Some(c) ==> n.below(c),
{
    crate::syntax::lemma_first_with_field_range(n.children@, f, 0);
    if let Some(j) = crate::syntax::first_with_field(n.children@, f, 0) {
        lemma_child_below(n, j, n.children@[j]);
    }
}

proof fn lemma_innermost_below(d: SyntaxNode)
    ensures
        innermost(d) == d || d.below(innermost(d)),
    decreases d,
{
    if is_name_wrapper(d.kind@) {
        crate::syntax::lemma_first_with_field_range(d.children@, "name"@, 0);
        crate::syntax::lemma_first_with_field_range(d.children@, "declarator"@, 0);
        match crate::syntax::first_with_field(d.children@, "name"@, 0) {
            Some(j) => {
                lemma_innermost_below(d.children@[j]);
                lemma_child_below(d, j, innermost(d.children@[j]));
            },
            None => match crate::syntax::first_with_field(d.children@, "declarator"@, 0) {
                Some(j) => {
                    lemma_innermost_below(d.children@[j]);
                    lemma_child_below(d, j, innermost(d.children@[j]));
                },
                None => {},
            },
        }
    }
}

proof fn lemma_first_named_below(n: SyntaxNode, i: int)
    requires
        0 <= i,
    ensures
        first_named(n.children@, i) matches Some(c) ==> n.below(c),
    decreases n.children@.len() - i,
{
    if i < n.children@.len() {
        if n.children@[i].named {
            lemma_child_below(n, i, n.children@[i]);
        } else {
            lemma_first_named_below(n, i + 1);
        }
    }
}

proof fn lemma_first_in_set_below(n: SyntaxNode, set: KindSet, i: int)
    requires
        0 <= i,
    ensures
        first_in_set(n.children@, set, i) matches Some(c) ==> n.below(c),
    decreases n.children@.len() - i,
{
    if i < n.children@.len() {
        if in_kind_set(set, n.children@[i].kind@) {
            lemma_child_below(n, i, n.children@[i]);
        } else {
            lemma_first_in_set_below(n, set, i + 1);
        }
    }
}

proof fn lemma_opt_child_text(n: SyntaxNode, c: Option<SyntaxNode>, src: Seq<u8>)
    requires
        c matches Some(x) ==> n.below(x),
    ensures
        text_of_opt(c, src) matches Some(s) ==> exists|d: SyntaxNode| n.below(d) && d.text(src) == Some(s),
{
    if let Some(x) = c {
        if let Some(s) = x.text(src) {
            assert(n.below(x) && x.text(src) == Some(s));
        }
    }
}

/// In a well-formed tree, a definition's name is the text of a node below
/// the definition.
pub proof fn lemma_definition_name_below(n: SyntaxNode, src: Seq<u8>, lang: Lang)
    requires
        n.wf(src),
    ensures
        definition_name(n, src, lang) matches Some(s) ==> exists|d: SyntaxNode| n.below(d) && d.text(src) == Some(s),
    decreases n, 1int, 0int,
{
    let k = n.kind@;
    lemma_field_child_below(n, "name"@);
    lemma_field_child_below(n, "type"@);
    lemma_field_child_below(n, "argument"@);
    lemma_field_child_below(n, "declarator"@);
    lemma_field_child_below(n, "path"@);
    lemma_field_child_below(n, "property"@);
    lemma_field_child_below(n, "source"@);
    lemma_field_child_below(n, "module_name"@);
    lemma_first_named_below(n, 0);
    lemma_first_in_set_below(n, KindSet::PythonImportName, 0);
    lemma_first_in_set_below(n, KindSet::ProtoDefinitionName, 0);
    match lang {
        Lang::Cpp => {
            if is_cpp_definition(k) || k == "field_declaration"@ {
                let d = if is_cpp_definition(k) { field_or(n, "name"@, "declarator"@) } else { n.field_child("declarator"@) };
                if let Some(x) = d {
                    lemma_innermost_below(x);
                    let y = innermost(x);
                    assert(n.below(y)) by {
                        let i = choose|i: int| 0 <= i < n.children@.len() && (n.children@[i] == x || (#[trigger] n.children@[i]).below(x));
                        if y != x {
                            assert(x.below(y));
                            if n.children@[i] == x {
                                lemma_child_below(n, i, y);
                            } else {
                                lemma_below_trans(n.children@[i], x, y);
                                lemma_child_below(n, i, y);
                            }
                        } else {
                            lemma_child_below(n, i, x);
                        }
                    }
                    lemma_below_wf(n, src, y);
                    assert(y.text(src) is Some);
                    assert(n.below(y) && y.text(src) == Some(innermost_name(x, src)));
                }
            } else {
                lemma_opt_child_text(n, first_named(n.children@, 0), src);
                lemma_opt_child_text(n, n.field_child("path"@), src);
            }
        },
        Lang::Python => {
            if k == "decorated_definition"@ {
                lemma_first_definition_name_below(n, src, lang, 0);
            } else {
                lemma_opt_child_text(n, n.field_child("name"@), src);
                lemma_opt_child_text(
                    n,
                    match n.field_child("module_name"@) {
                        Some(c) => Some(c),
                        None => first_in_set(n.children@, KindSet::PythonImportName, 0),
                    },
                    src,
                );
            }
        },
        Lang::Protobuf => {
            lemma_opt_child_text(
                n,
                match n.field_child("name"@) {
                    Some(c) => Some(c),
                    None => first_in_set(n.children@, KindSet::ProtoDefinitionName, 0),
                },
                src,
            );
        },
        _ => {
            lemma_opt_child_text(n, n.field_child("name"@), src);
            lemma_opt_child_text(n, n.field_child("type"@), src);
            lemma_opt_child_text(n, n.field_child("argument"@), src);
            lemma_opt_child_text(n, field_or(n, "name"@, "type"@), src);
            lemma_opt_child_text(n, field_or(n, "name"@, "property"@), src);
            lemma_opt_child_text(n, n.field_child("source"@), src);
        },
    }
}

/// `d` below a child below `n` is below `n`.
proof fn lemma_below_trans(c: SyntaxNode, x: SyntaxNode, y: SyntaxNode)
    requires
        c.below(x),
        x.below(y),
    ensures
        c.below(y),
    decreases c,
{
    let i = choose|i: int| 0 <= i < c.children@.len() && (c.children@[i] == x || (#[trigger] c.children@[i]).below(x));
    if c.children@[i] == x {
        lemma_child_below(c, i, y);
    } else {
        lemma_below_trans(c.children@[i], x, y);
        lemma_child_below(c, i, y);
    }
}

proof fn lemma_first_definition_name_below(n: SyntaxNode, src: Seq<u8>, lang: Lang, i: int)
    requires
        n.wf(src),
        0 <= i,
    ensures
        first_definition_name(n.children@, src, lang, i) matches Some(s) ==> exists|d: SyntaxNode|
            n.below(d) && d.text(src) == Some(s),
    decreases n, 0int, n.children@.len() - i,
{
    if i < n.children@.len() {
        let c = n.children@[i];
        assert(c.wf(src));
        lemma_definition_name_below(c, src, lang);
        if let Some(s) = definition_name(c, src, lang) {
            let d = choose|d: SyntaxNode| c.below(d) && d.text(src) == Some(s);
            lemma_child_below(n, i, d);
        } else {
            lemma_first_definition_name_below(n, src, lang, i + 1);
        }
    }
}

// ---------------------------------------------------------------- snapping line ranges

/// The one-based first and last line of a node.
pub open spec fn node_span(d: SyntaxNode) -> (int, int) {
    (d.start_row + 1, d.end_row + 1)
}

/// The spans of `cs[..k]` and of all nodes below them, in document order.
pub open spec fn spans_upto(cs: Seq<SyntaxNode>, k: int) -> Seq<(int, int)>
    decreases cs, k,
{
    if k <= 0 || k > cs.len() {
        Seq::empty()
    } else {
        spans_upto(cs, k - 1).push(node_span(cs[k - 1])) + spans_upto(
            cs[k - 1].children@,
            cs[k - 1].children@.len() as int,
        )
    }
}

/// The spans of every node below the root.
pub open spec fn tree_spans(root: SyntaxNode) -> Seq<(int, int)> {
    spans_upto(root.children@, root.children@.len() as int)
}

/// A node of span `p` crosses lines `s..=e` of a source of `n` lines when
/// it starts inside them and ends after them, or ends inside them and
/// starts before them (its last line counted as at most `n`).
pub open spec fn crosses(p: (int, int), s: int, e: int, n: int) -> bool {
    let b = if p.1 < n { p.1 } else { n };
    (s <= p.0 <= e && b > e) || (s <= b <= e && p.0 < s)
}

/// No node crosses lines `s..=e`.
pub open spec fn snap_stable(ps: Seq<(int, int)>, s: int, e: int, n: int) -> bool {
    forall|k: int| 0 <= k < ps.len() ==> !crosses(#[trigger] ps[k], s, e, n)
}

/// The last line that a range `start:end` asks for in a source of `n` lines.
pub open spec fn clamp_end(end: int, n: int) -> int {
    if end < n { end } else { n }
}

/// `r` is the range `start:end` snapped to node boundaries: the smallest
/// range of lines that holds the requested lines and that no node crosses.
pub open spec fn snap_ok(ps: Seq<(int, int)>, start: int, end: int, n: int, r: (int, int)) -> bool {
    &&& 1 <= r.0 <= start
    &&& clamp_end(end, n) <= r.1 <= n
    &&& snap_stable(ps, r.0, r.1, n)
    &&& forall|a: int, b: int|
        1 <= a <= start && clamp_end(end, n) <= b <= n && #[trigger] snap_stable(ps, a, b, n) ==> a <= r.0
            && r.1 <= b
}

/// The snapped range.
pub open spec fn snapped(ps: Seq<(int, int)>, start: int, end: int, n: int) -> (int, int) {
    choose|r: (int, int)| snap_ok(ps, start, end, n, r)
}

/// A snapped range is unique.
proof fn lemma_snap_unique(ps: Seq<(int, int)>, start: int, end: int, n: int, r: (int, int))
    requires
        snap_ok(ps, start, end, n, r),
    ensures
        snapped(ps, start, end, n) == r,
{
    let q = snapped(ps, start, end, n);
    assert(snap_ok(ps, start, end, n, q));
    assert(snap_stable(ps, r.0, r.1, n));
    assert(snap_stable(ps, q.0, q.1, n));
}

/// The spans of every node below `node`, appended to `out`.
fn collect_spans(node: &SyntaxNode, src: Ghost<Seq<u8>>, out: &mut Vec<(usize, usize)>)
    requires
        node.wf(src@),
    ensures
        spans_of(final(out)@) == spans_of(old(out)@) + tree_spans(*node),
        forall|k: int| 0 <= k < final(out)@.len() ==> old(out)@.len() <= k ==> (#[trigger] final(out)@[k]).0 >= 1,
        forall|k: int| 0 <= k < old(out)@.len() ==> (#[trigger] final(out)@[k]) == old(out)@[k],
    decreases node, 1int,
{
    let ghost start = old(out)@;
    let ghost cs = node.children@;
    let n = node.children.len();
    let mut i: usize = 0;
    assert(spans_of(out@) =~= spans_of(start) + spans_upto(cs, 0));
    while i < n
        invariant
            n == cs.len(),
            cs == node.children@,
            node.wf(src@),
            i <= n,
            out@.len() >= start.len(),
            spans_of(out@) == spans_of(start) + spans_upto(cs, i as int),
            forall|k: int| start.len() <= k < out@.len() ==> (#[trigger] out@[k]).0 >= 1,
            forall|k: int| 0 <= k < start.len() ==> (#[trigger] out@[k]) == start[k],
        decreases n - i,
    {
        let c = &node.children[i];
        assert(c.wf(src@));
        let ghost before = out@;
        out.push((c.start_row + 1, c.end_row + 1));
        assert(spans_of(out@) =~= spans_of(before).push(node_span(*c)));
        let ghost mid = out@;
        collect_spans(c, src, out);
        proof {
            assert(spans_of(out@) =~= spans_of(start) + spans_upto(cs, i + 1));
            assert forall|k: int| start.len() <= k < out@.len() implies (#[trigger] out@[k]).0 >= 1 by {
                if k < mid.len() {
                    assert(out@[k] == mid[k]);
                    if k < before.len() {
                        assert(mid[k] == before[k]);
                    }
                }
            }
            assert forall|k: int| 0 <= k < start.len() implies (#[trigger] out@[k]) == start[k] by {
                assert(out@[k] == mid[k]);
                assert(mid[k] == before[k]);
            }
        }
        i = i + 1;
    }
}

/// The range `start:end` of a source of `n` lines snapped to the spans
/// `spans`: grown until no span crosses it.
pub fn snap_range(spans: &Vec<(usize, usize)>, start: usize, end: usize, n: usize) -> (res: (usize, usize))
    requires
        1 <= start <= n,
        start <= end,
        forall|k: int| 0 <= k < spans@.len() ==> (#[trigger] spans@[k]).0 >= 1,
    ensures
        snap_ok(spans_of(spans@), start as int, end as int, n as int, (res.0 as int, res.1 as int)),
{
    let ghost ps = spans_of(spans@);
    let mut s: usize = start;
    let mut e: usize = if end < n { end } else { n };
    let m = spans.len();
    loop
        invariant
            ps == spans_of(spans@),
            m == spans@.len(),
            1 <= start <= n,
            start <= end,
            forall|k: int| 0 <= k < spans@.len() ==> (#[trigger] spans@[k]).0 >= 1,
            1 <= s <= start,
            clamp_end(end as int, n as int) <= e <= n,
            forall|a: int, b: int|
                1 <= a <= start && clamp_end(end as int, n as int) <= b <= n && #[trigger] snap_stable(ps, a, b, n as int)
                    ==> a <= s && e <= b,
        decreases s + n - e,
    {
        let ghost s0 = s;
        let ghost e0 = e;
        let mut changed = false;
        let mut k: usize = 0;
        while k < m
            invariant
                ps == spans_of(spans@),
                m == spans@.len(),
                k <= m,
                1 <= start <= n,
                forall|q: int| 0 <= q < spans@.len() ==> (#[trigger] spans@[q]).0 >= 1,
                1 <= s <= s0 <= start,
                clamp_end(end as int, n as int) <= e0 <= e <= n,
                changed ==> s + n - e < s0 + n - e0,
                !changed ==> s == s0 && e == e0,
                !changed ==> forall|q: int| 0 <= q < k ==> !crosses(#[trigger] ps[q], s as int, e as int, n as int),
                forall|a: int, b: int|
                    1 <= a <= start && clamp_end(end as int, n as int) <= b <= n && #[trigger] snap_stable(ps, a, b, n as int)
                        ==> a <= s && e <= b,
            decreases m - k,
        {
            let (a, b0) = spans[k];
            let b = if b0 < n { b0 } else { n };
            assert(ps[k as int] == (a as int, b0 as int));
            if s <= a && a <= e && b > e {
                proof {
                    assert forall|x: int, y: int|
                        1 <= x <= start && clamp_end(end as int, n as int) <= y <= n && #[trigger] snap_stable(ps, x, y, n as int)
                            implies x <= s && b <= y by {
                        assert(!crosses(ps[k as int], x, y, n as int));
                    }
                }
                e = b;
                changed = true;
            } else if s <= b && b <= e && a < s {
                proof {
                    assert forall|x: int, y: int|
                        1 <= x <= start && clamp_end(end as int, n as int) <= y <= n && #[trigger] snap_stable(ps, x, y, n as int)
                            implies a <= s && x <= a && e <= y by {
                        assert(!crosses(ps[k as int], x, y, n as int));
                    }
                }
                s = a;
                changed = true;
            }
            k = k + 1;
        }
        if !changed {
            assert(snap_stable(ps, s as int, e as int, n as int));
            return (s, e);
        }
    }
}

/// What reading `addr` from the tree of a source gives.
pub open spec fn read_outcome(root: SyntaxNode, src: Seq<u8>, lang: Lang, addr: Seq<char>) -> ReadOutcome {
    match line_range(addr) {
        Some((s, e)) => if range_fits(s as int, e as int, source_lines(src).len() as int) {
            let r = snapped(tree_spans(root), s as int, e as int, source_lines(src).len() as int);
            ReadOutcome::Text(join(selected_lines(src, r.0, r.1), "\n"@))
        } else {
            ReadOutcome::BadLineRange(s, e, source_lines(src).len())
        },
        None => match address_target(root, src, lang, split_double_colon(addr)) {
            Ok(n) => match n.text(src) {
                Some(t) => ReadOutcome::Text(t),
                None => ReadOutcome::BadText,
            },
            Err(o) => o,
        },
    }
}

/// The result is the one the outcome describes.
pub open spec fn outcome_matches(res: Result<String, AstError>, o: ReadOutcome) -> bool {
    match (res, o) {
        (Ok(t), ReadOutcome::Text(x)) => t@ == x,
        (Err(AstError::InvalidLineRange { start, end, lines }), ReadOutcome::BadLineRange(a, b, c)) => start
            == a && end == b && lines == c,
        (Err(AstError::EmptyAddress), ReadOutcome::EmptyAddress) => true,
        (Err(AstError::NotFound(n)), ReadOutcome::NotFound(x)) => n@ == x,
        (Err(AstError::NotFoundIn { member, address }), ReadOutcome::NotFoundIn(m, a)) => member@ == m
            && address@ == a,
        (Err(AstError::InvalidText), ReadOutcome::BadText) => true,
        _ => false,
    }
}

pub proof fn lemma_join_push(ps: Seq<Seq<char>>, x: Seq<char>, sep: Seq<char>)
    ensures
        ps.len() > 0 ==> join(ps.push(x), sep) == join(ps, sep) + sep + x,
        ps.len() == 0 ==> join(ps.push(x), sep) == x,
{
    assert(ps.push(x).drop_last() =~= ps);
}

/// Lines `start..=end` (one-based) of `source`, joined by newlines; `end` is
/// cut to the last line.
pub fn extract_by_lines(source: &str, start: usize, end: usize) -> (res: Result<String, AstError>)
    ensures
        source_lines(bytes_of(source@)).len() <= usize::MAX,
        match res {
            Ok(t) => range_fits(start as int, end as int, source_lines(bytes_of(source@)).len() as int)
                && t@ == join(selected_lines(bytes_of(source@), start as int, end as int), "\n"@),
            Err(e) => !range_fits(start as int, end as int, source_lines(bytes_of(source@)).len() as int)
                && e == (AstError::InvalidLineRange {
                    start,
                    end,
                    lines: source_lines(bytes_of(source@)).len() as usize,
                }),
        },
{
    let ghost src = bytes_of(source@);
    let spans = line_ranges(source);
    let total = spans.len();
    assert(spans_of(spans@).len() == spans@.len());
    if start == 0 || start > total || end < start {
        return Err(AstError::InvalidLineRange { start, end, lines: total });
    }
    let last = if end < total { end } else { total };
    let ghost ls = source_lines(src);
    let mut out = "".to_owned();
    proof {
        reveal_strlit("");
        assert(out@ =~= Seq::<char>::empty());
    }
    let mut k: usize = start - 1;
    assert(ls.subrange(start - 1, k as int) =~= Seq::<Seq<char>>::empty());
    while k < last
        invariant
            src == bytes_of(source@),
            ls == source_lines(src),
            spans_of(spans@) == line_spans(src, 0),
            spans_ok(src, spans@),
            total == spans@.len(),
            ls.len() == total,
            1 <= start <= k + 1,
            k <= last <= total,
            out@ == join(ls.subrange(start - 1, k as int), "\n"@),
        decreases last - k,
    {
        let (s, e) = spans[k];
        assert(spans_of(spans@)[k as int] == (s as int, e as int));
        assert(ls[k as int] == decode_utf8_of(src, s as int, e as int));
        let piece = match slice(source, s, e) {
            Some(p) => p,
            None => return Err(AstError::InvalidText),
        };
        let ghost prev = ls.subrange(start - 1, k as int);
        proof {
            lemma_join_push(prev, piece@, "\n"@);
            assert(ls.subrange(start - 1, k + 1) =~= prev.push(piece@));
        }
        if k > start - 1 {
            out.append("\n");
        }
        out.append(piece.as_str());
        k = k + 1;
    }
    Ok(out)
}

pub open spec fn decode_utf8_of(src: Seq<u8>, s: int, e: int) -> Seq<char> {
    vstd::utf8::decode_utf8(src.subrange(s, e))
}

/// The node that the address parts name.
pub fn find_node_by_address<'a>(root: &'a SyntaxNode, source: &str, lang: Lang, parts: &Vec<String>, address: &str) -> (res: Result<&'a SyntaxNode, AstError>)
    requires
        texts(parts@) == split_double_colon(address@),
    ensures
        match res {
            Ok(n) => address_target(*root, bytes_of(source@), lang, texts(parts@)) == Ok::<SyntaxNode, ReadOutcome>(*n),
            Err(e) => address_target(*root, bytes_of(source@), lang, texts(parts@)) matches Err(o)
                && outcome_matches(Err(e), o),
        },
{
    if parts.len() == 0 {
        return Err(AstError::EmptyAddress);
    }
    if parts.len() == 1 {
        return match find_named_child(root, source, lang, parts[0].as_str()) {
            Some(n) => Ok(n),
            None => Err(AstError::NotFound(parts[0].clone())),
        };
    }
    match find_member_in_containers(root, source, lang, parts[0].as_str(), parts[1].as_str()) {
        Some(n) => Ok(n),
        None => {
            proof {
                lemma_split_join_double_colon(address@);
            }
            Err(AstError::NotFoundIn { member: parts[1].clone(), address: address.to_owned() })
        },
    }
}

/// Read `address` from the parsed tree of `source`.
pub fn read_address(root: &SyntaxNode, source: &str, lang: Lang, address: &str) -> (res: Result<String, AstError>)
    requires
        root.wf(bytes_of(source@)),
    ensures
        outcome_matches(res, read_outcome(*root, bytes_of(source@), lang, address@)),
{
    if let Some((start, end)) = parse_line_range(address) {
        let total = line_count(source);
        if start == 0 || start > total || end < start {
            return Err(AstError::InvalidLineRange { start, end, lines: total });
        }
        let mut spans: Vec<(usize, usize)> = Vec::new();
        assert(spans_of(spans@) =~= Seq::<(int, int)>::empty());
        collect_spans(root, Ghost(bytes_of(source@)), &mut spans);
        assert(spans_of(spans@) =~= tree_spans(*root));
        let (s, e) = snap_range(&spans, start, end, total);
        proof {
            lemma_snap_unique(tree_spans(*root), start as int, end as int, total as int, (s as int, e as int));
        }
        return extract_by_lines(source, s, e);
    }
    let parts = split_address(address);
    let node = find_node_by_address(root, source, lang, &parts, address)?;
    match node.text_in(source) {
        Some(t) => Ok(t),
        None => Err(AstError::InvalidText),
    }
}

/// Read a definition (`Type::member`, `name`) or a line range
/// (`start:end`) of `source`, the text of the file at `path`.
pub fn run(path: &str, address: &str, source: &str) -> (res: Result<String, AstError>)
    ensures
        match lang_of_extension(detected_extension(path@)) {
            Some(lang) => if parse_ok(lang, source@) {
                exists|tree: SyntaxNode|
                    parsed(tree, lang, source@) && outcome_matches(
                        res,
                        #[trigger] read_outcome(tree, bytes_of(source@), lang, address@),
                    )
            } else {
                res matches Err(e) && e is MalformedTree
            },
            None => res matches Err(e) && parse_error(path@, source@, e),
        },
{
    let (tree, lang) = parse_file(path, source)?;
    let res = read_address(&tree, source, lang, address);
    assert(outcome_matches(res, read_outcome(tree, bytes_of(source@), lang, address@)));
    res
}

} // verus!
