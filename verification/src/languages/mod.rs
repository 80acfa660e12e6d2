//! The supported languages: detection by file extension, grammars, and the
//! per-language facts the operations need.
use vstd::prelude::*;
use tree_sitter::Language;
use crate::error::AstError;
use crate::parser::{parse_with, parsed, parse_ok};
use crate::syntax::SyntaxNode;
use crate::text::{bytes_of, str_eq};

verus! {

/// A language of the source files that can be analyzed.
#[derive(Debug, Clone, Copy, PartialEq, Eq, Structural)]
pub enum Lang {
    Rust,
    Cpp,
    Typescript,
    Tsx,
    Python,
    Protobuf,
}

/// The language of files with extension `ext`.
pub open spec fn lang_of_extension(ext: Seq<char>) -> Option<Lang> {
    if ext == "rs"@ {
        Some(Lang::Rust)
    } else if ext == "cpp"@ || ext == "cc"@ || ext == "cxx"@ || ext == "hpp"@ || ext == "h"@ {
        Some(Lang::Cpp)
    } else if ext == "ts"@ {
        Some(Lang::Typescript)
    } else if ext == "tsx"@ {
        Some(Lang::Tsx)
    } else if ext == "py"@ {
        Some(Lang::Python)
    } else if ext == "proto"@ {
        Some(Lang::Protobuf)
    } else {
        None
    }
}

/// The extension of a path as `std::path::Path::extension` gives it: the
/// part of the file name after its last `.`, if the name has one that does
/// not begin it.
pub uninterp spec fn path_extension(path: Seq<char>) -> Option<Seq<char>>;

/// The extension that detection reads: the path's, or empty when it has none.
pub open spec fn detected_extension(path: Seq<char>) -> Seq<char> {
    match path_extension(path) {
        Some(e) => e,
        None => Seq::empty(),
    }
}

/// Whether files at `path` are in a supported language.
pub open spec fn supported(path: Seq<char>) -> bool {
    lang_of_extension(detected_extension(path)) is Some
}

/// The result of detecting the language of a file with extension `ext`.
pub open spec fn detect_result(ext: Seq<char>, res: Result<Lang, AstError>) -> bool {
    match res {
        Ok(l) => lang_of_extension(ext) == Some(l),
        Err(AstError::UnsupportedExtension(e)) => lang_of_extension(ext) is None && e@ == ext,
        Err(_) => false,
    }
}

/// `std::path::Path::extension` of `path`, as text: the contract claims that
/// it is a function of the path alone, `path_extension`. The extension of a
/// UTF-8 path is UTF-8, so the conversion loses nothing.
#[verifier::external_body]
fn file_extension(path: &str) -> (res: Option<String>)
    ensures
        match res {
            Some(e) => path_extension(path@) == Some(e@),
            None => path_extension(path@) is None,
        },
{
    std::path::Path::new(path).extension().map(|e| e.to_string_lossy().into_owned())
}

/// The grammar `tree_sitter_rust::LANGUAGE`.
#[verifier::external_body]
fn rust_grammar() -> Language {
    tree_sitter_rust::LANGUAGE.into()
}

/// The grammar `tree_sitter_cpp::LANGUAGE`.
#[verifier::external_body]
fn cpp_grammar() -> Language {
    tree_sitter_cpp::LANGUAGE.into()
}

/// The grammar `tree_sitter_typescript::LANGUAGE_TYPESCRIPT`.
#[verifier::external_body]
fn typescript_grammar() -> Language {
    tree_sitter_typescript::LANGUAGE_TYPESCRIPT.into()
}

/// The grammar `tree_sitter_typescript::LANGUAGE_TSX`.
#[verifier::external_body]
fn tsx_grammar() -> Language {
    tree_sitter_typescript::LANGUAGE_TSX.into()
}

/// The grammar `tree_sitter_python::LANGUAGE`.
#[verifier::external_body]
fn python_grammar() -> Language {
    tree_sitter_python::LANGUAGE.into()
}

/// The grammar `tree_sitter_proto::LANGUAGE`.
#[verifier::external_body]
fn proto_grammar() -> Language {
    tree_sitter_proto::LANGUAGE.into()
}

impl Lang {
    /// The language of files with the extension `ext` (without the dot).
    pub fn from_extension(ext: &str) -> (res: Result<Lang, AstError>)
        ensures
            detect_result(ext@, res),
    {
        if str_eq(ext, "rs") {
            Ok(Lang::Rust)
        } else if str_eq(ext, "cpp") || str_eq(ext, "cc") || str_eq(ext, "cxx") || str_eq(ext, "hpp")
            || str_eq(ext, "h") {
            Ok(Lang::Cpp)
        } else if str_eq(ext, "ts") {
            Ok(Lang::Typescript)
        } else if str_eq(ext, "tsx") {
            Ok(Lang::Tsx)
        } else if str_eq(ext, "py") {
            Ok(Lang::Python)
        } else if str_eq(ext, "proto") {
            Ok(Lang::Protobuf)
        } else {
            Err(AstError::UnsupportedExtension(ext.to_owned()))
        }
    }

    /// The language of the file at `path`, by its extension.
    pub fn detect(path: &str) -> (res: Result<Lang, AstError>)
        ensures
            detect_result(detected_extension(path@), res),
    {
        match file_extension(path) {
            Some(e) => Lang::from_extension(e.as_str()),
            None => {
                proof {
                    reveal_strlit("");
                    assert(""@ =~= Seq::<char>::empty());
                }
                Lang::from_extension("")
            },
        }
    }

    /// The tree-sitter grammar of the language.
    pub fn tree_sitter_language(self) -> Language {
        match self {
            Lang::Rust => rust_grammar(),
            Lang::Cpp => cpp_grammar(),
            Lang::Typescript => typescript_grammar(),
            Lang::Tsx => tsx_grammar(),
            Lang::Python => python_grammar(),
            Lang::Protobuf => proto_grammar(),
        }
    }

    /// The language's name in output.
    pub open spec fn spec_name(self) -> Seq<char> {
        match self {
            Lang::Rust => "rust"@,
            Lang::Cpp => "cpp"@,
            Lang::Typescript => "typescript"@,
            Lang::Tsx => "tsx"@,
            Lang::Python => "python"@,
            Lang::Protobuf => "protobuf"@,
        }
    }

    pub fn name(self) -> (res: &'static str)
        ensures
            res@ == self.spec_name(),
    {
        match self {
            Lang::Rust => "rust",
            Lang::Cpp => "cpp",
            Lang::Typescript => "typescript",
            Lang::Tsx => "tsx",
            Lang::Python => "python",
            Lang::Protobuf => "protobuf",
        }
    }

    /// What replaces a function body in a skeleton.
    pub open spec fn spec_body_placeholder(self) -> Seq<char> {
        match self {
            Lang::Rust => "{ todo!() }"@,
            Lang::Cpp => "{ /* ... */ }"@,
            Lang::Typescript | Lang::Tsx => "{ /* ... */ }"@,
            Lang::Python => "pass"@,
            Lang::Protobuf => "{ /* ... */ }"@,
        }
    }

    /// Body placeholder for skeleton mode.
    pub fn body_placeholder(self) -> (res: &'static str)
        ensures
            res@ == self.spec_body_placeholder(),
    {
        match self {
            Lang::Rust => "{ todo!() }",
            Lang::Cpp => "{ /* ... */ }",
            Lang::Typescript | Lang::Tsx => "{ /* ... */ }",
            Lang::Python => "pass",
            Lang::Protobuf => "{ /* ... */ }",
        }
    }
}

/// The node kinds that hold the members of a definition.
pub open spec fn spec_is_body_container(kind: Seq<char>) -> bool {
    ||| kind == "declaration_list"@
    ||| kind == "field_declaration_list"@
    ||| kind == "block"@
    ||| kind == "class_body"@
    ||| kind == "interface_body"@
    ||| kind == "enum_body"@
    ||| kind == "message_body"@
    ||| kind == "service_body"@
}

/// Check if a node kind is a body container (declaration_list, block, etc.)
pub fn is_body_container(kind: &str) -> (res: bool)
    ensures
        res == spec_is_body_container(kind@),
{
    str_eq(kind, "declaration_list") || str_eq(kind, "field_declaration_list") || str_eq(
        kind,
        "block",
    ) || str_eq(kind, "class_body") || str_eq(kind, "interface_body") || str_eq(kind, "enum_body")
        || str_eq(kind, "message_body") || str_eq(kind, "service_body")
}

/// The text of a node of the source.
pub fn node_text(node: &SyntaxNode, source: &str) -> (res: Result<String, AstError>)
    ensures
        match res {
            Ok(t) => node.text(bytes_of(source@)) == Some(t@),
            Err(e) => node.text(bytes_of(source@)) is None && e is InvalidText,
        },
{
    match node.text_in(source) {
        Some(t) => Ok(t),
        None => Err(AstError::InvalidText),
    }
}

/// The errors that parsing `source`, the text of the file at `path`, may
/// end in: an unsupported extension, or a tree whose positions do not fit
/// the source.
pub open spec fn parse_error(path: Seq<char>, source: Seq<char>, e: AstError) -> bool {
    match lang_of_extension(detected_extension(path)) {
        None => e matches AstError::UnsupportedExtension(x) && x@ == detected_extension(path),
        Some(l) => e is MalformedTree && !parse_ok(l, source),
    }
}

/// Parse `source`, the text of the file at `path`, in the language its
/// extension gives, and return the tree with the language.
pub fn parse_file(path: &str, source: &str) -> (res: Result<(SyntaxNode, Lang), AstError>)
    ensures
        match res {
            Ok((tree, lang)) => {
                &&& lang_of_extension(detected_extension(path@)) == Some(lang)
                &&& parsed(tree, lang, source@)
            },
            Err(e) => parse_error(path@, source@, e),
        },
{
    let lang = Lang::detect(path)?;
    let tree = parse_with(lang, source)?;
    Ok((tree, lang))
}

} // verus!
