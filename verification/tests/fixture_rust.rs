//! The library run on the Rust fixture files, whose texts are kept here.
use ast_cli::error::AstError;
use ast_cli::ops::{find, outline, project, query, read, skeleton};

const SAMPLE: &str = r#"pub struct MyStruct {
    field: i32,
}

impl MyStruct {
    pub fn new() -> Self {
        Self { field: 0 }
    }
}

pub fn top_level_func() {
    println!("Hello");
}
"#;

const ADVANCED: &str = r#"use std::collections::HashMap;
use std::fmt;

// ── Type alias ──────────────────────────────────────────
pub type Result<T> = std::result::Result<T, Error>;

// ── Enum with data variants ─────────────────────────────
#[derive(Debug)]
pub enum Error {
    NotFound { key: String },
    ParseError(String),
    Internal,
}

// ── Union ───────────────────────────────────────────────
pub union IntOrFloat {
    i: i32,
    f: f32,
}

// ── Struct with lifetimes and generic bounds ────────────
pub struct Registry<'a, T: Clone + fmt::Debug> {
    entries: HashMap<&'a str, T>,
    capacity: usize,
}

// ── Trait with associated type and default method ───────
pub trait Transform {
    type Output;

    fn transform(&self) -> Self::Output;

    fn name(&self) -> &str {
        "unnamed"
    }
}

// ── Supertrait ──────────────────────────────────────────
pub trait Processor: Transform + fmt::Display {
    fn process(&mut self) -> Result<()>;
}

// ── Impl block with complex bounds ──────────────────────
impl<'a, T: Clone + fmt::Debug> Registry<'a, T> {
    pub fn new(capacity: usize) -> Self {
        Self {
            entries: HashMap::new(),
            capacity,
        }
    }

    pub fn insert(&mut self, key: &'a str, value: T) -> Result<()> {
        if self.entries.len() >= self.capacity {
            return Err(Error::Internal);
        }
        self.entries.insert(key, value);
        Ok(())
    }

    pub fn get(&self, key: &str) -> Option<&T> {
        self.entries.get(key)
    }
}

// ── Trait impl with where clause ────────────────────────
impl<'a, T> Transform for Registry<'a, T>
where
    T: Clone + fmt::Debug + Default,
{
    type Output = Vec<T>;

    fn transform(&self) -> Self::Output {
        self.entries.values().cloned().collect()
    }
}

// ── Display trait impl ──────────────────────────────────
impl<'a, T: Clone + fmt::Debug> fmt::Display for Registry<'a, T> {
    fn fmt(&self, f: &mut fmt::Formatter<'_>) -> fmt::Result {
        write!(f, "Registry({} entries)", self.entries.len())
    }
}

// ── Async function ──────────────────────────────────────
pub async fn fetch_data(url: &str) -> Result<String> {
    let _ = url;
    Ok("data".to_string())
}

// ── Const function ──────────────────────────────────────
pub const fn max_capacity() -> usize {
    1024
}

// ── Unsafe function ─────────────────────────────────────
pub unsafe fn raw_pointer_deref(ptr: *const u8) -> u8 {
    *ptr
}

// ── Macro definition ────────────────────────────────────
macro_rules! define_wrapper {
    ($name:ident, $inner:ty) => {
        pub struct $name {
            inner: $inner,
        }
    };
}

// ── Nested module ───────────────────────────────────────
mod inner {
    pub struct InnerStruct {
        pub value: i32,
    }

    impl InnerStruct {
        pub fn new(value: i32) -> Self {
            Self { value }
        }
    }

    pub fn helper() -> bool {
        true
    }
}

// ── Static item ─────────────────────────────────────────
pub static DEFAULT_NAME: &str = "default";

// ── Const item ──────────────────────────────────────────
pub const VERSION: u32 = 1;

// ── Foreign mod ─────────────────────────────────────────
extern "C" {
    pub fn external_c_function(x: i32) -> i32;
    static EXTERNAL_STATIC: i32;
}

// ── Test module ─────────────────────────────────────────
#[cfg(test)]
mod tests {
    use super::*;

    #[test]
    fn test_registry_insert() {
        let mut reg = Registry::new(10);
        assert!(reg.insert("a", 1).is_ok());
    }

    #[test]
    fn test_max_capacity() {
        assert_eq!(max_capacity(), 1024);
    }
}
"#;

fn outline_text(path: &str, source: &str) -> String {
    let items = outline::run(path, source).unwrap();
    let mut out = String::new();
    outline::print_text(&items, &mut out);
    out
}

fn fixture_files() -> Vec<(String, String)> {
    vec![
        ("fixtures/rust/advanced.rs".to_string(), ADVANCED.to_string()),
        ("fixtures/rust/sample.rs".to_string(), SAMPLE.to_string()),
    ]
}

#[test]
fn test_registry_insert() {
    let test_fn = read::run("advanced.rs", "tests::test_registry_insert", ADVANCED).unwrap();
    assert_eq!(
        test_fn,
        "fn test_registry_insert() {\n        let mut reg = Registry::new(10);\n        assert!(reg.insert(\"a\", 1).is_ok());\n    }"
    );
    let insert = read::run("advanced.rs", "Registry::insert", ADVANCED).unwrap();
    assert_eq!(
        insert,
        "pub fn insert(&mut self, key: &'a str, value: T) -> Result<()> {\n        if self.entries.len() >= self.capacity {\n            return Err(Error::Internal);\n        }\n        self.entries.insert(key, value);\n        Ok(())\n    }"
    );
}

#[test]
fn test_max_capacity() {
    let test_fn = read::run("advanced.rs", "tests::test_max_capacity", ADVANCED).unwrap();
    assert_eq!(test_fn, "fn test_max_capacity() {\n        assert_eq!(max_capacity(), 1024);\n    }");
    let f = read::run("advanced.rs", "max_capacity", ADVANCED).unwrap();
    assert_eq!(f, "pub const fn max_capacity() -> usize {\n    1024\n}");
}

#[test]
fn test_parse_line_range() {
    let output = read::run("sample.rs", "11:13", SAMPLE).unwrap();
    assert_eq!(output, "pub fn top_level_func() {\n    println!(\"Hello\");\n}");
    assert!(read::run("sample.rs", "15:20", SAMPLE).is_err());
    assert!(read::run("sample.rs", "10:5", SAMPLE).is_err());
    assert!(read::run("sample.rs", "abc", SAMPLE).is_err());
}

#[test]
fn test_skeleton() {
    let output = skeleton::run("sample.rs", SAMPLE).unwrap();
    assert_eq!(
        output,
        "pub struct MyStruct {\n    field: i32,\n}\n\nimpl MyStruct {\n    pub fn new() -> Self { todo!() }\n}\n\npub fn top_level_func() { todo!() }\n"
    );
}

#[test]
fn test_read_by_name() {
    let output = read::run("sample.rs", "MyStruct::new", SAMPLE).unwrap();
    assert_eq!(output, "pub fn new() -> Self {\n        Self { field: 0 }\n    }");
}

#[test]
fn test_find() {
    let files = fixture_files();
    let results = find::run(&files, "top_level_func", None).unwrap();
    assert_eq!(results.len(), 1);
    assert_eq!(results[0].file, "fixtures/rust/sample.rs");
    assert_eq!(results[0].kind, "function");
    assert_eq!(results[0].line, 11);
    assert_eq!(results[0].signature.as_deref(), Some("pub fn top_level_func ()"));
    assert_eq!(results[0].visibility.as_deref(), Some("pub"));
    let functions = find::run(&files, "top_level_func", Some("function")).unwrap();
    assert_eq!(functions.len(), 1);
    let structs = find::run(&files, "top_level_func", Some("struct")).unwrap();
    assert!(structs.is_empty());
}

#[test]
fn test_query() {
    let results = query::run("sample.rs", SAMPLE, "(function_item name: (identifier) @name)").unwrap();
    assert_eq!(results.len(), 2);
    assert_eq!(results[0].capture_name, "name");
    assert_eq!(results[0].text, "new");
    assert_eq!((results[0].start_line, results[0].start_col), (6, 11));
    assert_eq!((results[0].end_line, results[0].end_col), (6, 14));
    assert_eq!(results[1].text, "top_level_func");
    assert_eq!((results[1].start_line, results[1].start_col), (11, 7));
    assert_eq!((results[1].end_line, results[1].end_col), (11, 21));
}

#[test]
fn test_project() {
    let (summary, skipped) = project::run(&fixture_files());
    assert!(skipped.is_empty());
    assert_eq!(summary.total_files, 2);
    assert_eq!(summary.total_lines, 153 + 13);
    let adv = &summary.files[0];
    assert_eq!(adv.path, "fixtures/rust/advanced.rs");
    assert_eq!(adv.language, "rust");
    assert_eq!((adv.lines, adv.functions, adv.types, adv.tests), (153, 13, 7, 2));
    let sample = &summary.files[1];
    assert_eq!(sample.path, "fixtures/rust/sample.rs");
    assert_eq!((sample.lines, sample.functions, sample.types, sample.tests), (13, 2, 1, 0));
}

#[test]
fn test_complex_outline_rust() {
    let expected = "\
use <unknown> [1:1]
use <unknown> [2:2]
pub type_alias Result [5:5]
pub enum Error [9:13]
pub struct Registry [22:25]
pub trait Transform [28:36]
  function name [33:35]  -- fn name (&self) -> &str
pub trait Processor [39:41]
impl <'a, T: Clone + fmt::Debug> Registry<'a, T> [44:63]
  pub function new [45:50]  -- pub fn new (capacity: usize) -> Self
  pub function insert [52:58]  -- pub fn insert (&mut self, key: &'a str, value: T) -> Result<()>
  pub function get [60:62]  -- pub fn get (&self, key: &str) -> Option<&T>
impl <'a, T> Transform for Registry<'a, T> [66:75]
  type_alias Output [70:70]
  function transform [72:74]  -- fn transform (&self) -> Self::Output
impl <'a, T: Clone + fmt::Debug> fmt::Display for Registry<'a, T> [78:82]
  function fmt [79:81]  -- fn fmt (&self, f: &mut fmt::Formatter<'_>) -> fmt::Result
pub function fetch_data [85:88]  -- pub async fn fetch_data (url: &str) -> Result<String>
pub function max_capacity [91:93]  -- pub const fn max_capacity () -> usize
pub function raw_pointer_deref [96:98]  -- pub unsafe fn raw_pointer_deref (ptr: *const u8) -> u8
macro define_wrapper [101:107]
module inner [110:124]
  pub struct InnerStruct [111:113]
  impl InnerStruct [115:119]
    pub function new [116:118]  -- pub fn new (value: i32) -> Self
  pub function helper [121:123]  -- pub fn helper () -> bool
pub static DEFAULT_NAME [127:127]
pub const VERSION [130:130]
module tests [140:153]
  use <unknown> [141:141]
  function test_registry_insert [144:147]  -- fn test_registry_insert ()
  function test_max_capacity [150:152]  -- fn test_max_capacity ()
";
    assert_eq!(outline_text("advanced.rs", ADVANCED), expected);
}

#[test]
fn test_complex_skeleton_rust() {
    let output = skeleton::run("advanced.rs", ADVANCED).unwrap();
    assert!(output.contains("    pub fn new(capacity: usize) -> Self { todo!() }\n"));
    assert!(output.contains("    fn name(&self) -> &str { todo!() }\n"));
    assert!(output.contains("    fn transform(&self) -> Self::Output;\n"));
    assert!(output.contains("pub const fn max_capacity() -> usize { todo!() }\n"));
    assert!(output.contains("        pub fn new(value: i32) -> Self { todo!() }\n"));
    assert!(output.contains("macro_rules! define_wrapper {\n"));
    assert!(output.contains("pub union IntOrFloat {\n    i: i32,\n    f: f32,\n}\n"));
    assert!(!output.contains("HashMap::new()"));
    assert!(!output.contains("1024"));
    assert!(output.len() < ADVANCED.len());
}

#[test]
fn test_complex_read_rust() {
    let insert = read::run("advanced.rs", "Registry::insert", ADVANCED).unwrap();
    assert!(insert.starts_with("pub fn insert(&mut self, key: &'a str, value: T) -> Result<()> {"));
    let inner_struct = read::run("advanced.rs", "inner::InnerStruct", ADVANCED).unwrap();
    assert_eq!(inner_struct, "pub struct InnerStruct {\n        pub value: i32,\n    }");
    let helper = read::run("advanced.rs", "inner::helper", ADVANCED).unwrap();
    assert_eq!(helper, "pub fn helper() -> bool {\n        true\n    }");
}

#[test]
fn test_complex_find_across_languages() {
    let files = fixture_files();
    let validate = find::run(&files, "validate", Some("function")).unwrap();
    assert!(validate.is_empty());
    let method = find::run(&files, "method", None).unwrap();
    assert!(method.is_empty());
    let news = find::run(&files, "new", Some("function")).unwrap();
    let lines: Vec<(String, usize)> = news.iter().map(|r| (r.file.clone(), r.line)).collect();
    assert_eq!(
        lines,
        vec![
            ("fixtures/rust/advanced.rs".to_string(), 45),
            ("fixtures/rust/advanced.rs".to_string(), 116),
            ("fixtures/rust/sample.rs".to_string(), 6),
        ]
    );
}

#[test]
fn test_complex_project_summary() {
    let mut files = fixture_files();
    files.push(("fixtures/notes.txt".to_string(), "not code".to_string()));
    let (summary, skipped) = project::run(&files);
    assert!(skipped.is_empty());
    assert_eq!(summary.total_files, 2);
    let mut out = String::new();
    project::print_text(&summary, &mut out);
    let expected = format!(
        "2 files, 166 lines\n\n  {:50} {:>10}  {:>4} lines  {:>3} fn  {:>3} types  {:>2} tests\n  {:50} {:>10}  {:>4} lines  {:>3} fn  {:>3} types  {:>2} tests\n",
        "fixtures/rust/advanced.rs", "rust", 153, 13, 7, 2, "fixtures/rust/sample.rs", "rust", 13, 2, 1, 0
    );
    assert_eq!(out, expected);
}

#[test]
fn test_read_missing_names() {
    match read::run("sample.rs", "Missing", SAMPLE) {
        Err(AstError::NotFound(name)) => assert_eq!(name, "Missing"),
        other => panic!("unexpected: {:?}", other),
    }
    match read::run("sample.rs", "MyStruct::missing", SAMPLE) {
        Err(e @ AstError::NotFoundIn { .. }) => {
            assert_eq!(e.message(), "could not find 'missing' in 'MyStruct::missing'")
        }
        other => panic!("unexpected: {:?}", other),
    }
    match read::run("sample.rs", "15:20", SAMPLE) {
        Err(e) => assert_eq!(e.message(), "invalid line range 15:20 (file has 13 lines)"),
        Ok(t) => panic!("unexpected text {t}"),
    }
}

#[test]
fn test_read_line_ranges() {
    assert_eq!(read::run("sample.rs", "1:1", SAMPLE).unwrap(), "pub struct MyStruct {\n    field: i32,\n}");
    assert_eq!(read::run("sample.rs", "12:99", SAMPLE).unwrap(), "pub fn top_level_func() {\n    println!(\"Hello\");\n}");
    assert!(read::run("sample.rs", "0:3", SAMPLE).is_err());
    assert_eq!(read::run("sample.rs", "+2:+3", SAMPLE).unwrap(), "pub struct MyStruct {\n    field: i32,\n}");
    assert_eq!(read::run("sample.rs", "4:4", SAMPLE).unwrap(), "");
}

#[test]
fn test_read_line_range_snaps() {
    assert_eq!(
        read::run("advanced.rs", "53:54", ADVANCED).unwrap(),
        "        if self.entries.len() >= self.capacity {\n            return Err(Error::Internal);\n        }"
    );
    assert_eq!(read::run("advanced.rs", "130:130", ADVANCED).unwrap(), "pub const VERSION: u32 = 1;");
}

#[test]
fn test_read_trait_impl_member() {
    assert_eq!(
        read::run("advanced.rs", "Registry+Display::fmt", ADVANCED).unwrap(),
        "fn fmt(&self, f: &mut fmt::Formatter<'_>) -> fmt::Result {\n        write!(f, \"Registry({} entries)\", self.entries.len())\n    }"
    );
    assert_eq!(
        read::run("advanced.rs", "Registry+Transform::transform", ADVANCED).unwrap(),
        "fn transform(&self) -> Self::Output {\n        self.entries.values().cloned().collect()\n    }"
    );
    assert!(read::run("advanced.rs", "Registry+Display::insert", ADVANCED).is_err());
    let src = "struct Parser;\nimpl Display for Parser {\n    fn fmt(&self) {}\n}\n";
    assert_eq!(read::run("p.rs", "Parser+Display::fmt", src).unwrap(), "fn fmt(&self) {}");
}

#[test]
fn test_outline_sample_text() {
    let expected = "\
pub struct MyStruct [1:3]
impl MyStruct [5:9]
  pub function new [6:8]  -- pub fn new () -> Self
pub function top_level_func [11:13]  -- pub fn top_level_func ()
";
    assert_eq!(outline_text("sample.rs", SAMPLE), expected);
}

#[test]
fn test_find_text_form() {
    let files = fixture_files();
    let results = find::run(&files, "top_level_func", None).unwrap();
    let mut out = String::new();
    find::print_text(&results, &mut out);
    assert_eq!(out, "fixtures/rust/sample.rs:11 function top_level_func (pub)  -- pub fn top_level_func ()\n");
    let mut none = String::new();
    find::print_text(&Vec::new(), &mut none);
    assert_eq!(none, "No matches found.\n");
}

#[test]
fn test_query_text_form() {
    let results = query::run("sample.rs", SAMPLE, "(function_item name: (identifier) @name)").unwrap();
    let mut out = String::new();
    query::print_text(&results, &mut out);
    assert_eq!(out, "@name [6:11] new\n@name [11:7] top_level_func\n");
    let bodies = query::run("sample.rs", SAMPLE, "(impl_item) @impl").unwrap();
    let mut long = String::new();
    query::print_text(&bodies, &mut long);
    assert_eq!(long, "@impl [5:0-9:1] impl MyStruct {\n    pub fn new() -> Self {\n        Self { field: 0 }\n    }\n}\n");
    let mut none = String::new();
    query::print_text(&Vec::new(), &mut none);
    assert_eq!(none, "No matches.\n");
}

#[test]
fn test_query_errors() {
    match query::run("sample.rs", SAMPLE, "(not_a_node_kind") {
        Err(AstError::InvalidQuery(_)) => {}
        other => panic!("unexpected: {:?}", other),
    }
    match query::run("sample.txt", SAMPLE, "(function_item)") {
        Err(AstError::UnsupportedExtension(ext)) => assert_eq!(ext, "txt"),
        other => panic!("unexpected: {:?}", other),
    }
}

fn check_nested(items: &[outline::OutlineItem], lo: usize, hi: usize) -> usize {
    let mut count = 0;
    for it in items {
        assert!(lo <= it.start_line && it.start_line <= it.end_line && it.end_line <= hi, "{}", it.name);
        count += 1 + check_nested(&it.children, it.start_line, it.end_line);
    }
    count
}

#[test]
fn test_outline_lines_nested() {
    let items = outline::run("advanced.rs", ADVANCED).unwrap();
    assert_eq!(check_nested(&items, 1, 153), 32);
    let items = outline::run("sample.rs", SAMPLE).unwrap();
    assert_eq!(check_nested(&items, 1, 13), 4);
}

#[test]
fn test_query_truncates_long_text() {
    let results = query::run("advanced.rs", ADVANCED, "(impl_item) @impl").unwrap();
    assert_eq!(results.len(), 4);
    let first = &results[0];
    assert_eq!((first.start_line, first.end_line), (44, 63));
    let one: Vec<query::QueryMatch> = results[..1]
        .iter()
        .map(|m| query::QueryMatch {
            capture_name: m.capture_name.clone(),
            text: m.text.clone(),
            start_line: m.start_line,
            end_line: m.end_line,
            start_col: m.start_col,
            end_col: m.end_col,
        })
        .collect();
    let mut out = String::new();
    query::print_text(&one, &mut out);
    assert_eq!(out, format!("@impl [44:0-63:1] {}...\n", &first.text[..77]));
}
