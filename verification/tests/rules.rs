//! The library's rules on plain values: addresses, line ranges, excludes,
//! counts and text rendering.
use ast_cli::error::AstError;
use ast_cli::ops::outline::OutlineItem;
use ast_cli::ops::project::{count_items, sort_by_path, FileSummary, ProjectSummary};
use ast_cli::ops::read::{extract_by_lines, parse_line_range, split_address, strip_generics};
use ast_cli::ops::walk::{matches_exclude, skip_entry};
use ast_cli::text::{decimal_text, line_count, parse_decimal, push_padded_left, push_padded_right, trim_text};

fn item(kind: &str, name: &str, children: Vec<OutlineItem>) -> OutlineItem {
    OutlineItem {
        kind: kind.to_string(),
        name: name.to_string(),
        start_line: 1,
        end_line: 2,
        visibility: None,
        signature: None,
        children,
    }
}

#[test]
fn test_line_range_addresses() {
    assert_eq!(parse_line_range("11:13"), Some((11, 13)));
    assert_eq!(parse_line_range("+4:7"), Some((4, 7)));
    assert_eq!(parse_line_range("abc"), None);
    assert_eq!(parse_line_range("1:2:3"), None);
    assert_eq!(parse_line_range("1:"), None);
    assert_eq!(parse_line_range(":5"), None);
    assert_eq!(parse_line_range("-1:5"), None);
    assert_eq!(parse_line_range("18446744073709551616:1"), None);
}

#[test]
fn test_line_range_roundtrip_values() {
    for (a, b) in [(0usize, 0usize), (7, 7), (150, 200), (9, 10), (usize::MAX, 1)] {
        let text = format!("{}:{}", decimal_text(a), decimal_text(b));
        assert_eq!(parse_line_range(&text), Some((a, b)));
    }
}

#[test]
fn test_extract_by_lines() {
    let source = "one\ntwo\r\nthree\n\nfive";
    assert_eq!(extract_by_lines(source, 1, 1).unwrap(), "one");
    assert_eq!(extract_by_lines(source, 2, 3).unwrap(), "two\nthree");
    assert_eq!(extract_by_lines(source, 4, 100).unwrap(), "\nfive");
    match extract_by_lines(source, 6, 6) {
        Err(AstError::InvalidLineRange { start, end, lines }) => assert_eq!((start, end, lines), (6, 6, 5)),
        other => panic!("unexpected: {:?}", other),
    }
    assert!(extract_by_lines(source, 0, 2).is_err());
    assert!(extract_by_lines(source, 3, 2).is_err());
    assert!(extract_by_lines("", 1, 1).is_err());
    assert_eq!(line_count(source), 5);
    assert_eq!(line_count("a\n"), 1);
    assert_eq!(line_count(""), 0);
}

#[test]
fn test_split_address_parts() {
    assert_eq!(split_address("Parser::parse_field"), vec!["Parser", "parse_field"]);
    assert_eq!(split_address("validate"), vec!["validate"]);
    assert_eq!(split_address("a::b::c"), vec!["a", "b", "c"]);
    assert_eq!(split_address("::x"), vec!["", "x"]);
    assert_eq!(split_address(""), vec![""]);
    assert_eq!(split_address("a:::b"), vec!["a", ":b"]);
    assert_eq!(split_address("a::b::c").join("::"), "a::b::c");
}

#[test]
fn test_strip_generics_names() {
    assert_eq!(strip_generics("BinaryWalker<'a>"), "BinaryWalker");
    assert_eq!(strip_generics("Registry<'a, T>"), "Registry");
    assert_eq!(strip_generics("Plain"), "Plain");
    assert_eq!(strip_generics("<T>"), "");
}

#[test]
fn test_matches_exclude_patterns() {
    assert!(matches_exclude("src/testdata/a.rs", "testdata/"));
    assert!(matches_exclude("src/testdata", "testdata/"));
    assert!(!matches_exclude("src/data/a.rs", "testdata/"));
    assert!(matches_exclude("gen/a.pb.cc", "*.pb.cc"));
    assert!(!matches_exclude("gen/a.pb.cc.bak", "*.pb.cc"));
    assert!(matches_exclude("vendor/lib.rs", "vendor"));
    assert!(!matches_exclude("src/lib.rs", "vendor"));
    assert!(matches_exclude("anything", ""));
    assert!(matches_exclude("/p/src/test_a.rs", "*test*"));
    assert!(!matches_exclude("/p/src/spec_a.rs", "*test*"));
    assert!(matches_exclude("src/a.rs", "src/?.rs"));
    assert!(!matches_exclude("src/ab.rs", "src/?.rs"));
    assert!(matches_exclude("x", "*"));
    assert!(!matches_exclude("a/b.rs", "b*"));
}

#[test]
fn test_skip_entries() {
    let none: Vec<String> = Vec::new();
    assert!(skip_entry(".git", "./.git", true, &none));
    assert!(!skip_entry(".hidden.rs", "./.hidden.rs", false, &none));
    for name in ["target", "node_modules", "__pycache__", "build", "dist", ".next"] {
        assert!(skip_entry(name, name, true, &none));
        assert!(!skip_entry(name, name, false, &none));
    }
    assert!(!skip_entry("src", "./src", true, &none));
    let exclude = vec!["testdata/".to_string(), "*.h".to_string()];
    assert!(skip_entry("testdata", "./testdata", true, &exclude));
    assert!(skip_entry("a.h", "./inc/a.h", false, &exclude));
    assert!(!skip_entry("a.hpp", "./inc/a.hpp", false, &exclude));
}

#[test]
fn test_count_items_nested() {
    let items = vec![
        item("impl", "Parser", vec![item("function", "test_parse", vec![]), item("function", "new", vec![])]),
        item("struct", "Parser", vec![]),
        item("class", "Suite", vec![item("method", "test run", vec![]), item("rpc", "Get", vec![])]),
        item("interface", "Shape", vec![item("message", "Inner", vec![])]),
        item("module", "tests", vec![item("function", "testing", vec![])]),
        item("enum", "E", vec![]),
        item("trait", "T", vec![]),
        item("type_alias", "R", vec![]),
        item("const", "C", vec![]),
    ];
    let (mut f, mut t, mut x) = (0usize, 0usize, 0usize);
    count_items(&items, &mut f, &mut t, &mut x);
    assert_eq!((f, t, x), (5, 7, 2));
    let (mut f2, mut t2, mut x2) = (10usize, 20usize, 30usize);
    count_items(&items, &mut f2, &mut t2, &mut x2);
    assert_eq!((f2, t2, x2), (15, 27, 32));
    assert!(x <= f);
}

#[test]
fn test_project_text_padding() {
    let summary = ProjectSummary {
        files: vec![FileSummary {
            path: "a/very/long/path/that/goes/past/the/fifty/column/mark/file.rs".to_string(),
            language: "typescript-long".to_string(),
            lines: 123456,
            functions: 1000,
            types: 0,
            tests: 100,
        }],
        total_files: 1,
        total_lines: 123456,
    };
    let mut out = String::new();
    ast_cli::ops::project::print_text(&summary, &mut out);
    assert_eq!(
        out,
        "1 files, 123456 lines\n\n  a/very/long/path/that/goes/past/the/fifty/column/mark/file.rs typescript-long  123456 lines  1000 fn    0 types  100 tests\n"
    );
}

#[test]
fn test_text_rendering() {
    assert_eq!(decimal_text(0), "0");
    assert_eq!(decimal_text(1024), "1024");
    assert_eq!(decimal_text(usize::MAX), usize::MAX.to_string());
    let mut s = String::from(">");
    push_padded_left(&mut s, "ab", 4);
    push_padded_right(&mut s, "cd", 3);
    push_padded_left(&mut s, "long", 2);
    assert_eq!(s, ">  abcd long");
    let mut u = String::new();
    push_padded_right(&mut u, "é", 3);
    assert_eq!(u, "é  ");
    assert_eq!(trim_text("  \t x y \n"), "x y");
    assert_eq!(parse_decimal("+12"), Some(12));
    assert_eq!(parse_decimal("1 2"), None);
    assert_eq!(parse_decimal(""), None);
}

#[test]
fn test_error_messages() {
    assert_eq!(AstError::EmptyAddress.message(), "empty address");
    assert_eq!(AstError::NotFound("X".to_string()).message(), "could not find 'X'");
    assert_eq!(AstError::InvalidCaptureIndex(7).message(), "invalid capture index: 7");
    assert_eq!(AstError::InvalidQuery("bad".to_string()).message(), "bad");
    assert_eq!(
        AstError::InvalidLineRange { start: 0, end: 3, lines: 2 }.message(),
        "invalid line range 0:3 (file has 2 lines)"
    );
    assert_eq!(AstError::Overflow.message(), "count does not fit in a machine word");
}

fn summary(path: &str) -> FileSummary {
    FileSummary { path: path.to_string(), language: "rust".to_string(), lines: 1, functions: 0, types: 0, tests: 0 }
}

#[test]
fn test_sort_by_path_components() {
    let sorted = sort_by_path(vec![summary("b.rs"), summary("a.rs"), summary("a/b.rs"), summary("a.rs")]);
    let paths: Vec<&str> = sorted.iter().map(|f| f.path.as_str()).collect();
    assert_eq!(paths, vec!["a/b.rs", "a.rs", "a.rs", "b.rs"]);
}
