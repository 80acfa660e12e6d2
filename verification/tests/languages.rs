//! Outlines, skeletons and reads in each supported language.
use ast_cli::error::AstError;
use ast_cli::languages::Lang;
use ast_cli::ops::{outline, read, skeleton};

const PYTHON: &str = "import os

@decorator
def top(a, b=1) -> int:
    return a + b

class Repo:
    \"\"\"Doc.\"\"\"
    def method(self, x):
        return x

    @staticmethod
    def helper():
        pass

def test_thing():
    assert True
";

const CPP: &str = "#include <vector>

namespace geo {

class Point {
public:
    Point(int x) : x_(x) {}
    int get() const { return x_; }
private:
    int x_;
};

int add(int a, int b) {
    return a + b;
}

}  // namespace geo

template <typename T>
T twice(T v) { return v + v; }

int decl_only(int);
";

const TYPESCRIPT: &str = "export class Greeter {
  greet(name: string): string {
    return name;
  }
}

export const double = (x: number) => x * 2;

interface Shape {
  area(): number;
}

function plain(a: number) {
  return a;
}

const LIMIT = 10;
";

const PROTO: &str = "syntax = \"proto3\";

message User {
  string name = 1;
  message Address {
    string city = 1;
  }
  enum Role {
    ADMIN = 0;
  }
}

service Users {
  rpc Get (User) returns (User);
}
";

fn outline_text(path: &str, source: &str) -> String {
    let items = outline::run(path, source).unwrap();
    let mut out = String::new();
    outline::print_text(&items, &mut out);
    out
}

#[test]
fn test_complex_outline_python() {
    let expected = "\
function top [3:5]  -- def top(a, b=1) -> int
class Repo [7:14]
  function method [9:10]  -- def method(self, x)
  function helper [12:14]  -- def helper()
function test_thing [16:17]  -- def test_thing()
";
    assert_eq!(outline_text("repo.py", PYTHON), expected);
}

#[test]
fn test_complex_outline_cpp() {
    let expected = "\
namespace geo [3:17]
  class Point [5:11]
    function Point [7:7]  -- Point(int x) : x_(x)
    function get [8:8]  -- int get() const
  function add [13:15]  -- int add(int a, int b)
template_function twice [19:20]  -- T twice(T v)
function_decl decl_only [22:22]  -- int decl_only(int) ;
";
    assert_eq!(outline_text("geo.cpp", CPP), expected);
}

#[test]
fn test_complex_outline_ts() {
    let expected = "\
export class Greeter [1:5]
  method greet [2:4]  -- greet (name: string) : string
export function double [7:7]
interface Shape [9:11]
function plain [13:15]  -- function plain (a: number)
const LIMIT [17:17]
";
    assert_eq!(outline_text("greeter.ts", TYPESCRIPT), expected);
}

#[test]
fn test_complex_outline_proto() {
    let expected = "\
message User [3:11]
  message Address [5:7]
  enum Role [8:10]
service Users [13:15]
";
    assert_eq!(outline_text("user.proto", PROTO), expected);
}

#[test]
fn test_complex_skeleton_python() {
    let out = skeleton::run("repo.py", PYTHON).unwrap();
    assert!(out.contains("def top(a, b=1) -> int:\n    pass\n"));
    assert!(out.contains("    def method(self, x):\n        pass\n"));
    assert!(out.contains("    \"\"\"Doc.\"\"\"\n"));
    assert!(!out.contains("return a + b"));
}

#[test]
fn test_complex_skeleton_cpp() {
    let out = skeleton::run("geo.cpp", CPP).unwrap();
    assert!(out.contains("int add(int a, int b) { /* ... */ }"));
    assert!(out.contains("    int get() const { /* ... */ }"));
    assert!(out.contains("T twice(T v) { /* ... */ }"));
    assert!(out.contains("int decl_only(int);"));
}

#[test]
fn test_complex_skeleton_ts() {
    let out = skeleton::run("greeter.ts", TYPESCRIPT).unwrap();
    assert!(out.contains("  greet(name: string): string { /* ... */ }"));
    assert!(out.contains("function plain(a: number) { /* ... */ }"));
    assert!(out.contains("export const double = (x: number) => x * 2;"));
}

#[test]
fn test_skeleton_proto_is_source() {
    let out = skeleton::run("user.proto", PROTO).unwrap();
    assert_eq!(out, PROTO);
}

#[test]
fn test_complex_read_python() {
    let m = read::run("repo.py", "Repo::method", PYTHON).unwrap();
    assert_eq!(m, "def method(self, x):\n        return x");
    let h = read::run("repo.py", "Repo::helper", PYTHON).unwrap();
    assert_eq!(h, "@staticmethod\n    def helper():\n        pass");
}

#[test]
fn test_complex_read_cpp() {
    let m = read::run("geo.cpp", "Point::get", CPP).unwrap();
    assert_eq!(m, "int get() const { return x_; }");
    let f = read::run("geo.cpp", "geo::add", CPP).unwrap();
    assert_eq!(f, "int add(int a, int b) {\n    return a + b;\n}");
}

#[test]
fn test_complex_read_ts() {
    let m = read::run("greeter.ts", "Greeter::greet", TYPESCRIPT).unwrap();
    assert_eq!(m, "greet(name: string): string {\n    return name;\n  }");
}

#[test]
fn test_read_proto_message() {
    let m = read::run("user.proto", "User::Address", PROTO).unwrap();
    assert_eq!(m, "message Address {\n    string city = 1;\n  }");
}

#[test]
fn test_detect_languages() {
    assert_eq!(Lang::detect("a/b.rs").unwrap(), Lang::Rust);
    for p in ["x.cpp", "x.cc", "x.cxx", "x.hpp", "x.h"] {
        assert_eq!(Lang::detect(p).unwrap(), Lang::Cpp);
    }
    assert_eq!(Lang::detect("x.ts").unwrap(), Lang::Typescript);
    assert_eq!(Lang::detect("x.tsx").unwrap(), Lang::Tsx);
    assert_eq!(Lang::detect("x.py").unwrap(), Lang::Python);
    assert_eq!(Lang::detect("x.proto").unwrap(), Lang::Protobuf);
    match Lang::detect("notes.txt") {
        Err(e @ AstError::UnsupportedExtension(_)) => {
            assert_eq!(e.message(), "unsupported file extension: .txt")
        }
        other => panic!("unexpected: {:?}", other),
    }
    match Lang::detect("Makefile") {
        Err(AstError::UnsupportedExtension(ext)) => assert_eq!(ext, ""),
        other => panic!("unexpected: {:?}", other),
    }
}

#[test]
fn test_language_names_and_placeholders() {
    assert_eq!(Lang::Rust.name(), "rust");
    assert_eq!(Lang::Cpp.name(), "cpp");
    assert_eq!(Lang::Typescript.name(), "typescript");
    assert_eq!(Lang::Tsx.name(), "tsx");
    assert_eq!(Lang::Python.name(), "python");
    assert_eq!(Lang::Protobuf.name(), "protobuf");
    assert_eq!(Lang::Rust.body_placeholder(), "{ todo!() }");
    assert_eq!(Lang::Cpp.body_placeholder(), "{ /* ... */ }");
    assert_eq!(Lang::Tsx.body_placeholder(), "{ /* ... */ }");
    assert_eq!(Lang::Python.body_placeholder(), "pass");
    assert_eq!(Lang::Protobuf.body_placeholder(), "{ /* ... */ }");
}

#[test]
fn test_read_interface_impl_members() {
    let ts = "interface Serializable { serialize(): string; }\nclass Parser implements Serializable {\n  serialize(): string { return \"p\"; }\n}\n";
    assert_eq!(read::run("p.ts", "Parser+Serializable::serialize", ts).unwrap(), "serialize(): string { return \"p\"; }");
    assert!(read::run("p.ts", "Parser+Other::serialize", ts).is_err());
    let py = "class Base:\n    pass\n\nclass Parser(Base):\n    def run(self):\n        return 1\n";
    assert_eq!(read::run("p.py", "Parser+Base::run", py).unwrap(), "def run(self):\n        return 1");
    let cpp = "class Parser : public Base {\n    int run() { return 1; }\n};\n";
    assert_eq!(read::run("p.cpp", "Parser+Base::run", cpp).unwrap(), "int run() { return 1; }");
}

#[test]
fn test_outline_all_languages() {
    let sources = [("repo.py", PYTHON), ("geo.cpp", CPP), ("greeter.ts", TYPESCRIPT), ("greeter.tsx", TYPESCRIPT), ("user.proto", PROTO)];
    let firsts = ["function top [3:5]", "namespace geo [3:17]", "export class Greeter [1:5]", "export class Greeter [1:5]", "message User [3:11]"];
    for ((path, source), first) in sources.iter().zip(firsts.iter()) {
        let text = outline_text(path, source);
        assert!(text.lines().next().unwrap().starts_with(first), "{path}: {text}");
    }
}
