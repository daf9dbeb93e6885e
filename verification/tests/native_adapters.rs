use wtcd::cpp_adapter::CppAdapter;
use wtcd::csharp_adapter::{csharp_source_usings, CSharpAdapter};
use wtcd::dart_adapter::{dart_source_imports, strip_quotes, DartAdapter};
use wtcd::rust_adapter::{rust_source_uses, RustAdapter};
use wtcd::swift_adapter::{swift_source_imports, SwiftAdapter};
use wtcd::types::{ConfidenceBand, ExportKind, ImportKind};
use wtcd::zig_adapter::{zig_imports_of_line, ZigAdapter};

fn params(sig: &wtcd::types::FunctionSignature) -> Vec<(String, String)> {
    sig.parameters.iter().map(|p| (p.name.clone(), p.type_annotation.clone())).collect()
}

#[test]
fn rust_use_kinds_and_signatures() {
    let source = "use std::io::*;\nuse a::b as c;\nuse x::y;\npub fn add(a: i32, b: i32) -> i32 { a + b }\n#[derive(Debug)]\nstruct S;\nfn f() { println!(\"x\"); }\n";
    let uses = rust_source_uses(source);
    let got: Vec<(&str, ImportKind)> = uses.iter().map(|e| (e.source.as_str(), e.kind)).collect();
    assert_eq!(got, vec![("std::io::*", ImportKind::Namespace), ("a::b as c", ImportKind::Default), ("x::y", ImportKind::Named)]);
    let r = RustAdapter::new().parse(source, "lib.rs");
    assert_eq!(r.confidence, ConfidenceBand::High);
    let add = r.signatures.iter().find(|s| s.name == "add").unwrap();
    assert_eq!(params(add), vec![("a".to_string(), "i32".to_string()), ("b".to_string(), "i32".to_string())]);
    assert_eq!(add.return_type, "i32");
    let f = r.signatures.iter().find(|s| s.name == "f").unwrap();
    assert!(f.parameters.is_empty());
    assert_eq!(f.return_type, "()");
    assert!(r.side_effects.iter().any(|s| s.target == "rust-meta:struct:S" && s.line == 6));
    assert!(r.side_effects.iter().any(|s| s.target == "rust-meta:attribute:#[derive(Debug)]" && s.line == 5));
    assert!(r.side_effects.iter().any(|s| s.target == "rust-meta:macro:println" && s.line == 7));
}

#[test]
fn csharp_usings_and_constructor() {
    let usings = csharp_source_usings("using System;\n  using  A.B ;\nusing C\nnamespace N;\n");
    let got: Vec<&str> = usings.iter().map(|e| e.source.as_str()).collect();
    assert_eq!(got, vec!["System", "A.B"]);
    let source = "class A {\n  public A(int x) {}\n  public int M(string s, int n) { return 1; }\n}\n";
    let r = CSharpAdapter::new().parse(source, "A.cs");
    let ctor = r.signatures.iter().find(|s| s.name == "A").unwrap();
    assert_eq!(ctor.return_type, "void");
    assert_eq!(params(ctor), vec![("x".to_string(), "int".to_string())]);
    let m = r.signatures.iter().find(|s| s.name == "M").unwrap();
    assert_eq!(params(m), vec![("s".to_string(), "string".to_string()), ("n".to_string(), "int".to_string())]);
    assert!(r.exports.iter().any(|e| e.name == "A" && e.kind == ExportKind::Class && e.line == 1));
}

#[test]
fn zig_imports_within_a_line() {
    let edges = zig_imports_of_line("const a = @import(\"a\"); const b = @import( \"b.zig\" ); const c = @import(\"\");");
    let got: Vec<&str> = edges.iter().map(|e| e.source.as_str()).collect();
    assert_eq!(got, vec!["a", "b.zig"]);
    assert!(zig_imports_of_line("@import(\"never closed\"").is_empty());
    let r = ZigAdapter::new().parse("const S = struct { x: i32 };\nconst n: usize = 3;\n", "m.zig");
    assert!(r.exports.iter().any(|e| e.name == "S" && e.kind == ExportKind::Class));
    assert!(r.exports.iter().any(|e| e.name == "n" && e.kind == ExportKind::Var));
    assert!(r.side_effects.iter().any(|s| s.target == "zig-meta:struct:S" && s.line == 1));
}

#[test]
fn swift_imports_trimmed() {
    let edges = swift_source_imports("import Foundation\n  import   UIKit  \nimported\n");
    let got: Vec<&str> = edges.iter().map(|e| e.source.as_str()).collect();
    assert_eq!(got, vec!["Foundation", "UIKit"]);
    let r = SwiftAdapter::new().parse("protocol P {}\n", "p.swift");
    assert!(r.exports.iter().any(|e| e.name == "P" && e.kind == ExportKind::Interface));
}

#[test]
fn dart_imports_and_exports_unquoted() {
    let edges = dart_source_imports("import 'dart:io';\nexport \"src/a.dart\";\nimport 'x.dart'\n");
    let got: Vec<&str> = edges.iter().map(|e| e.source.as_str()).collect();
    assert_eq!(got, vec!["dart:io", "src/a.dart"]);
    assert_eq!(strip_quotes("'\"a'b\"'"), "a'b");
    let r = DartAdapter::new().parse("class Box {}\nenum E { a }\n", "b.dart");
    assert!(r.exports.iter().any(|e| e.name == "Box" && e.kind == ExportKind::Class));
    assert!(r.side_effects.iter().any(|s| s.target == "dart-meta:enum:E" && s.line == 2));
}

#[test]
fn cpp_names_namespaces_and_templates() {
    let source = "namespace ns {\nint add(int a, int b) { return a + b; }\n}\ntemplate<typename T> T id(T x) { return x; }\nusing std::string;\n";
    let r = CppAdapter::new().parse(source, "m.cpp");
    let add = r.signatures.iter().find(|s| s.name == "add").unwrap();
    assert_eq!(params(add), vec![("a".to_string(), "int".to_string()), ("b".to_string(), "int".to_string())]);
    assert_eq!(add.return_type, "int");
    assert!(r.exports.iter().any(|e| e.name == "id" && e.kind == ExportKind::Function && e.line == 4));
    assert!(r.side_effects.iter().any(|s| s.target == "cpp-meta:namespace:ns" && s.line == 1));
    assert!(r.side_effects.iter().any(|s| s.target == "cpp-meta:template" && s.line == 4));
    assert!(r.side_effects.iter().any(|s| s.target == "cpp-meta:using" && s.line == 5));
}
