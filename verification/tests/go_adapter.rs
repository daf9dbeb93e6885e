use wtcd::go_adapter::{go_source_effects, go_source_imports, GoAdapter};
use wtcd::types::{ConfidenceBand, ExportKind, FileResult, ImportKind, SideEffectKind};

fn parse_go(source: &str, file_path: &str) -> FileResult {
    let adapter = GoAdapter::new();
    adapter.parse(source, file_path)
}

#[test]
fn extracts_functions_methods_structs_interfaces_vars_and_consts() {
    let source = r#"
package demo

import (
  "fmt"
  ioalias "io"
)

type Person struct {
  Name string `json:"name"`
  Age int
  Base
}

type Base struct{}

type Reader interface {
  Read(p []byte) (n int, err error)
}

const Version = "1"
var internalCounter = 1

func Add(a int, b int) int { return a + b }
func (p *Person) Greet() string { return p.Name }
"#;

    let result = parse_go(source, "demo.go");
    assert_eq!(result.confidence, ConfidenceBand::High);
    assert!(result.exports.iter().any(|e| e.name == "Add" && e.kind == ExportKind::Function));
    assert!(result.exports.iter().any(|e| e.name == "Greet" && e.kind == ExportKind::Function));
    assert!(result.exports.iter().any(|e| e.name == "Person" && e.kind == ExportKind::Class));
    assert!(result.exports.iter().any(|e| e.name == "Reader" && e.kind == ExportKind::Interface));
    assert!(result.exports.iter().any(|e| e.name == "Version" && e.kind == ExportKind::Const));
    assert!(result.exports.iter().any(|e| e.name == "internalCounter" && e.kind == ExportKind::Var));

    assert!(result.imports.iter().any(|i| i.source == "fmt"));
    assert!(result.imports.iter().any(|i| i.source == "io"));

    assert!(result.side_effects.iter().any(|s| s.target.contains("go-meta:receiver:(p *Person)")));
    assert!(result.side_effects.iter().any(|s| s.target.contains("go-meta:embedded_struct:Base")));
    assert!(result.side_effects.iter().any(|s| s.target.contains("go-meta:interface_method:Read")));
    assert!(result.side_effects.iter().any(|s| s.target.contains("go-meta:struct_field:Name string")));
    assert!(result.side_effects.iter().any(|s| s.target.contains("visibility:Add:public")));
    assert!(result.side_effects.iter().any(|s| s.target.contains("visibility:internalCounter:private")));
}

#[test]
fn extracts_goroutine_channel_and_directive_side_effects() {
    let source = r#"
package demo

//go:generate stringer -type=Status
func Work(ch chan int) {
  go func() { ch <- 1 }()
}
"#;

    let result = parse_go(source, "effect.go");
    assert!(result.side_effects.iter().any(|s| s.target.contains("go-meta:goroutine")));
    assert!(result.side_effects.iter().any(|s| s.target.contains("go-meta:channel")));
    assert!(result.side_effects.iter().any(|s| s.target.contains("go-meta:directive:generate")));
}

#[test]
fn syntax_error_degrades_confidence() {
    let result = parse_go("package demo\nfunc Broken( {\n", "broken.go");
    assert!(result.confidence == ConfidenceBand::Low || result.confidence == ConfidenceBand::NoConfidence);
}

#[test]
fn go_import_aliases() {
    let imports = go_source_imports("import . \"m/dot\"\nimport _ \"m/blank\"\nimport x \"m/x\" // c\nimport \"solo\"\n");
    let got: Vec<(&str, Vec<&str>, ImportKind)> = imports
        .iter()
        .map(|i| (i.source.as_str(), i.symbols.iter().map(|s| s.as_str()).collect(), i.kind))
        .collect();
    assert_eq!(
        got,
        vec![
            ("m/dot", vec!["."], ImportKind::Namespace),
            ("m/blank", vec![], ImportKind::Named),
            ("m/x", vec!["x"], ImportKind::Default),
            ("solo", vec![], ImportKind::Named),
        ]
    );
}

#[test]
fn go_line_effects_lines_and_kinds() {
    let effects = go_source_effects("x := <-ch\r\n//go:noinline\n");
    let got: Vec<(SideEffectKind, &str, u32)> = effects.iter().map(|e| (e.kind, e.target.as_str(), e.line)).collect();
    assert_eq!(
        got,
        vec![
            (SideEffectKind::Io, "go-meta:channel", 1),
            (SideEffectKind::Log, "go-meta:directive:noinline", 2),
        ]
    );
}

#[test]
fn go_signature_groups_names() {
    let result = parse_go("package p\nfunc F(a, b int, c string) (int, error) { return 0, nil }\n", "f.go");
    assert_eq!(result.signatures.len(), 1);
    let params: Vec<(&str, &str)> =
        result.signatures[0].parameters.iter().map(|p| (p.name.as_str(), p.type_annotation.as_str())).collect();
    assert_eq!(params, vec![("a,", "int"), ("b", "int"), ("c", "string")]);
    assert_eq!(result.signatures[0].return_type, "(int, error)");
}
