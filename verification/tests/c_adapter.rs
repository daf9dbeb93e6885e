use wtcd::c_adapter::{c_source_includes, CAdapter};
use wtcd::types::{ConfidenceBand, ExportKind, FileResult, SideEffectKind};

fn parse_c(source: &str, file_path: &str) -> FileResult {
    let adapter = CAdapter::new();
    adapter.parse(source, file_path)
}

    #[test]
    fn extracts_functions_structs_and_includes() {
        let source = r#"
#include <stdio.h>
#include "myheader.h"

struct Point {
    int x;
    int y;
};

enum Color {
    RED,
    GREEN,
    BLUE
};

typedef struct Point Point;

int add(int a, int b) {
    return a + b;
}

void print_point(struct Point p) {
    printf("(%d, %d)", p.x, p.y);
}
"#;

        let result = parse_c(source, "demo.c");
        assert_eq!(result.confidence, ConfidenceBand::High);
        assert!(result
            .exports
            .iter()
            .any(|e| e.name == "add" && e.kind == ExportKind::Function));
        assert!(result
            .exports
            .iter()
            .any(|e| e.name == "print_point" && e.kind == ExportKind::Function));
        assert!(result
            .exports
            .iter()
            .any(|e| e.name == "Point" && e.kind == ExportKind::Class));
        assert!(result
            .exports
            .iter()
            .any(|e| e.name == "Color" && e.kind == ExportKind::Enum));
        assert!(result
            .exports
            .iter()
            .any(|e| e.name == "Point" && e.kind == ExportKind::Type));

        assert!(result.imports.iter().any(|i| i.source == "stdio.h"));
        assert!(result.imports.iter().any(|i| i.source == "myheader.h"));

        assert!(result
            .side_effects
            .iter()
            .any(|s| s.target.contains("c-meta:struct:Point")));
        assert!(result
            .side_effects
            .iter()
            .any(|s| s.target.contains("c-meta:enum:Color")));
        assert!(result
            .side_effects
            .iter()
            .any(|s| s.target.contains("c-meta:typedef:Point")));
        assert!(result
            .side_effects
            .iter()
            .any(|s| s.target.contains("c-meta:io:printf")));
    }

    #[test]
    fn extracts_preprocessor_directives() {
        let source = r#"
#define MAX_SIZE 100
#define MIN(a, b) ((a) < (b) ? (a) : (b))

#ifdef DEBUG
void debug_print(const char* msg);
#endif

#ifndef HEADER_H
#define HEADER_H
#endif
"#;

        let result = parse_c(source, "header.h");
        assert_eq!(result.confidence, ConfidenceBand::High);
        assert!(result
            .exports
            .iter()
            .any(|e| e.name == "MAX_SIZE" && e.kind == ExportKind::Const));
        assert!(result
            .exports
            .iter()
            .any(|e| e.name == "MIN" && e.kind == ExportKind::Const));
        assert!(result
            .side_effects
            .iter()
            .any(|s| s.target.contains("c-meta:define:MAX_SIZE")));
        assert!(result
            .side_effects
            .iter()
            .any(|s| s.target.contains("c-meta:conditional:DEBUG")));
    }

    #[test]
    fn extracts_function_prototypes() {
        let source = r#"
int add(int a, int b);
void process(const char* data, size_t len);
"#;

        let result = parse_c(source, "prototypes.h");
        assert_eq!(result.confidence, ConfidenceBand::High);
        assert!(result
            .exports
            .iter()
            .any(|e| e.name == "add" && e.kind == ExportKind::Function));
        assert!(result
            .exports
            .iter()
            .any(|e| e.name == "process" && e.kind == ExportKind::Function));
    }

#[test]
fn c_includes_read_off_lines() {
    let edges = c_source_includes("  #include <stdio.h>\n#include \"a/b.h\"\n#define X 1\n#include nothing\n");
    let sources: Vec<&str> = edges.iter().map(|e| e.source.as_str()).collect();
    assert_eq!(sources, vec!["stdio.h", "a/b.h"]);
}

#[test]
fn c_calls_and_linkage_recorded() {
    let source = "#include <stdlib.h>\nvoid f(void) {\n  char *p = malloc(4);\n  free(p);\n  FILE *h = fopen(\"x\", \"r\");\n}\n";
    let result = parse_c(source, "m.c");
    assert_eq!(result.confidence, ConfidenceBand::High);
    assert!(result
        .side_effects
        .iter()
        .any(|s| s.target == "c-meta:memory:malloc" && s.kind == SideEffectKind::Storage && s.line == 3));
    assert!(result.side_effects.iter().any(|s| s.target == "c-meta:memory:free" && s.line == 4));
    assert!(result.side_effects.iter().any(|s| s.target == "c-meta:file:fopen" && s.kind == SideEffectKind::Io));
    assert!(result.side_effects.iter().any(|s| s.target == "c-meta:include" && s.line == 1));
    assert_eq!(result.signatures.len(), 1);
    assert_eq!(result.signatures[0].name, "f");
    assert_eq!(result.signatures[0].return_type, "void");
}
