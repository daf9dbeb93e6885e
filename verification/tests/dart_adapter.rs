use wtcd::dart_adapter::DartAdapter;
use wtcd::types::{ConfidenceBand, ExportKind, FileResult};

fn parse_dart(source: &str, file_path: &str) -> FileResult {
    let adapter = DartAdapter::new();
    adapter.parse(source, file_path)
}

    #[test]
    fn extracts_classes_functions_and_imports() {
        let source = r#"
import 'dart:math';
import 'package:flutter/material.dart';

class Calculator {
  int add(int a, int b) => a + b;
  
  void print(String message) {
    print(message);
  }
}

enum Color {
  red,
  green,
  blue
}

mixin Printable {
  void printMessage();
}
"#;

        let result = parse_dart(source, "demo.dart");
        assert_eq!(result.confidence, ConfidenceBand::High);
        assert!(result
            .exports
            .iter()
            .any(|e| e.name == "Calculator" && e.kind == ExportKind::Class));
        assert!(result
            .exports
            .iter()
            .any(|e| e.name == "Color" && e.kind == ExportKind::Enum));
        assert!(result
            .exports
            .iter()
            .any(|e| e.name == "Printable" && e.kind == ExportKind::Type));

        assert!(result.imports.iter().any(|i| i.source == "dart:math"));
        assert!(result
            .imports
            .iter()
            .any(|i| i.source == "package:flutter/material.dart"));

        assert!(result
            .side_effects
            .iter()
            .any(|s| s.target.contains("dart-meta:class:Calculator")));
        assert!(result
            .side_effects
            .iter()
            .any(|s| s.target.contains("dart-meta:enum:Color")));
        assert!(result
            .side_effects
            .iter()
            .any(|s| s.target.contains("dart-meta:mixin:Printable")));
    }
