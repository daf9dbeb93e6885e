use wtcd::csharp_adapter::CSharpAdapter;
use wtcd::types::{ConfidenceBand, ExportKind, FileResult};

fn parse_csharp(source: &str, file_path: &str) -> FileResult {
    let adapter = CSharpAdapter::new();
    adapter.parse(source, file_path)
}

    #[test]
    fn extracts_classes_methods_and_using() {
        let source = r#"
using System;
using System.Collections.Generic;

namespace MyApp {
    public class Calculator {
        public int Add(int a, int b) {
            return a + b;
        }

        public void Print(string message) {
            Console.WriteLine(message);
        }
    }

    public struct Point {
        public double X;
        public double Y;
    }

    public interface IProcessor {
        void Process(string data);
    }

    public enum Color {
        Red,
        Green,
        Blue
    }
}
"#;

        let result = parse_csharp(source, "demo.cs");
        assert_eq!(result.confidence, ConfidenceBand::High);
        assert!(result
            .exports
            .iter()
            .any(|e| e.name == "Calculator" && e.kind == ExportKind::Class));
        assert!(result
            .exports
            .iter()
            .any(|e| e.name == "Point" && e.kind == ExportKind::Class));
        assert!(result
            .exports
            .iter()
            .any(|e| e.name == "IProcessor" && e.kind == ExportKind::Interface));
        assert!(result
            .exports
            .iter()
            .any(|e| e.name == "Color" && e.kind == ExportKind::Enum));
        assert!(result
            .exports
            .iter()
            .any(|e| e.name == "Add" && e.kind == ExportKind::Function));

        assert!(result.imports.iter().any(|i| i.source == "System"));
        assert!(result
            .imports
            .iter()
            .any(|i| i.source == "System.Collections.Generic"));

        assert!(result
            .side_effects
            .iter()
            .any(|s| s.target.contains("csharp-meta:namespace:MyApp")));
        assert!(result
            .side_effects
            .iter()
            .any(|s| s.target.contains("csharp-meta:class:Calculator")));
    }
