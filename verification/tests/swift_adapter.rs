use wtcd::swift_adapter::SwiftAdapter;
use wtcd::types::{ConfidenceBand, ExportKind, FileResult};

fn parse_swift(source: &str, file_path: &str) -> FileResult {
    let adapter = SwiftAdapter::new();
    adapter.parse(source, file_path)
}

    #[test]
    fn extracts_classes_protocols_and_imports() {
        let source = r#"
import Foundation
import UIKit

class Calculator {
    func add(a: Int, b: Int) -> Int {
        return a + b
    }

    func print(message: String) {
        print(message)
    }
}

protocol IProcessor {
    func process(data: String)
}

enum Color {
    case red
    case green
    case blue
}

struct Point {
    let x: Double
    let y: Double
}

typealias StringMap = Dictionary<String, String>

extension String {
    func trimmed() -> String {
        return self.trimmingCharacters(in: .whitespaces)
    }
}
"#;

        let result = parse_swift(source, "demo.swift");
        assert_eq!(result.confidence, ConfidenceBand::High);
        assert!(result
            .exports
            .iter()
            .any(|e| e.name == "Calculator" && e.kind == ExportKind::Class));
        assert!(result
            .exports
            .iter()
            .any(|e| e.name == "IProcessor" && e.kind == ExportKind::Interface));
        assert!(result
            .exports
            .iter()
            .any(|e| e.name == "Color" && e.kind == ExportKind::Enum));
        assert!(result
            .exports
            .iter()
            .any(|e| e.name == "Point" && e.kind == ExportKind::Class));
        assert!(result
            .exports
            .iter()
            .any(|e| e.name == "StringMap" && e.kind == ExportKind::Type));

        assert!(result.imports.iter().any(|i| i.source == "Foundation"));
        assert!(result.imports.iter().any(|i| i.source == "UIKit"));

        assert!(result
            .side_effects
            .iter()
            .any(|s| s.target.contains("swift-meta:class:Calculator")));
        assert!(result
            .side_effects
            .iter()
            .any(|s| s.target.contains("swift-meta:protocol:IProcessor")));
        assert!(result
            .side_effects
            .iter()
            .any(|s| s.target.contains("swift-meta:enum:Color")));
        assert!(result
            .side_effects
            .iter()
            .any(|s| s.target.contains("swift-meta:typealias:StringMap")));
        assert!(result
            .side_effects
            .iter()
            .any(|s| s.target.contains("swift-meta:extension:String")));
    }
