use wtcd::cpp_adapter::CppAdapter;
use wtcd::types::{ConfidenceBand, ExportKind, FileResult};

fn parse_cpp(source: &str, file_path: &str) -> FileResult {
    let adapter = CppAdapter::new();
    adapter.parse(source, file_path)
}

    #[test]
    fn extracts_classes_functions_and_includes() {
        let source = r#"
#include <iostream>
#include <vector>

namespace myapp {
    class Calculator {
    public:
        int add(int a, int b);
        void print(const std::string& msg);
    private:
        int value;
    };

    struct Point {
        double x;
        double y;
    };

    enum Color {
        RED,
        GREEN,
        BLUE
    };
}
"#;

        let result = parse_cpp(source, "demo.cpp");
        assert_eq!(result.confidence, ConfidenceBand::High);
        assert!(result
            .exports
            .iter()
            .any(|e| e.name == "Calculator" && e.kind == ExportKind::Class));
        assert!(result
            .exports
            .iter()
            .any(|e| e.name == "Point" && e.kind == ExportKind::Class));
        assert!(result
            .exports
            .iter()
            .any(|e| e.name == "Color" && e.kind == ExportKind::Enum));

        assert!(result.imports.iter().any(|i| i.source == "iostream"));
        assert!(result.imports.iter().any(|i| i.source == "vector"));

        assert!(result
            .side_effects
            .iter()
            .any(|s| s.target.contains("cpp-meta:namespace:myapp")));
        assert!(result
            .side_effects
            .iter()
            .any(|s| s.target.contains("cpp-meta:class:Calculator")));
    }
