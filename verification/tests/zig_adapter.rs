use wtcd::zig_adapter::ZigAdapter;
use wtcd::types::{ConfidenceBand, ExportKind, FileResult};

fn parse_zig(source: &str, file_path: &str) -> FileResult {
    let adapter = ZigAdapter::new();
    adapter.parse(source, file_path)
}

    #[test]
    fn extracts_functions_structs_and_imports() {
        let source = r#"
const std = @import("std");
const math = @import("math.zig");

pub const Calculator = struct {
    value: i32,

    pub fn init() Calculator {
        return Calculator{ .value = 0 };
    }

    pub fn add(self: *Calculator, a: i32, b: i32) i32 {
        self.value = a + b;
        return self.value;
    }
};

pub const Color = enum {
    Red,
    Green,
    Blue,
};

pub const Point = struct {
    x: f64,
    y: f64,
};

pub const MAX_SIZE: usize = 100;

test "addition" {
    var calc = Calculator.init();
    const result = calc.add(2, 3);
    try std.testing.expectEqual(5, result);
}
"#;

        let result = parse_zig(source, "demo.zig");
        assert_eq!(result.confidence, ConfidenceBand::High);
        assert!(result
            .exports
            .iter()
            .any(|e| e.name == "Calculator" && e.kind == ExportKind::Class));
        assert!(result
            .exports
            .iter()
            .any(|e| e.name == "Color" && e.kind == ExportKind::Enum));
        assert!(result
            .exports
            .iter()
            .any(|e| e.name == "Point" && e.kind == ExportKind::Class));
        assert!(result
            .exports
            .iter()
            .any(|e| e.name == "MAX_SIZE" && e.kind == ExportKind::Var));

        assert!(result.imports.iter().any(|i| i.source == "std"));
        assert!(result.imports.iter().any(|i| i.source == "math.zig"));

        assert!(result
            .side_effects
            .iter()
            .any(|s| s.target.contains("zig-meta:struct:Calculator")));
        assert!(result
            .side_effects
            .iter()
            .any(|s| s.target.contains("zig-meta:enum:Color")));
        assert!(result
            .side_effects
            .iter()
            .any(|s| s.target.contains("zig-meta:test")));
    }
