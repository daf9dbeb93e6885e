use wtcd::rust_adapter::RustAdapter;
use wtcd::types::{ConfidenceBand, ExportKind, FileResult};

fn parse_rust(source: &str, file_path: &str) -> FileResult {
    let adapter = RustAdapter::new();
    adapter.parse(source, file_path)
}

    #[test]
    fn extracts_functions_structs_traits_and_use() {
        let source = r#"
use std::collections::HashMap;
use serde::{Deserialize, Serialize};

pub struct Calculator {
    value: i32,
}

impl Calculator {
    pub fn new() -> Self {
        Self { value: 0 }
    }

    pub fn add(&mut self, a: i32, b: i32) -> i32 {
        self.value = a + b;
        self.value
    }
}

pub trait Processor {
    fn process(&self, data: &str) -> Result<(), Error>;
}

pub enum Color {
    Red,
    Green,
    Blue,
}

pub type StringMap = HashMap<String, String>;

pub const MAX_SIZE: usize = 100;

static mut COUNTER: u32 = 0;

mod utils;
"#;

        let result = parse_rust(source, "demo.rs");
        assert_eq!(result.confidence, ConfidenceBand::High);
        assert!(result
            .exports
            .iter()
            .any(|e| e.name == "Calculator" && e.kind == ExportKind::Class));
        assert!(result
            .exports
            .iter()
            .any(|e| e.name == "Processor" && e.kind == ExportKind::Interface));
        assert!(result
            .exports
            .iter()
            .any(|e| e.name == "Color" && e.kind == ExportKind::Enum));
        assert!(result
            .exports
            .iter()
            .any(|e| e.name == "StringMap" && e.kind == ExportKind::Type));
        assert!(result
            .exports
            .iter()
            .any(|e| e.name == "MAX_SIZE" && e.kind == ExportKind::Const));
        assert!(result
            .exports
            .iter()
            .any(|e| e.name == "COUNTER" && e.kind == ExportKind::Var));

        assert!(result
            .imports
            .iter()
            .any(|i| i.source == "std::collections::HashMap"));
        assert!(result
            .imports
            .iter()
            .any(|i| i.source == "serde::{Deserialize, Serialize}"));

        assert!(result
            .side_effects
            .iter()
            .any(|s| s.target.contains("rust-meta:struct:Calculator")));
        assert!(result
            .side_effects
            .iter()
            .any(|s| s.target.contains("rust-meta:trait:Processor")));
        assert!(result
            .side_effects
            .iter()
            .any(|s| s.target.contains("rust-meta:enum:Color")));
        assert!(result
            .side_effects
            .iter()
            .any(|s| s.target.contains("rust-meta:impl:Calculator")));
        assert!(result
            .side_effects
            .iter()
            .any(|s| s.target.contains("rust-meta:mod:utils")));
    }
