use wtcd::py_adapter::{dunder_all_names, PyAdapter};
use wtcd::types::{ConfidenceBand, ExportKind, FileResult, ImportKind, SideEffectKind};

fn parse_py(source: &str, file_path: &str) -> FileResult {
    let adapter = PyAdapter::new();
    adapter.parse(source, file_path)
}

#[test]
fn extracts_function_with_types() {
    let result = parse_py("def greet(name: str) -> str:\n    return name\n", "a.py");
    assert_eq!(result.confidence, ConfidenceBand::High);
    assert_eq!(result.exports.iter().filter(|e| e.name == "greet").count(), 1);
    let sig = result.signatures.iter().find(|s| s.name == "greet").unwrap();
    assert_eq!(sig.parameters[0].name, "name");
    assert!(sig.parameters[0].type_annotation.contains("str"));
}

#[test]
fn extracts_class_and_bases_meta() {
    let result = parse_py("class Dog(Animal):\n    pass\n", "c.py");
    assert!(result.exports.iter().any(|e| e.name == "Dog" && e.kind == ExportKind::Class));
    assert!(result.side_effects.iter().any(|s| s.target.contains("class_base:Animal")));
}

#[test]
fn extracts_imports_and_relative() {
    let result = parse_py("import os\nfrom pathlib import Path\nfrom .core import x\n", "i.py");
    assert!(result.imports.iter().any(|i| i.source == "os"));
    assert!(result.imports.iter().any(|i| i.source == "pathlib"));
    assert!(result.imports.iter().any(|i| i.source == ".core"));
}

#[test]
fn captures_decorator_meta() {
    let result = parse_py("@dataclass\nclass Point:\n    x: int\n", "d.py");
    assert!(result.side_effects.iter().any(|s| s.target.contains("decorator:class:dataclass")));
    assert!(result.side_effects.iter().any(|s| s.target.contains("pattern:dataclass")));
}

#[test]
fn detects_package_marker_and_dunder_all() {
    let result = parse_py(
        "__all__ = [\"public\"]\n\ndef public():\n    pass\n\ndef hidden():\n    pass\n",
        "pkg/__init__.py",
    );
    assert!(result.exports.iter().any(|e| e.name == "public"));
    assert!(!result.exports.iter().any(|e| e.name == "hidden"));
    assert!(result.exports.iter().any(|e| e.name == "__package__"));
}

#[test]
fn syntax_error_is_low_or_none() {
    let result = parse_py("def broken(\n", "broken.py");
    assert!(result.confidence == ConfidenceBand::Low || result.confidence == ConfidenceBand::NoConfidence);
}

#[test]
fn detects_method_kinds_and_pydantic() {
    let source = "
from pydantic import BaseModel

class User(BaseModel):
    @staticmethod
    def s():
        return 1

    @classmethod
    def c(cls):
        return cls

    @property
    def p(self):
        return 42
";
    let result = parse_py(source, "model.py");
    assert!(result.side_effects.iter().any(|s| s.target.contains("pattern:pydantic_basemodel")));
    assert!(result.side_effects.iter().any(|s| s.target.contains("method_type:staticmethod")));
    assert!(result.side_effects.iter().any(|s| s.target.contains("method_type:classmethod")));
    assert!(result.side_effects.iter().any(|s| s.target.contains("method_type:property")));
}

#[test]
fn py_import_forms_exact() {
    let result = parse_py(
        "import os, sys as system  # comment\nfrom a.b import (x as y, z)\nfrom . import\n",
        "m.py",
    );
    let imports: Vec<(&str, Vec<&str>, ImportKind)> = result
        .imports
        .iter()
        .map(|i| (i.source.as_str(), i.symbols.iter().map(|s| s.as_str()).collect(), i.kind))
        .collect();
    assert_eq!(
        imports,
        vec![
            ("os", vec![], ImportKind::Namespace),
            ("sys", vec![], ImportKind::Namespace),
            ("a.b", vec!["x", "z"], ImportKind::Named),
        ]
    );
}

#[test]
fn py_dunder_all_sorted_record_and_order() {
    let result = parse_py(
        "__all__ = ('b', \"a\",\n  'b')\ndef a():\n    pass\ndef b():\n    pass\ndef c():\n    pass\n",
        "pkg/__init__.py",
    );
    let names: Vec<&str> = result.exports.iter().map(|e| e.name.as_str()).collect();
    assert_eq!(names, vec!["a", "b", "__package__"]);
    let n = result.side_effects.len();
    assert_eq!(result.side_effects[n - 2].target, "py-meta:dunder_all:a,b");
    assert_eq!(result.side_effects[n - 2].line, 1);
    assert_eq!(result.side_effects[n - 1].target, "py-meta:package_marker:true");
    assert_eq!(dunder_all_names("x = 1\n"), None);
    assert_eq!(
        dunder_all_names("__all__ = ['q', 'p', 'q']\n"),
        Some(vec!["q".to_string(), "p".to_string(), "q".to_string()])
    );
}

#[test]
fn py_call_side_effects() {
    let result = parse_py("print('x')\nopen('f')\n", "s.py");
    let effects: Vec<(SideEffectKind, &str, u32)> =
        result.side_effects.iter().map(|e| (e.kind, e.target.as_str(), e.line)).collect();
    assert_eq!(effects, vec![(SideEffectKind::Io, "open", 2), (SideEffectKind::Log, "print", 1)]);
}

#[test]
fn py_decorators_reach_nested_definitions() {
    let result = parse_py("@dataclass\nclass P:\n    def m(self):\n        pass\n", "n.py");
    assert!(result.side_effects.iter().any(|s| s.target == "py-meta:decorator:function:dataclass" && s.line == 3));
}
