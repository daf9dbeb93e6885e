use wtcd::registry::{register_all_adapters, AdapterRegistry, LanguageSpec};

#[test]
fn test_scanner_registry_extension_consistency() {
    let registry = register_all_adapters();
    let expected_extensions = &[
        "ts", "tsx", "js", "jsx", "py", "pyi", "go", "rs", "dart", "java", "kt", "kts", "swift", "c", "h", "cpp", "cc",
        "cxx", "hpp", "hh", "hxx", "cs", "zig",
    ];
    for ext in expected_extensions {
        let test_file = format!("test.{}", ext);
        assert!(registry.find_adapter(&test_file).is_some(), "No adapter registered for extension .{}", ext);
    }
}

#[test]
fn find_adapter_takes_first_registered() {
    let registry = register_all_adapters();
    assert_eq!(registry.find_adapter("a/b/x.h").unwrap().name, "c");
    assert_eq!(registry.find_adapter("x.hpp").unwrap().name, "cpp");
    assert_eq!(registry.find_adapter("app.kts").unwrap().name, "kotlin");
    assert!(registry.find_adapter("Makefile").is_none());
    assert!(registry.find_adapter("notes.md").is_none());
    assert!(registry.find_adapter(".ts").is_none());
    assert_eq!(registry.adapters().len(), 12);
}

#[test]
fn registry_keeps_registration_order() {
    let mut registry = AdapterRegistry::new();
    registry.register(LanguageSpec { name: "one".to_string(), extensions: vec!["x".to_string()] });
    registry.register(LanguageSpec { name: "two".to_string(), extensions: vec!["x".to_string(), "y".to_string()] });
    assert_eq!(registry.find_adapter("f.x").unwrap().name, "one");
    assert_eq!(registry.find_adapter("f.y").unwrap().name, "two");
}
