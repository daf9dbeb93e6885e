use wtcd::config::{select_agent, Agent, DEFAULT_CONFIG};
use wtcd::diff_types::{assemble_diff, FileStatus};
use wtcd::error::WtcdError;
use wtcd::registry::{parse_with, register_all_adapters};
use wtcd::scope::{is_supported, select_scanned, ExcludeSet};

fn strings(v: &[&str]) -> Vec<String> {
    v.iter().map(|s| s.to_string()).collect()
}

#[test]
fn scan_keeps_supported_unexcluded_files_in_path_order() {
    let exclude = ExcludeSet::new(strings(&["**/node_modules/**", "**/*.d.ts"])).unwrap();
    let candidates = strings(&[
        "src/foo.ts",
        "src/foo/a.ts",
        "src/b.js",
        "src/types.d.ts",
        "src/node_modules/x/index.js",
        "src/readme.md",
        "src/c.jsx",
        "src/d.tsx",
    ]);
    let kept = select_scanned(&candidates, &exclude);
    assert_eq!(kept, strings(&["src/b.js", "src/c.jsx", "src/d.tsx", "src/foo/a.ts", "src/foo.ts"]));
}

#[test]
fn scan_supported_extensions() {
    assert!(is_supported("a/b.ts"));
    assert!(is_supported("a/b.jsx"));
    assert!(!is_supported("a/b.py"));
    assert!(!is_supported("Makefile"));
}

#[test]
fn invalid_glob_is_a_scope_error() {
    match ExcludeSet::new(strings(&["ok/**", "a[", "b["])) {
        Err(WtcdError::ScopeError(m)) => assert!(m.starts_with("Invalid glob 'a[': ")),
        _ => panic!("expected a scope error"),
    }
    let none = ExcludeSet::new(Vec::new()).unwrap();
    assert!(!none.is_match("src/a.ts"));
}

#[test]
fn diff_lists_modified_deleted_then_added() {
    let modified = vec![("a.ts".to_string(), true), ("gone.ts".to_string(), false)];
    let walked = strings(&["a.ts", "new.ts", "b.ts"]);
    let indexed = strings(&["a.ts", "b.ts", "gone.ts"]);
    let d = assemble_diff(&modified, &walked, &indexed, "abc1234".to_string());
    let got: Vec<(&str, FileStatus)> = d.changed_files.iter().map(|c| (c.path.as_str(), c.status)).collect();
    assert_eq!(got, vec![("a.ts", FileStatus::Modified), ("gone.ts", FileStatus::Deleted), ("new.ts", FileStatus::Added)]);
    assert!(!d.is_clean);
    assert_eq!(d.head_commit, "abc1234");
    let clean = assemble_diff(&Vec::new(), &strings(&["a.ts"]), &strings(&["a.ts"]), "h".to_string());
    assert!(clean.is_clean);
    assert!(clean.changed_files.is_empty());
}

#[test]
fn agent_selection() {
    assert_eq!(select_agent("cursor"), Ok(Agent::Cursor));
    assert_eq!(select_agent("vim"), Err("Unsupported agent 'vim'. Supported: cursor".to_string()));
}

#[test]
fn default_config_names_scope_and_output() {
    assert!(DEFAULT_CONFIG.contains("version: 1\n"));
    assert!(DEFAULT_CONFIG.contains("    - packages\n"));
    assert!(DEFAULT_CONFIG.contains("\"**/*.min.js\""));
    assert!(DEFAULT_CONFIG.ends_with("output:\n  format: json\n"));
}

#[test]
fn registry_dispatches_to_language_adapters() {
    let registry = register_all_adapters();
    let ts = registry.find_adapter("src/a.ts").unwrap();
    let r = parse_with(ts, "export const a = 1;", "src/a.ts").unwrap();
    assert_eq!(r.exports[0].name, "a");
    let go = registry.find_adapter("main.go").unwrap();
    let g = parse_with(go, "package main\nfunc Main() {}\n", "main.go").unwrap();
    assert_eq!(g.exports[0].name, "Main");
    let rs = registry.find_adapter("lib.rs").unwrap();
    let r = parse_with(rs, "fn main() {}", "lib.rs").unwrap();
    assert_eq!(r.exports[0].name, "main");
    assert_eq!(r.signatures[0].return_type, "()");
    let java = registry.find_adapter("A.java").unwrap();
    assert!(parse_with(java, "class A {}", "A.java").is_none());
}
