use wtcd::depgraph::ReverseDepGraph;
use wtcd::types::{ConfidenceBand, DependencyEdge, FileResult, ImportKind};

fn make_file_result(path: &str, imports: Vec<(&str, Vec<&str>)>) -> FileResult {
    FileResult {
        file_path: path.to_string(),
        confidence: ConfidenceBand::High,
        exports: vec![],
        imports: imports
            .into_iter()
            .map(|(source, symbols)| DependencyEdge {
                source: source.to_string(),
                symbols: symbols.into_iter().map(|s| s.to_string()).collect(),
                kind: ImportKind::Named,
            })
            .collect(),
        signatures: vec![],
        side_effects: vec![],
        parse_time_ms: 0,
        error_message: None,
    }
}

#[test]
fn build_reverse_graph_basic() {
    let files = vec![
        make_file_result("src/app.ts", vec![("./utils", vec!["helper"])]),
        make_file_result("src/utils.ts", vec![]),
    ];
    let graph = ReverseDepGraph::build(&files);

    assert_eq!(graph.get_importers("src/utils.ts"), vec!["src/app.ts".to_string()]);
    assert_eq!(graph.importer_count("src/utils.ts"), 1);
    assert_eq!(graph.get_importers("src/app.ts").len(), 0);
}

#[test]
fn expand_affected_finds_importers() {
    let files = vec![
        make_file_result("src/app.ts", vec![("./utils", vec!["helper"])]),
        make_file_result("src/handler.ts", vec![("./utils", vec!["helper"])]),
        make_file_result("src/utils.ts", vec![]),
    ];
    let graph = ReverseDepGraph::build(&files);

    let changed = vec!["src/utils.ts".to_string()];

    let affected = graph.expand_affected(&changed);
    assert!(affected.contains(&"src/app.ts".to_string()));
    assert!(affected.contains(&"src/handler.ts".to_string()));
    assert!(!affected.contains(&"src/utils.ts".to_string()));
}

#[test]
fn expand_affected_no_duplicates() {
    let files = vec![
        make_file_result("src/app.ts", vec![("./utils", vec!["a", "b"])]),
        make_file_result("src/utils.ts", vec![]),
    ];
    let graph = ReverseDepGraph::build(&files);

    let changed = vec!["src/utils.ts".to_string()];

    let affected = graph.expand_affected(&changed);
    assert_eq!(affected.len(), 1);
}

#[test]
fn package_imports_preserved() {
    let files = vec![make_file_result("src/app.ts", vec![("lodash", vec!["merge"])])];
    let graph = ReverseDepGraph::build(&files);

    assert_eq!(graph.importer_count("lodash"), 1);
}

#[test]
fn empty_files_gives_empty_graph() {
    let graph = ReverseDepGraph::build(&vec![]);
    assert_eq!(graph.all_paths().len(), 0);
}

#[test]
fn importer_listed_once_per_import_edge() {
    let files = vec![
        make_file_result("src/a.ts", vec![("./b", vec!["x"]), ("./b", vec!["y"])]),
        make_file_result("src/b.ts", vec![]),
    ];
    let graph = ReverseDepGraph::build(&files);
    assert_eq!(graph.importer_count("src/b.ts"), 2);
    assert_eq!(graph.get_imports("src/a.ts"), vec!["src/b.ts".to_string(), "src/b.ts".to_string()]);
}

#[test]
fn expand_affected_skips_changed_files_and_keeps_order() {
    let files = vec![
        make_file_result("src/a.ts", vec![("./c", vec!["x"])]),
        make_file_result("src/b.ts", vec![("./c", vec!["x"]), ("./d", vec!["y"])]),
        make_file_result("src/c.ts", vec![("./d", vec!["y"])]),
        make_file_result("src/d.ts", vec![]),
    ];
    let graph = ReverseDepGraph::build(&files);
    let changed = vec!["src/d.ts".to_string(), "src/c.ts".to_string()];
    let affected = graph.expand_affected(&changed);
    assert_eq!(affected, vec!["src/b.ts".to_string(), "src/a.ts".to_string()]);
}

#[test]
fn all_paths_lists_both_ends_once() {
    let files = vec![
        make_file_result("src/a.ts", vec![("./b", vec!["x"])]),
        make_file_result("src/c.ts", vec![("./b", vec!["x"])]),
    ];
    let graph = ReverseDepGraph::build(&files);
    let paths = graph.all_paths();
    assert_eq!(paths, vec!["src/a.ts".to_string(), "src/b.ts".to_string(), "src/c.ts".to_string()]);
}
