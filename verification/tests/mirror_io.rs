use wtcd::mirror_io::{
    build_appendix_section, extract_appendix, find_orphan_mirrors, front_matter_yaml, merge_appendix, plan_mirror,
    strip_appendix_markers, APPENDIX_END, APPENDIX_START,
};
use wtcd::types::{ConfidenceBand, ExportKind, ExportedSymbol, FileResult};

fn sample_file_result() -> FileResult {
    FileResult {
        file_path: "src/test.ts".to_string(),
        confidence: ConfidenceBand::High,
        exports: vec![ExportedSymbol {
            name: "greet".to_string(),
            kind: ExportKind::Function,
            line: 1,
            is_generated: false,
            confidence: ConfidenceBand::High,
        }],
        imports: vec![],
        signatures: vec![],
        side_effects: vec![],
        parse_time_ms: 0,
        error_message: None,
    }
}

#[test]
fn extract_appendix_with_markers() {
    let content = "body\n<!-- manual_appendix_start -->\nmy notes\n<!-- manual_appendix_end -->\n";
    assert_eq!(extract_appendix(content), Some("my notes".to_string()));
}

#[test]
fn extract_appendix_no_markers() {
    assert_eq!(extract_appendix("body only"), None);
}

#[test]
fn extract_appendix_empty_between_markers() {
    let content = "<!-- manual_appendix_start -->\n\n<!-- manual_appendix_end -->";
    assert_eq!(extract_appendix(content), None);
}

#[test]
fn extract_appendix_end_before_start() {
    let content = "<!-- manual_appendix_end --> x <!-- manual_appendix_start -->";
    assert_eq!(extract_appendix(content), None);
}

#[test]
fn appendix_section_layout() {
    assert_eq!(
        build_appendix_section("notes"),
        format!("\n\n{}\nnotes\n{}\n", APPENDIX_START, APPENDIX_END)
    );
}

#[test]
fn strip_removes_block_and_trailing_space() {
    let content = format!("body  \n{}\nold\n{}\ntail", APPENDIX_START, APPENDIX_END);
    assert_eq!(strip_appendix_markers(&content), "body  \n\ntail");
    let without_end = format!("body\n{}\nold", APPENDIX_START);
    assert_eq!(strip_appendix_markers(&without_end), without_end);
    let only_block = format!("body\n{}\nold\n{}\n", APPENDIX_START, APPENDIX_END);
    assert_eq!(strip_appendix_markers(&only_block), "body");
}

#[test]
fn write_preserves_appendix() {
    let initial = format!("body content\n{}\nuser notes here\n{}\n", APPENDIX_START, APPENDIX_END);
    let (content, result) = merge_appendix("new body content\n", Some(&initial), true);
    assert!(result.appendix_preserved);
    assert_eq!(result.appendix_content, Some("user notes here".to_string()));
    assert!(content.contains("new body content"));
    assert!(content.contains("user notes here"));
    assert_eq!(
        content,
        format!("new body content\n\n\n{}\nuser notes here\n{}\n", APPENDIX_START, APPENDIX_END)
    );
}

#[test]
fn write_overwrites_appendix_when_disabled() {
    let initial = format!("body\n{}\nuser notes\n{}\n", APPENDIX_START, APPENDIX_END);
    let (content, result) = merge_appendix("new body", Some(&initial), false);
    assert!(!result.appendix_preserved);
    assert!(!content.contains("user notes"));
}

#[test]
fn write_no_appendix_when_no_existing() {
    let (content, result) = merge_appendix("new body", None, true);
    assert!(!result.appendix_preserved);
    assert_eq!(content, "new body");
}

#[test]
fn front_matter_between_first_two_rules() {
    let content = "---\nanrsm_version: 1\nartifact_type: file_mirror\n---\n\n## 职责\ntest\n";
    assert_eq!(front_matter_yaml(content), Some("\nanrsm_version: 1\nartifact_type: file_mirror\n".to_string()));
    assert_eq!(front_matter_yaml("---\nonly one rule"), None);
    assert_eq!(front_matter_yaml("no rules"), None);
}

#[test]
fn test_find_orphan_mirrors() {
    let relative = vec!["src/exists.ts.md".to_string(), "src/orphan.ts.md".to_string()];
    let source_paths = vec!["src/exists.ts".to_string()];
    let orphans = find_orphan_mirrors(&source_paths, "/tmp/x/mirror/file", &relative);
    assert_eq!(orphans.len(), 1);
    assert!(orphans[0].contains("orphan.ts.md"));
}

#[test]
fn no_orphans_returns_empty() {
    let relative: Vec<String> = vec![];
    let source_paths = vec!["src/test.ts".to_string()];
    assert!(find_orphan_mirrors(&source_paths, "mirror/file", &relative).is_empty());
}

#[test]
fn plan_mirror_paths_and_fingerprints() {
    let (path, fp, mirror) = plan_mirror(
        "src/test.ts",
        "export function greet() {}",
        &sample_file_result(),
        "abc1234",
        "test",
        "mirror/file",
        "2026-01-01T00:00:00Z".to_string(),
    );
    assert_eq!(path, "mirror/file/src/test.ts.md");
    assert!(fp.source.starts_with("sha256:"));
    assert!(fp.semantic.starts_with("sha256:"));
    assert_eq!(mirror.header.source_fingerprint, fp.source);
    assert!(mirror.body.responsibilities.contains("greet"));
}
