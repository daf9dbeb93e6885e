use wtcd::mirror_types::{FingerprintResult, FreshnessState, MirrorConfidenceBand, MirrorHeader};
use wtcd::template::{
    body_to_markdown, derive_language, derive_module_id, frame_front_matter, generate_body, generate_header,
    generate_header_at, generate_mirror, generate_mirror_at, mirror_text, mirror_to_source_path,
    source_to_mirror_path,
};
use wtcd::types::{
    ConfidenceBand, DependencyEdge, ExportKind, ExportedSymbol, FileResult, FunctionSignature, ImportKind, Parameter,
    SideEffect, SideEffectKind,
};

fn symbol(name: &str, line: u32) -> ExportedSymbol {
    ExportedSymbol {
        name: name.to_string(),
        kind: ExportKind::Function,
        line,
        is_generated: false,
        confidence: ConfidenceBand::High,
    }
}

fn sample_file_result() -> FileResult {
    FileResult {
        file_path: "src/auth/login.ts".to_string(),
        confidence: ConfidenceBand::High,
        exports: vec![symbol("login", 10), symbol("logout", 25)],
        imports: vec![
            DependencyEdge {
                source: "src/core/http/client.ts".to_string(),
                symbols: vec!["fetch".to_string()],
                kind: ImportKind::Named,
            },
            DependencyEdge {
                source: "src/core/auth/session.ts".to_string(),
                symbols: vec!["createSession".to_string()],
                kind: ImportKind::Named,
            },
        ],
        signatures: vec![FunctionSignature {
            name: "login".to_string(),
            parameters: vec![Parameter { name: "credentials".to_string(), type_annotation: "Credentials".to_string() }],
            return_type: "Promise<Session>".to_string(),
        }],
        side_effects: vec![
            SideEffect { kind: SideEffectKind::Network, target: "auth service".to_string(), line: 15 },
            SideEffect { kind: SideEffectKind::Log, target: "console".to_string(), line: 20 },
        ],
        parse_time_ms: 5,
        error_message: None,
    }
}

fn sample_fingerprints() -> FingerprintResult {
    FingerprintResult {
        source: "sha256:aabbccdd".to_string(),
        semantic: "sha256:eeff0011".to_string(),
        fp_version: "1".to_string(),
    }
}

/// A YAML rendering of the header fields the assembly tests look for.
fn header_yaml(header: &MirrorHeader) -> String {
    format!(
        "anrsm_version: {}\nartifact_type: {}\nartifact_id: {}\nsource_path: {}\nsource_fingerprint: {}\n",
        header.anrsm_version, header.artifact_type, header.artifact_id, header.source_path, header.source_fingerprint
    )
}

// ── Path mapping ──

#[test]
fn path_map_basic() {
    assert_eq!(source_to_mirror_path("src/auth/login.ts", "mirror/file"), "mirror/file/src/auth/login.ts.md");
}

#[test]
fn path_map_js() {
    assert_eq!(source_to_mirror_path("lib/utils/helpers.js", "mirror/file"), "mirror/file/lib/utils/helpers.js.md");
}

#[test]
fn path_map_round_trip() {
    let source = "src/components/Button.tsx";
    let mirror = source_to_mirror_path(source, "mirror/file");
    let back = mirror_to_source_path(&mirror, "mirror/file");
    assert_eq!(back, Some(source.to_string()));
}

#[test]
fn path_map_no_extension() {
    assert_eq!(source_to_mirror_path("Makefile", "mirror/file"), "mirror/file/Makefile.md");
}

#[test]
fn mirror_to_source_invalid() {
    assert_eq!(mirror_to_source_path("other/path.ts.md", "mirror/file"), None);
    assert_eq!(mirror_to_source_path("mirror/file/", "mirror/file"), None);
}

#[test]
fn mirror_to_source_needs_text_between() {
    assert_eq!(mirror_to_source_path("mirror/file/.md", "mirror/file"), None);
    assert_eq!(mirror_to_source_path("mirror/file/a.md", "mirror/file"), Some("a".to_string()));
    assert_eq!(mirror_to_source_path("mirror/file/a.txt", "mirror/file"), None);
    assert_eq!(mirror_to_source_path("mirror/文件/说明.md", "mirror/文件"), Some("说明".to_string()));
}

// ── Header ──

#[test]
fn header_derives_fields_correctly() {
    let result = sample_file_result();
    let fp = sample_fingerprints();
    let header = generate_header(&result, &fp, "abc1234", "auth");

    assert_eq!(header.anrsm_version, 1);
    assert_eq!(header.artifact_type, "file_mirror");
    assert_eq!(header.artifact_id, "file_mirror:src/auth/login.ts");
    assert_eq!(header.source_path, "src/auth/login.ts");
    assert_eq!(header.source_language, "typescript");
    assert_eq!(header.module_id, "auth");
    assert_eq!(header.source_commit, "abc1234");
    assert_eq!(header.source_fingerprint, "sha256:aabbccdd");
    assert_eq!(header.semantic_fingerprint, "sha256:eeff0011");
    assert_eq!(header.freshness_state, FreshnessState::Fresh);
    assert_eq!(header.confidence_band, MirrorConfidenceBand::High);
    assert_eq!(header.generator_name, "anrsm");
    assert_eq!(header.generator_version, "0.1.0");
    assert!(header.generated_at.contains("T"));
    assert_eq!(header.exports, Some(vec!["login".to_string(), "logout".to_string()]));
    assert_eq!(
        header.dependencies,
        Some(vec!["src/core/http/client.ts".to_string(), "src/core/auth/session.ts".to_string()])
    );
    assert_eq!(header.risk_tags, Some(vec!["external_api".to_string(), "logging".to_string()]));
}

#[test]
fn header_confidence_mapping() {
    let mut result = sample_file_result();

    result.confidence = ConfidenceBand::High;
    let header = generate_header(&result, &sample_fingerprints(), "x", "m");
    assert_eq!(header.confidence_band, MirrorConfidenceBand::High);

    result.confidence = ConfidenceBand::Low;
    let header = generate_header(&result, &sample_fingerprints(), "x", "m");
    assert_eq!(header.confidence_band, MirrorConfidenceBand::Low);

    result.confidence = ConfidenceBand::NoConfidence;
    let header = generate_header(&result, &sample_fingerprints(), "x", "m");
    assert_eq!(header.confidence_band, MirrorConfidenceBand::Low);
}

#[test]
fn header_empty_lists_are_absent() {
    let result = FileResult {
        file_path: "lib/empty.py".to_string(),
        confidence: ConfidenceBand::Low,
        exports: vec![],
        imports: vec![],
        signatures: vec![],
        side_effects: vec![],
        parse_time_ms: 0,
        error_message: None,
    };
    let header = generate_header_at(&result, &sample_fingerprints(), "c", "lib", "2026-01-01T00:00:00Z".to_string());
    assert_eq!(header.exports, None);
    assert_eq!(header.dependencies, None);
    assert_eq!(header.risk_tags, None);
    assert_eq!(header.source_language, "python");
    assert_eq!(header.generated_at, "2026-01-01T00:00:00Z");
}

#[test]
fn yaml_serialization_parseable() {
    let result = sample_file_result();
    let header = generate_header(&result, &sample_fingerprints(), "abc1234", "auth");
    let yaml = frame_front_matter(&header_yaml(&header));
    assert!(yaml.starts_with("---\n"));
    assert!(yaml.ends_with("\n---"));
    assert!(yaml.contains("artifact_type: file_mirror"));
    assert!(yaml.contains("source_fingerprint: sha256:aabbccdd"));
}

#[test]
fn language_and_module_id() {
    assert_eq!(derive_language("a/b.tsx"), "typescript");
    assert_eq!(derive_language("a/b.jsx"), "javascript");
    assert_eq!(derive_language("a/b.rs"), "rust");
    assert_eq!(derive_language("a/b.go"), "go");
    assert_eq!(derive_language("a/.hidden"), "unknown");
    assert_eq!(derive_language("Makefile"), "unknown");
    let roots = vec!["src".to_string(), "lib".to_string()];
    assert_eq!(derive_module_id("src/auth/login.ts", &roots), "auth");
    assert_eq!(derive_module_id("app/main.ts", &roots), "app");
    assert_eq!(derive_module_id("src", &roots), "src");
    assert_eq!(derive_module_id("", &roots), "global");
    assert_eq!(derive_module_id("./src/a.ts", &roots), ".");
    assert_eq!(derive_module_id("/src/a.ts", &roots), "/");
}

// ── Body ──

#[test]
fn body_has_eight_sections() {
    let body = generate_body(&sample_file_result());
    assert!(!body.responsibilities.is_empty());
    assert!(!body.external_contracts.is_empty());
    assert!(!body.preconditions.is_empty());
    assert!(!body.state_control_flow.is_empty());
    assert!(!body.side_effects.is_empty());
    assert!(!body.invariants_risks.is_empty());
    assert!(!body.change_impact.is_empty());
    assert!(!body.expand_conditions.is_empty());
}

#[test]
fn body_exports_in_responsibilities() {
    let body = generate_body(&sample_file_result());
    assert!(body.responsibilities.contains("login"));
    assert!(body.responsibilities.contains("logout"));
}

#[test]
fn body_side_effects_listed() {
    let body = generate_body(&sample_file_result());
    assert!(body.side_effects.contains("网络请求"));
    assert!(body.side_effects.contains("auth service"));
    assert!(body.side_effects.contains("日志记录"));
}

#[test]
fn body_imports_in_preconditions() {
    let body = generate_body(&sample_file_result());
    assert!(body.preconditions.contains("src/core/http/client.ts"));
    assert!(body.preconditions.contains("src/core/auth/session.ts"));
}

#[test]
fn body_empty_file_no_panic() {
    let result = FileResult {
        file_path: "empty.ts".to_string(),
        confidence: ConfidenceBand::NoConfidence,
        exports: vec![],
        imports: vec![],
        signatures: vec![],
        side_effects: vec![],
        parse_time_ms: 0,
        error_message: None,
    };
    let body = generate_body(&result);
    assert!(body.responsibilities.contains("不对外暴露"));
    assert!(body.external_contracts.contains("无显式"));
    assert!(body.preconditions.contains("无外部依赖"));
    assert!(body.side_effects.contains("无检测到的副作用"));
}

#[test]
fn body_sections_exact_text() {
    let body = generate_body(&sample_file_result());
    assert_eq!(body.responsibilities, "暴露 login、logout；login 相关逻辑。");
    assert_eq!(body.external_contracts, "对外暴露 login(credentials: Credentials) → Promise<Session>");
    assert_eq!(body.preconditions, "依赖 src/core/http/client.ts、src/core/auth/session.ts 提供的符号和类型。");
    assert_eq!(body.state_control_flow, "login: 包含 网络请求、日志记录。");
    assert_eq!(body.side_effects, "网络请求: auth service (行 15)；\n日志记录: console (行 20)");
    assert_eq!(
        body.invariants_risks,
        "涉及外部系统调用，需关注错误处理和幂等性。\n导出符号包含副作用调用方，调用方需了解副作用边界。"
    );
    assert_eq!(body.change_impact, "变更可能受上游 src/core/http/client.ts、src/core/auth/session.ts 的影响。");
    assert_eq!(
        body.expand_conditions,
        "修改副作用处理逻辑时必须展开源码。\n修改函数签名或返回类型时必须展开源码。\n涉及错误处理、并发控制或状态管理时必须展开源码。"
    );
}

#[test]
fn body_low_confidence_notes() {
    let mut result = sample_file_result();
    result.confidence = ConfidenceBand::Low;
    result.side_effects.clear();
    let body = generate_body(&result);
    assert_eq!(body.state_control_flow, "login: 纯函数逻辑。（解析置信度低，可能遗漏分支。）");
    assert_eq!(body.invariants_risks, "解析置信度低，不变量可能不完整。");
    assert!(body.expand_conditions.contains("解析置信度低，关键决策前必须展开源码。"));
}

#[test]
fn body_markdown_has_correct_section_headers() {
    let md = body_to_markdown(&generate_body(&sample_file_result()));
    assert!(md.contains("## 职责"));
    assert!(md.contains("## 对外契约"));
    assert!(md.contains("## 输入与前置条件"));
    assert!(md.contains("## 状态与控制流"));
    assert!(md.contains("## 副作用与外部依赖"));
    assert!(md.contains("## 关键不变量与风险"));
    assert!(md.contains("## 变更影响"));
    assert!(md.contains("## 何时必须展开源码"));
}

#[test]
fn full_mirror_assembly() {
    let mirror = generate_mirror(&sample_file_result(), &sample_fingerprints(), "abc1234", "auth");
    let full = mirror_text(&header_yaml(&mirror.header), &mirror.body);
    assert!(full.contains("---"));
    assert!(full.contains("artifact_type: file_mirror"));
    assert!(full.contains("## 职责"));
    assert!(full.contains("## 对外契约"));
    assert!(full.contains("## 输入与前置条件"));
    assert!(full.contains("## 状态与控制流"));
    assert!(full.contains("## 副作用与外部依赖"));
    assert!(full.contains("## 关键不变量与风险"));
    assert!(full.contains("## 变更影响"));
    assert!(full.contains("## 何时必须展开源码"));
}

#[test]
fn full_mirror_deterministic() {
    let mirror1 = generate_mirror(&sample_file_result(), &sample_fingerprints(), "abc1234", "auth");
    let mirror2 = generate_mirror(&sample_file_result(), &sample_fingerprints(), "abc1234", "auth");
    assert_eq!(body_to_markdown(&mirror1.body), body_to_markdown(&mirror2.body));
}

#[test]
fn mirror_text_layout() {
    let mirror = generate_mirror_at(&sample_file_result(), &sample_fingerprints(), "c", "m", "t".to_string());
    let text = mirror_text("a: 1\n", &mirror.body);
    assert!(text.starts_with("---\na: 1\n\n---\n\n## 职责\n"));
    assert!(text.ends_with("涉及错误处理、并发控制或状态管理时必须展开源码。\n"));
}
