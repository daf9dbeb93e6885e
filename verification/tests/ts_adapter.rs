use wtcd::ts_adapter::TsAdapter;
use wtcd::types::{ConfidenceBand, ExportKind, FileResult, ImportKind, SideEffectKind};

fn parse_ts(source: &str) -> FileResult {
    let adapter = TsAdapter::new();
    adapter.parse(source, "test.ts")
}

fn parse_js(source: &str) -> FileResult {
    let adapter = TsAdapter::new();
    adapter.parse(source, "test.js")
}

#[test]
fn extracts_named_function_export() {
    let result = parse_ts("export function greet(name: string): string { return name; }");
    assert_eq!(result.confidence, ConfidenceBand::High);
    assert_eq!(result.exports.len(), 1);
    assert_eq!(result.exports[0].name, "greet");
    assert_eq!(result.exports[0].kind, ExportKind::Function);
}

#[test]
fn extracts_class_export() {
    let result = parse_ts("export class UserService {}");
    assert_eq!(result.exports.len(), 1);
    assert_eq!(result.exports[0].name, "UserService");
    assert_eq!(result.exports[0].kind, ExportKind::Class);
}

#[test]
fn extracts_const_export() {
    let result = parse_ts("export const MAX_SIZE = 100;");
    assert_eq!(result.exports.len(), 1);
    assert_eq!(result.exports[0].name, "MAX_SIZE");
    assert_eq!(result.exports[0].kind, ExportKind::Const);
}

#[test]
fn extracts_type_export() {
    let result = parse_ts("export type UserId = string | number;");
    assert_eq!(result.exports.len(), 1);
    assert_eq!(result.exports[0].name, "UserId");
    assert_eq!(result.exports[0].kind, ExportKind::Type);
}

#[test]
fn extracts_interface_export() {
    let result = parse_ts("export interface Config { name: string; }");
    assert_eq!(result.exports.len(), 1);
    assert_eq!(result.exports[0].name, "Config");
    assert_eq!(result.exports[0].kind, ExportKind::Interface);
}

#[test]
fn extracts_enum_export() {
    let result = parse_ts("export enum Color { Red, Green, Blue }");
    assert_eq!(result.exports.len(), 1);
    assert_eq!(result.exports[0].name, "Color");
    assert_eq!(result.exports[0].kind, ExportKind::Enum);
}

#[test]
fn extracts_esm_named_import() {
    let result = parse_ts("import { readFile, writeFile } from 'fs';");
    assert_eq!(result.imports.len(), 1);
    assert_eq!(result.imports[0].source, "fs");
    assert_eq!(result.imports[0].kind, ImportKind::Named);
    assert_eq!(result.imports[0].symbols.len(), 2);
    assert!(result.imports[0].symbols.contains(&"readFile".to_string()));
    assert!(result.imports[0].symbols.contains(&"writeFile".to_string()));
}

#[test]
fn extracts_esm_default_import() {
    let result = parse_ts("import React from 'react';");
    assert_eq!(result.imports.len(), 1);
    assert_eq!(result.imports[0].source, "react");
    assert_eq!(result.imports[0].kind, ImportKind::Default);
    assert_eq!(result.imports[0].symbols.len(), 1);
    assert_eq!(result.imports[0].symbols[0], "React");
}

#[test]
fn extracts_commonjs_require() {
    let result = parse_js("const fs = require('fs');");
    assert_eq!(result.imports.len(), 1);
    assert_eq!(result.imports[0].source, "fs");
}

#[test]
fn syntax_errors_yield_low_confidence() {
    let source = "export function broken( { return 42; }";
    let result = parse_ts(source);
    assert_eq!(result.confidence, ConfidenceBand::Low);
    assert!(result.error_message.is_some());
}

#[test]
fn unparseable_yields_none_confidence() {
    let source = "{{{{{{{{{{{{{{{{{{{{";
    let result = parse_ts(source);
    assert!(result.confidence == ConfidenceBand::NoConfidence || result.confidence == ConfidenceBand::Low);
    assert!(result.exports.is_empty());
    assert!(result.imports.is_empty());
}

#[test]
fn js_file_extracts_exports() {
    let result = parse_js("export function add(a, b) { return a + b; }");
    assert_eq!(result.confidence, ConfidenceBand::High);
    assert_eq!(result.exports.len(), 1);
    assert_eq!(result.exports[0].name, "add");
    assert_eq!(result.exports[0].kind, ExportKind::Function);
}

#[test]
fn js_file_extracts_require() {
    let result = parse_js("const path = require('path');");
    assert_eq!(result.imports.len(), 1);
    assert_eq!(result.imports[0].source, "path");
}

#[test]
fn detects_fetch_side_effect() {
    let result = parse_ts("export function getData() { return fetch('/api'); }");
    assert_eq!(result.side_effects.len(), 1);
    assert_eq!(result.side_effects[0].kind, SideEffectKind::Network);
    assert_eq!(result.side_effects[0].target, "fetch");
}

#[test]
fn detects_console_log_side_effect() {
    let result = parse_ts("console.log('hello');");
    assert_eq!(result.side_effects.len(), 1);
    assert_eq!(result.side_effects[0].kind, SideEffectKind::Log);
    assert_eq!(result.side_effects[0].target, "console.log");
}

#[test]
fn extracts_function_signature() {
    let result = parse_ts("export function greet(name: string): string { return name; }");
    assert_eq!(result.signatures.len(), 1);
    assert_eq!(result.signatures[0].name, "greet");
    assert_eq!(result.signatures[0].parameters.len(), 1);
    assert_eq!(result.signatures[0].parameters[0].name, "name");
    assert_eq!(result.signatures[0].parameters[0].type_annotation, "string");
    assert_eq!(result.signatures[0].return_type, "string");
}

#[test]
fn extracts_arrow_function_signature() {
    let result = parse_ts("const add = (a: number, b: number): number => a + b;");
    assert_eq!(result.signatures.len(), 1);
    assert_eq!(result.signatures[0].name, "add");
    assert_eq!(result.signatures[0].parameters.len(), 2);
    assert_eq!(result.signatures[0].return_type, "number");
}

#[test]
fn extracts_namespace_import() {
    let result = parse_ts("import * as utils from './utils';");
    assert_eq!(result.imports.len(), 1);
    assert_eq!(result.imports[0].source, "./utils");
    assert_eq!(result.imports[0].kind, ImportKind::Namespace);
    assert_eq!(result.imports[0].symbols.len(), 1);
    assert_eq!(result.imports[0].symbols[0], "utils");
}

#[test]
fn empty_file_returns_high_confidence() {
    let result = parse_ts("");
    assert_eq!(result.confidence, ConfidenceBand::High);
    assert!(result.exports.is_empty());
    assert!(result.imports.is_empty());
}

#[test]
fn parse_time_is_recorded() {
    let result = parse_ts("export const x = 1;");
    let _ = result.parse_time_ms;
}

#[test]
fn ts_reexports_and_let_var_exports() {
    let result = parse_ts("export { a, b } from './m';\nexport let x = 1, y = 2;\nexport var z = 3;");
    let names: Vec<(&str, ExportKind, u32)> = result.exports.iter().map(|e| (e.name.as_str(), e.kind, e.line)).collect();
    assert_eq!(
        names,
        vec![
            ("a", ExportKind::Const, 1),
            ("b", ExportKind::Const, 1),
            ("x", ExportKind::Let, 2),
            ("y", ExportKind::Let, 2),
            ("z", ExportKind::Var, 3),
        ]
    );
    assert!(result.exports.iter().all(|e| !e.is_generated && e.confidence == ConfidenceBand::High));
}

#[test]
fn ts_side_effects_follow_api_table() {
    let result = parse_ts("fs.readFileSync('a');\naxios.get('/x');\nlocalStorage.setItem('k', 'v');\nmath.max(1, 2);");
    let effects: Vec<(SideEffectKind, &str, u32)> =
        result.side_effects.iter().map(|e| (e.kind, e.target.as_str(), e.line)).collect();
    assert_eq!(
        effects,
        vec![
            (SideEffectKind::Io, "fs.readFileSync", 1),
            (SideEffectKind::Network, "axios.get", 2),
            (SideEffectKind::Storage, "localStorage.setItem", 3),
        ]
    );
}

#[test]
fn ts_parse_error_message_text() {
    let result = parse_ts("export function broken( { return 42; }");
    assert_eq!(result.error_message.as_deref(), Some("Parse errors detected \u{2014} partial extraction"));
    let ok = parse_ts("export const a = 1;");
    assert_eq!(ok.error_message, None);
    assert_eq!(ok.file_path, "test.ts");
}

#[test]
fn ts_method_and_optional_parameters() {
    let result = parse_ts("class A { run(x?: number, y) { } }");
    assert_eq!(result.signatures.len(), 1);
    assert_eq!(result.signatures[0].name, "run");
    let params: Vec<(&str, &str)> = result.signatures[0]
        .parameters
        .iter()
        .map(|p| (p.name.as_str(), p.type_annotation.as_str()))
        .collect();
    assert_eq!(params, vec![("x", "number"), ("y", "unknown")]);
    assert_eq!(result.signatures[0].return_type, "unknown");
}
