//! Mirror files: where they live, their header and their eight body sections.
use crate::index::{derive_risk_tags, risk_tag_set};
use crate::mirror_types::{FingerprintResult, FreshnessState, MirrorBody, MirrorConfidenceBand, MirrorFile, MirrorHeader};
use crate::order::strictly_sorted;
use crate::paths::{extension_of, path_components, path_extension, path_stem, std_components, stem_of};
use crate::text::{concat2, concat3, contains_text, decimal, decimal_string, ends_with, join, join_with, lemma_views_push, owned, starts_with, str_eq, views};
use crate::types::{ConfidenceBand, FileResult, FunctionSignature, SideEffect, SideEffectKind};
use vstd::prelude::*;
use vstd::string::StrSliceExecFns;

verus! {

// ─── Path mapping ───────────────────────────────────────────────────────────

/// The mirror path of a source file: `<mirror root>/<source path>.md`.
pub open spec fn mirror_path_of(source_path: Seq<char>, mirror_root: Seq<char>) -> Seq<char> {
    mirror_root + "/"@ + source_path + ".md"@
}

/// The source path a mirror path stands for: the text between
/// `<mirror root>/` and a final `.md`, when both are there and the text
/// between them is not empty.
pub open spec fn source_of_mirror(mirror_path: Seq<char>, mirror_root: Seq<char>) -> Option<Seq<char>> {
    let prefix = mirror_root + "/"@;
    if prefix.is_prefix_of(mirror_path) && ".md"@.is_suffix_of(mirror_path) && prefix.len() + 3 < mirror_path.len() {
        Some(mirror_path.subrange(prefix.len() as int, mirror_path.len() - 3))
    } else {
        None
    }
}

/// Maps a source path to its mirror path: `<mirror root>/<source path>.md`.
pub fn source_to_mirror_path(source_path: &str, mirror_root: &str) -> (r: String)
    ensures
        r@ == mirror_path_of(source_path@, mirror_root@),
{
    let mut r = concat3(mirror_root, "/", source_path);
    r.append(".md");
    r
}

/// Maps a mirror path back to its source path.
pub fn mirror_to_source_path(mirror_path: &str, mirror_root: &str) -> (r: Option<String>)
    ensures
        match r {
            Some(s) => source_of_mirror(mirror_path@, mirror_root@) == Some(s@),
            None => source_of_mirror(mirror_path@, mirror_root@) is None,
        },
{
    let prefix = concat2(mirror_root, "/");
    if !starts_with(mirror_path, prefix.as_str()) || !ends_with(mirror_path, ".md") {
        return None;
    }
    proof {
        reveal_strlit(".md");
    }
    let start = prefix.as_str().unicode_len();
    let total = mirror_path.unicode_len();
    if total < 3 || start >= total - 3 {
        return None;
    }
    let end = total - 3;
    Some(owned(mirror_path.substring_char(start, end)))
}

/// Mapping a source path to its mirror path and back gives the source path
/// again, for every non-empty source path.
pub proof fn law_mirror_path_round_trip(source_path: Seq<char>, mirror_root: Seq<char>)
    requires
        source_path.len() > 0,
    ensures
        source_of_mirror(mirror_path_of(source_path, mirror_root), mirror_root) == Some(source_path),
{
    reveal_strlit("/");
    reveal_strlit(".md");
    let m = mirror_path_of(source_path, mirror_root);
    let prefix = mirror_root + "/"@;
    assert(m =~= prefix + source_path + ".md"@);
    assert(m.subrange(0, prefix.len() as int) =~= prefix);
    assert(m.subrange(m.len() - 3, m.len() as int) =~= ".md"@);
    assert(m.subrange(prefix.len() as int, m.len() - 3) =~= source_path);
}

// ─── Header ─────────────────────────────────────────────────────────────────

/// The language of a file, by its extension.
pub open spec fn language_of(ext: Option<Seq<char>>) -> Seq<char> {
    match ext {
        Some(e) => if e == "ts"@ || e == "tsx"@ {
            "typescript"@
        } else if e == "js"@ || e == "jsx"@ {
            "javascript"@
        } else if e == "py"@ {
            "python"@
        } else if e == "rs"@ {
            "rust"@
        } else if e == "go"@ {
            "go"@
        } else {
            "unknown"@
        },
        None => "unknown"@,
    }
}

/// The language recorded in the header of a mirror of `file_path`.
pub fn derive_language(file_path: &str) -> (r: String)
    ensures
        r@ == language_of(path_extension(file_path@)),
{
    match extension_of(file_path) {
        None => owned("unknown"),
        Some(e) => {
            let e = e.as_str();
            if str_eq(e, "ts") || str_eq(e, "tsx") {
                owned("typescript")
            } else if str_eq(e, "js") || str_eq(e, "jsx") {
                owned("javascript")
            } else if str_eq(e, "py") {
                owned("python")
            } else if str_eq(e, "rs") {
                owned("rust")
            } else if str_eq(e, "go") {
                owned("go")
            } else {
                owned("unknown")
            }
        },
    }
}

/// The module id of a file: its second path component when the first is a
/// source root and there is a second, else its first; `global` for an
/// empty path.
pub open spec fn module_id_of(file_path: Seq<char>, source_roots: Seq<Seq<char>>) -> Seq<char> {
    let c = std_components(file_path);
    if c.len() == 0 {
        "global"@
    } else if source_roots.contains(c[0]) && c.len() > 1 {
        c[1]
    } else {
        c[0]
    }
}

/// The module id of a file, by its path and the source roots.
pub fn derive_module_id(file_path: &str, source_roots: &Vec<String>) -> (r: String)
    ensures
        r@ == module_id_of(file_path@, views(source_roots@)),
{
    let comps = path_components(file_path);
    if comps.len() == 0 {
        return owned("global");
    }
    assert(views(comps@)[0] == comps@[0]@);
    if contains_text(source_roots, comps[0].as_str()) && comps.len() > 1 {
        assert(views(comps@)[1] == comps@[1]@);
        return owned(comps[1].as_str());
    }
    owned(comps[0].as_str())
}

/// The header confidence of a parse confidence: high stays high, anything
/// else is low.
pub open spec fn mirror_confidence(c: ConfidenceBand) -> MirrorConfidenceBand {
    match c {
        ConfidenceBand::High => MirrorConfidenceBand::High,
        _ => MirrorConfidenceBand::Low,
    }
}

/// A list of texts, or `None` when it is empty.
pub open spec fn texts_or_none(o: Option<Vec<String>>, want: Seq<Seq<char>>) -> bool {
    if want.len() == 0 {
        o is None
    } else {
        o matches Some(v) && views(v@) == want
    }
}

/// Whether `h` is the header generated for `fr` with the given
/// fingerprints, commit, module id and time.
pub open spec fn is_header_for(
    h: MirrorHeader,
    fr: FileResult,
    fp: FingerprintResult,
    source_commit: Seq<char>,
    module_id: Seq<char>,
    generated_at: Seq<char>,
) -> bool {
    &&& h.anrsm_version == 1
    &&& h.artifact_type@ == "file_mirror"@
    &&& h.artifact_id@ == "file_mirror:"@ + fr.file_path@
    &&& h.source_path@ == fr.file_path@
    &&& h.source_language@ == language_of(path_extension(fr.file_path@))
    &&& h.module_id@ == module_id
    &&& h.source_commit@ == source_commit
    &&& h.source_fingerprint@ == fp.source@
    &&& h.semantic_fingerprint@ == fp.semantic@
    &&& h.freshness_state == FreshnessState::Fresh
    &&& h.confidence_band == mirror_confidence(fr.confidence)
    &&& h.generator_name@ == "anrsm"@
    &&& h.generator_version@ == "0.1.0"@
    &&& h.generated_at@ == generated_at
    &&& texts_or_none(h.exports, fr.exports@.map_values(|e: crate::types::ExportedSymbol| e.name@))
    &&& texts_or_none(h.dependencies, fr.imports@.map_values(|d: crate::types::DependencyEdge| d.source@))
    &&& (fr.side_effects@.len() == 0 ==> h.risk_tags is None)
    &&& (fr.side_effects@.len() > 0 ==> (h.risk_tags matches Some(t) && strictly_sorted(views(t@)) && views(
        t@,
    ).to_set() == risk_tag_set(fr.side_effects@)))
    &&& h.contracts is None
    &&& h.adjacent_artifacts is None
    &&& h.manual_appendix_present is None
}

fn some_if_nonempty(v: Vec<String>) -> (r: Option<Vec<String>>)
    ensures
        texts_or_none(r, views(v@)),
{
    if v.len() == 0 {
        None
    } else {
        Some(v)
    }
}

/// Generates the header of a mirror, stamped with `generated_at`.
pub fn generate_header_at(
    file_result: &FileResult,
    fingerprints: &FingerprintResult,
    source_commit: &str,
    module_id: &str,
    generated_at: String,
) -> (h: MirrorHeader)
    ensures
        is_header_for(h, *file_result, *fingerprints, source_commit@, module_id@, generated_at@),
{
    let ghost names = file_result.exports@.map_values(|e: crate::types::ExportedSymbol| e.name@);
    let mut export_names: Vec<String> = Vec::new();
    let mut i: usize = 0;
    while i < file_result.exports.len()
        invariant
            i <= file_result.exports.len(),
            names == file_result.exports@.map_values(|e: crate::types::ExportedSymbol| e.name@),
            views(export_names@) == names.take(i as int),
        decreases file_result.exports.len() - i,
    {
        let ghost old = export_names@;
        export_names.push(owned(file_result.exports[i].name.as_str()));
        proof {
            lemma_views_push(old, export_names@.last());
            assert(views(export_names@) =~= names.take(i + 1));
        }
        i = i + 1;
    }
    assert(names.take(file_result.exports.len() as int) =~= names);
    let ghost sources = file_result.imports@.map_values(|d: crate::types::DependencyEdge| d.source@);
    let mut dep_sources: Vec<String> = Vec::new();
    let mut j: usize = 0;
    while j < file_result.imports.len()
        invariant
            j <= file_result.imports.len(),
            sources == file_result.imports@.map_values(|d: crate::types::DependencyEdge| d.source@),
            views(dep_sources@) == sources.take(j as int),
        decreases file_result.imports.len() - j,
    {
        let ghost old = dep_sources@;
        dep_sources.push(owned(file_result.imports[j].source.as_str()));
        proof {
            lemma_views_push(old, dep_sources@.last());
            assert(views(dep_sources@) =~= sources.take(j + 1));
        }
        j = j + 1;
    }
    assert(sources.take(file_result.imports.len() as int) =~= sources);
    let tags = derive_risk_tags(file_result.side_effects.as_slice());
    proof {
        if file_result.side_effects@.len() > 0 {
            let t = file_result.side_effects@.map_values(|s: SideEffect| crate::index::risk_tag(s.kind));
            assert(t.to_set().contains(t[0]));
            if views(tags@).len() == 0 {
                assert(views(tags@).to_set() =~= Set::<Seq<char>>::empty());
            }
        } else {
            let t = file_result.side_effects@.map_values(|s: SideEffect| crate::index::risk_tag(s.kind));
            assert(t.to_set() =~= Set::<Seq<char>>::empty());
            if views(tags@).len() > 0 {
                assert(views(tags@).to_set().contains(views(tags@)[0]));
            }
        }
    }
    let risk_tags = if tags.len() == 0 { None } else { Some(tags) };
    let confidence_band = match file_result.confidence {
        ConfidenceBand::High => MirrorConfidenceBand::High,
        ConfidenceBand::Low => MirrorConfidenceBand::Low,
        ConfidenceBand::NoConfidence => MirrorConfidenceBand::Low,
    };
    MirrorHeader {
        anrsm_version: 1,
        artifact_type: owned("file_mirror"),
        artifact_id: concat2("file_mirror:", file_result.file_path.as_str()),
        source_path: owned(file_result.file_path.as_str()),
        source_language: derive_language(file_result.file_path.as_str()),
        module_id: owned(module_id),
        source_commit: owned(source_commit),
        source_fingerprint: owned(fingerprints.source.as_str()),
        semantic_fingerprint: owned(fingerprints.semantic.as_str()),
        freshness_state: FreshnessState::Fresh,
        confidence_band,
        generator_name: owned("anrsm"),
        generator_version: owned("0.1.0"),
        generated_at,
        exports: some_if_nonempty(export_names),
        dependencies: some_if_nonempty(dep_sources),
        risk_tags,
        contracts: None,
        adjacent_artifacts: None,
        manual_appendix_present: None,
    }
}

/// Generates the header of a mirror, stamped with the current time.
pub fn generate_header(
    file_result: &FileResult,
    fingerprints: &FingerprintResult,
    source_commit: &str,
    module_id: &str,
) -> (h: MirrorHeader)
    ensures
        is_header_for(h, *file_result, *fingerprints, source_commit@, module_id@, h.generated_at@),
{
    let now = crate::stamps::now_rfc3339();
    generate_header_at(file_result, fingerprints, source_commit, module_id, now)
}

/// The YAML front matter block around a serialised header: `---`, the
/// YAML text, `---`.
pub fn frame_front_matter(yaml: &str) -> (r: String)
    ensures
        r@ == "---\n"@ + yaml@ + "\n---"@,
{
    concat3("---\n", yaml, "\n---")
}

// ─── Body ───────────────────────────────────────────────────────────────────

/// The "responsibilities" section.
pub open spec fn responsibilities_text(fr: FileResult) -> Seq<char> {
    if fr.exports@.len() == 0 {
        "内部实现模块，不对外暴露符号。"@
    } else {
        let hint = match path_stem(fr.file_path@) {
            Some(s) => s,
            None => "模块"@,
        };
        "暴露 "@ + join_with(crate::index::export_names_of(fr), "、"@) + "；"@ + hint + " 相关逻辑。"@
    }
}

/// One line of the "external contracts" section.
pub open spec fn contract_line(s: FunctionSignature) -> Seq<char> {
    "对外暴露 "@ + crate::classifier::contract_text(s) + " → "@ + s.return_type@
}

/// The "external contracts" section.
pub open spec fn external_contracts_text(fr: FileResult) -> Seq<char> {
    if fr.signatures@.len() == 0 {
        "无显式函数契约。"@
    } else {
        join_with(fr.signatures@.map_values(|s: FunctionSignature| contract_line(s)), "；\n"@)
    }
}

/// The "inputs and preconditions" section.
pub open spec fn preconditions_text(fr: FileResult) -> Seq<char> {
    if fr.imports@.len() == 0 {
        "无外部依赖。"@
    } else {
        "依赖 "@ + join_with(crate::index::import_sources_of(fr), "、"@) + " 提供的符号和类型。"@
    }
}

/// How a side effect kind is named in a mirror.
pub open spec fn effect_label(kind: SideEffectKind) -> Seq<char> {
    match kind {
        SideEffectKind::Io => "文件I/O"@,
        SideEffectKind::Network => "网络请求"@,
        SideEffectKind::Storage => "存储操作"@,
        SideEffectKind::Log => "日志记录"@,
    }
}

/// The note added when the parse confidence is low.
pub open spec fn low_confidence_note(fr: FileResult) -> Seq<char> {
    if fr.confidence == ConfidenceBand::Low {
        "（解析置信度低，可能遗漏分支。）"@
    } else {
        Seq::<char>::empty()
    }
}

/// The control-flow line of a signature, given the side effect labels of its file.
pub open spec fn flow_line(s: FunctionSignature, effects: Seq<Seq<char>>) -> Seq<char> {
    if effects.len() == 0 {
        s.name@ + ": 纯函数逻辑。"@
    } else {
        s.name@ + ": 包含 "@ + join_with(effects, "、"@) + "。"@
    }
}

/// The "state and control flow" section.
pub open spec fn state_control_flow_text(fr: FileResult) -> Seq<char> {
    if fr.signatures@.len() == 0 {
        "无可提取的控制流信息。"@ + low_confidence_note(fr)
    } else {
        let effects = fr.side_effects@.map_values(|se: SideEffect| effect_label(se.kind));
        join_with(fr.signatures@.map_values(|s: FunctionSignature| flow_line(s, effects)), "；\n"@) + low_confidence_note(
            fr,
        )
    }
}

/// One line of the "side effects" section.
pub open spec fn side_effect_line(se: SideEffect) -> Seq<char> {
    effect_label(se.kind) + ": "@ + se.target@ + " (行 "@ + decimal(se.line as nat) + ")"@
}

/// The "side effects and outside dependencies" section.
pub open spec fn side_effects_text(fr: FileResult) -> Seq<char> {
    if fr.side_effects@.len() == 0 {
        "无检测到的副作用。"@
    } else {
        join_with(fr.side_effects@.map_values(|se: SideEffect| side_effect_line(se)), "；\n"@)
    }
}

/// Whether some side effect has kind `k`.
pub open spec fn has_effect(fr: FileResult, k: SideEffectKind) -> bool {
    exists|i: int| 0 <= i < fr.side_effects@.len() && #[trigger] fr.side_effects@[i].kind == k
}

/// `lines`, with `line` added when `cond` holds.
pub open spec fn push_if(lines: Seq<Seq<char>>, cond: bool, line: Seq<char>) -> Seq<Seq<char>> {
    if cond {
        lines.push(line)
    } else {
        lines
    }
}

/// The risks found in a parse result.
pub open spec fn risk_lines(fr: FileResult) -> Seq<Seq<char>> {
    let r0 = push_if(
        Seq::<Seq<char>>::empty(),
        has_effect(fr, SideEffectKind::Network) || has_effect(fr, SideEffectKind::Storage),
        "涉及外部系统调用，需关注错误处理和幂等性。"@,
    );
    let r1 = push_if(
        r0,
        fr.exports@.len() > 0 && fr.side_effects@.len() > 0,
        "导出符号包含副作用调用方，调用方需了解副作用边界。"@,
    );
    push_if(r1, fr.confidence == ConfidenceBand::Low, "解析置信度低，不变量可能不完整。"@)
}

/// The "key invariants and risks" section.
pub open spec fn invariants_risks_text(fr: FileResult) -> Seq<char> {
    if risk_lines(fr).len() == 0 {
        "未发现特定风险。"@
    } else {
        join_with(risk_lines(fr), "\n"@)
    }
}

/// The "change impact" section.
pub open spec fn change_impact_text(fr: FileResult) -> Seq<char> {
    if fr.imports@.len() == 0 {
        "无已知的依赖关系影响分析。"@
    } else {
        "变更可能受上游 "@ + join_with(crate::index::import_sources_of(fr), "、"@) + " 的影响。"@
    }
}

/// When the source must be read.
pub open spec fn expand_lines(fr: FileResult) -> Seq<Seq<char>> {
    let c0 = push_if(Seq::<Seq<char>>::empty(), fr.side_effects@.len() > 0, "修改副作用处理逻辑时必须展开源码。"@);
    let c1 = push_if(c0, fr.signatures@.len() > 0, "修改函数签名或返回类型时必须展开源码。"@);
    let c2 = push_if(c1, fr.confidence == ConfidenceBand::Low, "解析置信度低，关键决策前必须展开源码。"@);
    c2.push("涉及错误处理、并发控制或状态管理时必须展开源码。"@)
}

/// The "when the source must be read" section.
pub open spec fn expand_conditions_text(fr: FileResult) -> Seq<char> {
    join_with(expand_lines(fr), "\n"@)
}

/// Whether `b` is the body generated for `fr`.
pub open spec fn is_body_for(b: MirrorBody, fr: FileResult) -> bool {
    &&& b.responsibilities@ == responsibilities_text(fr)
    &&& b.external_contracts@ == external_contracts_text(fr)
    &&& b.preconditions@ == preconditions_text(fr)
    &&& b.state_control_flow@ == state_control_flow_text(fr)
    &&& b.side_effects@ == side_effects_text(fr)
    &&& b.invariants_risks@ == invariants_risks_text(fr)
    &&& b.change_impact@ == change_impact_text(fr)
    &&& b.expand_conditions@ == expand_conditions_text(fr)
}

pub(crate) fn export_name_list(fr: &FileResult) -> (r: Vec<String>)
    ensures
        views(r@) == crate::index::export_names_of(*fr),
{
    let ghost want = crate::index::export_names_of(*fr);
    let mut r: Vec<String> = Vec::new();
    let mut i: usize = 0;
    while i < fr.exports.len()
        invariant
            i <= fr.exports.len(),
            want == crate::index::export_names_of(*fr),
            views(r@) == want.take(i as int),
        decreases fr.exports.len() - i,
    {
        let ghost old = r@;
        r.push(owned(fr.exports[i].name.as_str()));
        proof {
            lemma_views_push(old, r@.last());
            assert(views(r@) =~= want.take(i + 1));
        }
        i = i + 1;
    }
    assert(want.take(fr.exports.len() as int) =~= want);
    r
}

pub(crate) fn import_source_list(fr: &FileResult) -> (r: Vec<String>)
    ensures
        views(r@) == crate::index::import_sources_of(*fr),
{
    let ghost want = crate::index::import_sources_of(*fr);
    let mut r: Vec<String> = Vec::new();
    let mut i: usize = 0;
    while i < fr.imports.len()
        invariant
            i <= fr.imports.len(),
            want == crate::index::import_sources_of(*fr),
            views(r@) == want.take(i as int),
        decreases fr.imports.len() - i,
    {
        let ghost old = r@;
        r.push(owned(fr.imports[i].source.as_str()));
        proof {
            lemma_views_push(old, r@.last());
            assert(views(r@) =~= want.take(i + 1));
        }
        i = i + 1;
    }
    assert(want.take(fr.imports.len() as int) =~= want);
    r
}

fn generate_responsibilities(fr: &FileResult) -> (r: String)
    ensures
        r@ == responsibilities_text(*fr),
{
    if fr.exports.len() == 0 {
        return owned("内部实现模块，不对外暴露符号。");
    }
    let names = export_name_list(fr);
    let hint = match stem_of(fr.file_path.as_str()) {
        Some(s) => s,
        None => owned("模块"),
    };
    let joined = join(&names, "、");
    let mut r = concat3("暴露 ", joined.as_str(), "；");
    r.append(hint.as_str());
    r.append(" 相关逻辑。");
    r
}

fn generate_external_contracts(fr: &FileResult) -> (r: String)
    ensures
        r@ == external_contracts_text(*fr),
{
    if fr.signatures.len() == 0 {
        return owned("无显式函数契约。");
    }
    let ghost want = fr.signatures@.map_values(|s: FunctionSignature| contract_line(s));
    let mut lines: Vec<String> = Vec::new();
    let mut i: usize = 0;
    while i < fr.signatures.len()
        invariant
            i <= fr.signatures.len(),
            want == fr.signatures@.map_values(|s: FunctionSignature| contract_line(s)),
            views(lines@) == want.take(i as int),
        decreases fr.signatures.len() - i,
    {
        let s = &fr.signatures[i];
        let c = crate::classifier::contract_string(s);
        let mut line = concat2("对外暴露 ", c.as_str());
        line.append(" → ");
        line.append(s.return_type.as_str());
        let ghost old = lines@;
        lines.push(line);
        proof {
            lemma_views_push(old, lines@.last());
            assert(views(lines@) =~= want.take(i + 1));
        }
        i = i + 1;
    }
    assert(want.take(fr.signatures.len() as int) =~= want);
    join(&lines, "；\n")
}

fn generate_preconditions(fr: &FileResult) -> (r: String)
    ensures
        r@ == preconditions_text(*fr),
{
    if fr.imports.len() == 0 {
        return owned("无外部依赖。");
    }
    let sources = import_source_list(fr);
    let joined = join(&sources, "、");
    concat3("依赖 ", joined.as_str(), " 提供的符号和类型。")
}

fn effect_label_text(kind: SideEffectKind) -> (r: String)
    ensures
        r@ == effect_label(kind),
{
    match kind {
        SideEffectKind::Io => owned("文件I/O"),
        SideEffectKind::Network => owned("网络请求"),
        SideEffectKind::Storage => owned("存储操作"),
        SideEffectKind::Log => owned("日志记录"),
    }
}

fn low_confidence_note_text(fr: &FileResult) -> (r: String)
    ensures
        r@ == low_confidence_note(*fr),
{
    if fr.confidence == ConfidenceBand::Low {
        owned("（解析置信度低，可能遗漏分支。）")
    } else {
        String::new()
    }
}

fn generate_state_control_flow(fr: &FileResult) -> (r: String)
    ensures
        r@ == state_control_flow_text(*fr),
{
    let note = low_confidence_note_text(fr);
    if fr.signatures.len() == 0 {
        return concat2("无可提取的控制流信息。", note.as_str());
    }
    let ghost effects = fr.side_effects@.map_values(|se: SideEffect| effect_label(se.kind));
    let mut labels: Vec<String> = Vec::new();
    let mut k: usize = 0;
    while k < fr.side_effects.len()
        invariant
            k <= fr.side_effects.len(),
            effects == fr.side_effects@.map_values(|se: SideEffect| effect_label(se.kind)),
            views(labels@) == effects.take(k as int),
        decreases fr.side_effects.len() - k,
    {
        let ghost old = labels@;
        labels.push(effect_label_text(fr.side_effects[k].kind));
        proof {
            lemma_views_push(old, labels@.last());
            assert(views(labels@) =~= effects.take(k + 1));
        }
        k = k + 1;
    }
    assert(effects.take(fr.side_effects.len() as int) =~= effects);
    let joined_effects = join(&labels, "、");
    let ghost want = fr.signatures@.map_values(|s: FunctionSignature| flow_line(s, effects));
    let mut lines: Vec<String> = Vec::new();
    let mut i: usize = 0;
    while i < fr.signatures.len()
        invariant
            i <= fr.signatures.len(),
            want == fr.signatures@.map_values(|s: FunctionSignature| flow_line(s, effects)),
            views(labels@) == effects,
            joined_effects@ == join_with(effects, "、"@),
            views(lines@) == want.take(i as int),
        decreases fr.signatures.len() - i,
    {
        let name = fr.signatures[i].name.as_str();
        let line = if labels.len() == 0 {
            concat2(name, ": 纯函数逻辑。")
        } else {
            let mut l = concat3(name, ": 包含 ", joined_effects.as_str());
            l.append("。");
            l
        };
        let ghost old = lines@;
        lines.push(line);
        proof {
            lemma_views_push(old, lines@.last());
            assert(views(lines@) =~= want.take(i + 1));
        }
        i = i + 1;
    }
    assert(want.take(fr.signatures.len() as int) =~= want);
    let mut r = join(&lines, "；\n");
    r.append(note.as_str());
    r
}

fn generate_side_effects_section(fr: &FileResult) -> (r: String)
    ensures
        r@ == side_effects_text(*fr),
{
    if fr.side_effects.len() == 0 {
        return owned("无检测到的副作用。");
    }
    let ghost want = fr.side_effects@.map_values(|se: SideEffect| side_effect_line(se));
    let mut lines: Vec<String> = Vec::new();
    let mut i: usize = 0;
    while i < fr.side_effects.len()
        invariant
            i <= fr.side_effects.len(),
            want == fr.side_effects@.map_values(|se: SideEffect| side_effect_line(se)),
            views(lines@) == want.take(i as int),
        decreases fr.side_effects.len() - i,
    {
        let se = &fr.side_effects[i];
        let mut line = effect_label_text(se.kind);
        line.append(": ");
        line.append(se.target.as_str());
        line.append(" (行 ");
        let n = decimal_string(se.line as usize);
        line.append(n.as_str());
        line.append(")");
        let ghost old = lines@;
        lines.push(line);
        proof {
            lemma_views_push(old, lines@.last());
            assert(views(lines@) =~= want.take(i + 1));
        }
        i = i + 1;
    }
    assert(want.take(fr.side_effects.len() as int) =~= want);
    join(&lines, "；\n")
}

fn any_effect(fr: &FileResult, k: SideEffectKind) -> (r: bool)
    ensures
        r == has_effect(*fr, k),
{
    let mut i: usize = 0;
    while i < fr.side_effects.len()
        invariant
            i <= fr.side_effects.len(),
            forall|j: int| 0 <= j < i ==> fr.side_effects@[j].kind != k,
        decreases fr.side_effects.len() - i,
    {
        if fr.side_effects[i].kind == k {
            return true;
        }
        i = i + 1;
    }
    false
}

fn push_line_if(lines: &mut Vec<String>, cond: bool, line: &str)
    ensures
        views(final(lines)@) == push_if(views(old(lines)@), cond, line@),
{
    if cond {
        let ghost old = lines@;
        lines.push(owned(line));
        proof {
            lemma_views_push(old, lines@.last());
        }
    }
}

fn generate_invariants_risks(fr: &FileResult) -> (r: String)
    ensures
        r@ == invariants_risks_text(*fr),
{
    let mut risks: Vec<String> = Vec::new();
    let has_network = any_effect(fr, SideEffectKind::Network);
    let has_storage = any_effect(fr, SideEffectKind::Storage);
    let has_exports = fr.exports.len() > 0;
    let has_effects = fr.side_effects.len() > 0;
    assert(views(risks@) =~= Seq::<Seq<char>>::empty());
    push_line_if(&mut risks, has_network || has_storage, "涉及外部系统调用，需关注错误处理和幂等性。");
    push_line_if(&mut risks, has_exports && has_effects, "导出符号包含副作用调用方，调用方需了解副作用边界。");
    push_line_if(&mut risks, fr.confidence == ConfidenceBand::Low, "解析置信度低，不变量可能不完整。");
    if risks.len() == 0 {
        return owned("未发现特定风险。");
    }
    join(&risks, "\n")
}

fn generate_change_impact(fr: &FileResult) -> (r: String)
    ensures
        r@ == change_impact_text(*fr),
{
    if fr.imports.len() == 0 {
        return owned("无已知的依赖关系影响分析。");
    }
    let sources = import_source_list(fr);
    let joined = join(&sources, "、");
    concat3("变更可能受上游 ", joined.as_str(), " 的影响。")
}

fn generate_expand_conditions(fr: &FileResult) -> (r: String)
    ensures
        r@ == expand_conditions_text(*fr),
{
    let mut conditions: Vec<String> = Vec::new();
    assert(views(conditions@) =~= Seq::<Seq<char>>::empty());
    push_line_if(&mut conditions, fr.side_effects.len() > 0, "修改副作用处理逻辑时必须展开源码。");
    push_line_if(&mut conditions, fr.signatures.len() > 0, "修改函数签名或返回类型时必须展开源码。");
    push_line_if(&mut conditions, fr.confidence == ConfidenceBand::Low, "解析置信度低，关键决策前必须展开源码。");
    push_line_if(&mut conditions, true, "涉及错误处理、并发控制或状态管理时必须展开源码。");
    join(&conditions, "\n")
}

/// Generates the eight body sections of a mirror.
pub fn generate_body(file_result: &FileResult) -> (b: MirrorBody)
    ensures
        is_body_for(b, *file_result),
{
    MirrorBody {
        responsibilities: generate_responsibilities(file_result),
        external_contracts: generate_external_contracts(file_result),
        preconditions: generate_preconditions(file_result),
        state_control_flow: generate_state_control_flow(file_result),
        side_effects: generate_side_effects_section(file_result),
        invariants_risks: generate_invariants_risks(file_result),
        change_impact: generate_change_impact(file_result),
        expand_conditions: generate_expand_conditions(file_result),
    }
}

/// The markdown text of a mirror body: the eight sections, each under its
/// `##` heading, separated by blank lines.
pub open spec fn body_markdown(b: MirrorBody) -> Seq<char> {
    "## 职责\n"@ + b.responsibilities@
        + "\n\n## 对外契约\n"@ + b.external_contracts@
        + "\n\n## 输入与前置条件\n"@ + b.preconditions@
        + "\n\n## 状态与控制流\n"@ + b.state_control_flow@
        + "\n\n## 副作用与外部依赖\n"@ + b.side_effects@
        + "\n\n## 关键不变量与风险\n"@ + b.invariants_risks@
        + "\n\n## 变更影响\n"@ + b.change_impact@
        + "\n\n## 何时必须展开源码\n"@ + b.expand_conditions@
}

/// Serialises a mirror body to markdown.
pub fn body_to_markdown(body: &MirrorBody) -> (r: String)
    ensures
        r@ == body_markdown(*body),
{
    let mut r = concat2("## 职责\n", body.responsibilities.as_str());
    r.append("\n\n## 对外契约\n");
    r.append(body.external_contracts.as_str());
    r.append("\n\n## 输入与前置条件\n");
    r.append(body.preconditions.as_str());
    r.append("\n\n## 状态与控制流\n");
    r.append(body.state_control_flow.as_str());
    r.append("\n\n## 副作用与外部依赖\n");
    r.append(body.side_effects.as_str());
    r.append("\n\n## 关键不变量与风险\n");
    r.append(body.invariants_risks.as_str());
    r.append("\n\n## 变更影响\n");
    r.append(body.change_impact.as_str());
    r.append("\n\n## 何时必须展开源码\n");
    r.append(body.expand_conditions.as_str());
    r
}

/// Generates a complete mirror (header and body), stamped with `generated_at`.
pub fn generate_mirror_at(
    file_result: &FileResult,
    fingerprints: &FingerprintResult,
    source_commit: &str,
    module_id: &str,
    generated_at: String,
) -> (m: MirrorFile)
    ensures
        is_header_for(m.header, *file_result, *fingerprints, source_commit@, module_id@, generated_at@),
        is_body_for(m.body, *file_result),
{
    MirrorFile {
        header: generate_header_at(file_result, fingerprints, source_commit, module_id, generated_at),
        body: generate_body(file_result),
    }
}

/// Generates a complete mirror (header and body), stamped with the current time.
pub fn generate_mirror(
    file_result: &FileResult,
    fingerprints: &FingerprintResult,
    source_commit: &str,
    module_id: &str,
) -> (m: MirrorFile)
    ensures
        is_header_for(m.header, *file_result, *fingerprints, source_commit@, module_id@, m.header.generated_at@),
        is_body_for(m.body, *file_result),
{
    let now = crate::stamps::now_rfc3339();
    generate_mirror_at(file_result, fingerprints, source_commit, module_id, now)
}

/// The text of a mirror file: the header's YAML text framed as front
/// matter, a blank line, the body markdown and a final newline.
pub open spec fn mirror_file_text(header_yaml: Seq<char>, body: MirrorBody) -> Seq<char> {
    "---\n"@ + header_yaml + "\n---"@ + "\n\n"@ + body_markdown(body) + "\n"@
}

/// Assembles a mirror file from the YAML text of its header and its body.
pub fn mirror_text(header_yaml: &str, body: &MirrorBody) -> (r: String)
    ensures
        r@ == mirror_file_text(header_yaml@, *body),
{
    let mut r = frame_front_matter(header_yaml);
    r.append("\n\n");
    let md = body_to_markdown(body);
    r.append(md.as_str());
    r.append("\n");
    r
}

} // verus!
