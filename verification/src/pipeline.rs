//! The decisions of a full or incremental run and of a drift check: which
//! files to parse, the run summary, and the texts of the module mirrors and
//! knowledge documents.  Reading and writing files is left to the caller.
use crate::depgraph::{affected_by, all_edges, ReverseDepGraph};
use crate::diff_types::ChangedFile;
use crate::gate::policy_view;
use crate::modules::{fanin_fanout, graph_targets, importer_entries};
use crate::text::{
    chars_of, concat2, concat3, contains_text, decimal, decimal_string, join, join_with, lemma_views_push, owned, split_by, split_chars,
    str_eq, string_of, to_uppercase, unicode_upper_text, views,
};
use crate::types::{ChangeClass, ConfidenceBand, DriftReport, FileResult, ModuleResult, PolicyResult, RunSummary};
use vstd::prelude::*;
use vstd::string::StrSliceExecFns;

verus! {

// ─── Parse results of files that could not be parsed ───────────────────────

/// The parse result recorded for a file that could not be parsed: no
/// confidence, nothing extracted, the given error message.
pub fn unparsed_result(path: &str, error_message: Option<String>) -> (fr: FileResult)
    ensures
        fr.file_path@ == path@,
        fr.confidence == ConfidenceBand::NoConfidence,
        fr.exports@.len() == 0,
        fr.imports@.len() == 0,
        fr.signatures@.len() == 0,
        fr.side_effects@.len() == 0,
        fr.parse_time_ms == 0,
        fr.error_message == error_message,
{
    FileResult {
        file_path: owned(path),
        confidence: ConfidenceBand::NoConfidence,
        exports: Vec::new(),
        imports: Vec::new(),
        signatures: Vec::new(),
        side_effects: Vec::new(),
        parse_time_ms: 0,
        error_message,
    }
}

// ─── Incremental runs ───────────────────────────────────────────────────────

/// Whether an incremental run parses `path`: it changed, or it imports a
/// changed file.
pub open spec fn in_parse_set(path: Seq<char>, edges: Seq<(Seq<char>, Seq<char>)>, changed: Seq<Seq<char>>) -> bool {
    changed.contains(path) || affected_by(edges, changed).contains(path)
}

/// The paths among `paths` that an incremental run parses, in order.
pub open spec fn parse_selection(
    paths: Seq<Seq<char>>,
    edges: Seq<(Seq<char>, Seq<char>)>,
    changed: Seq<Seq<char>>,
) -> Seq<Seq<char>>
    decreases paths.len(),
{
    if paths.len() == 0 {
        Seq::<Seq<char>>::empty()
    } else if in_parse_set(paths.last(), edges, changed) {
        parse_selection(paths.drop_last(), edges, changed).push(paths.last())
    } else {
        parse_selection(paths.drop_last(), edges, changed)
    }
}

/// Whether some edge runs from `p` to one of the `changed` files.
pub open spec fn imports_a_changed_file(p: Seq<char>, edges: Seq<(Seq<char>, Seq<char>)>, changed: Seq<Seq<char>>) -> bool {
    exists|i: int, j: int|
        #![trigger edges[i], changed[j]]
        0 <= i < edges.len() && 0 <= j < changed.len() && edges[i] == (p, changed[j])
}

proof fn lemma_in_parse_set(p: Seq<char>, edges: Seq<(Seq<char>, Seq<char>)>, changed: Seq<Seq<char>>)
    ensures
        in_parse_set(p, edges, changed) <==> changed.contains(p) || imports_a_changed_file(p, edges, changed),
{
    if exists|j: int| 0 <= j < changed.len() && #[trigger] crate::depgraph::importers_in(edges, changed[j]).contains(p) {
        let j = choose|j: int| 0 <= j < changed.len() && #[trigger] crate::depgraph::importers_in(edges, changed[j]).contains(p);
        crate::depgraph::lemma_importers_edge(edges, p, changed[j]);
        let i = choose|i: int| 0 <= i < edges.len() && #[trigger] edges[i] == (p, changed[j]);
        assert(edges[i] == (p, changed[j]));
    }
    if imports_a_changed_file(p, edges, changed) {
        let (i, j) = choose|i: int, j: int|
            #![trigger edges[i], changed[j]]
            0 <= i < edges.len() && 0 <= j < changed.len() && edges[i] == (p, changed[j]);
        crate::depgraph::lemma_importers_edge(edges, p, changed[j]);
        assert(crate::depgraph::importers_in(edges, changed[j]).contains(p));
    }
}

/// An incremental run re-parses exactly the scanned files that changed or
/// that import a changed file: a file that imports a changed file is never
/// left out, and nothing else is added.
pub proof fn law_selection_is_changed_files_and_their_importers(
    paths: Seq<Seq<char>>,
    edges: Seq<(Seq<char>, Seq<char>)>,
    changed: Seq<Seq<char>>,
    p: Seq<char>,
)
    ensures
        parse_selection(paths, edges, changed).contains(p) <==> paths.contains(p) && (changed.contains(p)
            || imports_a_changed_file(p, edges, changed)),
    decreases paths.len(),
{
    lemma_in_parse_set(p, edges, changed);
    if paths.len() > 0 {
        let init = paths.drop_last();
        law_selection_is_changed_files_and_their_importers(init, edges, changed, p);
        let prev = parse_selection(init, edges, changed);
        let sel = parse_selection(paths, edges, changed);
        if paths.contains(p) {
            let k = choose|k: int| 0 <= k < paths.len() && paths[k] == p;
            if k < init.len() {
                assert(init[k] == p);
            }
        }
        if init.contains(p) {
            let k = choose|k: int| 0 <= k < init.len() && init[k] == p;
            assert(paths[k] == p);
        }
        if in_parse_set(paths.last(), edges, changed) {
            assert(sel == prev.push(paths.last()));
            assert(sel[prev.len() as int] == paths.last());
            if sel.contains(p) {
                let k = choose|k: int| 0 <= k < sel.len() && sel[k] == p;
                if k < prev.len() {
                    assert(prev[k] == p);
                } else {
                    assert(paths[paths.len() - 1] == p);
                }
            }
            if prev.contains(p) {
                let k = choose|k: int| 0 <= k < prev.len() && prev[k] == p;
                assert(sel[k] == p);
            }
            if paths.last() == p {
                assert(sel.contains(p));
            }
        } else {
            assert(sel == prev);
            if paths.last() == p {
                assert(!in_parse_set(p, edges, changed));
            }
        }
    }
}

/// The files an incremental run parses: of the scanned `paths`, those that
/// changed and those that import a changed file (by the import graph of
/// `all_results`), in scan order.
pub fn incremental_selection(
    paths: &Vec<String>,
    all_results: &Vec<FileResult>,
    changed_files: &Vec<ChangedFile>,
) -> (r: Vec<String>)
    ensures
        views(r@) == parse_selection(
            views(paths@),
            all_edges(all_results@),
            changed_files@.map_values(|c: ChangedFile| c.path@),
        ),
{
    let graph = ReverseDepGraph::build(all_results);
    let ghost ch = changed_files@.map_values(|c: ChangedFile| c.path@);
    let mut changed: Vec<String> = Vec::new();
    let mut i: usize = 0;
    while i < changed_files.len()
        invariant
            i <= changed_files.len(),
            ch == changed_files@.map_values(|c: ChangedFile| c.path@),
            views(changed@) == ch.take(i as int),
        decreases changed_files.len() - i,
    {
        let ghost old = changed@;
        changed.push(owned(changed_files[i].path.as_str()));
        proof {
            lemma_views_push(old, changed@.last());
            assert(views(changed@) =~= ch.take(i + 1));
        }
        i = i + 1;
    }
    assert(ch.take(changed_files.len() as int) =~= ch);
    let neighbors = graph.expand_affected(&changed);
    let ghost ps = views(paths@);
    let mut r: Vec<String> = Vec::new();
    let mut k: usize = 0;
    while k < paths.len()
        invariant
            k <= paths.len(),
            ps == views(paths@),
            views(changed@) == ch,
            views(neighbors@).to_set() == affected_by(graph@, ch),
            graph@ == all_edges(all_results@),
            views(r@) == parse_selection(ps.take(k as int), graph@, ch),
        decreases paths.len() - k,
    {
        proof {
            assert(ps.take(k + 1).drop_last() =~= ps.take(k as int));
            assert(ps.take(k + 1).last() == paths@[k as int]@);
        }
        let p = paths[k].as_str();
        let in_neighbors = contains_text(&neighbors, p);
        proof {
            if in_neighbors {
                assert(views(neighbors@).to_set().contains(p@));
            } else {
                assert(!views(neighbors@).to_set().contains(p@));
            }
        }
        if contains_text(&changed, p) || in_neighbors {
            let ghost old = r@;
            r.push(owned(p));
            proof {
                lemma_views_push(old, r@.last());
            }
        }
        k = k + 1;
    }
    assert(ps.take(paths.len() as int) =~= ps);
    r
}

// ─── Run summary ────────────────────────────────────────────────────────────

/// How many results have confidence `c`.
pub open spec fn count_confidence(results: Seq<FileResult>, c: ConfidenceBand) -> nat
    decreases results.len(),
{
    if results.len() == 0 {
        0
    } else {
        count_confidence(results.drop_last(), c) + if results.last().confidence == c { 1nat } else { 0nat }
    }
}

/// The number of exports over all results.
pub open spec fn export_total(results: Seq<FileResult>) -> nat
    decreases results.len(),
{
    if results.len() == 0 {
        0
    } else {
        export_total(results.drop_last()) + results.last().exports@.len()
    }
}

/// The number of imports over all results.
pub open spec fn import_total(results: Seq<FileResult>) -> nat
    decreases results.len(),
{
    if results.len() == 0 {
        0
    } else {
        import_total(results.drop_last()) + results.last().imports@.len()
    }
}

proof fn lemma_totals_prefix(results: Seq<FileResult>, n: int)
    requires
        0 <= n <= results.len(),
    ensures
        export_total(results.take(n)) <= export_total(results),
        import_total(results.take(n)) <= import_total(results),
        count_confidence(results.take(n), ConfidenceBand::High) <= n,
        count_confidence(results.take(n), ConfidenceBand::Low) <= n,
        count_confidence(results.take(n), ConfidenceBand::NoConfidence) <= n,
    decreases results.len() - n,
{
    if n < results.len() {
        lemma_totals_prefix(results, n + 1);
        assert(results.take(n + 1).drop_last() =~= results.take(n));
    } else {
        assert(results.take(n) =~= results);
    }
    lemma_count_bound(results.take(n), ConfidenceBand::High);
    lemma_count_bound(results.take(n), ConfidenceBand::Low);
    lemma_count_bound(results.take(n), ConfidenceBand::NoConfidence);
}

proof fn lemma_count_bound(results: Seq<FileResult>, c: ConfidenceBand)
    ensures
        count_confidence(results, c) <= results.len(),
    decreases results.len(),
{
    if results.len() > 0 {
        lemma_count_bound(results.drop_last(), c);
    }
}

/// The summary of a run: files, how many parsed with high, low and no
/// confidence, export and import totals, and the elapsed time.
pub fn run_summary(results: &Vec<FileResult>, elapsed_ms: u64) -> (s: RunSummary)
    requires
        export_total(results@) <= usize::MAX,
        import_total(results@) <= usize::MAX,
    ensures
        s.total_files == results.len(),
        s.parsed_ok == count_confidence(results@, ConfidenceBand::High),
        s.confidence_low == count_confidence(results@, ConfidenceBand::Low),
        s.confidence_none == count_confidence(results@, ConfidenceBand::NoConfidence),
        s.total_exports == export_total(results@),
        s.total_imports == import_total(results@),
        s.elapsed_ms == elapsed_ms,
{
    let mut high: usize = 0;
    let mut low: usize = 0;
    let mut none: usize = 0;
    let mut exports: usize = 0;
    let mut imports: usize = 0;
    let mut i: usize = 0;
    while i < results.len()
        invariant
            i <= results.len(),
            export_total(results@) <= usize::MAX,
            import_total(results@) <= usize::MAX,
            high == count_confidence(results@.take(i as int), ConfidenceBand::High),
            low == count_confidence(results@.take(i as int), ConfidenceBand::Low),
            none == count_confidence(results@.take(i as int), ConfidenceBand::NoConfidence),
            exports == export_total(results@.take(i as int)),
            imports == import_total(results@.take(i as int)),
        decreases results.len() - i,
    {
        proof {
            assert(results@.take(i + 1).drop_last() =~= results@.take(i as int));
            lemma_totals_prefix(results@, i + 1);
        }
        let r = &results[i];
        match r.confidence {
            ConfidenceBand::High => high = high + 1,
            ConfidenceBand::Low => low = low + 1,
            ConfidenceBand::NoConfidence => none = none + 1,
        }
        exports = exports + r.exports.len();
        imports = imports + r.imports.len();
        i = i + 1;
    }
    assert(results@.take(results.len() as int) =~= results@);
    RunSummary {
        total_files: results.len(),
        parsed_ok: high,
        confidence_low: low,
        confidence_none: none,
        total_exports: exports,
        total_imports: imports,
        elapsed_ms,
    }
}

// ─── Modules ────────────────────────────────────────────────────────────────

/// Sets the fan-in and fan-out of each module from a module graph.
pub fn assign_fan(modules: Vec<ModuleResult>, graph: &Vec<(String, Vec<String>)>) -> (r: Vec<ModuleResult>)
    ensures
        r@.len() == modules@.len(),
        forall|i: int| 0 <= i < r@.len() ==> {
            let m = #[trigger] r@[i];
            let o = modules@[i];
            &&& m.fan_in == importer_entries(graph@, o.module_id@)
            &&& m.fan_out == match graph_targets(graph@, o.module_id@) {
                Some(t) => t.len(),
                None => 0,
            }
            &&& m.module_id == o.module_id
            &&& m.language == o.language
            &&& m.files == o.files
            &&& m.exports == o.exports
            &&& m.dependencies == o.dependencies
            &&& m.side_effects == o.side_effects
            &&& m.responsibility == o.responsibility
            &&& m.semantic_fingerprint == o.semantic_fingerprint
            &&& m.drift_level == o.drift_level
            &&& m.confidence == o.confidence
        },
{
    let ghost orig = modules@;
    let mut modules = modules;
    let mut i: usize = 0;
    while i < modules.len()
        invariant
            i <= modules.len(),
            modules@.len() == orig.len(),
            forall|k: int| i <= k < modules@.len() ==> #[trigger] modules@[k] == orig[k],
            forall|k: int| 0 <= k < i ==> {
                let m = #[trigger] modules@[k];
                let o = orig[k];
                &&& m.fan_in == importer_entries(graph@, o.module_id@)
                &&& m.fan_out == match graph_targets(graph@, o.module_id@) {
                    Some(t) => t.len(),
                    None => 0,
                }
                &&& m.module_id == o.module_id
                &&& m.language == o.language
                &&& m.files == o.files
                &&& m.exports == o.exports
                &&& m.dependencies == o.dependencies
                &&& m.side_effects == o.side_effects
                &&& m.responsibility == o.responsibility
                &&& m.semantic_fingerprint == o.semantic_fingerprint
                &&& m.drift_level == o.drift_level
                &&& m.confidence == o.confidence
            },
        decreases modules.len() - i,
    {
        let (fan_in, fan_out) = fanin_fanout(graph, modules[i].module_id.as_str());
        let mut m = modules.remove(i);
        m.fan_in = fan_in;
        m.fan_out = fan_out;
        modules.insert(i, m);
        i = i + 1;
    }
    modules
}

/// A segment of a module id that can stand in a path: not empty, `.` or `..`.
pub open spec fn safe_segment(s: Seq<char>) -> bool {
    s.len() > 0 && s != seq!['.'] && s != seq!['.', '.']
}

/// A segment with each `:` written as `__`.
pub open spec fn clean_segment(s: Seq<char>) -> Seq<char>
    decreases s.len(),
{
    if s.len() == 0 {
        Seq::<char>::empty()
    } else {
        clean_segment(s.drop_last()) + if s.last() == ':' { seq!['_', '_'] } else { seq![s.last()] }
    }
}

/// The safe segments among `parts`, cleaned, in order.
pub open spec fn kept_segments(parts: Seq<Seq<char>>) -> Seq<Seq<char>>
    decreases parts.len(),
{
    if parts.len() == 0 {
        Seq::<Seq<char>>::empty()
    } else if safe_segment(parts.last()) {
        kept_segments(parts.drop_last()).push(clean_segment(parts.last()))
    } else {
        kept_segments(parts.drop_last())
    }
}

/// A module id with each `\` read as `/`.
pub open spec fn slashed(id: Seq<char>) -> Seq<char> {
    id.map_values(|c: char| if c == '\\' { '/' } else { c })
}

/// A module id as a relative file path (without extension): its segments
/// between `/` (a `\` counts as `/`) become directories, so that module
/// `billing/invoice` lands at `billing/invoice`; empty, `.` and `..`
/// segments are dropped, so the path stays below the module directory, and
/// `:` becomes `__`.
pub open spec fn module_file_name(id: Seq<char>) -> Seq<char> {
    join_with(kept_segments(split_by(slashed(id), '/')), "/"@)
}

fn clean_segment_of(s: &Vec<char>) -> (r: String)
    ensures
        r@ == clean_segment(s@),
{
    let mut out: Vec<char> = Vec::new();
    let mut i: usize = 0;
    while i < s.len()
        invariant
            i <= s.len(),
            out@ == clean_segment(s@.take(i as int)),
        decreases s.len() - i,
    {
        proof {
            assert(s@.take(i + 1).drop_last() =~= s@.take(i as int));
        }
        let c = s[i];
        if c == ':' {
            out.push('_');
            out.push('_');
        } else {
            out.push(c);
        }
        i = i + 1;
        assert(out@ =~= clean_segment(s@.take(i as int)));
    }
    assert(s@.take(s.len() as int) =~= s@);
    string_of(&out)
}

/// Turns a module id into the relative path of its mirror (without extension).
pub fn sanitize_module_file_name(module_id: &str) -> (r: String)
    ensures
        r@ == module_file_name(module_id@),
{
    let v = chars_of(module_id);
    let mut w: Vec<char> = Vec::new();
    let mut i: usize = 0;
    while i < v.len()
        invariant
            i <= v.len(),
            w@ == slashed(v@.take(i as int)),
        decreases v.len() - i,
    {
        let c = v[i];
        w.push(if c == '\\' { '/' } else { c });
        i = i + 1;
        assert(w@ =~= slashed(v@.take(i as int)));
    }
    assert(v@.take(v.len() as int) =~= v@);
    let parts = split_chars(&w, '/');
    let ghost pv = split_by(w@, '/');
    let mut kept: Vec<String> = Vec::new();
    let mut k: usize = 0;
    while k < parts.len()
        invariant
            k <= parts.len(),
            parts@.len() == pv.len(),
            forall|m: int| 0 <= m < parts@.len() ==> #[trigger] parts@[m]@ == pv[m],
            views(kept@) == kept_segments(pv.take(k as int)),
        decreases parts.len() - k,
    {
        proof {
            assert(pv.take(k + 1).drop_last() =~= pv.take(k as int));
            assert(pv.take(k + 1).last() == pv[k as int]);
        }
        let seg = &parts[k];
        let n = seg.len();
        let safe = n > 0 && !(n == 1 && seg[0] == '.') && !(n == 2 && seg[0] == '.' && seg[1] == '.');
        proof {
            let sv = pv[k as int];
            assert(seg@ == sv);
            if n == 1 && seg@[0] == '.' {
                assert(sv =~= seq!['.']);
            }
            if n == 2 && seg@[0] == '.' && seg@[1] == '.' {
                assert(sv =~= seq!['.', '.']);
            }
            if sv == seq!['.'] {
                assert(sv.len() == 1 && sv[0] == '.');
            }
            if sv == seq!['.', '.'] {
                assert(sv.len() == 2 && sv[0] == '.' && sv[1] == '.');
            }
            assert(safe == safe_segment(sv));
        }
        if safe {
            let c = clean_segment_of(seg);
            proof {
                lemma_views_push(kept@, c);
            }
            kept.push(c);
        }
        k = k + 1;
        assert(views(kept@) =~= kept_segments(pv.take(k as int)));
    }
    assert(pv.take(parts.len() as int) =~= pv);
    join(&kept, "/")
}

/// A list of texts one per line, or `-` when it is empty.
pub open spec fn lines_or_dash(items: Seq<Seq<char>>) -> Seq<char> {
    if items.len() == 0 {
        "-"@
    } else {
        join_with(items, "\n"@)
    }
}

/// The text of a module mirror.
pub open spec fn module_mirror_content(m: ModuleResult) -> Seq<char> {
    "---\nanrsm_version: 1\nartifact_type: module_mirror\nartifact_id: module_mirror:"@ + m.module_id@
        + "\nmodule_id: "@ + m.module_id@
        + "\nlanguage: "@ + m.language@
        + "\nsemantic_fingerprint: "@ + m.semantic_fingerprint@
        + "\nfan_in: "@ + decimal(m.fan_in as nat)
        + "\nfan_out: "@ + decimal(m.fan_out as nat)
        + "\ndrift_level: "@ + m.drift_level@
        + "\n---\n\n## 责任\n"@ + m.responsibility@
        + "\n\n## 文件\n"@ + lines_or_dash(views(m.files@))
        + "\n\n## 导出\n"@ + lines_or_dash(views(m.exports@))
        + "\n\n## 依赖\n"@ + lines_or_dash(views(m.dependencies@))
        + "\n\n## 副作用\n"@ + lines_or_dash(views(m.side_effects@))
        + "\n"@
}

fn lines_or_dash_text(items: &Vec<String>) -> (r: String)
    ensures
        r@ == lines_or_dash(views(items@)),
{
    if items.len() == 0 {
        owned("-")
    } else {
        join(items, "\n")
    }
}

/// Builds the text of a module mirror.
pub fn module_mirror_text(m: &ModuleResult) -> (r: String)
    ensures
        r@ == module_mirror_content(*m),
{
    let mut r = concat2("---\nanrsm_version: 1\nartifact_type: module_mirror\nartifact_id: module_mirror:", m.module_id.as_str());
    r.append("\nmodule_id: ");
    r.append(m.module_id.as_str());
    r.append("\nlanguage: ");
    r.append(m.language.as_str());
    r.append("\nsemantic_fingerprint: ");
    r.append(m.semantic_fingerprint.as_str());
    r.append("\nfan_in: ");
    r.append(decimal_string(m.fan_in).as_str());
    r.append("\nfan_out: ");
    r.append(decimal_string(m.fan_out).as_str());
    r.append("\ndrift_level: ");
    r.append(m.drift_level.as_str());
    r.append("\n---\n\n## 责任\n");
    r.append(m.responsibility.as_str());
    r.append("\n\n## 文件\n");
    r.append(lines_or_dash_text(&m.files).as_str());
    r.append("\n\n## 导出\n");
    r.append(lines_or_dash_text(&m.exports).as_str());
    r.append("\n\n## 依赖\n");
    r.append(lines_or_dash_text(&m.dependencies).as_str());
    r.append("\n\n## 副作用\n");
    r.append(lines_or_dash_text(&m.side_effects).as_str());
    r.append("\n");
    r
}

/// The change class a module's drift level names (`C0` for anything unknown).
pub open spec fn drift_class(level: Seq<char>) -> ChangeClass {
    let u = unicode_upper_text(level);
    if u == "C3"@ {
        ChangeClass::C3
    } else if u == "C2"@ {
        ChangeClass::C2
    } else if u == "C1"@ {
        ChangeClass::C1
    } else {
        ChangeClass::C0
    }
}

/// Reads a module's drift level as a change class.
pub fn parse_drift(level: &str) -> (c: ChangeClass)
    ensures
        c == drift_class(level@),
{
    let u = to_uppercase(level);
    if str_eq(u.as_str(), "C3") {
        ChangeClass::C3
    } else if str_eq(u.as_str(), "C2") {
        ChangeClass::C2
    } else if str_eq(u.as_str(), "C1") {
        ChangeClass::C1
    } else {
        ChangeClass::C0
    }
}

// ─── Knowledge documents ────────────────────────────────────────────────────

/// The statistics document, given the text of the token compression ratio.
pub open spec fn stats_content(k: crate::types::KnowledgeResult, ratio_text: Seq<char>) -> Seq<char> {
    "# Language & File Statistics\n\n- module_count: "@ + decimal(k.module_count as nat)
        + "\n- total_files: "@ + decimal(k.total_files as nat)
        + "\n- total_exports: "@ + decimal(k.total_exports as nat)
        + "\n- token_compression_ratio: "@ + ratio_text
        + "\n- language_distribution: "@ + crate::knowledge::distribution_text(k.language_distribution@)
        + "\n"@
}

/// Builds the statistics document.  `ratio_text` is the token compression
/// ratio written with four decimals.
pub fn stats_doc(k: &crate::types::KnowledgeResult, ratio_text: &str) -> (r: String)
    ensures
        r@ == stats_content(*k, ratio_text@),
{
    let mut r = concat2("# Language & File Statistics\n\n- module_count: ", decimal_string(k.module_count).as_str());
    r.append("\n- total_files: ");
    r.append(decimal_string(k.total_files).as_str());
    r.append("\n- total_exports: ");
    r.append(decimal_string(k.total_exports).as_str());
    r.append("\n- token_compression_ratio: ");
    r.append(ratio_text);
    r.append("\n- language_distribution: ");
    let mut parts: Vec<String> = Vec::new();
    let ghost want = k.language_distribution@.map_values(|e: (String, usize)| e.0@ + ":"@ + decimal(e.1 as nat));
    let mut i: usize = 0;
    while i < k.language_distribution.len()
        invariant
            i <= k.language_distribution.len(),
            want == k.language_distribution@.map_values(|e: (String, usize)| e.0@ + ":"@ + decimal(e.1 as nat)),
            views(parts@) == want.take(i as int),
        decreases k.language_distribution.len() - i,
    {
        let e = &k.language_distribution[i];
        let part = concat3(e.0.as_str(), ":", decimal_string(e.1).as_str());
        let ghost old = parts@;
        parts.push(part);
        proof {
            lemma_views_push(old, parts@.last());
            assert(views(parts@) =~= want.take(i + 1));
        }
        i = i + 1;
    }
    assert(want.take(k.language_distribution.len() as int) =~= want);
    r.append(join(&parts, ", ").as_str());
    r.append("\n");
    r
}

/// The line of the `i`-th cluster (counted from 0).
pub open spec fn cluster_line(i: int, c: Seq<Seq<char>>) -> Seq<char> {
    "- cluster_"@ + decimal((i + 1) as nat) + ": "@ + join_with(c, ", "@)
}

/// The clusters document.
pub open spec fn clusters_content(clusters: Seq<Vec<String>>) -> Seq<char> {
    "# Semantic Clusters\n\n"@ + join_with(
        Seq::new(clusters.len(), |i: int| cluster_line(i, views(clusters[i]@))),
        "\n"@,
    )
}

/// Builds the clusters document: one line per cluster, numbered from 1.
pub fn clusters_doc(clusters: &Vec<Vec<String>>) -> (r: String)
    requires
        clusters.len() < usize::MAX,
    ensures
        r@ == clusters_content(clusters@),
{
    let ghost want = Seq::new(clusters@.len(), |i: int| cluster_line(i, views(clusters@[i]@)));
    let mut lines: Vec<String> = Vec::new();
    let mut i: usize = 0;
    while i < clusters.len()
        invariant
            i <= clusters.len() < usize::MAX,
            want == Seq::new(clusters@.len(), |i: int| cluster_line(i, views(clusters@[i]@))),
            views(lines@) == want.take(i as int),
        decreases clusters.len() - i,
    {
        let mut line = concat2("- cluster_", decimal_string(i + 1).as_str());
        line.append(": ");
        line.append(join(&clusters[i], ", ").as_str());
        let ghost old = lines@;
        lines.push(line);
        proof {
            lemma_views_push(old, lines@.last());
            assert(views(lines@) =~= want.take(i + 1));
        }
        i = i + 1;
    }
    assert(want.take(clusters.len() as int) =~= want);
    concat2("# Semantic Clusters\n\n", join(&lines, "\n").as_str())
}

/// The hotspot document.
pub open spec fn hotspot_content(hotspots: Seq<(String, usize)>) -> Seq<char> {
    "# Hotspot Map\n\n"@ + join_with(
        hotspots.map_values(|e: (String, usize)| "- "@ + e.0@ + ": "@ + decimal(e.1 as nat)),
        "\n"@,
    )
}

/// Builds the hotspot document: one line per window.
pub fn hotspot_doc(hotspots: &Vec<(String, usize)>) -> (r: String)
    ensures
        r@ == hotspot_content(hotspots@),
{
    let ghost want = hotspots@.map_values(|e: (String, usize)| "- "@ + e.0@ + ": "@ + decimal(e.1 as nat));
    let mut lines: Vec<String> = Vec::new();
    let mut i: usize = 0;
    while i < hotspots.len()
        invariant
            i <= hotspots.len(),
            want == hotspots@.map_values(|e: (String, usize)| "- "@ + e.0@ + ": "@ + decimal(e.1 as nat)),
            views(lines@) == want.take(i as int),
        decreases hotspots.len() - i,
    {
        let mut line = concat3("- ", hotspots[i].0.as_str(), ": ");
        line.append(decimal_string(hotspots[i].1).as_str());
        let ghost old = lines@;
        lines.push(line);
        proof {
            lemma_views_push(old, lines@.last());
            assert(views(lines@) =~= want.take(i + 1));
        }
        i = i + 1;
    }
    assert(want.take(hotspots.len() as int) =~= want);
    concat2("# Hotspot Map\n\n", join(&lines, "\n").as_str())
}

/// The read paths document.
pub open spec fn read_paths_content(paths: Seq<Seq<char>>) -> Seq<char> {
    "# Agent Read Paths\n\n"@ + if paths.len() == 0 {
        "- none"@
    } else {
        join_with(paths.map_values(|p: Seq<char>| "- "@ + p), "\n"@)
    }
}

/// Builds the read paths document: one line per path, `- none` when there are none.
pub fn read_paths_doc(read_paths: &Vec<String>) -> (r: String)
    ensures
        r@ == read_paths_content(views(read_paths@)),
{
    if read_paths.len() == 0 {
        return concat2("# Agent Read Paths\n\n", "- none");
    }
    let ghost want = views(read_paths@).map_values(|p: Seq<char>| "- "@ + p);
    let mut lines: Vec<String> = Vec::new();
    let mut i: usize = 0;
    while i < read_paths.len()
        invariant
            i <= read_paths.len(),
            want == views(read_paths@).map_values(|p: Seq<char>| "- "@ + p),
            views(lines@) == want.take(i as int),
        decreases read_paths.len() - i,
    {
        let line = concat2("- ", read_paths[i].as_str());
        let ghost old = lines@;
        lines.push(line);
        proof {
            lemma_views_push(old, lines@.last());
            assert(views(lines@) =~= want.take(i + 1));
        }
        i = i + 1;
    }
    assert(want.take(read_paths.len() as int) =~= want);
    let body = join(&lines, "\n");
    concat2("# Agent Read Paths\n\n", body.as_str())
}

/// `n` in decimal, padded with zeros to at least three digits (what `{:03}` prints).
pub open spec fn padded3(n: nat) -> Seq<char> {
    let d = decimal(n);
    if d.len() >= 3 {
        d
    } else if d.len() == 2 {
        seq!['0'] + d
    } else {
        seq!['0', '0'] + d
    }
}

/// The file name of the `i`-th ADR (counted from 0): `ADR-001.md`, ….
pub fn adr_file_name(index: usize) -> (r: String)
    requires
        index < usize::MAX,
    ensures
        r@ == "ADR-"@ + padded3((index + 1) as nat) + ".md"@,
{
    let d = decimal_string(index + 1);
    let mut r = owned("ADR-");
    let n = d.as_str().unicode_len();
    if n == 2 {
        r.append("0");
        proof { reveal_strlit("0"); }
        assert(r@ =~= "ADR-"@ + seq!['0']);
    } else if n < 2 {
        r.append("00");
        proof { reveal_strlit("00"); }
        assert(r@ =~= "ADR-"@ + seq!['0', '0']);
    }
    let ghost before = r@;
    r.append(d.as_str());
    r.append(".md");
    proof {
        if n >= 3 {
            assert(before =~= "ADR-"@);
        }
    }
    r
}

// ─── Drift check on a clean tree ────────────────────────────────────────────

/// Whether `r` is the report of a drift check on a clean working tree.
pub open spec fn is_clean_report(r: DriftReport, head_commit: Seq<char>, report_id: Seq<char>, generated_at: Seq<char>) -> bool {
    &&& r.report_version == 1
    &&& r.report_id@ == report_id
    &&& r.repo_commit_before@ == head_commit
    &&& r.repo_commit_after@ == "working-tree"@
    &&& r.generated_at@ == generated_at
    &&& r.drift_level@ == "none"@
    &&& r.changed_files@.len() == 0
    &&& r.affected_artifacts@.len() == 0
    &&& r.material_changes@.len() == 0
    &&& policy_view(r.policy_result) == ("pass"@, Seq::<Seq<char>>::empty(), None::<Seq<Seq<char>>>, Some(
        seq!["No changes detected"@],
    ))
}

/// The report of a drift check on a clean working tree, with the given id and time.
pub fn clean_report_with(head_commit: &str, report_id: String, generated_at: String) -> (r: DriftReport)
    ensures
        is_clean_report(r, head_commit@, report_id@, generated_at@),
{
    let mut recommendations: Vec<String> = Vec::new();
    recommendations.push(owned("No changes detected"));
    assert(views(recommendations@) =~= seq!["No changes detected"@]);
    let r = DriftReport {
        report_version: 1,
        report_id,
        repo_commit_before: owned(head_commit),
        repo_commit_after: owned("working-tree"),
        generated_at,
        drift_level: owned("none"),
        changed_files: Vec::new(),
        affected_artifacts: Vec::new(),
        material_changes: Vec::new(),
        policy_result: PolicyResult {
            status: owned("pass"),
            failed_rules: Vec::new(),
            failure_codes: None,
            recommendations: Some(recommendations),
        },
    };
    proof {
        assert(views(r.policy_result.failed_rules@) =~= Seq::<Seq<char>>::empty());
    }
    r
}

/// The report of a drift check on a clean working tree, with a fresh id
/// and the current time.
pub fn clean_report(head_commit: &str) -> (r: DriftReport)
    ensures
        is_clean_report(r, head_commit@, r.report_id@, r.generated_at@),
{
    let id = crate::stamps::new_report_id();
    let at = crate::stamps::now_rfc3339();
    clean_report_with(head_commit, id, at)
}

} // verus!
