//! The knowledge layer: repository statistics and documents built from the
//! modules.
use crate::index::{RoutingIndex, RoutingIndexEntry};
use crate::modules::{build_module_graph, is_module_graph, module_ids};
use crate::order::{sort_ranked, sorted_rank, sorted_unique, strictly_sorted, view_seq, HeavierFirst, Lex2};
use crate::text::{
    chars_of, concat2, concat3, contains, contains_text, decimal, decimal_string, join, join_with, lemma_views_push, occurs_in,
    owned, split_words, str_eq, string_of, to_uppercase, unicode_upper_text, views, words,
};
use crate::types::{change_class_name, ChangeClass, KnowledgeResult, ModuleResult};
use vstd::prelude::*;

verus! {

// ─── Statistics ─────────────────────────────────────────────────────────────

/// The number of files over all modules.
pub open spec fn total_files_of(modules: Seq<ModuleResult>) -> nat
    decreases modules.len(),
{
    if modules.len() == 0 {
        0
    } else {
        total_files_of(modules.drop_last()) + modules.last().files@.len()
    }
}

/// The number of exports over all modules.
pub open spec fn total_exports_of(modules: Seq<ModuleResult>) -> nat
    decreases modules.len(),
{
    if modules.len() == 0 {
        0
    } else {
        total_exports_of(modules.drop_last()) + modules.last().exports@.len()
    }
}

/// The tokens of a module mirror: the words of its responsibility line and
/// one per export, dependency and side effect.
pub open spec fn module_tokens(m: ModuleResult) -> nat {
    words(m.responsibility@).len() + m.exports@.len() + m.dependencies@.len() + m.side_effects@.len()
}

/// The tokens of all module mirrors.
pub open spec fn mirror_tokens_of(modules: Seq<ModuleResult>) -> nat
    decreases modules.len(),
{
    if modules.len() == 0 {
        0
    } else {
        mirror_tokens_of(modules.drop_last()) + module_tokens(modules.last())
    }
}

/// The number of files of the modules in language `lang`.
pub open spec fn files_in_language(modules: Seq<ModuleResult>, lang: Seq<char>) -> nat
    decreases modules.len(),
{
    if modules.len() == 0 {
        0
    } else {
        files_in_language(modules.drop_last(), lang) + if modules.last().language@ == lang {
            modules.last().files@.len()
        } else {
            0
        }
    }
}

proof fn lemma_files_in_language_bound(modules: Seq<ModuleResult>, lang: Seq<char>)
    ensures
        files_in_language(modules, lang) <= total_files_of(modules),
    decreases modules.len(),
{
    if modules.len() > 0 {
        lemma_files_in_language_bound(modules.drop_last(), lang);
    }
}

/// Builds the repository statistics: module count, files per language
/// (ordered by language), totals, and the token counts of the mirrors and
/// of the sources.
pub fn build_knowledge_result(modules: &Vec<ModuleResult>, source_tokens: usize) -> (k: KnowledgeResult)
    requires
        total_files_of(modules@) <= usize::MAX,
        total_exports_of(modules@) <= usize::MAX,
        mirror_tokens_of(modules@) <= usize::MAX,
    ensures
        k.module_count == modules.len(),
        k.total_files == total_files_of(modules@),
        k.total_exports == total_exports_of(modules@),
        k.mirror_tokens == mirror_tokens_of(modules@),
        k.source_tokens == source_tokens,
        strictly_sorted(k.language_distribution@.map_values(|e: (String, usize)| e.0@)),
        k.language_distribution@.map_values(|e: (String, usize)| e.0@).to_set() =~= modules@.map_values(
            |m: ModuleResult| m.language@,
        ).to_set(),
        forall|i: int| 0 <= i < k.language_distribution@.len() ==> #[trigger] k.language_distribution@[i].1
            == files_in_language(modules@, k.language_distribution@[i].0@),
{
    let mut total_files: usize = 0;
    let mut total_exports: usize = 0;
    let mut mirror_tokens: usize = 0;
    let mut languages: Vec<String> = Vec::new();
    let ghost langs = modules@.map_values(|m: ModuleResult| m.language@);
    let mut i: usize = 0;
    while i < modules.len()
        invariant
            i <= modules.len(),
            total_files_of(modules@) <= usize::MAX,
            total_exports_of(modules@) <= usize::MAX,
            mirror_tokens_of(modules@) <= usize::MAX,
            langs == modules@.map_values(|m: ModuleResult| m.language@),
            total_files == total_files_of(modules@.take(i as int)),
            total_exports == total_exports_of(modules@.take(i as int)),
            mirror_tokens == mirror_tokens_of(modules@.take(i as int)),
            views(languages@) == langs.take(i as int),
        decreases modules.len() - i,
    {
        let m = &modules[i];
        proof {
            assert(modules@.take(i + 1).drop_last() =~= modules@.take(i as int));
            lemma_prefix_totals(modules@, i + 1);
        }
        total_files = total_files + m.files.len();
        total_exports = total_exports + m.exports.len();
        let ws = split_words(m.responsibility.as_str());
        mirror_tokens = mirror_tokens + ws.len() + m.exports.len() + m.dependencies.len() + m.side_effects.len();
        let ghost old = languages@;
        languages.push(owned(m.language.as_str()));
        proof {
            lemma_views_push(old, languages@.last());
            assert(views(languages@) =~= langs.take(i + 1));
        }
        i = i + 1;
    }
    proof {
        assert(modules@.take(modules.len() as int) =~= modules@);
        assert(langs.take(modules.len() as int) =~= langs);
    }
    let distinct = sorted_unique(languages);
    let mut distribution: Vec<(String, usize)> = Vec::new();
    let mut d: usize = 0;
    while d < distinct.len()
        invariant
            d <= distinct.len(),
            total_files_of(modules@) <= usize::MAX,
            distribution@.map_values(|e: (String, usize)| e.0@) == views(distinct@).take(d as int),
            forall|k: int| 0 <= k < distribution@.len() ==> #[trigger] distribution@[k].1 == files_in_language(
                modules@,
                distribution@[k].0@,
            ),
        decreases distinct.len() - d,
    {
        let lang = distinct[d].as_str();
        let mut count: usize = 0;
        let mut j: usize = 0;
        while j < modules.len()
            invariant
                j <= modules.len(),
                total_files_of(modules@) <= usize::MAX,
                count == files_in_language(modules@.take(j as int), lang@),
            decreases modules.len() - j,
        {
            proof {
                assert(modules@.take(j + 1).drop_last() =~= modules@.take(j as int));
                lemma_files_in_language_bound(modules@.take(j + 1), lang@);
                lemma_prefix_totals(modules@, j + 1);
            }
            if str_eq(modules[j].language.as_str(), lang) {
                count = count + modules[j].files.len();
            }
            j = j + 1;
        }
        assert(modules@.take(modules.len() as int) =~= modules@);
        let ghost old = distribution@;
        distribution.push((owned(lang), count));
        proof {
            assert(distribution@.map_values(|e: (String, usize)| e.0@) =~= old.map_values(
                |e: (String, usize)| e.0@,
            ).push(lang@));
            assert(views(distinct@).take(d + 1) =~= views(distinct@).take(d as int).push(views(distinct@)[d as int]));
        }
        d = d + 1;
    }
    assert(views(distinct@).take(distinct.len() as int) =~= views(distinct@));
    KnowledgeResult {
        module_count: modules.len(),
        language_distribution: distribution,
        total_files,
        total_exports,
        mirror_tokens,
        source_tokens,
    }
}

proof fn lemma_prefix_totals(modules: Seq<ModuleResult>, n: int)
    requires
        0 <= n <= modules.len(),
    ensures
        total_files_of(modules.take(n)) <= total_files_of(modules),
        total_exports_of(modules.take(n)) <= total_exports_of(modules),
        mirror_tokens_of(modules.take(n)) <= mirror_tokens_of(modules),
    decreases modules.len() - n,
{
    if n < modules.len() {
        lemma_prefix_totals(modules, n + 1);
        assert(modules.take(n + 1).drop_last() =~= modules.take(n));
    } else {
        assert(modules.take(n) =~= modules);
    }
}

// ─── Documents ──────────────────────────────────────────────────────────────

/// Whether a module is an entry module: nothing depends on it, or its id
/// mentions `main` or `app`.
pub open spec fn is_entry_module(m: ModuleResult) -> bool {
    m.fan_in == 0 || occurs_in(m.module_id@, "main"@) || occurs_in(m.module_id@, "app"@)
}

/// The entry modules, with repeats, in module order.
pub open spec fn entry_modules_of(modules: Seq<ModuleResult>) -> Seq<Seq<char>>
    decreases modules.len(),
{
    if modules.len() == 0 {
        Seq::<Seq<char>>::empty()
    } else if is_entry_module(modules.last()) {
        entry_modules_of(modules.drop_last()).push(modules.last().module_id@)
    } else {
        entry_modules_of(modules.drop_last())
    }
}

/// `<language>:<files>` for each entry of a language distribution.
pub open spec fn distribution_text(dist: Seq<(String, usize)>) -> Seq<char> {
    join_with(dist.map_values(|e: (String, usize)| e.0@ + ":"@ + decimal(e.1 as nat)), ", "@)
}

/// The repository overview, given the sorted entry modules and the text of
/// the token compression ratio.
pub open spec fn overview_text(k: KnowledgeResult, entries: Seq<Seq<char>>, ratio_text: Seq<char>) -> Seq<char> {
    "# Repository Overview\n\n- modules: "@ + decimal(k.module_count as nat)
        + "\n- files: "@ + decimal(k.total_files as nat)
        + "\n- exports: "@ + decimal(k.total_exports as nat)
        + "\n- languages: "@ + distribution_text(k.language_distribution@)
        + "\n- entry_modules: "@ + (if entries.len() == 0 { "none"@ } else { join_with(entries, ", "@) })
        + "\n- token_compression_ratio: "@ + ratio_text
}

fn distribution_string(dist: &Vec<(String, usize)>) -> (r: String)
    ensures
        r@ == distribution_text(dist@),
{
    let ghost want = dist@.map_values(|e: (String, usize)| e.0@ + ":"@ + decimal(e.1 as nat));
    let mut parts: Vec<String> = Vec::new();
    let mut i: usize = 0;
    while i < dist.len()
        invariant
            i <= dist.len(),
            want == dist@.map_values(|e: (String, usize)| e.0@ + ":"@ + decimal(e.1 as nat)),
            views(parts@) == want.take(i as int),
        decreases dist.len() - i,
    {
        let n = decimal_string(dist[i].1);
        let part = concat3(dist[i].0.as_str(), ":", n.as_str());
        let ghost old = parts@;
        parts.push(part);
        proof {
            lemma_views_push(old, parts@.last());
            assert(views(parts@) =~= want.take(i + 1));
        }
        i = i + 1;
    }
    assert(want.take(dist.len() as int) =~= want);
    join(&parts, ", ")
}

/// The repository overview document.  `ratio_text` is the token
/// compression ratio written with four decimals.
pub fn generate_repo_overview(modules: &Vec<ModuleResult>, knowledge: &KnowledgeResult, ratio_text: &str) -> (r: String)
    ensures
        exists|entries: Seq<Seq<char>>|
            strictly_sorted(entries) && entries.to_set() == entry_modules_of(modules@).to_set() && r@ == overview_text(
                *knowledge,
                entries,
                ratio_text@,
            ),
{
    let mut entry_modules: Vec<String> = Vec::new();
    let mut i: usize = 0;
    while i < modules.len()
        invariant
            i <= modules.len(),
            views(entry_modules@) == entry_modules_of(modules@.take(i as int)),
        decreases modules.len() - i,
    {
        proof {
            assert(modules@.take(i + 1).drop_last() =~= modules@.take(i as int));
        }
        let m = &modules[i];
        if m.fan_in == 0 || contains(m.module_id.as_str(), "main") || contains(m.module_id.as_str(), "app") {
            let ghost old = entry_modules@;
            entry_modules.push(owned(m.module_id.as_str()));
            proof {
                lemma_views_push(old, entry_modules@.last());
            }
        }
        i = i + 1;
    }
    assert(modules@.take(modules.len() as int) =~= modules@);
    let entries = sorted_unique(entry_modules);
    let mut r = owned("# Repository Overview\n\n- modules: ");
    r.append(decimal_string(knowledge.module_count).as_str());
    r.append("\n- files: ");
    r.append(decimal_string(knowledge.total_files).as_str());
    r.append("\n- exports: ");
    r.append(decimal_string(knowledge.total_exports).as_str());
    r.append("\n- languages: ");
    r.append(distribution_string(&knowledge.language_distribution).as_str());
    r.append("\n- entry_modules: ");
    if entries.len() == 0 {
        r.append("none");
    } else {
        r.append(join(&entries, ", ").as_str());
    }
    r.append("\n- token_compression_ratio: ");
    r.append(ratio_text);
    assert(r@ == overview_text(*knowledge, views(entries@), ratio_text@));
    r
}

/// A module id as a mermaid node name: `/`, `:`, `-` and `.` become `_`.
pub open spec fn sanitized(n: Seq<char>) -> Seq<char> {
    n.map_values(|c: char| if c == '/' || c == ':' || c == '-' || c == '.' { '_' } else { c })
}

/// Turns a module id into a mermaid node name.
pub fn sanitize_node(n: &str) -> (r: String)
    ensures
        r@ == sanitized(n@),
{
    let v = chars_of(n);
    let mut out: Vec<char> = Vec::new();
    let mut i: usize = 0;
    while i < v.len()
        invariant
            i <= v.len(),
            out@ == sanitized(v@).take(i as int),
        decreases v.len() - i,
    {
        let c = v[i];
        let d = if c == '/' || c == ':' || c == '-' || c == '.' { '_' } else { c };
        out.push(d);
        i = i + 1;
        assert(out@ =~= sanitized(v@).take(i as int));
    }
    assert(sanitized(v@).take(v.len() as int) =~= sanitized(v@));
    string_of(&out)
}

/// The node line of a module in the mermaid graph.
pub open spec fn node_line(n: Seq<char>) -> Seq<char> {
    "  "@ + sanitized(n) + "[\""@ + n + "\"]"@
}

/// The edge lines of one graph entry.
pub open spec fn edge_lines(e: (String, Vec<String>)) -> Seq<Seq<char>> {
    views(e.1@).map_values(|dst: Seq<char>| "  "@ + sanitized(e.0@) + " --> "@ + sanitized(dst))
}

/// Whether `r` is the mermaid graph of `modules`: `graph LR`, a node line
/// per module id (sorted, each once), then the edge lines of each entry of
/// a module graph of the modules.
pub open spec fn is_mermaid_of(r: Seq<char>, modules: Seq<ModuleResult>) -> bool {
    exists|nodes: Seq<Seq<char>>, graph: Seq<(String, Vec<String>)>|
        strictly_sorted(nodes) && nodes.to_set() == module_ids(modules).to_set() && is_module_graph(graph, modules)
            && r == join_with(
            seq!["graph LR"@] + nodes.map_values(|n: Seq<char>| node_line(n)) + crate::index::flatten(
                graph.map_values(|e: (String, Vec<String>)| edge_lines(e)),
            ),
            "\n"@,
        )
}

/// The module dependency graph as a mermaid flowchart.
pub fn generate_module_dep_mermaid(modules: &Vec<ModuleResult>) -> (r: String)
    ensures
        is_mermaid_of(r@, modules@),
{
    let graph = build_module_graph(modules);
    let mut ids: Vec<String> = Vec::new();
    let mut i: usize = 0;
    while i < modules.len()
        invariant
            i <= modules.len(),
            views(ids@) == module_ids(modules@).take(i as int),
        decreases modules.len() - i,
    {
        let ghost old = ids@;
        ids.push(owned(modules[i].module_id.as_str()));
        proof {
            lemma_views_push(old, ids@.last());
            assert(views(ids@) =~= module_ids(modules@).take(i + 1));
        }
        i = i + 1;
    }
    assert(module_ids(modules@).take(modules.len() as int) =~= module_ids(modules@));
    let nodes = sorted_unique(ids);
    let mut lines: Vec<String> = Vec::new();
    lines.push(owned("graph LR"));
    let ghost head = seq!["graph LR"@];
    assert(views(lines@) =~= head);
    let ghost node_lines = views(nodes@).map_values(|n: Seq<char>| node_line(n));
    let mut k: usize = 0;
    while k < nodes.len()
        invariant
            k <= nodes.len(),
            node_lines == views(nodes@).map_values(|n: Seq<char>| node_line(n)),
            views(lines@) == head + node_lines.take(k as int),
        decreases nodes.len() - k,
    {
        let n = nodes[k].as_str();
        let mut line = concat2("  ", sanitize_node(n).as_str());
        line.append("[\"");
        line.append(n);
        line.append("\"]");
        let ghost old = lines@;
        lines.push(line);
        proof {
            lemma_views_push(old, lines@.last());
            assert(views(nodes@)[k as int] == n@);
            assert(views(lines@) =~= head + node_lines.take(k + 1));
        }
        k = k + 1;
    }
    assert(node_lines.take(nodes.len() as int) =~= node_lines);
    let ghost base = head + node_lines;
    let ghost parts = graph@.map_values(|e: (String, Vec<String>)| edge_lines(e));
    let mut g: usize = 0;
    while g < graph.len()
        invariant
            g <= graph.len(),
            parts == graph@.map_values(|e: (String, Vec<String>)| edge_lines(e)),
            views(lines@) == base + crate::index::flatten(parts.take(g as int)),
        decreases graph.len() - g,
    {
        let src = sanitize_node(graph[g].0.as_str());
        let targets = &graph[g].1;
        let ghost before = views(lines@);
        let ghost want = edge_lines(graph@[g as int]);
        let mut t: usize = 0;
        while t < targets.len()
            invariant
                t <= targets.len(),
                targets == &graph@[g as int].1,
                src@ == sanitized(graph@[g as int].0@),
                want == edge_lines(graph@[g as int]),
                views(lines@) == before + want.take(t as int),
            decreases targets.len() - t,
        {
            let mut line = concat3("  ", src.as_str(), " --> ");
            line.append(sanitize_node(targets[t].as_str()).as_str());
            let ghost old = lines@;
            lines.push(line);
            proof {
                lemma_views_push(old, lines@.last());
                assert(views(lines@) =~= before + want.take(t + 1));
            }
            t = t + 1;
        }
        proof {
            assert(want.take(targets.len() as int) =~= want);
            crate::index::lemma_flatten_step(parts, g as int);
            assert(views(lines@) =~= base + crate::index::flatten(parts.take(g + 1)));
        }
        g = g + 1;
    }
    assert(parts.take(graph.len() as int) =~= parts);
    let r = join(&lines, "\n");
    proof {
        assert(views(lines@) =~= seq!["graph LR"@] + views(nodes@).map_values(|n: Seq<char>| node_line(n))
            + crate::index::flatten(graph@.map_values(|e: (String, Vec<String>)| edge_lines(e))));
    }
    r
}

/// The rows of the export index: `- <module>::<export>` for every export.
pub open spec fn export_rows(modules: Seq<ModuleResult>) -> Seq<Seq<char>> {
    crate::index::flatten(
        modules.map_values(|m: ModuleResult| views(m.exports@).map_values(|e: Seq<char>| "- "@ + m.module_id@ + "::"@ + e)),
    )
}

/// The global export index: its rows sorted, one per line.
pub fn generate_export_index(modules: &Vec<ModuleResult>) -> (r: String)
    ensures
        r@ == "# Global Export Index\n\n"@ + join_with(sorted_rank::<String>(export_rows(modules@)), "\n"@),
{
    let ghost parts = modules@.map_values(
        |m: ModuleResult| views(m.exports@).map_values(|e: Seq<char>| "- "@ + m.module_id@ + "::"@ + e),
    );
    let mut rows: Vec<String> = Vec::new();
    let mut i: usize = 0;
    while i < modules.len()
        invariant
            i <= modules.len(),
            parts == modules@.map_values(
                |m: ModuleResult| views(m.exports@).map_values(|e: Seq<char>| "- "@ + m.module_id@ + "::"@ + e),
            ),
            views(rows@) == crate::index::flatten(parts.take(i as int)),
        decreases modules.len() - i,
    {
        let m = &modules[i];
        let ghost before = views(rows@);
        let ghost want = parts[i as int];
        let mut j: usize = 0;
        while j < m.exports.len()
            invariant
                j <= m.exports.len(),
                want == views(m.exports@).map_values(|e: Seq<char>| "- "@ + m.module_id@ + "::"@ + e),
                views(rows@) == before + want.take(j as int),
            decreases m.exports.len() - j,
        {
            let mut row = concat2("- ", m.module_id.as_str());
            row.append("::");
            row.append(m.exports[j].as_str());
            let ghost old = rows@;
            rows.push(row);
            proof {
                lemma_views_push(old, rows@.last());
                assert(views(rows@) =~= before + want.take(j + 1));
            }
            j = j + 1;
        }
        proof {
            assert(want.take(m.exports.len() as int) =~= want);
            crate::index::lemma_flatten_step(parts, i as int);
        }
        i = i + 1;
    }
    assert(parts.take(modules.len() as int) =~= parts);
    let ghost unsorted = views(rows@);
    let sorted = sort_ranked(rows);
    proof {
        assert(view_seq(sorted@) =~= views(sorted@));
    }
    concat2("# Global Export Index\n\n", join(&sorted, "\n").as_str())
}

// ─── Hotspots, read paths, ADRs ─────────────────────────────────────────────

/// The weight of a change class in a hotspot score.
pub open spec fn class_weight(c: ChangeClass) -> nat {
    match c {
        ChangeClass::C0 => 0,
        ChangeClass::C1 => 1,
        ChangeClass::C2 => 3,
        ChangeClass::C3 => 5,
    }
}

/// The hotspot score of a window: the sum of the weights of its classes.
pub open spec fn window_score(classes: Seq<ChangeClass>) -> nat
    decreases classes.len(),
{
    if classes.len() == 0 {
        0
    } else {
        window_score(classes.drop_last()) + class_weight(classes.last())
    }
}

/// The hotspot entries: `(window_<i>, score)` for the `i`-th window, counted from 1.
pub open spec fn hotspot_entries(history: Seq<Vec<ChangeClass>>) -> Seq<(Seq<char>, usize)> {
    Seq::new(history.len(), |i: int| ("window_"@ + decimal((i + 1) as nat), window_score(history[i]@) as usize))
}

proof fn lemma_window_score_bound(classes: Seq<ChangeClass>)
    ensures
        window_score(classes) <= 5 * classes.len(),
    decreases classes.len(),
{
    if classes.len() > 0 {
        lemma_window_score_bound(classes.drop_last());
    }
}

/// The hotspot map: for each window of drift history, the weighted sum of
/// its change classes (C0 0, C1 1, C2 3, C3 5), keyed `window_<i>` from 1
/// and ordered by key.
pub fn hotspot_map_from_drift(drift_history: &Vec<Vec<ChangeClass>>) -> (r: Vec<(String, usize)>)
    requires
        drift_history.len() < usize::MAX,
        forall|i: int| 0 <= i < drift_history@.len() ==> 5 * #[trigger] drift_history@[i]@.len() <= usize::MAX,
    ensures
        r@.map_values(|e: (String, usize)| (e.0@, e.1)) == sorted_rank::<Lex2<String, usize>>(
            hotspot_entries(drift_history@),
        ),
{
    let ghost want = hotspot_entries(drift_history@);
    let mut entries: Vec<Lex2<String, usize>> = Vec::new();
    let mut i: usize = 0;
    while i < drift_history.len()
        invariant
            i <= drift_history.len() < usize::MAX,
            forall|k: int| 0 <= k < drift_history@.len() ==> 5 * #[trigger] drift_history@[k]@.len() <= usize::MAX,
            want == hotspot_entries(drift_history@),
            view_seq(entries@) == want.take(i as int),
        decreases drift_history.len() - i,
    {
        let classes = &drift_history[i];
        let mut score: usize = 0;
        let mut j: usize = 0;
        while j < classes.len()
            invariant
                j <= classes.len(),
                5 * classes@.len() <= usize::MAX,
                score == window_score(classes@.take(j as int)),
            decreases classes.len() - j,
        {
            proof {
                assert(classes@.take(j + 1).drop_last() =~= classes@.take(j as int));
                lemma_window_score_bound(classes@.take(j as int));
            }
            let w: usize = match classes[j] {
                ChangeClass::C0 => 0,
                ChangeClass::C1 => 1,
                ChangeClass::C2 => 3,
                ChangeClass::C3 => 5,
            };
            score = score + w;
            j = j + 1;
        }
        assert(classes@.take(classes.len() as int) =~= classes@);
        let key = concat2("window_", decimal_string(i + 1).as_str());
        let ghost old = entries@;
        entries.push(Lex2 { first: key, second: score });
        proof {
            crate::order::lemma_view_seq_push(old, entries@.last());
            assert(view_seq(entries@) =~= want.take(i + 1));
        }
        i = i + 1;
    }
    assert(want.take(drift_history.len() as int) =~= want);
    let sorted = sort_ranked(entries);
    let ghost order = view_seq(sorted@);
    let mut r: Vec<(String, usize)> = Vec::new();
    let mut k: usize = 0;
    while k < sorted.len()
        invariant
            k <= sorted.len(),
            order == view_seq(sorted@),
            r@.map_values(|e: (String, usize)| (e.0@, e.1)) == order.take(k as int),
        decreases sorted.len() - k,
    {
        let ghost old = r@;
        r.push((owned(sorted[k].first.as_str()), sorted[k].second));
        proof {
            assert(order[k as int] == (sorted@[k as int].first@, sorted@[k as int].second));
            assert(r@.map_values(|e: (String, usize)| (e.0@, e.1)) =~= old.map_values(|e: (String, usize)| (e.0@, e.1)).push(order[k as int]));
            assert(order.take(k + 1) =~= order.take(k as int).push(order[k as int]));
        }
        k = k + 1;
    }
    assert(order.take(sorted.len() as int) =~= order);
    r
}

/// The files of the routing index in module `module_id`, with repeats, in
/// index order.
pub open spec fn module_entry_paths(entries: Seq<RoutingIndexEntry>, module_id: Seq<char>) -> Seq<Seq<char>>
    decreases entries.len(),
{
    if entries.len() == 0 {
        Seq::<Seq<char>>::empty()
    } else if entries.last().module_id@ == module_id {
        module_entry_paths(entries.drop_last(), module_id).push(entries.last().source_path@)
    } else {
        module_entry_paths(entries.drop_last(), module_id)
    }
}

/// The rank key of the `i`-th module: its fan-in plus fan-out, then `i`.
pub open spec fn busyness_key(m: ModuleResult, i: int) -> (nat, nat) {
    ((m.fan_in + m.fan_out) as nat, i as nat)
}

/// The modules ranked busiest first (by fan-in plus fan-out, ties in module order).
pub open spec fn busiest_first(modules: Seq<ModuleResult>) -> Seq<(nat, nat)> {
    sorted_rank::<HeavierFirst>(Seq::new(modules.len(), |i: int| busyness_key(modules[i], i)))
}

/// The read path suggested for a module, if it has files in the index:
/// `<module> -> <file> -> <file> ...` with its files sorted, each once.
pub open spec fn is_read_path(line: Seq<char>, module_id: Seq<char>, files: Seq<Seq<char>>) -> bool {
    exists|sorted: Seq<Seq<char>>|
        strictly_sorted(sorted) && sorted.to_set() == files.to_set() && line == module_id + " -> "@ + join_with(
            sorted,
            " -> "@,
        )
}

/// The modules whose read paths are suggested: the five busiest that have
/// files in the index, busiest first.
pub open spec fn read_path_modules(modules: Seq<ModuleResult>, entries: Seq<RoutingIndexEntry>, n: nat) -> Seq<int>
    decreases n,
{
    if n == 0 {
        Seq::<int>::empty()
    } else {
        let prev = read_path_modules(modules, entries, (n - 1) as nat);
        let i = busiest_first(modules)[n - 1].1 as int;
        if module_entry_paths(entries, modules[i].module_id@).len() > 0 {
            prev.push(i)
        } else {
            prev
        }
    }
}

/// How many of the busiest modules are considered.
pub open spec fn considered(modules: Seq<ModuleResult>) -> nat {
    if modules.len() < 5 {
        modules.len()
    } else {
        5
    }
}

/// Suggests read paths for agents: for each of the five busiest modules
/// (by fan-in plus fan-out) that has files in the routing index, the module
/// followed by its files.
pub fn suggest_read_paths(modules: &Vec<ModuleResult>, routing: &RoutingIndex) -> (r: Vec<String>)
    ensures
        r@.len() == read_path_modules(modules@, routing.entries@, considered(modules@)).len(),
        forall|k: int| 0 <= k < r@.len() ==> #[trigger] is_read_path(
            r@[k]@,
            modules@[read_path_modules(modules@, routing.entries@, considered(modules@))[k]].module_id@,
            module_entry_paths(
                routing.entries@,
                modules@[read_path_modules(modules@, routing.entries@, considered(modules@))[k]].module_id@,
            ),
        ),
{
    let ghost keys = Seq::new(modules@.len(), |i: int| busyness_key(modules@[i], i));
    let mut ranked: Vec<HeavierFirst> = Vec::new();
    let mut i: usize = 0;
    while i < modules.len()
        invariant
            i <= modules.len(),
            keys == Seq::new(modules@.len(), |i: int| busyness_key(modules@[i], i)),
            view_seq(ranked@) == keys.take(i as int),
        decreases modules.len() - i,
    {
        let m = &modules[i];
        let weight: u128 = (m.fan_in as u128) + (m.fan_out as u128);
        let ghost old = ranked@;
        ranked.push(HeavierFirst { weight, ordinal: i });
        proof {
            crate::order::lemma_view_seq_push(old, ranked@.last());
            assert(view_seq(ranked@) =~= keys.take(i + 1));
        }
        i = i + 1;
    }
    assert(keys.take(modules.len() as int) =~= keys);
    let sorted = sort_ranked(ranked);
    proof {
        crate::order::lemma_rank_total_ordering::<HeavierFirst>();
        keys.lemma_sort_by_ensures(crate::order::rank_order::<HeavierFirst>());
        keys.to_multiset_ensures();
        sorted_rank::<HeavierFirst>(keys).to_multiset_ensures();
    }
    let ghost order = busiest_first(modules@);
    let limit = if modules.len() < 5 { modules.len() } else { 5 };
    let mut r: Vec<String> = Vec::new();
    let mut p: usize = 0;
    while p < limit
        invariant
            p <= limit,
            limit == considered(modules@),
            limit <= sorted@.len(),
            sorted@.len() == modules@.len(),
            order == busiest_first(modules@),
            view_seq(sorted@) == order,
            keys == Seq::new(modules@.len(), |i: int| busyness_key(modules@[i], i)),
            forall|x: (nat, nat)| !keys.contains(x) ==> !(#[trigger] order.contains(x)),
            r@.len() == read_path_modules(modules@, routing.entries@, p as nat).len(),
            forall|k: int| 0 <= k < r@.len() ==> #[trigger] is_read_path(
                r@[k]@,
                modules@[read_path_modules(modules@, routing.entries@, p as nat)[k]].module_id@,
                module_entry_paths(
                    routing.entries@,
                    modules@[read_path_modules(modules@, routing.entries@, p as nat)[k]].module_id@,
                ),
            ),
        decreases limit - p,
    {
        let o = sorted[p].ordinal;
        proof {
            assert(order[p as int] == sorted@[p as int]@);
            assert(order.contains(sorted@[p as int]@));
            assert(keys.contains(sorted@[p as int]@));
            let w = choose|w: int| 0 <= w < keys.len() && keys[w] == sorted@[p as int]@;
            assert(o as int == w);
        }
        let m = &modules[o];
        let mut files: Vec<String> = Vec::new();
        let entries = &routing.entries;
        let mut e: usize = 0;
        while e < entries.len()
            invariant
                e <= entries.len(),
                entries == &routing.entries,
                views(files@) == module_entry_paths(entries@.take(e as int), m.module_id@),
            decreases entries.len() - e,
        {
            proof {
                assert(entries@.take(e + 1).drop_last() =~= entries@.take(e as int));
            }
            if str_eq(entries[e].module_id.as_str(), m.module_id.as_str()) {
                let ghost old = files@;
                files.push(owned(entries[e].source_path.as_str()));
                proof {
                    lemma_views_push(old, files@.last());
                }
            }
            e = e + 1;
        }
        assert(entries@.take(entries.len() as int) =~= entries@);
        let ghost prev = read_path_modules(modules@, routing.entries@, p as nat);
        proof {
            assert(read_path_modules(modules@, routing.entries@, (p + 1) as nat) == if module_entry_paths(
                routing.entries@,
                modules@[o as int].module_id@,
            ).len() > 0 {
                prev.push(o as int)
            } else {
                prev
            });
        }
        let n_files = files.len();
        let unique = sorted_unique(files);
        if n_files > 0 {
            let mut line = concat2(m.module_id.as_str(), " -> ");
            line.append(join(&unique, " -> ").as_str());
            assert(is_read_path(line@, m.module_id@, module_entry_paths(routing.entries@, m.module_id@)));
            let ghost old = r@;
            r.push(line);
            proof {
                assert forall|k: int| 0 <= k < r@.len() implies #[trigger] is_read_path(
                    r@[k]@,
                    modules@[read_path_modules(modules@, routing.entries@, (p + 1) as nat)[k]].module_id@,
                    module_entry_paths(
                        routing.entries@,
                        modules@[read_path_modules(modules@, routing.entries@, (p + 1) as nat)[k]].module_id@,
                    ),
                ) by {
                    if k < old.len() {
                        assert(r@[k] == old[k]);
                    }
                }
            }
        }
        p = p + 1;
    }
    r
}

/// The ADR skeleton of a module whose drift is contract-level or systemic.
pub open spec fn adr_text(m: ModuleResult, drift: Seq<char>) -> Seq<char> {
    "# ADR: "@ + m.module_id@ + " drift "@ + drift + "\n\n## Status\nProposed\n\n## Context\n- module: "@
        + m.module_id@ + "\n- drift: "@ + drift + "\n- exports: "@ + join_with(views(m.exports@), ", "@)
        + "\n\n## Decision\n[To be filled]\n\n## Consequences\n[To be filled]\n"@
}

/// An ADR skeleton for a module whose drift level is `C2` or `C3` (in any
/// case); `None` for any other drift level.
pub fn adr_skeleton_for_module(module: &ModuleResult) -> (r: Option<String>)
    ensures
        ({
            let drift = unicode_upper_text(module.drift_level@);
            if drift != "C2"@ && drift != "C3"@ {
                r is None
            } else {
                r matches Some(t) && t@ == adr_text(*module, drift)
            }
        }),
{
    let drift = to_uppercase(module.drift_level.as_str());
    if !str_eq(drift.as_str(), "C2") && !str_eq(drift.as_str(), "C3") {
        return None;
    }
    let mut t = concat3("# ADR: ", module.module_id.as_str(), " drift ");
    t.append(drift.as_str());
    t.append("\n\n## Status\nProposed\n\n## Context\n- module: ");
    t.append(module.module_id.as_str());
    t.append("\n- drift: ");
    t.append(drift.as_str());
    t.append("\n- exports: ");
    t.append(join(&module.exports, ", ").as_str());
    t.append("\n\n## Decision\n[To be filled]\n\n## Consequences\n[To be filled]\n");
    Some(t)
}

// ─── Clusters ───────────────────────────────────────────────────────────────

/// Whether two modules are linked in a module graph: one lists the other
/// among its targets.
pub open spec fn linked(graph: Seq<(String, Vec<String>)>, a: Seq<char>, b: Seq<char>) -> bool {
    exists|e: int|
        0 <= e < graph.len() && ((#[trigger] graph[e].0@ == a && views(graph[e].1@).contains(b)) || (graph[e].0@ == b
            && views(graph[e].1@).contains(a)))
}

/// Whether `p` is a walk along links.
pub open spec fn is_walk(graph: Seq<(String, Vec<String>)>, p: Seq<Seq<char>>) -> bool {
    p.len() >= 1 && forall|i: int| 0 <= i < p.len() - 1 ==> #[trigger] linked(graph, p[i], p[i + 1])
}

/// Whether `b` can be reached from `a` along links.
pub open spec fn connected(graph: Seq<(String, Vec<String>)>, a: Seq<char>, b: Seq<char>) -> bool {
    exists|p: Seq<Seq<char>>| #[trigger] is_walk(graph, p) && p[0] == a && p.last() == b
}

/// Whether `clusters` are the connected components of the modules' graph:
/// every module id lies in exactly one cluster, the members of a cluster
/// are connected, and a cluster holds every module linked to one of its
/// members.  Each cluster is sorted; bigger clusters come first.
pub open spec fn is_clustering(clusters: Seq<Vec<String>>, modules: Seq<ModuleResult>, graph: Seq<(String, Vec<String>)>) -> bool {
    let ids = module_ids(modules).to_set();
    &&& is_module_graph(graph, modules)
    &&& forall|i: int| 0 <= i < clusters.len() ==> strictly_sorted(views(#[trigger] clusters[i]@))
    &&& forall|i: int| 0 <= i < clusters.len() ==> (#[trigger] clusters[i]@).len() > 0
    &&& forall|i: int, j: int| 0 <= i < j < clusters.len() ==> (#[trigger] clusters[i]@).len() >= (#[trigger] clusters[j]@).len()
    &&& forall|x: Seq<char>| ids.contains(x) ==> exists|i: int| 0 <= i < clusters.len() && #[trigger] views(clusters[i]@).contains(x)
    &&& forall|i: int, x: Seq<char>| 0 <= i < clusters.len() && #[trigger] views(clusters[i]@).contains(x) ==> ids.contains(x)
    &&& forall|i: int, j: int, x: Seq<char>|
        0 <= i < clusters.len() && 0 <= j < clusters.len() && i != j && #[trigger] views(clusters[i]@).contains(x)
            ==> !(#[trigger] views(clusters[j]@).contains(x))
    &&& forall|i: int, x: Seq<char>, y: Seq<char>|
        0 <= i < clusters.len() && #[trigger] views(clusters[i]@).contains(x) && #[trigger] views(clusters[i]@).contains(y)
            ==> connected(graph, x, y)
    &&& forall|i: int, x: Seq<char>, y: Seq<char>|
        0 <= i < clusters.len() && #[trigger] views(clusters[i]@).contains(x) && #[trigger] linked(graph, x, y)
            ==> views(clusters[i]@).contains(y)
}

/// The module id of the `i`-th graph entry.
pub open spec fn key_of(graph: Seq<(String, Vec<String>)>, i: int) -> Seq<char> {
    graph[i].0@
}

/// Whether the `i`-th and `j`-th entries are linked.
pub open spec fn adjacent(graph: Seq<(String, Vec<String>)>, i: int, j: int) -> bool {
    views(graph[i].1@).contains(graph[j].0@) || views(graph[j].1@).contains(graph[i].0@)
}

/// How many nodes are not seen yet.
pub open spec fn unseen_count(seen: Seq<bool>) -> nat
    decreases seen.len(),
{
    if seen.len() == 0 {
        0
    } else {
        unseen_count(seen.drop_last()) + if seen.last() { 0nat } else { 1nat }
    }
}

proof fn lemma_unseen_mark(seen: Seq<bool>, v: int)
    requires
        0 <= v < seen.len(),
        !seen[v],
    ensures
        unseen_count(seen.update(v, true)) + 1 == unseen_count(seen),
    decreases seen.len(),
{
    if v == seen.len() - 1 {
        assert(seen.update(v, true).drop_last() =~= seen.drop_last());
    } else {
        lemma_unseen_mark(seen.drop_last(), v);
        assert(seen.update(v, true).drop_last() =~= seen.drop_last().update(v, true));
    }
}

proof fn lemma_keys_linked(graph: Seq<(String, Vec<String>)>, i: int, j: int)
    requires
        graph.map_values(|e: (String, Vec<String>)| e.0@).no_duplicates(),
        0 <= i < graph.len(),
        0 <= j < graph.len(),
    ensures
        linked(graph, key_of(graph, i), key_of(graph, j)) == adjacent(graph, i, j),
{
    let keys = graph.map_values(|e: (String, Vec<String>)| e.0@);
    if linked(graph, key_of(graph, i), key_of(graph, j)) {
        let e = choose|e: int|
            0 <= e < graph.len() && ((#[trigger] graph[e].0@ == key_of(graph, i) && views(graph[e].1@).contains(
                key_of(graph, j),
            )) || (graph[e].0@ == key_of(graph, j) && views(graph[e].1@).contains(key_of(graph, i))));
        assert(keys[e] == graph[e].0@);
        assert(keys[i] == graph[i].0@);
        assert(keys[j] == graph[j].0@);
    }
    if adjacent(graph, i, j) {
        if views(graph[i].1@).contains(graph[j].0@) {
            assert(graph[i].0@ == key_of(graph, i));
        } else {
            assert(graph[j].0@ == key_of(graph, j));
        }
    }
}

proof fn lemma_linked_is_key(graph: Seq<(String, Vec<String>)>, modules: Seq<ModuleResult>, i: int, y: Seq<char>)
    requires
        is_module_graph(graph, modules),
        0 <= i < graph.len(),
        linked(graph, key_of(graph, i), y),
    ensures
        exists|j: int| 0 <= j < graph.len() && #[trigger] key_of(graph, j) == y,
{
    let keys = graph.map_values(|e: (String, Vec<String>)| e.0@);
    let e = choose|e: int|
        0 <= e < graph.len() && ((#[trigger] graph[e].0@ == key_of(graph, i) && views(graph[e].1@).contains(y)) || (
        graph[e].0@ == y && views(graph[e].1@).contains(key_of(graph, i))));
    if graph[e].0@ == y {
        assert(key_of(graph, e) == y);
    } else {
        assert(views(graph[e].1@).contains(y));
        let m = modules[crate::modules::last_with_id(modules, graph[e].0@)];
        assert(crate::modules::depends_on(m, module_ids(modules), y));
        assert(module_ids(modules).to_set().contains(y));
        assert(keys.to_set().contains(y));
        assert(keys.contains(y));
        let j = choose|j: int| 0 <= j < keys.len() && keys[j] == y;
        assert(key_of(graph, j) == y);
    }
}

proof fn lemma_connected_refl(graph: Seq<(String, Vec<String>)>, a: Seq<char>)
    ensures
        connected(graph, a, a),
{
    let p = seq![a];
    assert(is_walk(graph, p));
}

proof fn lemma_connected_step(graph: Seq<(String, Vec<String>)>, a: Seq<char>, b: Seq<char>, c: Seq<char>)
    requires
        connected(graph, a, b),
        linked(graph, b, c),
    ensures
        connected(graph, a, c),
{
    let p = choose|p: Seq<Seq<char>>| #[trigger] is_walk(graph, p) && p[0] == a && p.last() == b;
    let q = p.push(c);
    assert forall|i: int| 0 <= i < q.len() - 1 implies #[trigger] linked(graph, q[i], q[i + 1]) by {
        if i < p.len() - 1 {
            assert(linked(graph, p[i], p[i + 1]));
        }
    }
    assert(is_walk(graph, q));
}

proof fn lemma_connected_symm(graph: Seq<(String, Vec<String>)>, a: Seq<char>, b: Seq<char>)
    requires
        connected(graph, a, b),
    ensures
        connected(graph, b, a),
{
    let p = choose|p: Seq<Seq<char>>| #[trigger] is_walk(graph, p) && p[0] == a && p.last() == b;
    let q = p.reverse();
    assert forall|i: int| 0 <= i < q.len() - 1 implies #[trigger] linked(graph, q[i], q[i + 1]) by {
        let k = p.len() - 2 - i;
        assert(linked(graph, p[k], p[k + 1]));
        assert(q[i] == p[k + 1]);
        assert(q[i + 1] == p[k]);
        let e = choose|e: int|
            0 <= e < graph.len() && ((#[trigger] graph[e].0@ == p[k] && views(graph[e].1@).contains(p[k + 1])) || (
            graph[e].0@ == p[k + 1] && views(graph[e].1@).contains(p[k])));
        assert(graph[e].0@ == q[i] || graph[e].0@ == q[i + 1]);
    }
    assert(is_walk(graph, q));
}

proof fn lemma_connected_trans(graph: Seq<(String, Vec<String>)>, a: Seq<char>, b: Seq<char>, c: Seq<char>)
    requires
        connected(graph, a, b),
        connected(graph, b, c),
    ensures
        connected(graph, a, c),
{
    let p = choose|p: Seq<Seq<char>>| #[trigger] is_walk(graph, p) && p[0] == a && p.last() == b;
    let q = choose|q: Seq<Seq<char>>| #[trigger] is_walk(graph, q) && q[0] == b && q.last() == c;
    let r = p + q.skip(1);
    assert forall|i: int| 0 <= i < r.len() - 1 implies #[trigger] linked(graph, r[i], r[i + 1]) by {
        if i < p.len() - 1 {
            assert(linked(graph, p[i], p[i + 1]));
        } else {
            let k = i - p.len() + 1;
            assert(linked(graph, q[k], q[k + 1]));
            if k == 0 {
                assert(r[i] == p.last());
            } else {
                assert(r[i] == q[k]);
            }
            assert(r[i + 1] == q[k + 1]);
        }
    }
    if q.len() == 1 {
        assert(r =~= p);
    }
    assert(is_walk(graph, r));
}

/// Whether `x` is a member of cluster `c`.
pub open spec fn in_cluster(c: Vec<String>, x: Seq<char>) -> bool {
    views(c@).contains(x)
}

/// The clusters found so far: `seen` marks the graph entries already
/// placed, each in exactly one cluster; every cluster is closed under links,
/// connected, sorted and non-empty, and bigger clusters come first.
pub open spec fn partial_clustering(res: Seq<Vec<String>>, graph: Seq<(String, Vec<String>)>, seen: Seq<bool>) -> bool {
    &&& seen.len() == graph.len()
    &&& forall|k: int| 0 <= k < graph.len() ==> (#[trigger] seen[k] <==> exists|c: int| 0 <= c < res.len() && #[trigger] in_cluster(res[c], key_of(graph, k)))
    &&& forall|c: int, x: Seq<char>| 0 <= c < res.len() && #[trigger] in_cluster(res[c], x) ==> exists|k: int| 0 <= k < graph.len() && #[trigger] key_of(graph, k) == x
    &&& forall|c: int, d: int, x: Seq<char>|
        0 <= c < res.len() && 0 <= d < res.len() && c != d && #[trigger] in_cluster(res[c], x) ==> !(#[trigger] in_cluster(res[d], x))
    &&& forall|c: int, x: Seq<char>, y: Seq<char>|
        0 <= c < res.len() && #[trigger] in_cluster(res[c], x) && #[trigger] linked(graph, x, y) ==> in_cluster(res[c], y)
    &&& forall|c: int, x: Seq<char>, y: Seq<char>|
        0 <= c < res.len() && #[trigger] in_cluster(res[c], x) && #[trigger] in_cluster(res[c], y) ==> connected(graph, x, y)
    &&& forall|c: int| 0 <= c < res.len() ==> strictly_sorted(views(#[trigger] res[c]@)) && res[c]@.len() > 0
    &&& forall|c: int, d: int| 0 <= c < d < res.len() ==> (#[trigger] res[c]@).len() >= (#[trigger] res[d]@).len()
}

proof fn lemma_insert_cluster(
    res: Seq<Vec<String>>,
    graph: Seq<(String, Vec<String>)>,
    before: Seq<bool>,
    after: Seq<bool>,
    cl: Vec<String>,
    p: int,
)
    requires
        partial_clustering(res, graph, before),
        graph.map_values(|e: (String, Vec<String>)| e.0@).no_duplicates(),
        after.len() == graph.len(),
        forall|k: int| 0 <= k < graph.len() ==> (#[trigger] after[k] <==> (before[k] || in_cluster(cl, key_of(graph, k)))),
        forall|k: int| 0 <= k < graph.len() && #[trigger] in_cluster(cl, key_of(graph, k)) ==> !before[k],
        forall|x: Seq<char>| #[trigger] in_cluster(cl, x) ==> exists|k: int| 0 <= k < graph.len() && #[trigger] key_of(graph, k) == x,
        forall|x: Seq<char>, y: Seq<char>| #[trigger] in_cluster(cl, x) && #[trigger] linked(graph, x, y) ==> in_cluster(cl, y),
        forall|x: Seq<char>, y: Seq<char>| #[trigger] in_cluster(cl, x) && #[trigger] in_cluster(cl, y) ==> connected(graph, x, y),
        strictly_sorted(views(cl@)),
        cl@.len() > 0,
        0 <= p <= res.len(),
        forall|c: int| 0 <= c < p ==> (#[trigger] res[c]@).len() >= cl@.len(),
        forall|c: int| p <= c < res.len() ==> (#[trigger] res[c]@).len() < cl@.len(),
    ensures
        partial_clustering(res.insert(p, cl), graph, after),
{
    let r2 = res.insert(p, cl);
    res.insert_ensures(p, cl);
    assert forall|c: int| 0 <= c < r2.len() implies (c < p ==> r2[c] == res[c]) && (c == p ==> r2[c] == cl) && (c > p ==> r2[c] == res[c - 1]) by {
        if c > p {
            assert(r2[(c - 1) + 1] == res[c - 1]);
        }
    }
    assert forall|k: int| 0 <= k < graph.len() implies (#[trigger] after[k] <==> exists|c: int| 0 <= c < r2.len() && #[trigger] in_cluster(r2[c], key_of(graph, k))) by {
        if after[k] {
            if in_cluster(cl, key_of(graph, k)) {
                assert(in_cluster(r2[p], key_of(graph, k)));
            } else {
                assert(before[k]);
                let c = choose|c: int| 0 <= c < res.len() && #[trigger] in_cluster(res[c], key_of(graph, k));
                if c < p {
                    assert(in_cluster(r2[c], key_of(graph, k)));
                } else {
                    assert(r2[c + 1] == res[c]);
                    assert(in_cluster(r2[c + 1], key_of(graph, k)));
                }
            }
        }
        if exists|c: int| 0 <= c < r2.len() && #[trigger] in_cluster(r2[c], key_of(graph, k)) {
            let c = choose|c: int| 0 <= c < r2.len() && #[trigger] in_cluster(r2[c], key_of(graph, k));
            if c < p {
                assert(in_cluster(res[c], key_of(graph, k)));
            } else if c > p {
                assert(in_cluster(res[c - 1], key_of(graph, k)));
            }
        }
    }
    assert forall|c: int, x: Seq<char>| 0 <= c < r2.len() && #[trigger] in_cluster(r2[c], x) implies exists|k: int| 0 <= k < graph.len() && #[trigger] key_of(graph, k) == x by {
        if c < p {
            assert(in_cluster(res[c], x));
        } else if c > p {
            assert(in_cluster(res[c - 1], x));
        }
    }
    assert forall|c: int, d: int, x: Seq<char>|
        0 <= c < r2.len() && 0 <= d < r2.len() && c != d && #[trigger] in_cluster(r2[c], x) implies !(#[trigger] in_cluster(r2[d], x)) by {
        let oc = if c < p { c } else { c - 1 };
        let od = if d < p { d } else { d - 1 };
        if c == p || d == p {
            let (other, o) = if c == p { (d, od) } else { (c, oc) };
            if in_cluster(r2[c], x) && in_cluster(r2[d], x) {
                assert(in_cluster(cl, x));
                let k = choose|k: int| 0 <= k < graph.len() && #[trigger] key_of(graph, k) == x;
                assert(in_cluster(res[o], key_of(graph, k)));
                assert(before[k]);
            }
        } else {
            assert(in_cluster(res[oc], x));
        }
    }
    assert forall|c: int, x: Seq<char>, y: Seq<char>|
        0 <= c < r2.len() && #[trigger] in_cluster(r2[c], x) && #[trigger] linked(graph, x, y) implies in_cluster(r2[c], y) by {
        if c < p {
            assert(in_cluster(res[c], x));
        } else if c > p {
            assert(in_cluster(res[c - 1], x));
        }
    }
    assert forall|c: int, x: Seq<char>, y: Seq<char>|
        0 <= c < r2.len() && #[trigger] in_cluster(r2[c], x) && #[trigger] in_cluster(r2[c], y) implies connected(graph, x, y) by {
        if c < p {
            assert(in_cluster(res[c], x) && in_cluster(res[c], y));
        } else if c > p {
            assert(in_cluster(res[c - 1], x) && in_cluster(res[c - 1], y));
        }
    }
    assert forall|c: int| 0 <= c < r2.len() implies strictly_sorted(views(#[trigger] r2[c]@)) && r2[c]@.len() > 0 by {
        if c < p {
            assert(r2[c] == res[c]);
        } else if c > p {
            assert(r2[c] == res[c - 1]);
        }
    }
    assert forall|c: int, d: int| 0 <= c < d < r2.len() implies (#[trigger] r2[c]@).len() >= (#[trigger] r2[d]@).len() by {
        if d < p {
        } else if d == p {
        } else if c < p {
            assert(r2[d] == res[d - 1]);
        } else if c == p {
            assert(r2[d] == res[d - 1]);
        } else {
            assert(r2[c] == res[c - 1]);
            assert(r2[d] == res[d - 1]);
        }
    }
}

/// The communities of the module graph: its connected components (links
/// taken in either direction), each sorted, bigger ones first.
pub fn community_clusters(modules: &Vec<ModuleResult>) -> (clusters: Vec<Vec<String>>)
    ensures
        exists|graph: Seq<(String, Vec<String>)>| is_clustering(clusters@, modules@, graph),
{
    let graph = build_module_graph(modules);
    let ghost g = graph@;
    let ghost keys = g.map_values(|e: (String, Vec<String>)| e.0@);
    let n = graph.len();
    // Neighbours of each entry, by position.
    let mut adj: Vec<Vec<usize>> = Vec::new();
    let mut i: usize = 0;
    while i < n
        invariant
            i <= n == graph.len(),
            g == graph@,
            adj@.len() == i,
            forall|a: int, j: usize| 0 <= a < i ==> (#[trigger] adj@[a]@.contains(j) <==> (j < n && adjacent(g, a, j as int))),
            forall|a: int, t: int| 0 <= a < i && 0 <= t < adj@[a]@.len() ==> #[trigger] adj@[a]@[t] < n,
        decreases n - i,
    {
        let mut row: Vec<usize> = Vec::new();
        let mut j: usize = 0;
        while j < n
            invariant
                i < n == graph.len(),
                g == graph@,
                j <= n,
                forall|b: usize| #[trigger] row@.contains(b) <==> (b < j && adjacent(g, i as int, b as int)),
                forall|t: int| 0 <= t < row@.len() ==> #[trigger] row@[t] < n,
            decreases n - j,
        {
            let hit = contains_text(&graph[i].1, graph[j].0.as_str()) || contains_text(&graph[j].1, graph[i].0.as_str());
            if hit {
                let ghost old = row@;
                row.push(j);
                proof {
                    crate::text::lemma_push_contains(old, j);
                }
            }
            j = j + 1;
        }
        adj.push(row);
        i = i + 1;
    }
    let mut seen: Vec<bool> = Vec::new();
    let mut z: usize = 0;
    while z < n
        invariant
            z <= n,
            seen@.len() == z,
            forall|k: int| 0 <= k < z ==> !(#[trigger] seen@[k]),
        decreases n - z,
    {
        seen.push(false);
        z = z + 1;
    }
    let mut result: Vec<Vec<String>> = Vec::new();
    proof {
        assert(partial_clustering(result@, g, seen@));
    }
    let mut s: usize = 0;
    while s < n
        invariant
            s <= n == graph.len(),
            g == graph@,
            keys == g.map_values(|e: (String, Vec<String>)| e.0@),
            keys.no_duplicates(),
            is_module_graph(g, modules@),
            adj@.len() == n,
            forall|a: int, j: usize| 0 <= a < n ==> (#[trigger] adj@[a]@.contains(j) <==> (j < n && adjacent(g, a, j as int))),
            forall|a: int, t: int| 0 <= a < n && 0 <= t < adj@[a]@.len() ==> #[trigger] adj@[a]@[t] < n,
            partial_clustering(result@, g, seen@),
            forall|k: int| 0 <= k < s ==> #[trigger] seen@[k],
        decreases n - s,
    {
        if !seen[s] {
            let ghost before = seen@;
            let ghost res0 = result@;
            proof {
                // Positions seen so far form clusters closed under links.
                assert forall|k: int, j: int| 0 <= k < n && 0 <= j < n && before[k] && #[trigger] adjacent(g, k, j) implies before[j] by {
                    lemma_keys_linked(g, k, j);
                    let c = choose|c: int| 0 <= c < res0.len() && #[trigger] in_cluster(res0[c], key_of(g, k));
                    assert(in_cluster(res0[c], key_of(g, j)));
                }
                lemma_connected_refl(g, key_of(g, s as int));
            }
            let mut stack: Vec<usize> = Vec::new();
            stack.push(s);
            assert(stack@[0] == s);
            assert(stack@.contains(s));
            let mut cur: Vec<usize> = Vec::new();
            while stack.len() > 0
                invariant
                    s < n == graph.len(),
                    g == graph@,
                    keys == g.map_values(|e: (String, Vec<String>)| e.0@),
                    keys.no_duplicates(),
                    adj@.len() == n,
                    forall|a: int, j: usize| 0 <= a < n ==> (#[trigger] adj@[a]@.contains(j) <==> (j < n && adjacent(g, a, j as int))),
                    forall|a: int, t: int| 0 <= a < n && 0 <= t < adj@[a]@.len() ==> #[trigger] adj@[a]@[t] < n,
                    seen@.len() == n,
                    before.len() == n,
                    !before[s as int],
                    forall|k: int, j: int| 0 <= k < n && 0 <= j < n && before[k] && #[trigger] adjacent(g, k, j) ==> before[j],
                    forall|k: int| 0 <= k < n ==> (#[trigger] seen@[k] <==> (before[k] || cur@.contains(k as usize))),
                    forall|t: int| 0 <= t < cur@.len() ==> (#[trigger] cur@[t]) < n && !before[cur@[t] as int],
                    cur@.no_duplicates(),
                    forall|t: int| 0 <= t < stack@.len() ==> #[trigger] stack@[t] < n,
                    forall|t: int| 0 <= t < cur@.len() ==> connected(g, key_of(g, s as int), key_of(g, #[trigger] cur@[t] as int)),
                    forall|t: int| 0 <= t < stack@.len() ==> connected(g, key_of(g, s as int), key_of(g, #[trigger] stack@[t] as int)),
                    forall|t: int, j: usize| 0 <= t < cur@.len() && #[trigger] adj@[cur@[t] as int]@.contains(j) ==> (seen@[j as int] || stack@.contains(j)),
                    cur@.contains(s) || stack@.contains(s),
                decreases unseen_count(seen@), stack@.len(),
            {
                let ghost old_stack = stack@;
                let v = stack.pop().unwrap();
                proof {
                    assert(old_stack =~= stack@.push(v));
                    assert(old_stack[old_stack.len() - 1] == v);
                }
                if seen[v] {
                    proof {
                        assert forall|t: int, j: usize| 0 <= t < cur@.len() && #[trigger] adj@[cur@[t] as int]@.contains(j) implies (seen@[j as int] || stack@.contains(j)) by {
                            if !seen@[j as int] {
                                assert(old_stack.contains(j));
                                let w = choose|w: int| 0 <= w < old_stack.len() && old_stack[w] == j;
                                if w < stack@.len() {
                                    assert(stack@[w] == j);
                                }
                            }
                        }
                        if !cur@.contains(s) {
                            assert(old_stack.contains(s));
                            let w = choose|w: int| 0 <= w < old_stack.len() && old_stack[w] == s;
                            if w < stack@.len() {
                                assert(stack@[w] == s);
                            } else {
                                assert(v == s);
                                assert(seen@[s as int]);
                            }
                        }
                        assert forall|t: int| 0 <= t < stack@.len() implies connected(g, key_of(g, s as int), key_of(g, #[trigger] stack@[t] as int)) by {
                            assert(stack@[t] == old_stack[t]);
                        }
                    }
                    continue;
                }
                let ghost seen_before_mark = seen@;
                proof {
                    lemma_unseen_mark(seen@, v as int);
                    assert(connected(g, key_of(g, s as int), key_of(g, v as int))) by {
                        assert(old_stack[old_stack.len() - 1] == v);
                    }
                }
                seen.set(v, true);
                let ghost old_cur = cur@;
                cur.push(v);
                proof {
                    crate::text::lemma_push_no_dup(old_cur, v);
                    crate::text::lemma_push_contains(old_cur, v);
                }
                let row = &adj[v];
                let ghost stack_mid = stack@;
                let mut t: usize = 0;
                while t < row.len()
                    invariant
                        v < n,
                        row == &adj@[v as int],
                        forall|j: usize| #[trigger] row@.contains(j) <==> (j < n && adjacent(g, v as int, j as int)),
                        forall|q: int| 0 <= q < row@.len() ==> #[trigger] row@[q] < n,
                        t <= row.len(),
                        seen@.len() == n,
                        forall|q: int| 0 <= q < stack_mid.len() ==> stack@[q] == stack_mid[q],
                        stack_mid.len() <= stack@.len(),
                        forall|q: int| 0 <= q < stack@.len() ==> #[trigger] stack@[q] < n,
                        forall|q: int| 0 <= q < t ==> (seen@[row@[q] as int] || stack@.contains(#[trigger] row@[q])),
                        forall|q: int| stack_mid.len() <= q < stack@.len() ==> adjacent(g, v as int, #[trigger] stack@[q] as int),
                    decreases row.len() - t,
                {
                    let x = row[t];
                    if !seen[x] {
                        let ghost os = stack@;
                        stack.push(x);
                        proof {
                            assert(row@.contains(x));
                            assert forall|q: int| 0 <= q < t + 1 implies (seen@[row@[q] as int] || stack@.contains(#[trigger] row@[q])) by {
                                if !seen@[row@[q] as int] {
                                    if q == t {
                                        assert(stack@[os.len() as int] == x);
                                    } else {
                                        let w = choose|w: int| 0 <= w < os.len() && os[w] == row@[q];
                                        assert(stack@[w] == row@[q]);
                                    }
                                }
                            }
                        }
                    }
                    t = t + 1;
                }
                proof {
                    assert forall|q: int| 0 <= q < stack@.len() implies connected(g, key_of(g, s as int), key_of(g, #[trigger] stack@[q] as int)) by {
                        if q < stack_mid.len() {
                            assert(stack@[q] == stack_mid[q]);
                            assert(stack_mid[q] == old_stack[q]);
                        } else {
                            let x = stack@[q];
                            assert(adjacent(g, v as int, x as int));
                            lemma_keys_linked(g, v as int, x as int);
                            lemma_connected_step(g, key_of(g, s as int), key_of(g, v as int), key_of(g, x as int));
                        }
                    }
                    assert forall|q: int| 0 <= q < cur@.len() implies connected(g, key_of(g, s as int), key_of(g, #[trigger] cur@[q] as int)) by {
                        if q < old_cur.len() {
                            assert(cur@[q] == old_cur[q]);
                        }
                    }
                    assert forall|q: int, j: usize| 0 <= q < cur@.len() && #[trigger] adj@[cur@[q] as int]@.contains(j) implies (seen@[j as int] || stack@.contains(j)) by {
                        if q == old_cur.len() {
                            assert(cur@[q] == v);
                            assert(row@.contains(j));
                            let w = choose|w: int| 0 <= w < row@.len() && row@[w] == j;
                            assert(seen@[row@[w] as int] || stack@.contains(row@[w]));
                        } else {
                            assert(cur@[q] == old_cur[q]);
                            if !seen@[j as int] {
                                assert(j != v);
                                assert(!seen_before_mark[j as int]);
                                assert(old_stack.contains(j));
                                let w = choose|w: int| 0 <= w < old_stack.len() && old_stack[w] == j;
                                assert(w < old_stack.len() - 1);
                                assert(stack@[w] == stack_mid[w]);
                            }
                        }
                    }
                    assert forall|k: int| 0 <= k < n implies (#[trigger] seen@[k] <==> (before[k] || cur@.contains(k as usize))) by {
                        if k == v {
                            assert(cur@[old_cur.len() as int] == v);
                        }
                    }
                    if !cur@.contains(s) {
                        assert(!old_cur.contains(s));
                        assert(v != s);
                        assert(old_stack.contains(s));
                        let w = choose|w: int| 0 <= w < old_stack.len() && old_stack[w] == s;
                        assert(w < old_stack.len() - 1);
                        assert(stack@[w] == s);
                    }
                }
            }
            // The component of `s` is complete: it is closed under links.
            proof {
                assert forall|q: int, j: int| 0 <= q < cur@.len() && 0 <= j < n && #[trigger] adjacent(g, cur@[q] as int, j) implies cur@.contains(j as usize) by {
                    assert(adj@[cur@[q] as int]@.contains(j as usize));
                    assert(seen@[j]);
                    if before[j] {
                        assert(adjacent(g, j, cur@[q] as int));
                        assert(before[cur@[q] as int]);
                    }
                }
            }
            let mut names: Vec<String> = Vec::new();
            let mut u: usize = 0;
            while u < cur.len()
                invariant
                    u <= cur.len(),
                    forall|q: int| 0 <= q < cur@.len() ==> #[trigger] cur@[q] < n,
                    n == graph.len(),
                    g == graph@,
                    names@.len() == u,
                    forall|q: int| 0 <= q < u ==> #[trigger] names@[q]@ == key_of(g, cur@[q] as int),
                decreases cur.len() - u,
            {
                names.push(owned(graph[cur[u]].0.as_str()));
                u = u + 1;
            }
            let ghost name_views = views(names@);
            let cluster = sorted_unique(names);
            proof {
                assert forall|x: Seq<char>| #[trigger] in_cluster(cluster, x) <==> exists|q: int| 0 <= q < cur@.len() && key_of(g, #[trigger] cur@[q] as int) == x by {
                    if in_cluster(cluster, x) {
                        assert(name_views.to_set().contains(x));
                        let q = choose|q: int| 0 <= q < name_views.len() && name_views[q] == x;
                        assert(key_of(g, cur@[q] as int) == x);
                    }
                    if exists|q: int| 0 <= q < cur@.len() && key_of(g, #[trigger] cur@[q] as int) == x {
                        let q = choose|q: int| 0 <= q < cur@.len() && key_of(g, #[trigger] cur@[q] as int) == x;
                        assert(name_views[q] == x);
                        assert(name_views.to_set().contains(x));
                    }
                }
                assert(cur@.contains(s));
                assert(in_cluster(cluster, key_of(g, s as int))) by {
                    let q = choose|q: int| 0 <= q < cur@.len() && cur@[q] == s;
                    assert(key_of(g, cur@[q] as int) == key_of(g, s as int));
                }
                assert(cluster@.len() > 0) by {
                    if cluster@.len() == 0 {
                        assert(views(cluster@).len() == 0);
                    }
                }
                assert forall|k: int| 0 <= k < n implies (#[trigger] in_cluster(cluster, key_of(g, k)) <==> cur@.contains(k as usize)) by {
                    if in_cluster(cluster, key_of(g, k)) {
                        let q = choose|q: int| 0 <= q < cur@.len() && key_of(g, #[trigger] cur@[q] as int) == key_of(g, k);
                        assert(keys[cur@[q] as int] == keys[k]);
                    }
                    if cur@.contains(k as usize) {
                        let q = choose|q: int| 0 <= q < cur@.len() && cur@[q] == k as usize;
                        assert(key_of(g, cur@[q] as int) == key_of(g, k));
                    }
                }
                assert forall|x: Seq<char>, y: Seq<char>| #[trigger] in_cluster(cluster, x) && #[trigger] linked(g, x, y) implies in_cluster(cluster, y) by {
                    let q = choose|q: int| 0 <= q < cur@.len() && key_of(g, #[trigger] cur@[q] as int) == x;
                    lemma_linked_is_key(g, modules@, cur@[q] as int, y);
                    let j = choose|j: int| 0 <= j < g.len() && #[trigger] key_of(g, j) == y;
                    lemma_keys_linked(g, cur@[q] as int, j);
                    assert(cur@.contains(j as usize));
                }
                assert forall|x: Seq<char>, y: Seq<char>| #[trigger] in_cluster(cluster, x) && #[trigger] in_cluster(cluster, y) implies connected(g, x, y) by {
                    let q1 = choose|q: int| 0 <= q < cur@.len() && key_of(g, #[trigger] cur@[q] as int) == x;
                    let q2 = choose|q: int| 0 <= q < cur@.len() && key_of(g, #[trigger] cur@[q] as int) == y;
                    lemma_connected_symm(g, key_of(g, s as int), x);
                    lemma_connected_trans(g, x, key_of(g, s as int), y);
                }
                assert forall|x: Seq<char>| #[trigger] in_cluster(cluster, x) implies exists|k: int| 0 <= k < g.len() && #[trigger] key_of(g, k) == x by {
                    let q = choose|q: int| 0 <= q < cur@.len() && key_of(g, #[trigger] cur@[q] as int) == x;
                    assert(key_of(g, cur@[q] as int) == x);
                }
            }
            let mut p: usize = 0;
            while p < result.len() && result[p].len() >= cluster.len()
                invariant
                    p <= result.len(),
                    result@ == res0,
                    forall|c: int| 0 <= c < p ==> (#[trigger] res0[c]@).len() >= cluster@.len(),
                decreases result.len() - p,
            {
                p = p + 1;
            }
            proof {
                assert forall|c: int| p <= c < res0.len() implies (#[trigger] res0[c]@).len() < cluster@.len() by {
                    assert(res0[p as int]@.len() < cluster@.len());
                    if c > p {
                        assert(res0[p as int]@.len() >= res0[c]@.len());
                    }
                }
                assert forall|k: int| 0 <= k < g.len() implies (#[trigger] seen@[k] <==> (before[k] || in_cluster(cluster, key_of(g, k)))) by {
                }
                lemma_insert_cluster(res0, g, before, seen@, cluster, p as int);
            }
            result.insert(p, cluster);
        }
        s = s + 1;
    }
    proof {
        let ids = module_ids(modules@).to_set();
        assert forall|x: Seq<char>| ids.contains(x) implies exists|i: int| 0 <= i < result@.len() && #[trigger] views(result@[i]@).contains(x) by {
            assert(keys.to_set().contains(x));
            assert(keys.contains(x));
            let k = choose|k: int| 0 <= k < keys.len() && keys[k] == x;
            assert(seen@[k]);
            let c = choose|c: int| 0 <= c < result@.len() && #[trigger] in_cluster(result@[c], key_of(g, k));
            assert(views(result@[c]@).contains(x));
        }
        assert forall|i: int, x: Seq<char>| 0 <= i < result@.len() && #[trigger] views(result@[i]@).contains(x) implies ids.contains(x) by {
            assert(in_cluster(result@[i], x));
            let k = choose|k: int| 0 <= k < g.len() && #[trigger] key_of(g, k) == x;
            assert(keys[k] == x);
            assert(keys.to_set().contains(x));
        }
        assert forall|i: int, j: int, x: Seq<char>|
            0 <= i < result@.len() && 0 <= j < result@.len() && i != j && #[trigger] views(result@[i]@).contains(x) implies !(#[trigger] views(result@[j]@).contains(x)) by {
            assert(in_cluster(result@[i], x));
            assert(!in_cluster(result@[j], x));
        }
        assert forall|i: int, x: Seq<char>, y: Seq<char>|
            0 <= i < result@.len() && #[trigger] views(result@[i]@).contains(x) && #[trigger] views(result@[i]@).contains(y) implies connected(g, x, y) by {
            assert(in_cluster(result@[i], x) && in_cluster(result@[i], y));
        }
        assert forall|i: int, x: Seq<char>, y: Seq<char>|
            0 <= i < result@.len() && #[trigger] views(result@[i]@).contains(x) && #[trigger] linked(g, x, y) implies views(result@[i]@).contains(y) by {
            assert(in_cluster(result@[i], x));
        }
        assert(is_clustering(result@, modules@, g));
    }
    result
}

/// The tokens of the source texts: the words of each, summed.
pub open spec fn source_tokens_of(sources: Seq<(String, String)>) -> nat
    decreases sources.len(),
{
    if sources.len() == 0 {
        0
    } else {
        source_tokens_of(sources.drop_last()) + words(sources.last().1@).len()
    }
}

/// Counts the tokens (white-space separated words) of the source texts
/// paired with their paths; `None` when the count does not fit in `usize`.
pub fn count_source_tokens(sources: &Vec<(String, String)>) -> (r: Option<usize>)
    ensures
        match r {
            Some(n) => n == source_tokens_of(sources@),
            None => source_tokens_of(sources@) > usize::MAX,
        },
{
    let mut total: usize = 0;
    let mut i: usize = 0;
    while i < sources.len()
        invariant
            i <= sources.len(),
            total == source_tokens_of(sources@.take(i as int)),
        decreases sources.len() - i,
    {
        proof {
            assert(sources@.take(i + 1).drop_last() =~= sources@.take(i as int));
        }
        let ws = split_words(sources[i].1.as_str());
        let n = ws.len();
        assert(n == words(sources@[i as int].1@).len());
        if n > usize::MAX - total {
            proof {
                lemma_source_tokens_grow(sources@, i as int + 1);
            }
            return None;
        }
        total = total + n;
        i = i + 1;
    }
    assert(sources@.take(sources.len() as int) =~= sources@);
    Some(total)
}

proof fn lemma_source_tokens_grow(sources: Seq<(String, String)>, k: int)
    requires
        0 <= k <= sources.len(),
    ensures
        source_tokens_of(sources.take(k)) <= source_tokens_of(sources),
    decreases sources.len() - k,
{
    if k < sources.len() {
        lemma_source_tokens_grow(sources, k + 1);
        assert(sources.take(k + 1).drop_last() =~= sources.take(k));
    } else {
        assert(sources.take(k) =~= sources);
    }
}

} // verus!
