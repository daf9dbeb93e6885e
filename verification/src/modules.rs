//! Modules: which module a file belongs to, the aggregate of a module's
//! files, and the dependencies between modules.
use crate::fingerprint::{compute_source_fingerprint, source_fingerprint};
use crate::rendering::{debug_rendering, render_debug};
use crate::order::{sorted_unique, strictly_sorted, sort_ranked, sorted_rank, view_seq};
use crate::paths::{extension_of, parent_of, parent_path, path_extension};
use crate::text::{
    chars_of, concat2, concat3, contains, contains_text, decimal, decimal_string, ends_with, join, join_with,
    lemma_views_push, occurs_in, owned, split_by, split_chars, split_words, starts_with, str_eq, string_of,
    trim_chars, trim_spec, views, words,
};
use crate::types::{change_class_name, ChangeClass, ConfidenceBand, DependencyEdge, ExportedSymbol, FileResult, FunctionSignature, ModuleResult, SideEffect, SideEffectKind};
use vstd::prelude::*;
use vstd::string::StrSliceExecFns;

verus! {

// ─── Which module a file belongs to ─────────────────────────────────────────

/// The language of a file for module purposes, by its extension.
pub open spec fn module_language(ext: Option<Seq<char>>) -> Seq<char> {
    match ext {
        Some(e) => if e == "py"@ || e == "pyi"@ {
            "python"@
        } else if e == "go"@ {
            "go"@
        } else if e == "ts"@ || e == "tsx"@ {
            "typescript"@
        } else if e == "js"@ || e == "jsx"@ {
            "javascript"@
        } else {
            "unknown"@
        },
        None => "unknown"@,
    }
}

/// The language of a file, by its extension.
pub fn detect_language(path: &str) -> (r: String)
    ensures
        r@ == module_language(path_extension(path@)),
{
    match extension_of(path) {
        None => owned("unknown"),
        Some(e) => {
            let e = e.as_str();
            if str_eq(e, "py") || str_eq(e, "pyi") {
                owned("python")
            } else if str_eq(e, "go") {
                owned("go")
            } else if str_eq(e, "ts") || str_eq(e, "tsx") {
                owned("typescript")
            } else if str_eq(e, "js") || str_eq(e, "jsx") {
                owned("javascript")
            } else {
                owned("unknown")
            }
        },
    }
}

/// The module a file belongs to when nothing more is known: its directory,
/// or `global` when it has none (or it is `.`).
pub open spec fn fallback_module(path: Seq<char>) -> Seq<char> {
    let p = parent_path(path);
    if p.len() == 0 || p == "."@ {
        "global"@
    } else {
        p
    }
}

/// The module a file belongs to when nothing more is known.
pub fn path_to_module_fallback(path: &str) -> (r: String)
    ensures
        r@ == fallback_module(path@),
{
    let p = parent_of(path);
    if p.as_str().unicode_len() == 0 || str_eq(p.as_str(), ".") {
        owned("global")
    } else {
        p
    }
}

/// `s` with every trailing occurrence of `suffix` removed (what
/// `str::trim_end_matches` gives for a non-empty suffix).
pub open spec fn trim_end_matches(s: Seq<char>, suffix: Seq<char>) -> Seq<char>
    decreases s.len(),
{
    if suffix.len() > 0 && suffix.is_suffix_of(s) {
        trim_end_matches(s.take(s.len() - suffix.len()), suffix)
    } else {
        s
    }
}

/// The package name declared on a line of Go source, if the line declares one.
pub open spec fn package_on_line(line: Seq<char>) -> Option<Seq<char>> {
    let clean = trim_spec(line);
    if "package "@.is_prefix_of(clean) {
        let ws = words(clean.skip(8));
        if ws.len() > 0 {
            Some(ws[0])
        } else {
            None
        }
    } else {
        None
    }
}

/// The first package declared on one of the first `n` lines.
pub open spec fn first_package(lines: Seq<Seq<char>>, n: nat) -> Option<Seq<char>>
    decreases n,
{
    if n == 0 {
        None
    } else {
        match first_package(lines, (n - 1) as nat) {
            Some(p) => Some(p),
            None => package_on_line(lines[n - 1]),
        }
    }
}

/// The package a Go source declares, by its first `package` line.
pub open spec fn go_package(source: Seq<char>) -> Option<Seq<char>> {
    let lines = split_by(source, '\n');
    first_package(lines, lines.len())
}

/// The module id of a file: a Python package directory for `__init__.py`,
/// `<directory>:<package>` for Go, otherwise the directory of the file.
pub open spec fn module_id_for(path: Seq<char>, source: Seq<char>) -> Seq<char> {
    let lang = module_language(path_extension(path));
    if lang == "python"@ {
        if "/__init__.py"@.is_suffix_of(path) {
            trim_end_matches(path, "/__init__.py"@)
        } else {
            fallback_module(path)
        }
    } else if lang == "go"@ {
        match go_package(source) {
            Some(pkg) => fallback_module(path) + ":"@ + pkg,
            None => fallback_module(path),
        }
    } else {
        fallback_module(path)
    }
}

fn trim_end_matches_exec(s: &str, suffix: &str) -> (r: String)
    requires
        suffix@.len() > 0,
    ensures
        r@ == trim_end_matches(s@, suffix@),
{
    let v = chars_of(s);
    let n = chars_of(suffix);
    let mut end: usize = v.len();
    assert(v@.take(end as int) =~= v@);
    while end >= n.len() && crate::text::matches_at(&v, &n, end - n.len())
        invariant
            end <= v.len(),
            n@ == suffix@,
            n@.len() > 0,
            trim_end_matches(s@, suffix@) == trim_end_matches(v@.take(end as int), suffix@),
            v@ == s@,
        decreases end,
    {
        proof {
            assert(v@.take(end as int).subrange(end - n.len(), end as int) =~= v@.subrange(end - n.len(), end as int));
            assert(suffix@.is_suffix_of(v@.take(end as int)));
            assert(v@.take(end as int).take(end - n.len()) =~= v@.take(end - n.len()));
        }
        end = end - n.len();
    }
    proof {
        let t = v@.take(end as int);
        if suffix@.is_suffix_of(t) {
            assert(t.subrange(t.len() - suffix@.len(), t.len() as int) =~= v@.subrange(end - n.len(), end as int));
        }
    }
    let mut out: Vec<char> = Vec::new();
    let mut i: usize = 0;
    while i < end
        invariant
            i <= end <= v.len(),
            out@ == v@.take(i as int),
        decreases end - i,
    {
        out.push(v[i]);
        i = i + 1;
        assert(out@ =~= v@.take(i as int));
    }
    string_of(&out)
}

fn package_on_line_exec(line: &Vec<char>) -> (r: Option<String>)
    ensures
        match r {
            Some(p) => package_on_line(line@) == Some(p@),
            None => package_on_line(line@) is None,
        },
{
    let clean = trim_chars(line);
    let text = string_of(&clean);
    if !starts_with(text.as_str(), "package ") {
        return None;
    }
    proof {
        reveal_strlit("package ");
    }
    let mut rest: Vec<char> = Vec::new();
    let mut k: usize = 8;
    while k < clean.len()
        invariant
            8 <= k <= clean.len(),
            rest@ == clean@.subrange(8, k as int),
        decreases clean.len() - k,
    {
        rest.push(clean[k]);
        k = k + 1;
        assert(rest@ =~= clean@.subrange(8, k as int));
    }
    assert(rest@ =~= clean@.skip(8));
    let rest_text = string_of(&rest);
    let ws = split_words(rest_text.as_str());
    if ws.len() == 0 {
        return None;
    }
    assert(views(ws@)[0] == ws@[0]@);
    Some(owned(ws[0].as_str()))
}

/// The module id of a file, by its path and its source text.
pub fn detect_module_id(path: &str, source: &str) -> (r: String)
    ensures
        r@ == module_id_for(path@, source@),
{
    let language = detect_language(path);
    if str_eq(language.as_str(), "python") {
        if ends_with(path, "/__init__.py") {
            proof {
                reveal_strlit("/__init__.py");
            }
            return trim_end_matches_exec(path, "/__init__.py");
        }
        return path_to_module_fallback(path);
    }
    if str_eq(language.as_str(), "go") {
        proof {
            reveal_strlit("go");
            reveal_strlit("python");
        }
        let src = chars_of(source);
        let lines = split_chars(&src, '\n');
        let ghost ls = split_by(src@, '\n');
        let mut i: usize = 0;
        while i < lines.len()
            invariant
                i <= lines.len(),
                lines@.len() == ls.len(),
                ls == split_by(source@, '\n'),
                forall|k: int| 0 <= k < lines@.len() ==> #[trigger] lines@[k]@ == ls[k],
                first_package(ls, i as nat) is None,
                language@ == module_language(path_extension(path@)),
                language@ == "go"@,
                "go"@ != "python"@,
            decreases lines.len() - i,
        {
            match package_on_line_exec(&lines[i]) {
                Some(pkg) => {
                    proof {
                        assert(first_package(ls, (i + 1) as nat) == Some(pkg@));
                        lemma_first_package_stays(ls, (i + 1) as nat, ls.len());
                    }
                    let dir = path_to_module_fallback(path);
                    let mut r = concat2(dir.as_str(), ":");
                    r.append(pkg.as_str());
                    return r;
                },
                None => {},
            }
            i = i + 1;
        }
        return path_to_module_fallback(path);
    }
    path_to_module_fallback(path)
}

proof fn lemma_first_package_stays(lines: Seq<Seq<char>>, n: nat, m: nat)
    requires
        n <= m,
        first_package(lines, n) is Some,
    ensures
        first_package(lines, m) == first_package(lines, n),
    decreases m - n,
{
    if n < m {
        lemma_first_package_stays(lines, n, (m - 1) as nat);
    }
}

// ─── Grouping files into modules ────────────────────────────────────────────

/// The source text recorded for `path`: the last pair of `source_map` whose
/// first part is `path`.
pub open spec fn source_lookup(source_map: Seq<(String, String)>, path: Seq<char>) -> Option<Seq<char>>
    decreases source_map.len(),
{
    if source_map.len() == 0 {
        None
    } else if source_map.last().0@ == path {
        Some(source_map.last().1@)
    } else {
        source_lookup(source_map.drop_last(), path)
    }
}

/// The module a parse result is grouped under.
pub open spec fn file_module(fr: FileResult, source_map: Seq<(String, String)>) -> Seq<char> {
    match source_lookup(source_map, fr.file_path@) {
        Some(src) => module_id_for(fr.file_path@, src),
        None => fallback_module(fr.file_path@),
    }
}

/// The positions `i < n` with `keys[i] == k`, in order.
pub open spec fn positions_of(keys: Seq<Seq<char>>, k: Seq<char>, n: nat) -> Seq<int>
    decreases n,
{
    if n == 0 {
        Seq::<int>::empty()
    } else if keys[n - 1] == k {
        positions_of(keys, k, (n - 1) as nat).push(n - 1)
    } else {
        positions_of(keys, k, (n - 1) as nat)
    }
}

/// Position `j` is listed under key `k` exactly when it is below `n` and has key `k`.
proof fn lemma_positions_of_contains(keys: Seq<Seq<char>>, k: Seq<char>, n: nat, j: int)
    requires
        n <= keys.len(),
    ensures
        positions_of(keys, k, n).contains(j) <==> (0 <= j < n && keys[j] == k),
    decreases n,
{
    if n > 0 {
        lemma_positions_of_contains(keys, k, (n - 1) as nat, j);
        let prev = positions_of(keys, k, (n - 1) as nat);
        if keys[n - 1] == k {
            let cur = prev.push(n - 1);
            assert(cur[prev.len() as int] == n - 1);
            if cur.contains(j) {
                let i = choose|i: int| 0 <= i < cur.len() && cur[i] == j;
                if i < prev.len() {
                    assert(prev[i] == j);
                }
            }
            if prev.contains(j) {
                let i = choose|i: int| 0 <= i < prev.len() && prev[i] == j;
                assert(cur[i] == j);
            }
        }
    }
}

/// Grouping files by module partitions them: given the group ids (every
/// key once) and the keys of the files, each file lies in the group of its
/// own key and in no other, and no group is empty.
pub proof fn law_grouping_partitions(keys: Seq<Seq<char>>, ids: Seq<Seq<char>>)
    requires
        ids.to_set() =~= keys.to_set(),
    ensures
        forall|j: int, g: int| 0 <= j < keys.len() && 0 <= g < ids.len() ==> (
            #[trigger] positions_of(keys, ids[g], keys.len()).contains(j) <==> ids[g] == #[trigger] keys[j]),
        forall|j: int| 0 <= j < keys.len() ==> ids.contains(#[trigger] keys[j]),
        forall|g: int| 0 <= g < ids.len() ==> #[trigger] positions_of(keys, ids[g], keys.len()).len() > 0,
{
    assert forall|j: int, g: int| 0 <= j < keys.len() && 0 <= g < ids.len() implies (
        #[trigger] positions_of(keys, ids[g], keys.len()).contains(j) <==> ids[g] == #[trigger] keys[j]) by {
        lemma_positions_of_contains(keys, ids[g], keys.len(), j);
    }
    assert forall|j: int| 0 <= j < keys.len() implies ids.contains(#[trigger] keys[j]) by {
        assert(keys.to_set().contains(keys[j]));
        assert(ids.to_set().contains(keys[j]));
    }
    assert forall|g: int| 0 <= g < ids.len() implies #[trigger] positions_of(keys, ids[g], keys.len()).len() > 0 by {
        assert(ids.to_set().contains(ids[g]));
        assert(keys.to_set().contains(ids[g]));
        let j = choose|j: int| 0 <= j < keys.len() && keys[j] == ids[g];
        lemma_positions_of_contains(keys, ids[g], keys.len(), j);
    }
}

/// The positions of a list of indices, as integers.
pub open spec fn as_positions(v: Seq<usize>) -> Seq<int> {
    v.map_values(|x: usize| x as int)
}

fn lookup_source(source_map: &Vec<(String, String)>, path: &str) -> (r: Option<String>)
    ensures
        match r {
            Some(s) => source_lookup(source_map@, path@) == Some(s@),
            None => source_lookup(source_map@, path@) is None,
        },
{
    let mut i: usize = source_map.len();
    assert(source_map@.take(source_map.len() as int) =~= source_map@);
    while i > 0
        invariant
            i <= source_map.len(),
            source_lookup(source_map@, path@) == source_lookup(source_map@.take(i as int), path@),
        decreases i,
    {
        proof {
            assert(source_map@.take(i as int).drop_last() =~= source_map@.take(i - 1));
            assert(source_map@.take(i as int).last() == source_map@[i - 1]);
        }
        if str_eq(source_map[i - 1].0.as_str(), path) {
            return Some(owned(source_map[i - 1].1.as_str()));
        }
        i = i - 1;
    }
    None
}

/// The module of a parse result (executable).
pub fn module_of_file(fr: &FileResult, source_map: &Vec<(String, String)>) -> (r: String)
    ensures
        r@ == file_module(*fr, source_map@),
{
    match lookup_source(source_map, fr.file_path.as_str()) {
        Some(src) => detect_module_id(fr.file_path.as_str(), src.as_str()),
        None => path_to_module_fallback(fr.file_path.as_str()),
    }
}

/// Groups the parse results by module: one group per module id, in order of
/// the ids, each holding the positions of its files in `file_results`, in
/// order.  `source_map` maps a file path to its source text (the last pair
/// for a path counts); a file without one is grouped by its directory.
pub fn group_by_module_id(file_results: &[FileResult], source_map: &Vec<(String, String)>) -> (groups: Vec<(String, Vec<usize>)>)
    ensures
        strictly_sorted(groups@.map_values(|g: (String, Vec<usize>)| g.0@)),
        groups@.map_values(|g: (String, Vec<usize>)| g.0@).to_set() =~= file_results@.map_values(
            |fr: FileResult| file_module(fr, source_map@),
        ).to_set(),
        forall|i: int| 0 <= i < groups@.len() ==> #[trigger] as_positions(groups@[i].1@) == positions_of(
            file_results@.map_values(|fr: FileResult| file_module(fr, source_map@)),
            groups@[i].0@,
            file_results@.len(),
        ),
{
    let ghost keys = file_results@.map_values(|fr: FileResult| file_module(fr, source_map@));
    let mut module_ids: Vec<String> = Vec::new();
    let mut i: usize = 0;
    while i < file_results.len()
        invariant
            i <= file_results.len(),
            keys == file_results@.map_values(|fr: FileResult| file_module(fr, source_map@)),
            views(module_ids@) == keys.take(i as int),
        decreases file_results.len() - i,
    {
        let ghost old = module_ids@;
        module_ids.push(module_of_file(&file_results[i], source_map));
        proof {
            lemma_views_push(old, module_ids@.last());
            assert(views(module_ids@) =~= keys.take(i + 1));
        }
        i = i + 1;
    }
    assert(keys.take(file_results.len() as int) =~= keys);
    let ids_copy = crate::text::copy_strings(&module_ids);
    assert(views(ids_copy@) =~= views(module_ids@));
    let distinct = sorted_unique(ids_copy);
    let mut groups: Vec<(String, Vec<usize>)> = Vec::new();
    let mut g: usize = 0;
    while g < distinct.len()
        invariant
            g <= distinct.len(),
            views(module_ids@) == keys,
            keys.len() == file_results@.len(),
            groups@.map_values(|x: (String, Vec<usize>)| x.0@) == views(distinct@).take(g as int),
            forall|k: int| 0 <= k < groups@.len() ==> #[trigger] as_positions(groups@[k].1@) == positions_of(
                keys,
                groups@[k].0@,
                keys.len(),
            ),
        decreases distinct.len() - g,
    {
        let key = distinct[g].as_str();
        let mut members: Vec<usize> = Vec::new();
        let mut j: usize = 0;
        while j < module_ids.len()
            invariant
                j <= module_ids.len(),
                views(module_ids@) == keys,
                as_positions(members@) == positions_of(keys, key@, j as nat),
            decreases module_ids.len() - j,
        {
            assert(views(module_ids@)[j as int] == module_ids@[j as int]@);
            if str_eq(module_ids[j].as_str(), key) {
                let ghost old = members@;
                members.push(j);
                assert(as_positions(members@) =~= as_positions(old).push(j as int));
            }
            j = j + 1;
        }
        let ghost old_groups = groups@;
        groups.push((owned(key), members));
        proof {
            assert(groups@.map_values(|x: (String, Vec<usize>)| x.0@) =~= old_groups.map_values(
                |x: (String, Vec<usize>)| x.0@,
            ).push(key@));
            assert(views(distinct@).take(g + 1) =~= views(distinct@).take(g as int).push(views(distinct@)[g as int]));
        }
        g = g + 1;
    }
    assert(views(distinct@).take(distinct.len() as int) =~= views(distinct@));
    groups
}

// ─── Aggregating a module ───────────────────────────────────────────────────

/// How a side effect kind is named by its derived `Debug`.
pub open spec fn effect_kind_debug(kind: SideEffectKind) -> Seq<char> {
    match kind {
        SideEffectKind::Io => "Io"@,
        SideEffectKind::Network => "Network"@,
        SideEffectKind::Storage => "Storage"@,
        SideEffectKind::Log => "Log"@,
    }
}

/// A side effect as a module lists it: `<Kind>:<target>`.
pub open spec fn effect_entry(se: SideEffect) -> Seq<char> {
    effect_kind_debug(se.kind) + ":"@ + se.target@
}

/// The texts of a file that a module collects.
pub open spec fn file_exports(fr: FileResult) -> Seq<Seq<char>> {
    fr.exports@.map_values(|e: ExportedSymbol| e.name@)
}

/// The import sources of a file.
pub open spec fn file_imports(fr: FileResult) -> Seq<Seq<char>> {
    fr.imports@.map_values(|d: DependencyEdge| d.source@)
}

/// The side effect entries of a file.
pub open spec fn file_effects(fr: FileResult) -> Seq<Seq<char>> {
    fr.side_effects@.map_values(|se: SideEffect| effect_entry(se))
}

/// The fingerprint a file contributes to its module's fingerprint.
pub open spec fn child_fingerprint(fr: FileResult) -> Seq<char> {
    source_fingerprint(debug_rendering(fr.file_path@, fr.exports@, fr.imports@, fr.signatures@))
}

/// The lower of two confidences (no confidence < low < high).
pub open spec fn lower_confidence(a: ConfidenceBand, b: ConfidenceBand) -> ConfidenceBand {
    if a == ConfidenceBand::NoConfidence || b == ConfidenceBand::NoConfidence {
        ConfidenceBand::NoConfidence
    } else if a == ConfidenceBand::Low || b == ConfidenceBand::Low {
        ConfidenceBand::Low
    } else {
        ConfidenceBand::High
    }
}

/// The lowest confidence among files (high when there are none).
pub open spec fn lowest_confidence(files: Seq<FileResult>) -> ConfidenceBand
    decreases files.len(),
{
    if files.len() == 0 {
        ConfidenceBand::High
    } else {
        lower_confidence(lowest_confidence(files.drop_last()), files.last().confidence)
    }
}

/// The language of a module: the one language of its files, or `mixed`.
pub open spec fn module_language_of(langs: Seq<Seq<char>>) -> Seq<char> {
    if langs.len() > 0 && forall|i: int| 0 <= i < langs.len() ==> #[trigger] langs[i] == langs[0] {
        langs[0]
    } else {
        "mixed"@
    }
}

/// The responsibility line of a module.
pub open spec fn responsibility_text(module_id: Seq<char>, exports: Seq<Seq<char>>, file_count: nat) -> Seq<char> {
    if exports.len() == 0 {
        "模块 "@ + module_id + " 提供内部实现，无显式导出。"@
    } else {
        "模块 "@ + module_id + " 聚合导出 "@ + join_with(exports, "、"@) + "，覆盖 "@ + decimal(file_count) + " 个文件。"@
    }
}

/// Whether `m` is the aggregate of `files` as module `module_id`.
pub open spec fn is_module_of(
    m: ModuleResult,
    module_id: Seq<char>,
    files: Seq<FileResult>,
    fanin_fanout: Option<(usize, usize)>,
    drift: Option<ChangeClass>,
) -> bool {
    &&& m.module_id@ == module_id
    &&& views(m.files@) == files.map_values(|fr: FileResult| fr.file_path@)
    &&& strictly_sorted(views(m.exports@))
    &&& views(m.exports@).to_set() == crate::index::flatten(files.map_values(|fr: FileResult| file_exports(fr))).to_set()
    &&& strictly_sorted(views(m.dependencies@))
    &&& views(m.dependencies@).to_set() == crate::index::flatten(files.map_values(|fr: FileResult| file_imports(fr))).to_set()
    &&& strictly_sorted(views(m.side_effects@))
    &&& views(m.side_effects@).to_set() == crate::index::flatten(files.map_values(|fr: FileResult| file_effects(fr))).to_set()
    &&& m.language@ == module_language_of(files.map_values(|fr: FileResult| module_language(path_extension(fr.file_path@))))
    &&& m.semantic_fingerprint@ == source_fingerprint(join_with(
        sorted_rank::<String>(files.map_values(|fr: FileResult| child_fingerprint(fr))),
        "|"@,
    ))
    &&& m.responsibility@ == responsibility_text(module_id, views(m.exports@), files.len())
    &&& match fanin_fanout {
        Some(p) => m.fan_in == p.0 && m.fan_out == p.1,
        None => m.fan_in == 0 && m.fan_out == m.dependencies@.len(),
    }
    &&& m.drift_level@ == match drift {
        Some(c) => change_class_name(c),
        None => "C0"@,
    }
    &&& m.confidence == lowest_confidence(files)
}

fn push_all(acc: &mut Vec<String>, items: Vec<String>)
    ensures
        views(final(acc)@) == views(old(acc)@) + views(items@),
{
    let ghost start = views(acc@);
    let mut i: usize = 0;
    while i < items.len()
        invariant
            i <= items.len(),
            views(acc@) == start + views(items@).take(i as int),
        decreases items.len() - i,
    {
        let ghost old = acc@;
        acc.push(owned(items[i].as_str()));
        proof {
            lemma_views_push(old, acc@.last());
            assert(views(acc@) =~= start + views(items@).take(i + 1));
        }
        i = i + 1;
    }
    assert(views(items@).take(items.len() as int) =~= views(items@));
}

fn effect_entries(fr: &FileResult) -> (r: Vec<String>)
    ensures
        views(r@) == file_effects(*fr),
{
    let ghost want = file_effects(*fr);
    let mut r: Vec<String> = Vec::new();
    let mut i: usize = 0;
    while i < fr.side_effects.len()
        invariant
            i <= fr.side_effects.len(),
            want == file_effects(*fr),
            views(r@) == want.take(i as int),
        decreases fr.side_effects.len() - i,
    {
        let se = &fr.side_effects[i];
        let name = match se.kind {
            SideEffectKind::Io => "Io",
            SideEffectKind::Network => "Network",
            SideEffectKind::Storage => "Storage",
            SideEffectKind::Log => "Log",
        };
        assert(name@ == effect_kind_debug(se.kind));
        let entry = concat3(name, ":", se.target.as_str());
        let ghost old = r@;
        r.push(entry);
        proof {
            lemma_views_push(old, r@.last());
            assert(views(r@) =~= want.take(i + 1));
        }
        i = i + 1;
    }
    assert(want.take(fr.side_effects.len() as int) =~= want);
    r
}

fn lower_confidence_exec(a: ConfidenceBand, b: ConfidenceBand) -> (r: ConfidenceBand)
    ensures
        r == lower_confidence(a, b),
{
    if a == ConfidenceBand::NoConfidence || b == ConfidenceBand::NoConfidence {
        ConfidenceBand::NoConfidence
    } else if a == ConfidenceBand::Low || b == ConfidenceBand::Low {
        ConfidenceBand::Low
    } else {
        ConfidenceBand::High
    }
}

/// Aggregates the files of a module: their paths, the sorted distinct
/// exports, dependencies and side effects, the module language, a
/// fingerprint over the files, the responsibility line, fan-in and fan-out
/// (`(0, number of dependencies)` unless given), the drift level (`C0`
/// unless given) and the lowest confidence of the files.
pub fn aggregate_module(
    module_id: &str,
    files: &[&FileResult],
    module_deps_fanin: Option<(usize, usize)>,
    module_drift: Option<ChangeClass>,
) -> (m: ModuleResult)
    ensures
        is_module_of(m, module_id@, files@.map_values(|f: &FileResult| *f), module_deps_fanin, module_drift),
{
    let ghost fs = files@.map_values(|f: &FileResult| *f);
    let ghost ex_parts = fs.map_values(|fr: FileResult| file_exports(fr));
    let ghost dep_parts = fs.map_values(|fr: FileResult| file_imports(fr));
    let ghost se_parts = fs.map_values(|fr: FileResult| file_effects(fr));
    let ghost paths = fs.map_values(|fr: FileResult| fr.file_path@);
    let ghost langs = fs.map_values(|fr: FileResult| module_language(path_extension(fr.file_path@)));
    let ghost childs = fs.map_values(|fr: FileResult| child_fingerprint(fr));
    let mut export_all: Vec<String> = Vec::new();
    let mut dep_all: Vec<String> = Vec::new();
    let mut effect_all: Vec<String> = Vec::new();
    let mut file_paths: Vec<String> = Vec::new();
    let mut languages: Vec<String> = Vec::new();
    let mut child_semantic: Vec<String> = Vec::new();
    let mut confidence = ConfidenceBand::High;
    let mut i: usize = 0;
    while i < files.len()
        invariant
            i <= files.len(),
            fs == files@.map_values(|f: &FileResult| *f),
            ex_parts == fs.map_values(|fr: FileResult| file_exports(fr)),
            dep_parts == fs.map_values(|fr: FileResult| file_imports(fr)),
            se_parts == fs.map_values(|fr: FileResult| file_effects(fr)),
            paths == fs.map_values(|fr: FileResult| fr.file_path@),
            langs == fs.map_values(|fr: FileResult| module_language(path_extension(fr.file_path@))),
            childs == fs.map_values(|fr: FileResult| child_fingerprint(fr)),
            views(export_all@) == crate::index::flatten(ex_parts.take(i as int)),
            views(dep_all@) == crate::index::flatten(dep_parts.take(i as int)),
            views(effect_all@) == crate::index::flatten(se_parts.take(i as int)),
            views(file_paths@) == paths.take(i as int),
            views(languages@) == langs.take(i as int),
            views(child_semantic@) == childs.take(i as int),
            confidence == lowest_confidence(fs.take(i as int)),
        decreases files.len() - i,
    {
        let f: &FileResult = files[i];
        assert(fs[i as int] == *f);
        proof {
            crate::index::lemma_flatten_step(ex_parts, i as int);
            crate::index::lemma_flatten_step(dep_parts, i as int);
            crate::index::lemma_flatten_step(se_parts, i as int);
            assert(fs.take(i + 1).drop_last() =~= fs.take(i as int));
        }
        let ghost p0 = file_paths@;
        file_paths.push(owned(f.file_path.as_str()));
        let ghost l0 = languages@;
        languages.push(detect_language(f.file_path.as_str()));
        push_all(&mut export_all, crate::template::export_name_list(f));
        push_all(&mut dep_all, crate::template::import_source_list(f));
        push_all(&mut effect_all, effect_entries(f));
        let rendered = render_debug(f);
        let ghost c0 = child_semantic@;
        child_semantic.push(compute_source_fingerprint(rendered.as_str()));
        confidence = lower_confidence_exec(confidence, f.confidence);
        proof {
            lemma_views_push(p0, file_paths@.last());
            lemma_views_push(l0, languages@.last());
            lemma_views_push(c0, child_semantic@.last());
            assert(views(file_paths@) =~= paths.take(i + 1));
            assert(views(languages@) =~= langs.take(i + 1));
            assert(views(child_semantic@) =~= childs.take(i + 1));
            assert(views(export_all@) =~= crate::index::flatten(ex_parts.take(i + 1)));
            assert(views(dep_all@) =~= crate::index::flatten(dep_parts.take(i + 1)));
            assert(views(effect_all@) =~= crate::index::flatten(se_parts.take(i + 1)));
        }
        i = i + 1;
    }
    proof {
        assert(ex_parts.take(files.len() as int) =~= ex_parts);
        assert(dep_parts.take(files.len() as int) =~= dep_parts);
        assert(se_parts.take(files.len() as int) =~= se_parts);
        assert(paths.take(files.len() as int) =~= paths);
        assert(langs.take(files.len() as int) =~= langs);
        assert(childs.take(files.len() as int) =~= childs);
        assert(fs.take(files.len() as int) =~= fs);
    }
    let exports = sorted_unique(export_all);
    let dependencies = sorted_unique(dep_all);
    let side_effects = sorted_unique(effect_all);
    let sorted_children = sort_ranked(child_semantic);
    proof {
        assert(view_seq(sorted_children@) =~= views(sorted_children@));
        assert(view_seq(child_semantic@) =~= views(child_semantic@));
    }
    let aggregate_input = join(&sorted_children, "|");
    let semantic_fingerprint = compute_source_fingerprint(aggregate_input.as_str());
    let (fan_in, fan_out) = match module_deps_fanin {
        Some(p) => p,
        None => (0, dependencies.len()),
    };
    let drift_level = match module_drift {
        Some(c) => c.to_string(),
        None => owned("C0"),
    };
    let responsibility = if exports.len() == 0 {
        concat3("模块 ", module_id, " 提供内部实现，无显式导出。")
    } else {
        let joined = join(&exports, "、");
        let mut r = concat3("模块 ", module_id, " 聚合导出 ");
        r.append(joined.as_str());
        r.append("，覆盖 ");
        let n = decimal_string(file_paths.len());
        r.append(n.as_str());
        r.append(" 个文件。");
        r
    };
    let mut same = languages.len() > 0;
    let mut k: usize = 1;
    while same && k < languages.len()
        invariant
            1 <= k,
            views(languages@) == langs,
            same ==> languages.len() > 0,
            same ==> forall|j: int| 0 <= j < k && j < langs.len() ==> #[trigger] langs[j] == langs[0],
            !same ==> !(langs.len() > 0 && forall|j: int| 0 <= j < langs.len() ==> #[trigger] langs[j] == langs[0]),
        decreases languages.len() - k,
    {
        if !str_eq(languages[k].as_str(), languages[0].as_str()) {
            proof {
                assert(langs[k as int] != langs[0]);
            }
            same = false;
        }
        k = k + 1;
    }
    let language = if same {
        owned(languages[0].as_str())
    } else {
        owned("mixed")
    };
    proof {
        if same {
            assert(langs[0] == languages@[0]@);
        }
    }
    ModuleResult {
        module_id: owned(module_id),
        language,
        files: file_paths,
        exports,
        dependencies,
        side_effects,
        responsibility,
        semantic_fingerprint,
        fan_in,
        fan_out,
        drift_level,
        confidence,
    }
}

// ─── Dependencies between modules ───────────────────────────────────────────

/// The modules `m` depends on: every other module id among `ids` that
/// occurs in one of `m`'s dependencies.
pub open spec fn depends_on(m: ModuleResult, ids: Seq<Seq<char>>, other: Seq<char>) -> bool {
    &&& ids.contains(other)
    &&& other != m.module_id@
    &&& exists|d: int| 0 <= d < m.dependencies@.len() && occurs_in(#[trigger] m.dependencies@[d]@, other)
}

/// The position of the last module with id `k`.
pub open spec fn last_with_id(modules: Seq<ModuleResult>, k: Seq<char>) -> int
    decreases modules.len(),
{
    if modules.len() == 0 {
        -1
    } else if modules.last().module_id@ == k {
        modules.len() - 1
    } else {
        last_with_id(modules.drop_last(), k)
    }
}

/// The ids of a list of modules.
pub open spec fn module_ids(modules: Seq<ModuleResult>) -> Seq<Seq<char>> {
    modules.map_values(|m: ModuleResult| m.module_id@)
}

/// Whether `graph` is the module graph of `modules`: one entry per module
/// id, whose targets (each listed once) are the modules that the last
/// module with that id depends on.
pub open spec fn is_module_graph(graph: Seq<(String, Vec<String>)>, modules: Seq<ModuleResult>) -> bool {
    let keys = graph.map_values(|e: (String, Vec<String>)| e.0@);
    &&& keys.no_duplicates()
    &&& keys.to_set() == module_ids(modules).to_set()
    &&& forall|i: int| 0 <= i < graph.len() ==> {
        let m = modules[last_with_id(modules, #[trigger] graph[i].0@)];
        &&& views(graph[i].1@).no_duplicates()
        &&& forall|o: Seq<char>| #[trigger] views(graph[i].1@).contains(o) <==> depends_on(m, module_ids(modules), o)
    }
}

fn module_targets(m: &ModuleResult, all_modules: &Vec<String>) -> (r: Vec<String>)
    ensures
        views(r@).no_duplicates(),
        forall|o: Seq<char>| #[trigger] views(r@).contains(o) <==> depends_on(*m, views(all_modules@), o),
{
    let ghost ids = views(all_modules@);
    let mut targets: Vec<String> = Vec::new();
    let mut d: usize = 0;
    while d < m.dependencies.len()
        invariant
            d <= m.dependencies.len(),
            ids == views(all_modules@),
            views(targets@).no_duplicates(),
            forall|o: Seq<char>| #[trigger] views(targets@).contains(o) <==> (ids.contains(o) && o != m.module_id@
                && exists|e: int| 0 <= e < d && occurs_in(#[trigger] m.dependencies@[e]@, o)),
        decreases m.dependencies.len() - d,
    {
        let dep = m.dependencies[d].as_str();
        let ghost before = views(targets@);
        let mut j: usize = 0;
        while j < all_modules.len()
            invariant
                j <= all_modules.len(),
                d < m.dependencies.len(),
                dep@ == m.dependencies@[d as int]@,
                ids == views(all_modules@),
                views(targets@).no_duplicates(),
                forall|o: Seq<char>| #[trigger] views(targets@).contains(o) <==> (before.contains(o) || (
                    ids.take(j as int).contains(o) && o != m.module_id@ && occurs_in(dep@, o))),
            decreases all_modules.len() - j,
        {
            let other = all_modules[j].as_str();
            proof {
                assert(ids[j as int] == other@);
                assert(ids.take(j + 1) =~= ids.take(j as int).push(other@));
                crate::text::lemma_push_contains(ids.take(j as int), other@);
            }
            if contains(dep, other) && !str_eq(other, m.module_id.as_str()) && !contains_text(&targets, other) {
                let ghost old = views(targets@);
                targets.push(owned(other));
                proof {
                    assert(views(targets@) =~= old.push(other@));
                    crate::text::lemma_push_no_dup(old, other@);
                    crate::text::lemma_push_contains(old, other@);
                }
            }
            j = j + 1;
        }
        proof {
            assert(ids.take(all_modules.len() as int) =~= ids);
            assert forall|o: Seq<char>| #[trigger] views(targets@).contains(o) <==> (ids.contains(o) && o != m.module_id@
                && exists|e: int| 0 <= e < d + 1 && occurs_in(#[trigger] m.dependencies@[e]@, o)) by {
                if ids.contains(o) && o != m.module_id@ && exists|e: int| 0 <= e < d + 1 && occurs_in(#[trigger] m.dependencies@[e]@, o) {
                    let e = choose|e: int| 0 <= e < d + 1 && occurs_in(#[trigger] m.dependencies@[e]@, o);
                    if e == d {
                        assert(occurs_in(dep@, o));
                    }
                }
            }
        }
        d = d + 1;
    }
    targets
}

/// Builds the module graph: for each module id, the other modules whose id
/// occurs in one of its dependencies (when an id repeats, the last module
/// with it counts).
pub fn build_module_graph(modules: &Vec<ModuleResult>) -> (graph: Vec<(String, Vec<String>)>)
    ensures
        is_module_graph(graph@, modules@),
{
    let mut all_modules: Vec<String> = Vec::new();
    let mut i: usize = 0;
    while i < modules.len()
        invariant
            i <= modules.len(),
            views(all_modules@) == module_ids(modules@).take(i as int),
        decreases modules.len() - i,
    {
        let ghost old = all_modules@;
        all_modules.push(owned(modules[i].module_id.as_str()));
        proof {
            lemma_views_push(old, all_modules@.last());
            assert(views(all_modules@) =~= module_ids(modules@).take(i + 1));
        }
        i = i + 1;
    }
    assert(module_ids(modules@).take(modules.len() as int) =~= module_ids(modules@));
    let ghost ids = module_ids(modules@);
    let mut graph: Vec<(String, Vec<String>)> = Vec::new();
    let mut k: usize = 0;
    while k < modules.len()
        invariant
            k <= modules.len(),
            views(all_modules@) == ids,
            ids == module_ids(modules@),
            graph@.map_values(|e: (String, Vec<String>)| e.0@).no_duplicates(),
            graph@.map_values(|e: (String, Vec<String>)| e.0@).to_set() == ids.take(k as int).to_set(),
            forall|g: int| 0 <= g < graph@.len() ==> {
                let m = modules@[last_with_id(modules@.take(k as int), #[trigger] graph@[g].0@)];
                &&& views(graph@[g].1@).no_duplicates()
                &&& forall|o: Seq<char>| #[trigger] views(graph@[g].1@).contains(o) <==> depends_on(m, ids, o)
            },
        decreases modules.len() - k,
    {
        let m = &modules[k];
        let targets = module_targets(m, &all_modules);
        let ghost keys = graph@.map_values(|e: (String, Vec<String>)| e.0@);
        proof {
            assert(modules@.take(k + 1).drop_last() =~= modules@.take(k as int));
            assert(ids.take(k + 1) =~= ids.take(k as int).push(m.module_id@));
            lemma_push_to_set_seq(ids.take(k as int), m.module_id@);
        }
        let mut found: Option<usize> = None;
        let mut g: usize = 0;
        while g < graph.len()
            invariant
                g <= graph.len(),
                keys == graph@.map_values(|e: (String, Vec<String>)| e.0@),
                found is None ==> forall|h: int| 0 <= h < g ==> keys[h] != m.module_id@,
                found matches Some(h) ==> h < graph.len() && keys[h as int] == m.module_id@,
            decreases graph.len() - g,
        {
            if found.is_none() && str_eq(graph[g].0.as_str(), m.module_id.as_str()) {
                found = Some(g);
            }
            g = g + 1;
        }
        let ghost old_graph = graph@;
        match found {
            Some(h) => {
                graph.set(h, (owned(m.module_id.as_str()), targets));
                proof {
                    assert(graph@.map_values(|e: (String, Vec<String>)| e.0@) =~= keys);
                    assert forall|g2: int| 0 <= g2 < graph@.len() implies {
                        let mm = modules@[last_with_id(modules@.take(k + 1), #[trigger] graph@[g2].0@)];
                        &&& views(graph@[g2].1@).no_duplicates()
                        &&& forall|o: Seq<char>| #[trigger] views(graph@[g2].1@).contains(o) <==> depends_on(mm, ids, o)
                    } by {
                        if g2 != h {
                            assert(graph@[g2] == old_graph[g2]);
                            assert(keys[g2] != keys[h as int]);
                        }
                    }
                }
            },
            None => {
                graph.push((owned(m.module_id.as_str()), targets));
                proof {
                    assert(graph@.map_values(|e: (String, Vec<String>)| e.0@) =~= keys.push(m.module_id@));
                    crate::text::lemma_push_no_dup(keys, m.module_id@);
                    lemma_push_to_set_seq(keys, m.module_id@);
                    assert forall|g2: int| 0 <= g2 < graph@.len() implies {
                        let mm = modules@[last_with_id(modules@.take(k + 1), #[trigger] graph@[g2].0@)];
                        &&& views(graph@[g2].1@).no_duplicates()
                        &&& forall|o: Seq<char>| #[trigger] views(graph@[g2].1@).contains(o) <==> depends_on(mm, ids, o)
                    } by {
                        if g2 < old_graph.len() {
                            assert(graph@[g2] == old_graph[g2]);
                            assert(keys[g2] != m.module_id@);
                        }
                    }
                }
            },
        }
        k = k + 1;
    }
    assert(modules@.take(modules.len() as int) =~= modules@);
    assert(ids.take(modules.len() as int) =~= ids);
    graph
}

proof fn lemma_push_to_set_seq(s: Seq<Seq<char>>, x: Seq<char>)
    ensures
        s.push(x).to_set() =~= s.to_set().insert(x),
{
    crate::order::lemma_push_to_set(s, x);
}

/// The targets of `module_id` in a graph: those of its first entry.
pub open spec fn graph_targets(graph: Seq<(String, Vec<String>)>, module_id: Seq<char>) -> Option<Seq<Seq<char>>>
    decreases graph.len(),
{
    if graph.len() == 0 {
        None
    } else {
        match graph_targets(graph.drop_last(), module_id) {
            Some(t) => Some(t),
            None => if graph.last().0@ == module_id {
                Some(views(graph.last().1@))
            } else {
                None
            },
        }
    }
}

/// How many entries of a graph list `module_id` among their targets.
pub open spec fn importer_entries(graph: Seq<(String, Vec<String>)>, module_id: Seq<char>) -> nat
    decreases graph.len(),
{
    if graph.len() == 0 {
        0
    } else {
        importer_entries(graph.drop_last(), module_id) + if views(graph.last().1@).contains(module_id) {
            1nat
        } else {
            0nat
        }
    }
}

/// The fan-in and fan-out of a module in a module graph: how many modules
/// depend on it, and how many it depends on.
pub fn fanin_fanout(graph: &Vec<(String, Vec<String>)>, module_id: &str) -> (r: (usize, usize))
    ensures
        r.0 == importer_entries(graph@, module_id@),
        r.1 == match graph_targets(graph@, module_id@) {
            Some(t) => t.len(),
            None => 0,
        },
{
    let mut fan_in: usize = 0;
    let mut fan_out: Option<usize> = None;
    let mut i: usize = 0;
    while i < graph.len()
        invariant
            i <= graph.len(),
            fan_in == importer_entries(graph@.take(i as int), module_id@),
            fan_in <= i,
            match fan_out {
                Some(n) => graph_targets(graph@.take(i as int), module_id@) matches Some(t) && t.len() == n,
                None => graph_targets(graph@.take(i as int), module_id@) is None,
            },
        decreases graph.len() - i,
    {
        proof {
            assert(graph@.take(i + 1).drop_last() =~= graph@.take(i as int));
            assert(graph@.take(i + 1).last() == graph@[i as int]);
        }
        if contains_text(&graph[i].1, module_id) {
            fan_in = fan_in + 1;
        }
        if fan_out.is_none() && str_eq(graph[i].0.as_str(), module_id) {
            fan_out = Some(graph[i].1.len());
        }
        i = i + 1;
    }
    assert(graph@.take(graph.len() as int) =~= graph@);
    let out = match fan_out {
        Some(n) => n,
        None => 0,
    };
    (fan_in, out)
}

/// The drift level of a module: the highest class among its files' changes
/// (`C0` when there are none).
pub open spec fn rollup(classes: Seq<ChangeClass>) -> ChangeClass {
    if classes.contains(ChangeClass::C3) {
        ChangeClass::C3
    } else if classes.contains(ChangeClass::C2) {
        ChangeClass::C2
    } else if classes.contains(ChangeClass::C1) {
        ChangeClass::C1
    } else {
        ChangeClass::C0
    }
}

/// The severity of a change class: C0 lowest, C3 highest.
pub open spec fn class_level(c: ChangeClass) -> nat {
    match c {
        ChangeClass::C0 => 0,
        ChangeClass::C1 => 1,
        ChangeClass::C2 => 2,
        ChangeClass::C3 => 3,
    }
}

/// The rolled-up level is the most severe class present: no class in the
/// list is more severe, it is itself in the list (C0 for an empty list), and
/// it depends only on which classes occur, not on their order or count.
pub proof fn law_rollup_is_most_severe(classes: Seq<ChangeClass>, other: Seq<ChangeClass>)
    ensures
        forall|i: int| 0 <= i < classes.len() ==> class_level(#[trigger] classes[i]) <= class_level(rollup(classes)),
        classes.len() > 0 ==> classes.contains(rollup(classes)),
        classes.len() == 0 ==> rollup(classes) == ChangeClass::C0,
        classes.to_set() == other.to_set() ==> rollup(classes) == rollup(other),
{
    assert forall|i: int| 0 <= i < classes.len() implies class_level(#[trigger] classes[i]) <= class_level(rollup(classes)) by {
        assert(classes.contains(classes[i]));
    }
    if classes.len() > 0 {
        assert(classes.contains(classes[0]));
    }
    if classes.to_set() == other.to_set() {
        assert forall|c: ChangeClass| classes.contains(c) <==> other.contains(c) by {
            assert(classes.to_set().contains(c) == classes.contains(c));
            assert(other.to_set().contains(c) == other.contains(c));
        }
    }
}

fn has_class(classes: &[ChangeClass], c: ChangeClass) -> (r: bool)
    ensures
        r == classes@.contains(c),
{
    let mut i: usize = 0;
    while i < classes.len()
        invariant
            i <= classes.len(),
            forall|j: int| 0 <= j < i ==> classes@[j] != c,
        decreases classes.len() - i,
    {
        if classes[i] == c {
            assert(classes@[i as int] == c);
            return true;
        }
        i = i + 1;
    }
    false
}

/// The drift level of a module from the classes of its files' changes.
pub fn rollup_drift_level(classes: &[ChangeClass]) -> (c: ChangeClass)
    ensures
        c == rollup(classes@),
{
    if has_class(classes, ChangeClass::C3) {
        return ChangeClass::C3;
    }
    if has_class(classes, ChangeClass::C2) {
        return ChangeClass::C2;
    }
    if has_class(classes, ChangeClass::C1) {
        return ChangeClass::C1;
    }
    ChangeClass::C0
}

// ─── Aggregation does not depend on file order ──────────────────────────────

/// Two strictly increasing lists of texts with the same elements are equal.
pub proof fn lemma_strictly_sorted_same_set(a: Seq<Seq<char>>, b: Seq<Seq<char>>)
    requires
        strictly_sorted(a),
        strictly_sorted(b),
        a.to_set() == b.to_set(),
    ensures
        a == b,
{
    broadcast use vstd::seq_lib::group_to_multiset_ensures;
    assert(a.no_duplicates()) by {
        assert forall|i: int, j: int| 0 <= i < a.len() && 0 <= j < a.len() && i != j implies a[i] != a[j] by {
            if i < j {
                assert(crate::order::chars_lt(a[i], a[j]));
            } else {
                assert(crate::order::chars_lt(a[j], a[i]));
            }
        }
    }
    assert(b.no_duplicates()) by {
        assert forall|i: int, j: int| 0 <= i < b.len() && 0 <= j < b.len() && i != j implies b[i] != b[j] by {
            if i < j {
                assert(crate::order::chars_lt(b[i], b[j]));
            } else {
                assert(crate::order::chars_lt(b[j], b[i]));
            }
        }
    }
    a.lemma_multiset_has_no_duplicates();
    b.lemma_multiset_has_no_duplicates();
    a.to_multiset_ensures();
    b.to_multiset_ensures();
    assert forall|x: Seq<char>| a.to_multiset().count(x) == b.to_multiset().count(x) by {
        assert(a.to_set().contains(x) == a.contains(x));
        assert(b.to_set().contains(x) == b.contains(x));
        if a.contains(x) {
            assert(a.to_multiset().contains(x));
            assert(b.to_multiset().contains(x));
        } else {
            assert(!b.contains(x));
        }
    }
    assert(a.to_multiset() =~= b.to_multiset());
    let le = crate::order::rank_order::<String>();
    crate::order::lemma_rank_total_ordering::<String>();
    assert(vstd::relations::sorted_by(a, le)) by {
        assert forall|i: int, j: int| 0 <= i < j < a.len() implies #[trigger] le(a[i], a[j]) by {
            assert(crate::order::chars_lt(a[i], a[j]));
        }
    }
    assert(vstd::relations::sorted_by(b, le)) by {
        assert forall|i: int, j: int| 0 <= i < j < b.len() implies #[trigger] le(b[i], b[j]) by {
            assert(crate::order::chars_lt(b[i], b[j]));
        }
    }
    crate::order::lemma_sorted_unique(a, b, le);
}

/// A text is in the concatenation of lists exactly when one of them holds it.
proof fn lemma_flatten_contains(xs: Seq<Seq<Seq<char>>>, x: Seq<char>)
    ensures
        crate::index::flatten(xs).contains(x) <==> exists|i: int| 0 <= i < xs.len() && (#[trigger] xs[i]).contains(x),
    decreases xs.len(),
{
    if xs.len() > 0 {
        let init = xs.drop_last();
        let l = xs.last();
        let f = crate::index::flatten(init);
        lemma_flatten_contains(init, x);
        if (f + l).contains(x) {
            let k = choose|k: int| 0 <= k < (f + l).len() && (f + l)[k] == x;
            if k < f.len() {
                assert(f[k] == x);
                let i = choose|i: int| 0 <= i < init.len() && (#[trigger] init[i]).contains(x);
                assert(xs[i] == init[i]);
            } else {
                assert(l[k - f.len()] == x);
                assert(xs[xs.len() - 1] == l);
            }
        }
        if exists|i: int| 0 <= i < xs.len() && (#[trigger] xs[i]).contains(x) {
            let i = choose|i: int| 0 <= i < xs.len() && (#[trigger] xs[i]).contains(x);
            if i < init.len() {
                assert(init[i] == xs[i]);
                let k = choose|k: int| 0 <= k < f.len() && f[k] == x;
                assert((f + l)[k] == x);
            } else {
                let k = choose|k: int| 0 <= k < l.len() && l[k] == x;
                assert((f + l)[f.len() + k] == x);
            }
        }
    }
}

/// Lists of lists that are permutations of each other flatten to the same set.
proof fn lemma_flatten_set_perm(xs: Seq<Seq<Seq<char>>>, ys: Seq<Seq<Seq<char>>>)
    requires
        xs.to_multiset() =~= ys.to_multiset(),
    ensures
        crate::index::flatten(xs).to_set() == crate::index::flatten(ys).to_set(),
{
    broadcast use vstd::seq_lib::group_to_multiset_ensures;
    xs.to_multiset_ensures();
    ys.to_multiset_ensures();
    assert forall|x: Seq<char>| crate::index::flatten(xs).to_set().contains(x) == crate::index::flatten(ys).to_set().contains(x) by {
        lemma_flatten_contains(xs, x);
        lemma_flatten_contains(ys, x);
        if exists|i: int| 0 <= i < xs.len() && (#[trigger] xs[i]).contains(x) {
            let i = choose|i: int| 0 <= i < xs.len() && (#[trigger] xs[i]).contains(x);
            assert(xs.contains(xs[i]));
            assert(xs.to_multiset().count(xs[i]) > 0);
            assert(ys.to_multiset().count(xs[i]) > 0);
            assert(ys.contains(xs[i]));
            let j = choose|j: int| 0 <= j < ys.len() && ys[j] == xs[i];
            assert(ys[j].contains(x));
        }
        if exists|j: int| 0 <= j < ys.len() && (#[trigger] ys[j]).contains(x) {
            let j = choose|j: int| 0 <= j < ys.len() && (#[trigger] ys[j]).contains(x);
            assert(ys.contains(ys[j]));
            assert(ys.to_multiset().count(ys[j]) > 0);
            assert(xs.to_multiset().count(ys[j]) > 0);
            assert(xs.contains(ys[j]));
            let i = choose|i: int| 0 <= i < xs.len() && xs[i] == ys[j];
            assert(xs[i].contains(x));
        }
    }
    assert(crate::index::flatten(xs).to_set() =~= crate::index::flatten(ys).to_set());
}

/// The lowest confidence of files, from which bands occur among them.
pub open spec fn band_floor(bands: Seq<ConfidenceBand>) -> ConfidenceBand {
    if bands.contains(ConfidenceBand::NoConfidence) {
        ConfidenceBand::NoConfidence
    } else if bands.contains(ConfidenceBand::Low) {
        ConfidenceBand::Low
    } else {
        ConfidenceBand::High
    }
}

proof fn lemma_lowest_is_floor(files: Seq<FileResult>)
    ensures
        lowest_confidence(files) == band_floor(files.map_values(|f: FileResult| f.confidence)),
    decreases files.len(),
{
    if files.len() > 0 {
        let init = files.drop_last();
        lemma_lowest_is_floor(init);
        let bs = files.map_values(|f: FileResult| f.confidence);
        let bi = init.map_values(|f: FileResult| f.confidence);
        assert(bs =~= bi.push(files.last().confidence));
        assert(bs[bs.len() - 1] == files.last().confidence);
        assert forall|c: ConfidenceBand| bs.contains(c) <==> (bi.contains(c) || c == files.last().confidence) by {
            if bs.contains(c) {
                let k = choose|k: int| 0 <= k < bs.len() && bs[k] == c;
                if k < bi.len() {
                    assert(bi[k] == c);
                }
            }
            if bi.contains(c) {
                let k = choose|k: int| 0 <= k < bi.len() && bi[k] == c;
                assert(bs[k] == c);
            }
        }
    }
}

/// Aggregating a module does not depend on the order of its files: for
/// two orderings of the same files, every derived field is the same, and
/// the file lists hold the same paths.
pub proof fn law_aggregate_ignores_file_order(
    a: ModuleResult,
    b: ModuleResult,
    module_id: Seq<char>,
    files: Seq<FileResult>,
    files2: Seq<FileResult>,
    fanin_fanout: Option<(usize, usize)>,
    drift: Option<ChangeClass>,
)
    requires
        is_module_of(a, module_id, files, fanin_fanout, drift),
        is_module_of(b, module_id, files2, fanin_fanout, drift),
        files.to_multiset() =~= files2.to_multiset(),
    ensures
        views(a.exports@) == views(b.exports@),
        views(a.dependencies@) == views(b.dependencies@),
        views(a.side_effects@) == views(b.side_effects@),
        a.language@ == b.language@,
        a.semantic_fingerprint@ == b.semantic_fingerprint@,
        a.responsibility@ == b.responsibility@,
        a.confidence == b.confidence,
        a.fan_in == b.fan_in,
        a.fan_out == b.fan_out,
        a.drift_level@ == b.drift_level@,
        views(a.files@).to_multiset() == views(b.files@).to_multiset(),
{
    broadcast use vstd::seq_lib::group_to_multiset_ensures;
    let ex = |fr: FileResult| file_exports(fr);
    let im = |fr: FileResult| file_imports(fr);
    let ef = |fr: FileResult| file_effects(fr);
    crate::order::lemma_map_multiset(files, files2, ex);
    crate::order::lemma_map_multiset(files, files2, im);
    crate::order::lemma_map_multiset(files, files2, ef);
    lemma_flatten_set_perm(files.map_values(ex), files2.map_values(ex));
    lemma_flatten_set_perm(files.map_values(im), files2.map_values(im));
    lemma_flatten_set_perm(files.map_values(ef), files2.map_values(ef));
    lemma_strictly_sorted_same_set(views(a.exports@), views(b.exports@));
    lemma_strictly_sorted_same_set(views(a.dependencies@), views(b.dependencies@));
    assert(a.dependencies@.len() == views(a.dependencies@).len());
    assert(b.dependencies@.len() == views(b.dependencies@).len());
    lemma_strictly_sorted_same_set(views(a.side_effects@), views(b.side_effects@));
    let cf = |fr: FileResult| child_fingerprint(fr);
    crate::order::lemma_map_multiset(files, files2, cf);
    crate::order::lemma_sorted_rank_perm::<String>(files.map_values(cf), files2.map_values(cf));
    files.to_multiset_ensures();
    files2.to_multiset_ensures();
    assert(files.len() == files2.len());
    let pf = |fr: FileResult| fr.file_path@;
    crate::order::lemma_map_multiset(files, files2, pf);
    let bf = |f: FileResult| f.confidence;
    crate::order::lemma_map_multiset(files, files2, bf);
    lemma_lowest_is_floor(files);
    lemma_lowest_is_floor(files2);
    files.map_values(bf).to_multiset_ensures();
    files2.map_values(bf).to_multiset_ensures();
    assert forall|c: ConfidenceBand| files.map_values(bf).contains(c) == files2.map_values(bf).contains(c) by {
        assert(files.map_values(bf).to_multiset().count(c) == files2.map_values(bf).to_multiset().count(c));
    }
    let lf = |fr: FileResult| module_language(path_extension(fr.file_path@));
    crate::order::lemma_map_multiset(files, files2, lf);
    lemma_language_perm(files.map_values(lf), files2.map_values(lf));
}

proof fn lemma_language_perm(l1: Seq<Seq<char>>, l2: Seq<Seq<char>>)
    requires
        l1.to_multiset() =~= l2.to_multiset(),
    ensures
        module_language_of(l1) == module_language_of(l2),
{
    broadcast use vstd::seq_lib::group_to_multiset_ensures;
    l1.to_multiset_ensures();
    l2.to_multiset_ensures();
    assert(l1.len() == l2.len());
    if l1.len() > 0 && forall|i: int| 0 <= i < l1.len() ==> #[trigger] l1[i] == l1[0] {
        assert forall|j: int| 0 <= j < l2.len() implies #[trigger] l2[j] == l1[0] by {
            assert(l2.contains(l2[j]));
            assert(l2.to_multiset().count(l2[j]) > 0);
            assert(l1.to_multiset().count(l2[j]) > 0);
            assert(l1.contains(l2[j]));
        }
    }
    if l2.len() > 0 && forall|i: int| 0 <= i < l2.len() ==> #[trigger] l2[i] == l2[0] {
        assert forall|j: int| 0 <= j < l1.len() implies #[trigger] l1[j] == l2[0] by {
            assert(l1.contains(l1[j]));
            assert(l1.to_multiset().count(l1[j]) > 0);
            assert(l2.to_multiset().count(l1[j]) > 0);
            assert(l2.contains(l1[j]));
        }
    }
}

} // verus!
