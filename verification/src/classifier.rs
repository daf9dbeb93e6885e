//! Classifies a changed file into a material change class (C0..C3).
use crate::depgraph::{importers_in, ReverseDepGraph};
use crate::diff_types::{ChangedFile, FileStatus};
use crate::fingerprint::{
    compute_semantic_fingerprint, compute_source_fingerprint, export_item, import_item, law_semantic_fingerprint_ignores_order,
    semantic_fingerprint, side_item, sig_item, source_fingerprint,
};
use crate::mirror_types::FingerprintResult;
use crate::template::is_header_for;
use crate::mirror_types::MirrorHeader;
use crate::text::{concat2, contains_text, decimal, decimal_string, join, join_with, owned, str_eq, views};
use crate::types::{ChangeClass, DependencyEdge, ExportedSymbol, FileResult, FunctionSignature, Parameter, SideEffect};
use vstd::prelude::*;

verus! {

/// A classification: class, summary and evidence lines.
pub type Classification = (ChangeClass, Seq<char>, Seq<Seq<char>>);

/// The contract text of a signature: `name(p: T, q: U)`.
pub open spec fn contract_text(s: FunctionSignature) -> Seq<char> {
    s.name@ + "("@ + join_with(s.parameters@.map_values(|p: Parameter| p.name@ + ": "@ + p.type_annotation@), ", "@) + ")"@
}

/// A list of texts, or the empty list when absent.
pub open spec fn texts_or_empty(o: Option<Vec<String>>) -> Seq<Seq<char>> {
    match o {
        Some(v) => views(v@),
        None => Seq::<Seq<char>>::empty(),
    }
}

/// The exports recorded in a mirror differ (as sets of names) from the current ones.
pub open spec fn exports_differ_spec(header_exports: Seq<Seq<char>>, current: Seq<ExportedSymbol>) -> bool {
    header_exports.to_set() != current.map_values(|e: ExportedSymbol| e.name@).to_set()
}

/// The contracts recorded in a mirror differ (as sets) from the current signatures.
pub open spec fn signatures_differ_spec(header_contracts: Seq<Seq<char>>, current: Seq<FunctionSignature>) -> bool {
    header_contracts.to_set() != current.map_values(|s: FunctionSignature| contract_text(s)).to_set()
}

/// What classification reads of a parse result: its exports, its
/// signatures and its semantic fingerprint.
pub type ResultFacts = (Seq<ExportedSymbol>, Seq<FunctionSignature>, Seq<char>);

/// The facts of a parse result.
pub open spec fn facts_of(fr: FileResult) -> ResultFacts {
    (fr.exports@, fr.signatures@, semantic_fingerprint(fr))
}

/// The class of a new file.
pub open spec fn new_file_class(count: nat, threshold: nat, facts: ResultFacts) -> ChangeClass {
    if count >= threshold {
        ChangeClass::C3
    } else if facts.0.len() > 0 {
        ChangeClass::C2
    } else {
        ChangeClass::C1
    }
}

/// How a modified file with an existing mirror is classified.
pub open spec fn classify_with_header(
    path: Seq<char>,
    source_fp: Seq<char>,
    facts: ResultFacts,
    h: MirrorHeader,
    count: nat,
    threshold: nat,
) -> Option<Classification> {
    if h.source_fingerprint@ == source_fp {
        None
    } else if h.semantic_fingerprint@ == facts.2 {
        Some((
            ChangeClass::C0,
            "Formatting/comment change in "@ + path,
            seq![
                "source_fingerprint changed: "@ + h.source_fingerprint@ + " -> "@ + source_fp,
                "semantic_fingerprint unchanged"@,
            ],
        ))
    } else {
        let ex = exports_differ_spec(texts_or_empty(h.exports), facts.0);
        let sg = signatures_differ_spec(texts_or_empty(h.contracts), facts.1);
        if count >= threshold {
            Some((
                ChangeClass::C3,
                "Systemic change in "@ + path + " (imported by "@ + decimal(count) + " files)"@,
                seq![
                    "semantic_fingerprint changed"@,
                    "importer_count: "@ + decimal(count) + " >= threshold: "@ + decimal(threshold),
                ],
            ))
        } else if ex || sg {
            let e0 = seq!["semantic_fingerprint changed"@];
            let e1 = if ex { e0.push("exports changed"@) } else { e0 };
            let e2 = if sg { e1.push("signatures changed"@) } else { e1 };
            Some((ChangeClass::C2, "Contract change in "@ + path, e2))
        } else {
            Some((
                ChangeClass::C1,
                "Internal change in "@ + path,
                seq!["semantic_fingerprint changed"@, "exports and signatures unchanged"@],
            ))
        }
    }
}

/// How a changed file is classified.
///
/// `header` is the header of the file's existing mirror, if one could be
/// read; `edges` are the import edges of the repository.
pub open spec fn classification(
    cf: ChangedFile,
    source: Seq<char>,
    facts: ResultFacts,
    header: Option<MirrorHeader>,
    threshold: nat,
    edges: Seq<(Seq<char>, Seq<char>)>,
) -> Option<Classification> {
    let path = cf.path@;
    let count = importers_in(edges, path).len();
    match cf.status {
        FileStatus::Added => Some((
            new_file_class(count, threshold, facts),
            "New file: "@ + path,
            seq!["File added to repository"@, "Exports: "@ + decimal(facts.0.len())],
        )),
        FileStatus::Deleted => Some((
            if count >= threshold {
                ChangeClass::C3
            } else if count > 0 {
                ChangeClass::C2
            } else {
                ChangeClass::C1
            },
            "File deleted: "@ + path,
            seq!["Source file no longer exists"@],
        )),
        FileStatus::Modified => match header {
            Some(h) => classify_with_header(
                path,
                source_fingerprint(source),
                facts,
                h,
                count,
                threshold,
            ),
            None => Some((
                if facts.0.len() > 0 { ChangeClass::C2 } else { ChangeClass::C1 },
                "New file (no existing mirror): "@ + path,
                seq!["No mirror found — needs generation"@],
            )),
        },
    }
}

/// A classification result seen as text.
pub open spec fn classification_view(r: Option<(ChangeClass, String, Vec<String>)>) -> Option<Classification> {
    match r {
        Some(t) => Some((t.0, t.1@, views(t.2@))),
        None => None,
    }
}

/// Whether two lists hold the same set of texts.
pub fn same_text_set(a: &Vec<String>, b: &Vec<String>) -> (r: bool)
    ensures
        r == (views(a@).to_set() == views(b@).to_set()),
{
    let mut i: usize = 0;
    while i < a.len()
        invariant
            i <= a.len(),
            forall|k: int| 0 <= k < i ==> views(b@).contains(#[trigger] views(a@)[k]),
        decreases a.len() - i,
    {
        if !contains_text(b, a[i].as_str()) {
            proof {
                assert(views(a@)[i as int] == a@[i as int]@);
                assert(views(a@).to_set().contains(a@[i as int]@));
                assert(!views(b@).to_set().contains(a@[i as int]@));
            }
            return false;
        }
        i = i + 1;
    }
    let mut j: usize = 0;
    while j < b.len()
        invariant
            j <= b.len(),
            forall|k: int| 0 <= k < a@.len() ==> views(b@).contains(#[trigger] views(a@)[k]),
            forall|k: int| 0 <= k < j ==> views(a@).contains(#[trigger] views(b@)[k]),
        decreases b.len() - j,
    {
        if !contains_text(a, b[j].as_str()) {
            proof {
                assert(views(b@)[j as int] == b@[j as int]@);
                assert(views(b@).to_set().contains(b@[j as int]@));
                assert(!views(a@).to_set().contains(b@[j as int]@));
            }
            return false;
        }
        j = j + 1;
    }
    proof {
        assert forall|t: Seq<char>| views(a@).to_set().contains(t) <==> views(b@).to_set().contains(t) by {
            if views(a@).contains(t) {
                let k = choose|k: int| 0 <= k < views(a@).len() && views(a@)[k] == t;
            }
            if views(b@).contains(t) {
                let k = choose|k: int| 0 <= k < views(b@).len() && views(b@)[k] == t;
            }
        }
        assert(views(a@).to_set() =~= views(b@).to_set());
    }
    true
}

fn header_texts(o: &Option<Vec<String>>) -> (r: Vec<String>)
    ensures
        views(r@) == texts_or_empty(*o),
{
    match o {
        Some(v) => crate::text::copy_strings(v),
        None => Vec::new(),
    }
}

fn export_names(exports: &Vec<ExportedSymbol>) -> (r: Vec<String>)
    ensures
        views(r@) == exports@.map_values(|e: ExportedSymbol| e.name@),
{
    let mut r: Vec<String> = Vec::new();
    let mut i: usize = 0;
    while i < exports.len()
        invariant
            i <= exports.len(),
            views(r@) == exports@.map_values(|e: ExportedSymbol| e.name@).take(i as int),
        decreases exports.len() - i,
    {
        let ghost old_r = r@;
        r.push(owned(exports[i].name.as_str()));
        proof { crate::text::lemma_views_push(old_r, r@.last()); }
        i = i + 1;
        assert(views(r@) =~= exports@.map_values(|e: ExportedSymbol| e.name@).take(i as int));
    }
    assert(exports@.map_values(|e: ExportedSymbol| e.name@).take(exports.len() as int)
        =~= exports@.map_values(|e: ExportedSymbol| e.name@));
    r
}

/// The contract text of a signature: `name(p: T, q: U)`.
pub fn contract_string(s: &FunctionSignature) -> (r: String)
    ensures
        r@ == contract_text(*s),
{
    let ghost want = s.parameters@.map_values(|p: Parameter| p.name@ + ": "@ + p.type_annotation@);
    let mut parts: Vec<String> = Vec::new();
    let mut i: usize = 0;
    while i < s.parameters.len()
        invariant
            i <= s.parameters.len(),
            want == s.parameters@.map_values(|p: Parameter| p.name@ + ": "@ + p.type_annotation@),
            views(parts@) == want.take(i as int),
        decreases s.parameters.len() - i,
    {
        let p = &s.parameters[i];
        let ghost old_parts = parts@;
        parts.push(crate::text::concat3(p.name.as_str(), ": ", p.type_annotation.as_str()));
        proof { crate::text::lemma_views_push(old_parts, parts@.last()); }
        i = i + 1;
        assert(views(parts@) =~= want.take(i as int));
    }
    assert(want.take(s.parameters.len() as int) =~= want);
    let joined = join(&parts, ", ");
    let mut r = concat2(s.name.as_str(), "(");
    r.append(joined.as_str());
    r.append(")");
    r
}

/// Whether the mirror's recorded exports differ from the current export names.
pub fn exports_differ(header_exports: &Option<Vec<String>>, current_exports: &Vec<ExportedSymbol>) -> (r: bool)
    ensures
        r == exports_differ_spec(texts_or_empty(*header_exports), current_exports@),
{
    let h = header_texts(header_exports);
    let c = export_names(current_exports);
    !same_text_set(&h, &c)
}

/// Whether the mirror's recorded contracts differ from the current signatures.
pub fn signatures_differ(header_contracts: &Option<Vec<String>>, current_signatures: &Vec<FunctionSignature>) -> (r: bool)
    ensures
        r == signatures_differ_spec(texts_or_empty(*header_contracts), current_signatures@),
{
    let h = header_texts(header_contracts);
    let ghost want = current_signatures@.map_values(|s: FunctionSignature| contract_text(s));
    let mut c: Vec<String> = Vec::new();
    let mut i: usize = 0;
    while i < current_signatures.len()
        invariant
            i <= current_signatures.len(),
            want == current_signatures@.map_values(|s: FunctionSignature| contract_text(s)),
            views(c@) == want.take(i as int),
        decreases current_signatures.len() - i,
    {
        let ghost old_c = c@;
        c.push(contract_string(&current_signatures[i]));
        proof { crate::text::lemma_views_push(old_c, c@.last()); }
        i = i + 1;
        assert(views(c@) =~= want.take(i as int));
    }
    assert(want.take(current_signatures.len() as int) =~= want);
    !same_text_set(&h, &c)
}

fn one_line(s: &str) -> (r: Vec<String>)
    ensures
        views(r@) == seq![s@],
{
    let mut r: Vec<String> = Vec::new();
    r.push(owned(s));
    assert(views(r@) =~= seq![s@]);
    r
}

fn two_lines(a: String, b: String) -> (r: Vec<String>)
    ensures
        views(r@) == seq![a@, b@],
{
    let mut r: Vec<String> = Vec::new();
    r.push(a);
    r.push(b);
    assert(views(r@) =~= seq![a@, b@]);
    r
}

pub fn classify_modified(
    changed_file: &ChangedFile,
    current_source: &str,
    current_result: &FileResult,
    existing_header: Option<&MirrorHeader>,
    systemic_threshold: usize,
    dep_graph: &ReverseDepGraph,
) -> (r: Option<(ChangeClass, String, Vec<String>)>)
    requires
        changed_file.status == FileStatus::Modified,
    ensures
        classification_view(r) == classification(
            *changed_file,
            current_source@,
            facts_of(*current_result),
            match existing_header { Some(h) => Some(*h), None => None },
            systemic_threshold as nat,
            dep_graph@,
        ),
{
    let path = changed_file.path.as_str();
    match existing_header {
        None => {
            let summary = concat2("New file (no existing mirror): ", path);
            let evidence = one_line("No mirror found — needs generation");
            let class = if current_result.exports.len() > 0 { ChangeClass::C2 } else { ChangeClass::C1 };
            Some((class, summary, evidence))
        },
        Some(header) => {
            let current_source_fp = compute_source_fingerprint(current_source);
            let current_semantic_fp = compute_semantic_fingerprint(current_result);
            let source_changed = !str_eq(header.source_fingerprint.as_str(), current_source_fp.as_str());
            let semantic_changed = !str_eq(header.semantic_fingerprint.as_str(), current_semantic_fp.as_str());
            if !source_changed {
                return None;
            }
            if !semantic_changed {
                let summary = concat2("Formatting/comment change in ", path);
                let mut first = concat2("source_fingerprint changed: ", header.source_fingerprint.as_str());
                first.append(" -> ");
                first.append(current_source_fp.as_str());
                let evidence = two_lines(first, owned("semantic_fingerprint unchanged"));
                return Some((ChangeClass::C0, summary, evidence));
            }
            let exports_changed = exports_differ(&header.exports, &current_result.exports);
            let signatures_changed = signatures_differ(&header.contracts, &current_result.signatures);
            let importer_count = dep_graph.importer_count(path);
            if importer_count >= systemic_threshold {
                let count_text = decimal_string(importer_count);
                let mut summary = concat2("Systemic change in ", path);
                summary.append(" (imported by ");
                summary.append(count_text.as_str());
                summary.append(" files)");
                let mut second = concat2("importer_count: ", count_text.as_str());
                second.append(" >= threshold: ");
                let thr = decimal_string(systemic_threshold);
                second.append(thr.as_str());
                let evidence = two_lines(owned("semantic_fingerprint changed"), second);
                Some((ChangeClass::C3, summary, evidence))
            } else if exports_changed || signatures_changed {
                let mut evidence = one_line("semantic_fingerprint changed");
                let ghost e0 = views(evidence@);
                if exports_changed {
                    evidence.push(owned("exports changed"));
                }
                let ghost e1 = views(evidence@);
                assert(e1 =~= if exports_changed { e0.push("exports changed"@) } else { e0 });
                if signatures_changed {
                    evidence.push(owned("signatures changed"));
                }
                assert(views(evidence@) =~= if signatures_changed { e1.push("signatures changed"@) } else { e1 });
                Some((ChangeClass::C2, concat2("Contract change in ", path), evidence))
            } else {
                let evidence = two_lines(owned("semantic_fingerprint changed"), owned("exports and signatures unchanged"));
                Some((ChangeClass::C1, concat2("Internal change in ", path), evidence))
            }
        },
    }
}

/// Classifies a changed file.
///
/// `existing_header` is the header of the file's current mirror, when one
/// could be read (the caller reads it from `<mirror root>/<path>.md`).
/// Returns `None` only for a modified file whose source fingerprint still
/// matches its mirror.
pub fn classify_change(
    changed_file: &ChangedFile,
    current_source: &str,
    current_result: &FileResult,
    existing_header: Option<&MirrorHeader>,
    systemic_threshold: usize,
    dep_graph: &ReverseDepGraph,
) -> (r: Option<(ChangeClass, String, Vec<String>)>)
    ensures
        classification_view(r) == classification(
            *changed_file,
            current_source@,
            facts_of(*current_result),
            match existing_header { Some(h) => Some(*h), None => None },
            systemic_threshold as nat,
            dep_graph@,
        ),
{
    let path = changed_file.path.as_str();
    match changed_file.status {
        FileStatus::Added => {
            let summary = concat2("New file: ", path);
            let n = decimal_string(current_result.exports.len());
            let evidence = two_lines(owned("File added to repository"), concat2("Exports: ", n.as_str()));
            let importer_count = dep_graph.importer_count(path);
            let class = if importer_count >= systemic_threshold {
                ChangeClass::C3
            } else if current_result.exports.len() > 0 {
                ChangeClass::C2
            } else {
                ChangeClass::C1
            };
            Some((class, summary, evidence))
        },
        FileStatus::Deleted => {
            let summary = concat2("File deleted: ", path);
            let evidence = one_line("Source file no longer exists");
            let importer_count = dep_graph.importer_count(path);
            let class = if importer_count >= systemic_threshold {
                ChangeClass::C3
            } else if importer_count > 0 {
                ChangeClass::C2
            } else {
                ChangeClass::C1
            };
            Some((class, summary, evidence))
        },
        FileStatus::Modified => classify_modified(
            changed_file,
            current_source,
            current_result,
            existing_header,
            systemic_threshold,
            dep_graph,
        ),
    }
}

// ─── Laws ───────────────────────────────────────────────────────────────────

/// A mirror written from a file's current source shows no drift: a modified
/// file whose mirror header was generated with the fingerprint of its
/// current source is no material change.
pub proof fn law_fresh_mirror_is_not_drift(
    cf: ChangedFile,
    source: Seq<char>,
    facts: ResultFacts,
    fr: FileResult,
    fp: FingerprintResult,
    source_commit: Seq<char>,
    module_id: Seq<char>,
    generated_at: Seq<char>,
    h: MirrorHeader,
    threshold: nat,
    edges: Seq<(Seq<char>, Seq<char>)>,
)
    requires
        cf.status == FileStatus::Modified,
        is_header_for(h, fr, fp, source_commit, module_id, generated_at),
        fp.source@ == source_fingerprint(source),
    ensures
        classification(cf, source, facts, Some(h), threshold, edges) is None,
{
}

/// A change that leaves the semantic fingerprint as the mirror recorded it
/// is a formatting or comment change (C0).
pub proof fn law_unchanged_semantics_is_c0(
    cf: ChangedFile,
    source: Seq<char>,
    fr: FileResult,
    h: MirrorHeader,
    threshold: nat,
    edges: Seq<(Seq<char>, Seq<char>)>,
)
    requires
        cf.status == FileStatus::Modified,
        h.source_fingerprint@ != source_fingerprint(source),
        h.semantic_fingerprint@ == semantic_fingerprint(fr),
    ensures
        classification(cf, source, facts_of(fr), Some(h), threshold, edges) matches Some(c) && c.0 == ChangeClass::C0,
{
}

/// Reordering a file's declarations is no semantic change: when the mirror
/// was generated from a parse result and the file now parses to the same
/// items in another order (with other line numbers), a changed source is
/// classified C0.
pub proof fn law_reordering_is_c0(
    cf: ChangedFile,
    source: Seq<char>,
    fr_before: FileResult,
    fr_now: FileResult,
    fp: FingerprintResult,
    source_commit: Seq<char>,
    module_id: Seq<char>,
    generated_at: Seq<char>,
    h: MirrorHeader,
    threshold: nat,
    edges: Seq<(Seq<char>, Seq<char>)>,
)
    requires
        cf.status == FileStatus::Modified,
        is_header_for(h, fr_before, fp, source_commit, module_id, generated_at),
        fp.semantic@ == semantic_fingerprint(fr_before),
        fp.source@ != source_fingerprint(source),
        fr_before.confidence == fr_now.confidence,
        fr_before.exports@.map_values(|e: ExportedSymbol| export_item(e)).to_multiset()
            =~= fr_now.exports@.map_values(|e: ExportedSymbol| export_item(e)).to_multiset(),
        fr_before.imports@.map_values(|d: DependencyEdge| import_item(d)).to_multiset()
            =~= fr_now.imports@.map_values(|d: DependencyEdge| import_item(d)).to_multiset(),
        fr_before.side_effects@.map_values(|s: SideEffect| side_item(s)).to_multiset()
            =~= fr_now.side_effects@.map_values(|s: SideEffect| side_item(s)).to_multiset(),
        fr_before.signatures@.map_values(|s: FunctionSignature| sig_item(s)).to_multiset()
            =~= fr_now.signatures@.map_values(|s: FunctionSignature| sig_item(s)).to_multiset(),
    ensures
        classification(cf, source, facts_of(fr_now), Some(h), threshold, edges) matches Some(c) && c.0
            == ChangeClass::C0,
{
    law_semantic_fingerprint_ignores_order(fr_before, fr_now);
    law_unchanged_semantics_is_c0(cf, source, fr_now, h, threshold, edges);
}

/// A modified file whose mirror records other exports or other contracts
/// than it now has is a contract change.  For a modified file with a mirror,
/// below the systemic threshold, whose source and semantic fingerprints
/// changed: the class is C2 exactly when the export names or the contract
/// texts (`name(p: T, ..)`) recorded in the mirror differ, as sets, from the
/// current ones, and C1 otherwise; a change of contracts is given as the
/// evidence `signatures changed`, one of exports as `exports changed`.
pub proof fn law_contract_changes_are_c2(
    cf: ChangedFile,
    source: Seq<char>,
    facts: ResultFacts,
    h: MirrorHeader,
    threshold: nat,
    edges: Seq<(Seq<char>, Seq<char>)>,
)
    requires
        cf.status == FileStatus::Modified,
        h.source_fingerprint@ != source_fingerprint(source),
        h.semantic_fingerprint@ != facts.2,
        importers_in(edges, cf.path@).len() < threshold,
    ensures
        ({
            let r = classification(cf, source, facts, Some(h), threshold, edges);
            let recorded_exports = texts_or_empty(h.exports).to_set();
            let current_exports = facts.0.map_values(|e: ExportedSymbol| e.name@).to_set();
            let recorded_contracts = texts_or_empty(h.contracts).to_set();
            let current_contracts = facts.1.map_values(|s: FunctionSignature| contract_text(s)).to_set();
            let changed = recorded_exports != current_exports || recorded_contracts != current_contracts;
            let c = r.unwrap();
            &&& r is Some
            &&& (c.0 == ChangeClass::C2) == changed
            &&& (c.0 == ChangeClass::C1) == !changed
            &&& (recorded_contracts != current_contracts ==> c.2.contains("signatures changed"@))
            &&& (recorded_exports != current_exports ==> c.2.contains("exports changed"@))
        }),
{
    let r = classification(cf, source, facts, Some(h), threshold, edges);
    let ex = exports_differ_spec(texts_or_empty(h.exports), facts.0);
    let sg = signatures_differ_spec(texts_or_empty(h.contracts), facts.1);
    if ex || sg {
        let e0 = seq!["semantic_fingerprint changed"@];
        let e1 = if ex { e0.push("exports changed"@) } else { e0 };
        let e2 = if sg { e1.push("signatures changed"@) } else { e1 };
        assert(r.unwrap().2 == e2);
        if sg {
            assert(e2[e2.len() - 1] == "signatures changed"@);
        }
        if ex {
            assert(e1[e1.len() - 1] == "exports changed"@);
            assert(e2[e1.len() - 1] == "exports changed"@);
        }
    }
}

} // verus!
