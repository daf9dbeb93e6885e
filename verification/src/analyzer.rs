//! Drift analysis: classifies each changed file and lists the mirrors that
//! the changes make stale.
use crate::classifier::{classification, classification_view, classify_change, facts_of, Classification, ResultFacts};
use crate::depgraph::{affected_order, all_edges, ReverseDepGraph};
use crate::diff_types::{ChangedFile, DiffResult, FileStatus};
use crate::fingerprint::{digest_text, empty_result_json, lemma_empty_result_json, semantic_fingerprint};
use crate::gate::policy_view;
use crate::mirror_types::MirrorHeader;
use crate::text::{concat2, owned, str_eq, views};
use crate::types::{AffectedArtifact, ChangeClass, ConfidenceBand, DriftReport, FileResult, MaterialChange, PolicyResult};
use vstd::prelude::*;

verus! {

/// A material change seen as text: class, source path, summary, evidence.
pub type ChangeView = (ChangeClass, Seq<char>, Seq<char>, Option<Seq<Seq<char>>>);

/// An affected artifact seen as text: id, freshness before and after, drift
/// level, reason, recommended action.
pub type ArtifactView = (Seq<char>, Seq<char>, Seq<char>, Seq<char>, Seq<char>, Option<Seq<char>>);

/// A changed file that was classified: its path and its classification.
pub type Found = (Seq<char>, Classification);

/// The text of a material change.
pub open spec fn change_view(m: MaterialChange) -> ChangeView {
    (
        m.change_class,
        m.source_path@,
        m.summary@,
        match m.evidence { Some(e) => Some(views(e@)), None => None },
    )
}

/// The text of an affected artifact.
pub open spec fn artifact_view(a: AffectedArtifact) -> ArtifactView {
    (
        a.artifact_id@,
        a.before_freshness@,
        a.after_freshness@,
        a.drift_level@,
        a.reason@,
        match a.recommended_action { Some(s) => Some(s@), None => None },
    )
}

/// The drift level of a mirror whose own source changed with class `c`.
pub open spec fn drift_level_of(c: ChangeClass) -> Seq<char> {
    match c {
        ChangeClass::C0 => "low"@,
        ChangeClass::C1 => "material"@,
        ChangeClass::C2 => "material"@,
        ChangeClass::C3 => "blocking"@,
    }
}

/// The last parse result for `path`, if any.
pub open spec fn last_result(frs: Seq<FileResult>, path: Seq<char>) -> Option<FileResult>
    decreases frs.len(),
{
    if frs.len() == 0 {
        None
    } else if frs.last().file_path@ == path {
        Some(frs.last())
    } else {
        last_result(frs.drop_last(), path)
    }
}

/// The facts of a file that has no parse result: it is read as a result
/// with no confidence and nothing in it.
pub open spec fn missing_facts() -> ResultFacts {
    (
        Seq::<crate::types::ExportedSymbol>::empty(),
        Seq::<crate::types::FunctionSignature>::empty(),
        digest_text(vstd::utf8::encode_utf8(empty_result_json(ConfidenceBand::NoConfidence))),
    )
}

/// The facts the classification of `path` reads.
pub open spec fn facts_for(frs: Seq<FileResult>, path: Seq<char>) -> ResultFacts {
    match last_result(frs, path) {
        Some(r) => facts_of(r),
        None => missing_facts(),
    }
}

/// How the `i`-th changed file is classified.
pub open spec fn outcome(
    cfs: Seq<ChangedFile>,
    sources: Seq<Seq<char>>,
    headers: Seq<Option<MirrorHeader>>,
    frs: Seq<FileResult>,
    threshold: nat,
    i: int,
) -> Option<Classification> {
    classification(cfs[i], sources[i], facts_for(frs, cfs[i].path@), headers[i], threshold, all_edges(frs))
}

/// The classified files among the first `n` changed files, in order.
pub open spec fn found_upto(
    cfs: Seq<ChangedFile>,
    sources: Seq<Seq<char>>,
    headers: Seq<Option<MirrorHeader>>,
    frs: Seq<FileResult>,
    threshold: nat,
    n: nat,
) -> Seq<Found>
    decreases n,
{
    if n == 0 {
        Seq::<Found>::empty()
    } else {
        let prev = found_upto(cfs, sources, headers, frs, threshold, (n - 1) as nat);
        match outcome(cfs, sources, headers, frs, threshold, n - 1) {
            Some(c) => prev.push((cfs[n - 1].path@, c)),
            None => prev,
        }
    }
}

/// The material change recorded for a classified file.
pub open spec fn change_of(f: Found) -> ChangeView {
    (f.1.0, f.0, f.1.1, Some(f.1.2))
}

/// The stale mirror of a classified file.
pub open spec fn direct_artifact(f: Found) -> ArtifactView {
    (
        "file_mirror:"@ + f.0,
        "fresh"@,
        "stale"@,
        drift_level_of(f.1.0),
        f.1.1,
        Some("Run anrsm run to update mirror"@),
    )
}

/// The stale mirror of a file that imports a changed file.
pub open spec fn neighbor_artifact(p: Seq<char>) -> ArtifactView {
    (
        "file_mirror:"@ + p,
        "fresh"@,
        "stale"@,
        "low"@,
        "Imports a changed file"@,
        Some("Run anrsm run to update mirror"@),
    )
}

/// Whether some classified file has class `c`.
pub open spec fn found_class(found: Seq<Found>, c: ChangeClass) -> bool {
    exists|k: int| 0 <= k < found.len() && #[trigger] found[k].1.0 == c
}

/// The overall drift level of a report.
pub open spec fn overall_level(found: Seq<Found>) -> Seq<char> {
    if found_class(found, ChangeClass::C3) {
        "blocking"@
    } else if found_class(found, ChangeClass::C2) || found_class(found, ChangeClass::C1) || found_class(
        found,
        ChangeClass::C0,
    ) {
        "material"@
    } else if found.len() > 0 {
        "low"@
    } else {
        "none"@
    }
}

/// Whether `r` is the drift report for the given changes, parse results,
/// current sources and existing mirror headers (one of each per changed
/// file), with the given report id and time.
pub open spec fn is_drift_report(
    r: DriftReport,
    diff: DiffResult,
    frs: Seq<FileResult>,
    sources: Seq<Seq<char>>,
    headers: Seq<Option<MirrorHeader>>,
    threshold: nat,
    report_id: Seq<char>,
    generated_at: Seq<char>,
) -> bool {
    let cfs = diff.changed_files@;
    let found = found_upto(cfs, sources, headers, frs, threshold, cfs.len());
    let paths = cfs.map_values(|f: ChangedFile| f.path@);
    &&& r.report_version == 1
    &&& r.report_id@ == report_id
    &&& r.repo_commit_before@ == diff.head_commit@
    &&& r.repo_commit_after@ == "working-tree"@
    &&& r.generated_at@ == generated_at
    &&& r.drift_level@ == overall_level(found)
    &&& views(r.changed_files@) == paths
    &&& r.material_changes@.map_values(|m: MaterialChange| change_view(m)) == found.map_values(
        |f: Found| change_of(f),
    )
    &&& r.affected_artifacts@.map_values(|a: AffectedArtifact| artifact_view(a)) == found.map_values(
        |f: Found| direct_artifact(f),
    ) + affected_order(all_edges(frs), paths).map_values(|p: Seq<char>| neighbor_artifact(p))
    &&& policy_view(r.policy_result) == ("pending"@, Seq::<Seq<char>>::empty(), None::<Seq<Seq<char>>>, None::<Seq<Seq<char>>>)
}

/// The index of the last parse result for `path`.
fn find_result(frs: &Vec<FileResult>, path: &str) -> (r: Option<usize>)
    ensures
        match r {
            Some(k) => k < frs.len() && last_result(frs@, path@) == Some(frs@[k as int]),
            None => last_result(frs@, path@) is None,
        },
{
    let mut i: usize = frs.len();
    assert(frs@.take(frs.len() as int) =~= frs@);
    while i > 0
        invariant
            i <= frs.len(),
            last_result(frs@, path@) == last_result(frs@.take(i as int), path@),
        decreases i,
    {
        proof {
            assert(frs@.take(i as int).drop_last() =~= frs@.take(i - 1));
            assert(frs@.take(i as int).last() == frs@[i - 1]);
        }
        if str_eq(frs[i - 1].file_path.as_str(), path) {
            return Some(i - 1);
        }
        i = i - 1;
    }
    None
}

/// The stand-in parse result of a file that has none.
fn missing_result(path: &str) -> (fr: FileResult)
    ensures
        fr.file_path@ == path@,
        facts_of(fr) == missing_facts(),
{
    let fr = FileResult {
        file_path: owned(path),
        confidence: ConfidenceBand::NoConfidence,
        exports: Vec::new(),
        imports: Vec::new(),
        signatures: Vec::new(),
        side_effects: Vec::new(),
        parse_time_ms: 0,
        error_message: Some(owned("File not in parse results")),
    };
    proof {
        lemma_empty_result_json(fr);
        assert(fr.exports@ =~= Seq::<crate::types::ExportedSymbol>::empty());
        assert(fr.signatures@ =~= Seq::<crate::types::FunctionSignature>::empty());
    }
    fr
}

/// The drift level text of a class.
fn drift_level_text(c: ChangeClass) -> (s: String)
    ensures
        s@ == drift_level_of(c),
{
    match c {
        ChangeClass::C0 => owned("low"),
        ChangeClass::C1 => owned("material"),
        ChangeClass::C2 => owned("material"),
        ChangeClass::C3 => owned("blocking"),
    }
}

fn stale_artifact(path: &str, level: String, reason: String) -> (a: AffectedArtifact)
    ensures
        artifact_view(a) == ("file_mirror:"@ + path@, "fresh"@, "stale"@, level@, reason@, Some(
            "Run anrsm run to update mirror"@,
        )),
{
    AffectedArtifact {
        artifact_id: concat2("file_mirror:", path),
        before_freshness: owned("fresh"),
        after_freshness: owned("stale"),
        drift_level: level,
        reason,
        recommended_action: Some(owned("Run anrsm run to update mirror")),
    }
}

/// Analyses the drift of the changed files.
///
/// `sources[i]` is the current content of the `i`-th changed file (empty
/// when it could not be read) and `headers[i]` the header of its existing
/// mirror, if one could be read.  The report carries `report_id` and
/// `generated_at` as given; its policy result is left pending.
pub fn analyze_drift_with(
    diff_result: &DiffResult,
    file_results: &Vec<FileResult>,
    sources: &Vec<String>,
    headers: &Vec<Option<MirrorHeader>>,
    systemic_threshold: usize,
    report_id: String,
    generated_at: String,
) -> (r: DriftReport)
    requires
        sources.len() == diff_result.changed_files.len(),
        headers.len() == diff_result.changed_files.len(),
    ensures
        is_drift_report(
            r,
            *diff_result,
            file_results@,
            views(sources@),
            headers@,
            systemic_threshold as nat,
            report_id@,
            generated_at@,
        ),
{
    let graph = ReverseDepGraph::build(file_results);
    let cfs = &diff_result.changed_files;
    let ghost frs = file_results@;
    let ghost srcs = views(sources@);
    let ghost hdrs = headers@;
    let ghost thr = systemic_threshold as nat;
    let ghost all_paths = cfs@.map_values(|f: ChangedFile| f.path@);
    let mut material_changes: Vec<MaterialChange> = Vec::new();
    let mut affected_artifacts: Vec<AffectedArtifact> = Vec::new();
    let mut paths: Vec<String> = Vec::new();
    let mut any_c3 = false;
    let mut any_other = false;
    let mut i: usize = 0;
    while i < cfs.len()
        invariant
            i <= cfs.len(),
            cfs == &diff_result.changed_files,
            sources.len() == cfs.len(),
            headers.len() == cfs.len(),
            frs == file_results@,
            srcs == views(sources@),
            hdrs == headers@,
            thr == systemic_threshold as nat,
            all_paths == cfs@.map_values(|f: ChangedFile| f.path@),
            graph@ == all_edges(frs),
            views(paths@) == all_paths.take(i as int),
            material_changes@.map_values(|m: MaterialChange| change_view(m)) == found_upto(
                cfs@, srcs, hdrs, frs, thr, i as nat,
            ).map_values(|f: Found| change_of(f)),
            affected_artifacts@.map_values(|a: AffectedArtifact| artifact_view(a)) == found_upto(
                cfs@, srcs, hdrs, frs, thr, i as nat,
            ).map_values(|f: Found| direct_artifact(f)),
            any_c3 == found_class(found_upto(cfs@, srcs, hdrs, frs, thr, i as nat), ChangeClass::C3),
            any_other == (found_class(found_upto(cfs@, srcs, hdrs, frs, thr, i as nat), ChangeClass::C2)
                || found_class(found_upto(cfs@, srcs, hdrs, frs, thr, i as nat), ChangeClass::C1)
                || found_class(found_upto(cfs@, srcs, hdrs, frs, thr, i as nat), ChangeClass::C0)),
        decreases cfs.len() - i,
    {
        let cf = &cfs[i];
        let path = cf.path.as_str();
        let ghost prev = found_upto(cfs@, srcs, hdrs, frs, thr, i as nat);
        let ghost old_paths = paths@;
        paths.push(owned(path));
        proof {
            crate::text::lemma_views_push(old_paths, paths@.last());
            assert(all_paths[i as int] == path@);
            assert(views(paths@) =~= all_paths.take(i + 1));
        }
        let header: Option<&MirrorHeader> = match &headers[i] {
            Some(h) => Some(h),
            None => None,
        };
        let ghost hdr = match header { Some(h) => Some(*h), None => None };
        assert(hdr == hdrs[i as int]);
        assert(srcs[i as int] == sources@[i as int]@);
        let result = match find_result(file_results, path) {
            Some(k) => classify_change(cf, sources[i].as_str(), &file_results[k], header, systemic_threshold, &graph),
            None => {
                let stand_in = missing_result(path);
                classify_change(cf, sources[i].as_str(), &stand_in, header, systemic_threshold, &graph)
            },
        };
        assert(classification_view(result) == outcome(cfs@, srcs, hdrs, frs, thr, i as int));
        match result {
            Some((change_class, summary, evidence)) => {
                let ghost f: Found = (path@, (change_class, summary@, views(evidence@)));
                let level = drift_level_text(change_class);
                let reason = owned(summary.as_str());
                let ghost old_mc = material_changes@;
                let ghost old_aa = affected_artifacts@;
                material_changes.push(MaterialChange {
                    change_class,
                    source_path: owned(path),
                    summary,
                    evidence: Some(evidence),
                });
                affected_artifacts.push(stale_artifact(path, level, reason));
                if change_class == ChangeClass::C3 {
                    any_c3 = true;
                } else {
                    any_other = true;
                }
                proof {
                    let now = found_upto(cfs@, srcs, hdrs, frs, thr, (i + 1) as nat);
                    assert(now == prev.push(f));
                    assert(material_changes@.map_values(|m: MaterialChange| change_view(m)) =~= old_mc.map_values(
                        |m: MaterialChange| change_view(m),
                    ).push(change_of(f)));
                    assert(now.map_values(|g: Found| change_of(g)) =~= prev.map_values(|g: Found| change_of(g)).push(
                        change_of(f),
                    ));
                    assert(affected_artifacts@.map_values(|a: AffectedArtifact| artifact_view(a)) =~= old_aa.map_values(
                        |a: AffectedArtifact| artifact_view(a),
                    ).push(direct_artifact(f)));
                    assert(now.map_values(|g: Found| direct_artifact(g)) =~= prev.map_values(
                        |g: Found| direct_artifact(g),
                    ).push(direct_artifact(f)));
                    assert(now[prev.len() as int] == f);
                    assert forall|c: ChangeClass| found_class(now, c) <==> (found_class(prev, c) || f.1.0 == c) by {
                        if found_class(now, c) {
                            let k = choose|k: int| 0 <= k < now.len() && #[trigger] now[k].1.0 == c;
                            if k < prev.len() {
                                assert(prev[k] == now[k]);
                            }
                        }
                        if found_class(prev, c) {
                            let k = choose|k: int| 0 <= k < prev.len() && #[trigger] prev[k].1.0 == c;
                            assert(now[k] == prev[k]);
                        }
                    }
                }
            },
            None => {
                proof {
                    assert(found_upto(cfs@, srcs, hdrs, frs, thr, (i + 1) as nat) == prev);
                }
            },
        }
        i = i + 1;
    }
    proof {
        assert(all_paths.take(cfs.len() as int) =~= all_paths);
    }
    let ghost found = found_upto(cfs@, srcs, hdrs, frs, thr, cfs.len() as nat);
    let neighbors = graph.expand_affected(&paths);
    let ghost direct = affected_artifacts@.map_values(|a: AffectedArtifact| artifact_view(a));
    let ghost order = affected_order(all_edges(frs), all_paths);
    let mut j: usize = 0;
    while j < neighbors.len()
        invariant
            j <= neighbors.len(),
            views(neighbors@) == order,
            direct.len() <= affected_artifacts@.len(),
            affected_artifacts@.map_values(|a: AffectedArtifact| artifact_view(a)) == direct + order.take(
                j as int,
            ).map_values(|p: Seq<char>| neighbor_artifact(p)),
        decreases neighbors.len() - j,
    {
        let ghost old_aa = affected_artifacts@;
        affected_artifacts.push(stale_artifact(neighbors[j].as_str(), owned("low"), owned("Imports a changed file")));
        proof {
            assert(order[j as int] == neighbors@[j as int]@);
            assert(order.take(j + 1) =~= order.take(j as int).push(order[j as int]));
            assert(affected_artifacts@.map_values(|a: AffectedArtifact| artifact_view(a)) =~= old_aa.map_values(
                |a: AffectedArtifact| artifact_view(a),
            ).push(neighbor_artifact(order[j as int])));
            assert(order.take(j + 1).map_values(|p: Seq<char>| neighbor_artifact(p)) =~= order.take(
                j as int,
            ).map_values(|p: Seq<char>| neighbor_artifact(p)).push(neighbor_artifact(order[j as int])));
        }
        j = j + 1;
    }
    proof {
        assert(order.take(neighbors.len() as int) =~= order);
    }
    let drift_level = if any_c3 {
        owned("blocking")
    } else if any_other {
        owned("material")
    } else if material_changes.len() > 0 {
        owned("low")
    } else {
        owned("none")
    };
    proof {
        assert(material_changes@.len() == found.len());
    }
    let r = DriftReport {
        report_version: 1,
        report_id,
        repo_commit_before: owned(diff_result.head_commit.as_str()),
        repo_commit_after: owned("working-tree"),
        generated_at,
        drift_level,
        changed_files: paths,
        affected_artifacts,
        material_changes,
        policy_result: PolicyResult {
            status: owned("pending"),
            failed_rules: Vec::new(),
            failure_codes: None,
            recommendations: None,
        },
    };
    proof {
        assert(views(r.policy_result.failed_rules@) =~= Seq::<Seq<char>>::empty());
        assert(r.drift_level@ == overall_level(found));
        assert(views(r.changed_files@) == all_paths);
    }
    r
}

/// Analyses the drift of the changed files, with a fresh random report id
/// and the current time.  See [`analyze_drift_with`].
pub fn analyze_drift(
    diff_result: &DiffResult,
    file_results: &Vec<FileResult>,
    sources: &Vec<String>,
    headers: &Vec<Option<MirrorHeader>>,
    systemic_threshold: usize,
) -> (r: DriftReport)
    requires
        sources.len() == diff_result.changed_files.len(),
        headers.len() == diff_result.changed_files.len(),
    ensures
        is_drift_report(
            r,
            *diff_result,
            file_results@,
            views(sources@),
            headers@,
            systemic_threshold as nat,
            r.report_id@,
            r.generated_at@,
        ),
        r.report_id@.len() == 36,
{
    let id = crate::stamps::new_report_id();
    let at = crate::stamps::now_rfc3339();
    analyze_drift_with(diff_result, file_results, sources, headers, systemic_threshold, id, at)
}

/// The overall drift level of a drift report follows its most severe
/// material change: "blocking" when some change is of class C3, else
/// "material" when there is any change at all, else "none".
pub proof fn law_drift_level_follows_most_severe_change(
    r: DriftReport,
    diff: DiffResult,
    frs: Seq<FileResult>,
    sources: Seq<Seq<char>>,
    headers: Seq<Option<MirrorHeader>>,
    threshold: nat,
    report_id: Seq<char>,
    generated_at: Seq<char>,
)
    requires
        is_drift_report(r, diff, frs, sources, headers, threshold, report_id, generated_at),
    ensures
        (exists|k: int|
            0 <= k < r.material_changes@.len() && #[trigger] r.material_changes@[k].change_class
                == ChangeClass::C3) ==> r.drift_level@ == "blocking"@,
        (forall|k: int|
            0 <= k < r.material_changes@.len() ==> #[trigger] r.material_changes@[k].change_class
                != ChangeClass::C3) && r.material_changes@.len() > 0 ==> r.drift_level@
            == "material"@,
        r.material_changes@.len() == 0 ==> r.drift_level@ == "none"@,
{
    let cfs = diff.changed_files@;
    let found = found_upto(cfs, sources, headers, frs, threshold, cfs.len());
    let mcs = r.material_changes@;
    let mv = mcs.map_values(|m: MaterialChange| change_view(m));
    let fv = found.map_values(|f: Found| change_of(f));
    assert(mv == fv);
    assert(mv.len() == mcs.len() && fv.len() == found.len());
    assert forall|k: int| 0 <= k < mcs.len() implies #[trigger] mcs[k].change_class == found[k].1.0 by {
        assert(mv[k] == fv[k]);
    }
    if exists|k: int| 0 <= k < mcs.len() && #[trigger] mcs[k].change_class == ChangeClass::C3 {
        let k = choose|k: int| 0 <= k < mcs.len() && #[trigger] mcs[k].change_class == ChangeClass::C3;
        assert(found[k].1.0 == ChangeClass::C3);
        assert(found_class(found, ChangeClass::C3));
    } else if mcs.len() > 0 {
        assert(mcs[0].change_class != ChangeClass::C3);
        if found_class(found, ChangeClass::C3) {
            let k = choose|k: int| 0 <= k < found.len() && #[trigger] found[k].1.0 == ChangeClass::C3;
            assert(mcs[k].change_class == ChangeClass::C3);
        }
        let c = found[0].1.0;
        assert(found_class(found, c));
    }
}

} // verus!
