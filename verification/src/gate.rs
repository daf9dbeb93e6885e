//! Merge policy: evaluates a drift report against the configured fail and warn rules.
use crate::config::{FailRule, GateConfig, WarnRule};
use crate::text::{concat2, concat3, contains, contains_text, occurs_in, owned, str_eq, to_lowercase, unicode_lowercase, views};
use crate::types::{AffectedArtifact, ChangeClass, DriftReport, MaterialChange, PolicyResult};
use vstd::prelude::*;

verus! {

/// Failure code reported when a contract (C2) change is present.
pub const ANRSM_001: &'static str = "ANRSM-001";

/// Failure code reported when a systemic (C3) change is present.
pub const ANRSM_002: &'static str = "ANRSM-002";

/// Failure code reported when a mirror becomes stale.
pub const ANRSM_003: &'static str = "ANRSM-003";

/// Failure code reported when a mirror is orphaned (its source deleted).
pub const ANRSM_004: &'static str = "ANRSM-004";

/// Whether some change has class `c`.
pub open spec fn has_class(changes: Seq<MaterialChange>, c: ChangeClass) -> bool {
    exists|i: int| 0 <= i < changes.len() && #[trigger] changes[i].change_class == c
}

/// Whether a rule condition matches the material changes.
pub open spec fn rule_matches(when: Seq<char>, changes: Seq<MaterialChange>) -> bool {
    let w = unicode_lowercase(when);
    if w == "any"@ || w == "all"@ {
        changes.len() > 0
    } else if w == "c0"@ {
        has_class(changes, ChangeClass::C0)
    } else if w == "c1"@ {
        has_class(changes, ChangeClass::C1)
    } else if w == "c2"@ {
        has_class(changes, ChangeClass::C2)
    } else if w == "c3"@ {
        has_class(changes, ChangeClass::C3)
    } else if w == "material"@ {
        has_class(changes, ChangeClass::C1) || has_class(changes, ChangeClass::C2) || has_class(changes, ChangeClass::C3)
    } else {
        false
    }
}

/// `fail_on:<when>` for each fail rule that matches, in rule order.
pub open spec fn failed_rule_names(rules: Seq<FailRule>, changes: Seq<MaterialChange>) -> Seq<Seq<char>>
    decreases rules.len(),
{
    if rules.len() == 0 {
        Seq::<Seq<char>>::empty()
    } else if rule_matches(rules.last().when@, changes) {
        failed_rule_names(rules.drop_last(), changes).push("fail_on:"@ + rules.last().when@)
    } else {
        failed_rule_names(rules.drop_last(), changes)
    }
}

/// The codes of the matching fail rules that have one, in rule order.
pub open spec fn rule_codes(rules: Seq<FailRule>, changes: Seq<MaterialChange>) -> Seq<Seq<char>>
    decreases rules.len(),
{
    if rules.len() == 0 {
        Seq::<Seq<char>>::empty()
    } else if rule_matches(rules.last().when@, changes) && rules.last().code@.len() > 0 {
        rule_codes(rules.drop_last(), changes).push(rules.last().code@)
    } else {
        rule_codes(rules.drop_last(), changes)
    }
}

/// `warn: <when> changes detected` for each warn rule that matches, in rule order.
pub open spec fn warn_messages(rules: Seq<WarnRule>, changes: Seq<MaterialChange>) -> Seq<Seq<char>>
    decreases rules.len(),
{
    if rules.len() == 0 {
        Seq::<Seq<char>>::empty()
    } else if rule_matches(rules.last().when@, changes) {
        warn_messages(rules.drop_last(), changes).push("warn: "@ + rules.last().when@ + " changes detected"@)
    } else {
        warn_messages(rules.drop_last(), changes)
    }
}

/// Appends `code` when `cond` holds and it is not listed yet.
pub open spec fn add_code(codes: Seq<Seq<char>>, cond: bool, code: Seq<char>) -> Seq<Seq<char>> {
    if cond && !codes.contains(code) {
        codes.push(code)
    } else {
        codes
    }
}

/// Whether some affected artifact becomes stale.
pub open spec fn has_stale(artifacts: Seq<AffectedArtifact>) -> bool {
    exists|i: int| 0 <= i < artifacts.len() && #[trigger] artifacts[i].after_freshness@ == "stale"@
}

/// Whether some change summary speaks of a deleted or orphaned file.
pub open spec fn has_orphan(changes: Seq<MaterialChange>) -> bool {
    exists|i: int| 0 <= i < changes.len() && (occurs_in(#[trigger] changes[i].summary@, "deleted"@)
        || occurs_in(changes[i].summary@, "orphan"@))
}

/// The failure codes: those of the matching fail rules, then the standard
/// codes for C3, C2, stale and orphaned mirrors when not listed yet.
pub open spec fn gate_codes(config: GateConfig, report: DriftReport) -> Seq<Seq<char>> {
    let changes = report.material_changes@;
    add_code(
        add_code(
            add_code(
                add_code(rule_codes(config.fail_on@, changes), has_class(changes, ChangeClass::C3), "ANRSM-002"@),
                has_class(changes, ChangeClass::C2),
                "ANRSM-001"@,
            ),
            has_stale(report.affected_artifacts@),
            "ANRSM-003"@,
        ),
        has_orphan(changes),
        "ANRSM-004"@,
    )
}

/// The recommendations: warn messages, or the all-clear when nothing at all happened.
pub open spec fn gate_recommendations(config: GateConfig, report: DriftReport) -> Seq<Seq<char>> {
    let changes = report.material_changes@;
    let w = warn_messages(config.warn_on@, changes);
    if w.len() == 0 && failed_rule_names(config.fail_on@, changes).len() == 0 && changes.len() == 0 {
        seq!["No policy violations detected"@]
    } else {
        w
    }
}

/// The policy status: `fail` when a fail rule matched, `warn` when there are changes, else `pass`.
pub open spec fn gate_status(config: GateConfig, report: DriftReport) -> Seq<char> {
    if failed_rule_names(config.fail_on@, report.material_changes@).len() > 0 {
        "fail"@
    } else if report.material_changes@.len() > 0 {
        "warn"@
    } else {
        "pass"@
    }
}

/// An empty list becomes `None`.
pub open spec fn nonempty_or_none(s: Seq<Seq<char>>) -> Option<Seq<Seq<char>>> {
    if s.len() == 0 { None } else { Some(s) }
}

/// A policy result seen as text.
pub open spec fn policy_view(p: PolicyResult) -> (Seq<char>, Seq<Seq<char>>, Option<Seq<Seq<char>>>, Option<Seq<Seq<char>>>) {
    (
        p.status@,
        views(p.failed_rules@),
        match p.failure_codes { Some(c) => Some(views(c@)), None => None },
        match p.recommendations { Some(c) => Some(views(c@)), None => None },
    )
}

/// The policy result computed for a report.
pub open spec fn gate_policy(config: GateConfig, report: DriftReport) -> (Seq<char>, Seq<Seq<char>>, Option<Seq<Seq<char>>>, Option<Seq<Seq<char>>>) {
    (
        gate_status(config, report),
        failed_rule_names(config.fail_on@, report.material_changes@),
        nonempty_or_none(gate_codes(config, report)),
        nonempty_or_none(gate_recommendations(config, report)),
    )
}

/// Whether some change has class `c` (executable).
fn any_class(changes: &Vec<MaterialChange>, c: ChangeClass) -> (r: bool)
    ensures
        r == has_class(changes@, c),
{
    let mut i: usize = 0;
    while i < changes.len()
        invariant
            i <= changes.len(),
            forall|k: int| 0 <= k < i ==> changes@[k].change_class != c,
        decreases changes.len() - i,
    {
        if changes[i].change_class == c {
            return true;
        }
        i = i + 1;
    }
    false
}

/// Whether a rule condition matches the material changes.
pub fn check_rule_matches(when: &str, changes: &Vec<MaterialChange>, _systemic_threshold: usize) -> (r: bool)
    ensures
        r == rule_matches(when@, changes@),
{
    let lower = to_lowercase(when);
    let w = lower.as_str();
    if str_eq(w, "any") || str_eq(w, "all") {
        changes.len() > 0
    } else if str_eq(w, "c0") {
        any_class(changes, ChangeClass::C0)
    } else if str_eq(w, "c1") {
        any_class(changes, ChangeClass::C1)
    } else if str_eq(w, "c2") {
        any_class(changes, ChangeClass::C2)
    } else if str_eq(w, "c3") {
        any_class(changes, ChangeClass::C3)
    } else if str_eq(w, "material") {
        any_class(changes, ChangeClass::C1) || any_class(changes, ChangeClass::C2) || any_class(changes, ChangeClass::C3)
    } else {
        false
    }
}

fn push_code_if(codes: &mut Vec<String>, cond: bool, code: &str)
    ensures
        views(final(codes)@) == add_code(views(old(codes)@), cond, code@),
{
    if cond && !contains_text(codes, code) {
        codes.push(owned(code));
        assert(views(codes@) =~= views(old(codes)@).push(code@));
    }
}

fn stale_present(artifacts: &Vec<AffectedArtifact>) -> (r: bool)
    ensures
        r == has_stale(artifacts@),
{
    let mut i: usize = 0;
    while i < artifacts.len()
        invariant
            i <= artifacts.len(),
            forall|k: int| 0 <= k < i ==> artifacts@[k].after_freshness@ != "stale"@,
        decreases artifacts.len() - i,
    {
        if str_eq(artifacts[i].after_freshness.as_str(), "stale") {
            return true;
        }
        i = i + 1;
    }
    false
}

fn orphan_present(changes: &Vec<MaterialChange>) -> (r: bool)
    ensures
        r == has_orphan(changes@),
{
    let mut i: usize = 0;
    while i < changes.len()
        invariant
            i <= changes.len(),
            forall|k: int| 0 <= k < i ==> !occurs_in(#[trigger] changes@[k].summary@, "deleted"@)
                && !occurs_in(changes@[k].summary@, "orphan"@),
        decreases changes.len() - i,
    {
        if contains(changes[i].summary.as_str(), "deleted") || contains(changes[i].summary.as_str(), "orphan") {
            return true;
        }
        i = i + 1;
    }
    false
}

/// Evaluates the merge policy against a drift report.
///
/// The report's policy result is replaced; everything else in the report is
/// kept.  Returns whether the report is accepted: exactly when no fail
/// rule matches.
pub fn evaluate_gate(report: &mut DriftReport, config: &GateConfig) -> (passed: bool)
    ensures
        policy_view(final(report).policy_result) == gate_policy(*config, *old(report)),
        passed == (failed_rule_names(config.fail_on@, old(report).material_changes@).len() == 0),
        final(report).report_version == old(report).report_version,
        final(report).report_id == old(report).report_id,
        final(report).repo_commit_before == old(report).repo_commit_before,
        final(report).repo_commit_after == old(report).repo_commit_after,
        final(report).generated_at == old(report).generated_at,
        final(report).drift_level == old(report).drift_level,
        final(report).changed_files == old(report).changed_files,
        final(report).affected_artifacts == old(report).affected_artifacts,
        final(report).material_changes == old(report).material_changes,
{
    let ghost changes = report.material_changes@;
    let mut failed_rules: Vec<String> = Vec::new();
    let mut failure_codes: Vec<String> = Vec::new();
    let mut recommendations: Vec<String> = Vec::new();

    let mut i: usize = 0;
    while i < config.fail_on.len()
        invariant
            i <= config.fail_on.len(),
            changes == report.material_changes@,
            views(failed_rules@) == failed_rule_names(config.fail_on@.take(i as int), changes),
            views(failure_codes@) == rule_codes(config.fail_on@.take(i as int), changes),
        decreases config.fail_on.len() - i,
    {
        proof {
            assert(config.fail_on@.take(i + 1).drop_last() =~= config.fail_on@.take(i as int));
            assert(config.fail_on@.take(i + 1).last() == config.fail_on@[i as int]);
        }
        let rule = &config.fail_on[i];
        if check_rule_matches(rule.when.as_str(), &report.material_changes, config.systemic_threshold) {
            let name = concat2("fail_on:", rule.when.as_str());
            failed_rules.push(name);
            if !rule.code.as_str().is_empty() {
                failure_codes.push(owned(rule.code.as_str()));
            }
        }
        i = i + 1;
        assert(views(failed_rules@) =~= failed_rule_names(config.fail_on@.take(i as int), changes));
        assert(views(failure_codes@) =~= rule_codes(config.fail_on@.take(i as int), changes));
    }
    assert(config.fail_on@.take(config.fail_on.len() as int) =~= config.fail_on@);

    let mut j: usize = 0;
    while j < config.warn_on.len()
        invariant
            j <= config.warn_on.len(),
            changes == report.material_changes@,
            views(recommendations@) == warn_messages(config.warn_on@.take(j as int), changes),
        decreases config.warn_on.len() - j,
    {
        proof {
            assert(config.warn_on@.take(j + 1).drop_last() =~= config.warn_on@.take(j as int));
            assert(config.warn_on@.take(j + 1).last() == config.warn_on@[j as int]);
        }
        let rule = &config.warn_on[j];
        if check_rule_matches(rule.when.as_str(), &report.material_changes, config.systemic_threshold) {
            let msg = concat3("warn: ", rule.when.as_str(), " changes detected");
            recommendations.push(msg);
        }
        j = j + 1;
        assert(views(recommendations@) =~= warn_messages(config.warn_on@.take(j as int), changes));
    }
    assert(config.warn_on@.take(config.warn_on.len() as int) =~= config.warn_on@);

    let has_c2 = any_class(&report.material_changes, ChangeClass::C2);
    let has_c3 = any_class(&report.material_changes, ChangeClass::C3);
    push_code_if(&mut failure_codes, has_c3, ANRSM_002);
    push_code_if(&mut failure_codes, has_c2, ANRSM_001);
    let stale = stale_present(&report.affected_artifacts);
    push_code_if(&mut failure_codes, stale, ANRSM_003);
    let orphan = orphan_present(&report.material_changes);
    push_code_if(&mut failure_codes, orphan, ANRSM_004);

    let is_fail = failed_rules.len() > 0;
    let has_changes = report.material_changes.len() > 0;
    let status = if is_fail {
        owned("fail")
    } else if has_changes {
        owned("warn")
    } else {
        owned("pass")
    };

    if recommendations.len() == 0 && !is_fail && !has_changes {
        recommendations.push(owned("No policy violations detected"));
        assert(views(recommendations@) =~= seq!["No policy violations detected"@]);
    }

    let codes_opt = if failure_codes.len() == 0 { None } else { Some(failure_codes) };
    let recs_opt = if recommendations.len() == 0 { None } else { Some(recommendations) };
    report.policy_result = PolicyResult {
        status,
        failed_rules,
        failure_codes: codes_opt,
        recommendations: recs_opt,
    };
    !is_fail
}

/// The process exit code for a gate outcome: 0 when it passed, 1 when it failed.
pub fn get_exit_code(passed: bool) -> (code: i32)
    ensures
        code == (if passed { 0i32 } else { 1i32 }),
{
    if passed {
        0
    } else {
        1
    }
}

/// Adding a code keeps every code already listed, and lists `code` whenever `cond` holds.
pub proof fn lemma_add_code_contains(codes: Seq<Seq<char>>, cond: bool, code: Seq<char>, x: Seq<char>)
    ensures
        codes.contains(x) ==> add_code(codes, cond, code).contains(x),
        cond ==> add_code(codes, cond, code).contains(code),
{
    if cond && !codes.contains(code) {
        let r = codes.push(code);
        if codes.contains(x) {
            let i = choose|i: int| 0 <= i < codes.len() && codes[i] == x;
            assert(r[i] == x);
        }
        assert(r[codes.len() as int] == code);
    }
}

/// With no fail rules the policy never rejects: every report passes, with
/// status `warn` when it has material changes and `pass` when it has none.
pub proof fn law_no_fail_rules_never_fails(config: GateConfig, report: DriftReport)
    requires
        config.fail_on@.len() == 0,
    ensures
        failed_rule_names(config.fail_on@, report.material_changes@).len() == 0,
        gate_status(config, report) == (if report.material_changes@.len() > 0 { "warn"@ } else { "pass"@ }),
{
}

/// A report is rejected exactly when the policy status is `fail`.
pub proof fn law_status_fail_iff_rejected(config: GateConfig, report: DriftReport)
    ensures
        (gate_status(config, report) == "fail"@) <==> (failed_rule_names(config.fail_on@, report.material_changes@).len() > 0),
{
    reveal_strlit("fail");
    reveal_strlit("warn");
    reveal_strlit("pass");
    assert("fail"@[0] != "warn"@[0]);
    assert("fail"@[0] != "pass"@[0]);
}

/// The verdict depends on the material changes and affected artifacts alone:
/// two reports that agree on them get the same policy result, so evaluating
/// a report a second time changes nothing.
pub proof fn law_policy_depends_on_changes_only(config: GateConfig, a: DriftReport, b: DriftReport)
    requires
        a.material_changes@ == b.material_changes@,
        a.affected_artifacts@ == b.affected_artifacts@,
    ensures
        gate_policy(config, a) == gate_policy(config, b),
{
}

/// The standard failure codes are always listed: ANRSM-001 when a C2 change is
/// present, ANRSM-002 for C3, ANRSM-003 for a stale mirror and ANRSM-004 for
/// an orphaned one, whatever the configured rules.
pub proof fn law_standard_codes_listed(config: GateConfig, report: DriftReport)
    ensures
        has_class(report.material_changes@, ChangeClass::C2) ==> gate_codes(config, report).contains("ANRSM-001"@),
        has_class(report.material_changes@, ChangeClass::C3) ==> gate_codes(config, report).contains("ANRSM-002"@),
        has_stale(report.affected_artifacts@) ==> gate_codes(config, report).contains("ANRSM-003"@),
        has_orphan(report.material_changes@) ==> gate_codes(config, report).contains("ANRSM-004"@),
{
    let changes = report.material_changes@;
    let c0 = rule_codes(config.fail_on@, changes);
    let c3 = has_class(changes, ChangeClass::C3);
    let c2 = has_class(changes, ChangeClass::C2);
    let st = has_stale(report.affected_artifacts@);
    let orph = has_orphan(changes);
    let k1 = add_code(c0, c3, "ANRSM-002"@);
    let k2 = add_code(k1, c2, "ANRSM-001"@);
    let k3 = add_code(k2, st, "ANRSM-003"@);
    lemma_add_code_contains(c0, c3, "ANRSM-002"@, "ANRSM-002"@);
    lemma_add_code_contains(k1, c2, "ANRSM-001"@, "ANRSM-002"@);
    lemma_add_code_contains(k1, c2, "ANRSM-001"@, "ANRSM-001"@);
    lemma_add_code_contains(k2, st, "ANRSM-003"@, "ANRSM-002"@);
    lemma_add_code_contains(k2, st, "ANRSM-003"@, "ANRSM-001"@);
    lemma_add_code_contains(k2, st, "ANRSM-003"@, "ANRSM-003"@);
    lemma_add_code_contains(k3, orph, "ANRSM-004"@, "ANRSM-002"@);
    lemma_add_code_contains(k3, orph, "ANRSM-004"@, "ANRSM-001"@);
    lemma_add_code_contains(k3, orph, "ANRSM-004"@, "ANRSM-003"@);
    lemma_add_code_contains(k3, orph, "ANRSM-004"@, "ANRSM-004"@);
}


/// A rule naming a change class, in upper or lower case, matches exactly
/// when some change has that class.
pub proof fn law_class_rules_match_their_class(changes: Seq<MaterialChange>)
    ensures
        rule_matches("C0"@, changes) == has_class(changes, ChangeClass::C0),
        rule_matches("C1"@, changes) == has_class(changes, ChangeClass::C1),
        rule_matches("C2"@, changes) == has_class(changes, ChangeClass::C2),
        rule_matches("C3"@, changes) == has_class(changes, ChangeClass::C3),
        rule_matches("c2"@, changes) == has_class(changes, ChangeClass::C2),
{
    reveal_strlit("C0");
    reveal_strlit("C1");
    reveal_strlit("C2");
    reveal_strlit("C3");
    reveal_strlit("c0");
    reveal_strlit("c1");
    reveal_strlit("c2");
    reveal_strlit("c3");
    reveal_strlit("any");
    reveal_strlit("all");
    reveal_strlit("material");
    assert(unicode_lowercase("C0"@) =~= "c0"@);
    assert(unicode_lowercase("C1"@) =~= "c1"@);
    assert(unicode_lowercase("C2"@) =~= "c2"@);
    assert(unicode_lowercase("C3"@) =~= "c3"@);
    assert(unicode_lowercase("c2"@) =~= "c2"@);
    assert("c0"@[1] != "c1"@[1]);
    assert("c0"@[1] != "c2"@[1]);
    assert("c0"@[1] != "c3"@[1]);
    assert("c1"@[1] != "c2"@[1]);
    assert("c1"@[1] != "c3"@[1]);
    assert("c2"@[1] != "c3"@[1]);
}

/// A `material` rule (in any case) matches exactly when some change is
/// material, that is of a class other than C0 (C1, C2 or C3).
pub proof fn law_material_rule_matches_material_changes(when: Seq<char>, changes: Seq<MaterialChange>)
    requires
        unicode_lowercase(when) == "material"@,
    ensures
        rule_matches(when, changes) <==> exists|i: int| 0 <= i < changes.len() && #[trigger] changes[i].change_class != ChangeClass::C0,
{
    reveal_strlit("material");
    reveal_strlit("any");
    reveal_strlit("all");
    reveal_strlit("c0");
    reveal_strlit("c1");
    reveal_strlit("c2");
    reveal_strlit("c3");
    assert("material"@ != "any"@ && "material"@ != "all"@ && "material"@ != "c0"@ && "material"@ != "c1"@
        && "material"@ != "c2"@ && "material"@ != "c3"@) by {
        assert("material"@.len() == 8);
    }
    assert(rule_matches(when, changes) == (has_class(changes, ChangeClass::C1) || has_class(changes, ChangeClass::C2)
        || has_class(changes, ChangeClass::C3)));
    if exists|i: int| 0 <= i < changes.len() && #[trigger] changes[i].change_class != ChangeClass::C0 {
        let i = choose|i: int| 0 <= i < changes.len() && #[trigger] changes[i].change_class != ChangeClass::C0;
        let c = changes[i].change_class;
        assert(c == ChangeClass::C1 || c == ChangeClass::C2 || c == ChangeClass::C3);
        assert(has_class(changes, c));
    }
    if rule_matches(when, changes) {
        if has_class(changes, ChangeClass::C1) {
            let i = choose|i: int| 0 <= i < changes.len() && #[trigger] changes[i].change_class == ChangeClass::C1;
            assert(changes[i].change_class != ChangeClass::C0);
        } else if has_class(changes, ChangeClass::C2) {
            let i = choose|i: int| 0 <= i < changes.len() && #[trigger] changes[i].change_class == ChangeClass::C2;
            assert(changes[i].change_class != ChangeClass::C0);
        } else {
            let i = choose|i: int| 0 <= i < changes.len() && #[trigger] changes[i].change_class == ChangeClass::C3;
            assert(changes[i].change_class != ChangeClass::C0);
        }
    }
}

} // verus!
