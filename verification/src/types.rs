//! Shared data types: parse results, module results, drift reports.
use vstd::prelude::*;

verus! {

/// Confidence band for parse results.
#[derive(Debug, Clone, Copy, PartialEq, Eq, Structural)]
pub enum ConfidenceBand {
    /// Complete parse, no errors.
    High,
    /// Partial parse, error recovery used.
    Low,
    /// Complete failure, no extraction possible.
    NoConfidence,
}

/// Exported symbol kind.
#[derive(Debug, Clone, Copy, PartialEq, Eq, Structural)]
pub enum ExportKind {
    Function,
    Class,
    Const,
    Let,
    Var,
    Type,
    Interface,
    Enum,
}

/// An exported symbol of a file.
#[derive(Debug, Clone, PartialEq)]
pub struct ExportedSymbol {
    pub name: String,
    pub kind: ExportKind,
    pub line: u32,
    /// Whether this symbol comes from generated or uncertain code.
    pub is_generated: bool,
    /// Per-symbol confidence band.
    pub confidence: ConfidenceBand,
}

/// Import kind.
#[derive(Debug, Clone, Copy, PartialEq, Eq, Structural)]
pub enum ImportKind {
    Named,
    Default,
    Namespace,
}

/// A dependency edge: what a file imports and from where.
#[derive(Debug, Clone, PartialEq)]
pub struct DependencyEdge {
    pub source: String,
    pub symbols: Vec<String>,
    pub kind: ImportKind,
}

/// A function or method signature.
#[derive(Debug, Clone, PartialEq)]
pub struct FunctionSignature {
    pub name: String,
    pub parameters: Vec<Parameter>,
    pub return_type: String,
}

/// A function parameter.
#[derive(Debug, Clone, PartialEq)]
pub struct Parameter {
    pub name: String,
    pub type_annotation: String,
}

/// Side effect kind.
#[derive(Debug, Clone, Copy, PartialEq, Eq, Structural)]
pub enum SideEffectKind {
    Io,
    Network,
    Storage,
    Log,
}

/// A detected side effect.
#[derive(Debug, Clone, PartialEq)]
pub struct SideEffect {
    pub kind: SideEffectKind,
    pub target: String,
    pub line: u32,
}

/// Parse result for a single file.
#[derive(Debug, Clone, PartialEq)]
pub struct FileResult {
    pub file_path: String,
    pub confidence: ConfidenceBand,
    pub exports: Vec<ExportedSymbol>,
    pub imports: Vec<DependencyEdge>,
    pub signatures: Vec<FunctionSignature>,
    pub side_effects: Vec<SideEffect>,
    pub parse_time_ms: u64,
    pub error_message: Option<String>,
}

/// Module-level aggregated result.
#[derive(Debug, Clone, PartialEq)]
pub struct ModuleResult {
    pub module_id: String,
    pub language: String,
    pub files: Vec<String>,
    pub exports: Vec<String>,
    pub dependencies: Vec<String>,
    pub side_effects: Vec<String>,
    pub responsibility: String,
    pub semantic_fingerprint: String,
    pub fan_in: usize,
    pub fan_out: usize,
    pub drift_level: String,
    /// Module-level confidence (the lowest across its files).
    pub confidence: ConfidenceBand,
}

/// Repository-level knowledge figures.  The token compression ratio is
/// `mirror_tokens / source_tokens` (zero when there are no source tokens).
#[derive(Debug, Clone, PartialEq)]
pub struct KnowledgeResult {
    pub module_count: usize,
    /// Files per language, ordered by language name.
    pub language_distribution: Vec<(String, usize)>,
    pub total_files: usize,
    pub total_exports: usize,
    pub mirror_tokens: usize,
    pub source_tokens: usize,
}

/// Run-level summary statistics.
#[derive(Debug, Clone, PartialEq)]
pub struct RunSummary {
    pub total_files: usize,
    pub parsed_ok: usize,
    pub confidence_low: usize,
    pub confidence_none: usize,
    pub total_exports: usize,
    pub total_imports: usize,
    pub elapsed_ms: u64,
}

/// Top-level run output.
#[derive(Debug, Clone, PartialEq)]
pub struct RunOutput {
    pub api_version: String,
    pub files: Vec<FileResult>,
    pub errors: Vec<String>,
    pub summary: RunSummary,
}

/// Material change classification.
#[derive(Debug, Clone, Copy, PartialEq, Eq, Hash, Structural)]
pub enum ChangeClass {
    /// Source changed, semantics unchanged (formatting or comments).
    C0,
    /// Semantics changed, exports and signatures unchanged.
    C1,
    /// Exports or signatures changed (contract change).
    C2,
    /// Systemic: imported by at least the configured number of files.
    C3,
}

/// The display name of a change class.
pub open spec fn change_class_name(c: ChangeClass) -> Seq<char> {
    match c {
        ChangeClass::C0 => "C0"@,
        ChangeClass::C1 => "C1"@,
        ChangeClass::C2 => "C2"@,
        ChangeClass::C3 => "C3"@,
    }
}

impl ChangeClass {
    /// The display name: `C0` .. `C3`.
    pub fn to_string(&self) -> (s: String)
        ensures
            s@ == change_class_name(*self),
    {
        match self {
            ChangeClass::C0 => String::from_str("C0"),
            ChangeClass::C1 => String::from_str("C1"),
            ChangeClass::C2 => String::from_str("C2"),
            ChangeClass::C3 => String::from_str("C3"),
        }
    }
}

/// A single material change entry in a drift report.
#[derive(Debug, Clone, PartialEq)]
pub struct MaterialChange {
    pub change_class: ChangeClass,
    pub source_path: String,
    pub summary: String,
    pub evidence: Option<Vec<String>>,
}

/// Freshness transition of an affected artifact.
#[derive(Debug, Clone, PartialEq)]
pub struct AffectedArtifact {
    pub artifact_id: String,
    pub before_freshness: String,
    pub after_freshness: String,
    pub drift_level: String,
    pub reason: String,
    pub recommended_action: Option<String>,
}

/// Policy evaluation result.
#[derive(Debug, Clone, PartialEq)]
pub struct PolicyResult {
    /// "pass", "warn" or "fail".
    pub status: String,
    pub failed_rules: Vec<String>,
    pub failure_codes: Option<Vec<String>>,
    pub recommendations: Option<Vec<String>>,
}

/// A complete drift report.
#[derive(Debug, Clone, PartialEq)]
pub struct DriftReport {
    /// Always 1.
    pub report_version: u32,
    pub report_id: String,
    pub repo_commit_before: String,
    pub repo_commit_after: String,
    pub generated_at: String,
    /// "none", "low", "material" or "blocking".
    pub drift_level: String,
    pub changed_files: Vec<String>,
    pub affected_artifacts: Vec<AffectedArtifact>,
    pub material_changes: Vec<MaterialChange>,
    pub policy_result: PolicyResult,
}

/// The confidence a symbol gets when none is recorded.
pub fn default_high_confidence() -> (c: ConfidenceBand)
    ensures
        c == ConfidenceBand::High,
{
    ConfidenceBand::High
}

} // verus!
