//! Mirror file data: header, body sections, fingerprints, settings.
use crate::config::MirrorConfig;
use crate::text::owned;
use vstd::prelude::*;

verus! {

/// Mirror header (the YAML front matter of a mirror file).
#[derive(Debug, Clone, PartialEq)]
pub struct MirrorHeader {
    pub anrsm_version: u32,
    pub artifact_type: String,
    pub artifact_id: String,
    pub source_path: String,
    pub source_language: String,
    pub module_id: String,
    pub source_commit: String,
    pub source_fingerprint: String,
    pub semantic_fingerprint: String,
    pub freshness_state: FreshnessState,
    pub confidence_band: MirrorConfidenceBand,
    pub generator_name: String,
    pub generator_version: String,
    pub generated_at: String,
    pub exports: Option<Vec<String>>,
    pub dependencies: Option<Vec<String>>,
    pub risk_tags: Option<Vec<String>>,
    pub contracts: Option<Vec<String>>,
    pub adjacent_artifacts: Option<Vec<String>>,
    pub manual_appendix_present: Option<bool>,
}

/// Whether a mirror still matches its source.
#[derive(Debug, Clone, Copy, PartialEq, Eq, Structural)]
pub enum FreshnessState {
    Fresh,
    Stale,
    Invalid,
    Unknown,
}

/// The confidence recorded in a mirror header.
#[derive(Debug, Clone, Copy, PartialEq, Eq, Structural)]
pub enum MirrorConfidenceBand {
    High,
    Medium,
    Low,
}

/// A complete mirror: header and body.
#[derive(Debug, Clone, PartialEq)]
pub struct MirrorFile {
    pub header: MirrorHeader,
    pub body: MirrorBody,
}

/// The eight standard mirror sections.
#[derive(Debug, Clone, PartialEq)]
pub struct MirrorBody {
    pub responsibilities: String,
    pub external_contracts: String,
    pub preconditions: String,
    pub state_control_flow: String,
    pub side_effects: String,
    pub invariants_risks: String,
    pub change_impact: String,
    pub expand_conditions: String,
}

/// Source and semantic fingerprints of a file.
#[derive(Debug, Clone, PartialEq)]
pub struct FingerprintResult {
    pub source: String,
    pub semantic: String,
    pub fp_version: String,
}

/// Mirror settings used while generating mirrors.
#[derive(Debug, Clone, PartialEq)]
pub struct MirrorSettings {
    pub output_dir: String,
    pub fp_version: String,
    pub include_manual_appendix: bool,
}

impl Default for MirrorSettings {
    /// `mirror/file`, fingerprint version `1`, no appendix preservation.
    fn default() -> (m: MirrorSettings)
        ensures
            m.output_dir@ == "mirror/file"@,
            m.fp_version@ == "1"@,
            !m.include_manual_appendix,
    {
        MirrorSettings { output_dir: owned("mirror/file"), fp_version: owned("1"), include_manual_appendix: false }
    }
}

impl MirrorSettings {
    /// Settings taken over from the mirror block of the configuration.
    pub fn from_config(config: MirrorConfig) -> (m: MirrorSettings)
        ensures
            m.output_dir == config.output_dir,
            m.fp_version == config.fp_version,
            m.include_manual_appendix == config.include_manual_appendix,
    {
        MirrorSettings {
            output_dir: config.output_dir,
            fp_version: config.fp_version,
            include_manual_appendix: config.include_manual_appendix,
        }
    }
}

} // verus!
