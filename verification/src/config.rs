//! Repository configuration (`anrsm.yaml`) and its defaults.
use crate::text::{concat3, owned, str_eq};
use vstd::prelude::*;

verus! {

/// Top-level configuration.
#[derive(Debug, Clone, PartialEq)]
pub struct Config {
    pub version: u32,
    pub repo_root: String,
    pub scope: ScopeConfig,
    pub mirror: Option<MirrorConfig>,
    pub output: Option<OutputConfig>,
    pub gate: Option<GateConfig>,
}

/// Which directories are scanned and which paths are left out.
#[derive(Debug, Clone, PartialEq)]
pub struct ScopeConfig {
    pub source_roots: Vec<String>,
    pub exclude_patterns: Vec<String>,
}

/// Where mirrors are written.
#[derive(Debug, Clone, PartialEq)]
pub struct MirrorConfig {
    pub output_dir: String,
    pub fp_version: String,
    pub include_manual_appendix: bool,
}

/// Output format settings.
#[derive(Debug, Clone, PartialEq)]
pub struct OutputConfig {
    pub format: String,
}

/// A rule that rejects a report when its condition matches.
#[derive(Debug, Clone, PartialEq)]
pub struct FailRule {
    /// `any`, `all`, `c0`..`c3` or `material` (case-insensitive).
    pub when: String,
    /// The failure code reported when the rule matches (may be empty).
    pub code: String,
}

/// A rule that only adds a recommendation when its condition matches.
#[derive(Debug, Clone, PartialEq)]
pub struct WarnRule {
    pub when: String,
}

/// Gate policy: which change classes fail or warn, and the systemic threshold.
#[derive(Debug, Clone, PartialEq)]
pub struct GateConfig {
    pub fail_on: Vec<FailRule>,
    pub warn_on: Vec<WarnRule>,
    /// A file imported by at least this many files is a systemic (C3) change.
    pub systemic_threshold: usize,
}

/// The systemic threshold used when the configuration gives none.
pub const DEFAULT_SYSTEMIC_THRESHOLD: usize = 5;

impl Default for GateConfig {
    /// Warn-only policy: no fail rules, no warn rules, threshold 5.
    fn default() -> (g: GateConfig)
        ensures
            g.fail_on@.len() == 0,
            g.warn_on@.len() == 0,
            g.systemic_threshold == DEFAULT_SYSTEMIC_THRESHOLD,
    {
        GateConfig { fail_on: Vec::new(), warn_on: Vec::new(), systemic_threshold: DEFAULT_SYSTEMIC_THRESHOLD }
    }
}

impl Default for MirrorConfig {
    /// Empty directory and version, no appendix preservation.
    fn default() -> (m: MirrorConfig)
        ensures
            m.output_dir@.len() == 0,
            m.fp_version@.len() == 0,
            !m.include_manual_appendix,
    {
        MirrorConfig { output_dir: String::new(), fp_version: String::new(), include_manual_appendix: false }
    }
}

impl Default for OutputConfig {
    /// Empty format name.
    fn default() -> (o: OutputConfig)
        ensures
            o.format@.len() == 0,
    {
        OutputConfig { format: String::new() }
    }
}

/// The repository root used when the configuration gives none: `.`.
pub fn default_repo_root() -> (s: String)
    ensures
        s@ == "."@,
{
    owned(".")
}

/// The mirror directory used when the configuration gives none: `mirror/file`.
pub fn default_mirror_output_dir() -> (s: String)
    ensures
        s@ == "mirror/file"@,
{
    owned("mirror/file")
}

/// The fingerprint version used when the configuration gives none: `1`.
pub fn default_fp_version() -> (s: String)
    ensures
        s@ == "1"@,
{
    owned("1")
}

/// The output format used when the configuration gives none: `json`.
pub fn default_output_format() -> (s: String)
    ensures
        s@ == "json"@,
{
    owned("json")
}

/// The configuration `init` writes: scan `src`, `app`, `lib` and
/// `packages`, leave out build output, dependencies and minified or
/// declaration files, JSON output.
pub const DEFAULT_CONFIG: &'static str = "# WTCD \u{2014} What The Code Doing\nversion: 1\nrepo_root: .\n\nscope:\n  source_roots:\n    - src\n    - app\n    - lib\n    - packages\n  exclude_patterns:\n    - \"**/node_modules/**\"\n    - \"**/dist/**\"\n    - \"**/build/**\"\n    - \"**/.next/**\"\n    - \"**/coverage/**\"\n    - \"**/*.d.ts\"\n    - \"**/*.min.js\"\n\nmirror: {}\n\noutput:\n  format: json\n";

/// An agent whose MCP configuration can be printed.
#[derive(Debug, Clone, Copy, PartialEq, Eq, Structural)]
pub enum Agent {
    Cursor,
}

/// The agent a name selects, or the message for an unsupported one.
pub open spec fn agent_for(name: Seq<char>) -> Result<Agent, Seq<char>> {
    if name == "cursor"@ {
        Ok(Agent::Cursor)
    } else {
        Err("Unsupported agent '"@ + name + "'. Supported: cursor"@)
    }
}

/// Selects the agent to print an MCP configuration for: it succeeds
/// exactly for `cursor`, and otherwise gives the message that lists the
/// supported agents.
pub fn select_agent(name: &str) -> (r: Result<Agent, String>)
    ensures
        r is Ok <==> name@ == "cursor"@,
        match r {
            Ok(a) => agent_for(name@) == Ok::<Agent, Seq<char>>(a),
            Err(m) => agent_for(name@) == Err::<Agent, Seq<char>>(m@),
        },
{
    if str_eq(name, "cursor") {
        Ok(Agent::Cursor)
    } else {
        Err(concat3("Unsupported agent '", name, "'. Supported: cursor"))
    }
}

} // verus!
