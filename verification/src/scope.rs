//! Which of the files found under the source roots a scan keeps, and in
//! what order: supported extensions only, minus the exclude patterns
//! (matched with globset), sorted as paths.
use crate::error::WtcdError;
use crate::order::{lemma_view_seq_push, sort_ranked, sorted_rank, view_seq, Lex2, RankedList};
use crate::paths::{extension_of, path_components, path_extension, std_components};
use crate::text::{concat3, opt_view, owned, str_eq, views};
use vstd::prelude::*;

verus! {

/// The configuration file a repository carries at its root.
pub const CONFIG_FILENAME: &'static str = "anrsm.yaml";

/// Whether a file's extension is one the scan keeps: `ts`, `tsx`, `js`, `jsx`.
pub open spec fn is_supported_path(p: Seq<char>) -> bool {
    match path_extension(p) {
        Some(e) => e == "ts"@ || e == "tsx"@ || e == "js"@ || e == "jsx"@,
        None => false,
    }
}

/// Whether a file's extension is one the scan keeps.
pub fn is_supported(path: &str) -> (r: bool)
    ensures
        r == is_supported_path(path@),
{
    match extension_of(path) {
        Some(e) => str_eq(e.as_str(), "ts") || str_eq(e.as_str(), "tsx") || str_eq(e.as_str(), "js")
            || str_eq(e.as_str(), "jsx"),
        None => false,
    }
}

// ─── Exclude patterns (globset) ─────────────────────────────────────────────

/// globset's compiled set of glob patterns.
#[verifier::external_type_specification]
#[verifier::external_body]
pub struct ExGlobSet(globset::GlobSet);

/// The message globset gives when a pattern does not compile (absent when it does).
pub uninterp spec fn glob_error_text(pattern: Seq<char>) -> Option<Seq<char>>;

/// The message globset gives when a set of valid patterns does not build (absent when it does).
pub uninterp spec fn glob_set_build_error(patterns: Seq<Seq<char>>) -> Option<Seq<char>>;

/// Whether a path matches any of a set of glob patterns, by globset's rules.
pub uninterp spec fn glob_set_match(patterns: Seq<Seq<char>>, path: Seq<char>) -> bool;

/// Trusted: `globset::Glob::new`; its error, rendered as text, is the named
/// `glob_error_text` of the pattern.
#[verifier::external_body]
fn glob_error(pattern: &str) -> (r: Option<String>)
    ensures
        opt_view(r) == glob_error_text(pattern@),
{
    globset::Glob::new(pattern).err().map(|e| e.to_string())
}

/// Trusted: `GlobSetBuilder::build` after adding every pattern (each of
/// which compiles); its error, rendered as text, is the named
/// `glob_set_build_error` of the patterns.
#[verifier::external_body]
fn build_glob_set(patterns: &Vec<String>) -> (r: Result<globset::GlobSet, String>)
    requires
        forall|i: int| 0 <= i < patterns@.len() ==> glob_error_text(#[trigger] patterns@[i]@) is None,
    ensures
        match r {
            Ok(_) => glob_set_build_error(views(patterns@)) is None,
            Err(e) => glob_set_build_error(views(patterns@)) == Some(e@),
        },
{
    let mut builder = globset::GlobSetBuilder::new();
    for p in patterns {
        builder.add(globset::Glob::new(p).unwrap());
    }
    builder.build().map_err(|e| e.to_string())
}

/// A compiled set of exclude patterns.  It is only built by
/// [`ExcludeSet::new`], which compiles the set from the patterns it keeps.
pub struct ExcludeSet {
    patterns: Vec<String>,
    set: globset::GlobSet,
}

impl View for ExcludeSet {
    type V = Seq<Seq<char>>;

    /// The patterns the set was compiled from.
    closed spec fn view(&self) -> Seq<Seq<char>> {
        views(self.patterns@)
    }
}

/// Trusted: `GlobSet::is_match` on the set compiled from the set's
/// patterns; the result is the named `glob_set_match` of the patterns and
/// the path.
#[verifier::external_body]
fn set_matches(set: &ExcludeSet, path: &str) -> (r: bool)
    ensures
        r == glob_set_match(set@, path@),
{
    set.set.is_match(path)
}

/// The first pattern among the first `n` that does not compile.
pub open spec fn first_invalid(patterns: Seq<Seq<char>>, n: nat) -> Option<int>
    decreases n,
{
    if n == 0 {
        None
    } else {
        match first_invalid(patterns, (n - 1) as nat) {
            Some(k) => Some(k),
            None => if glob_error_text(patterns[n - 1]) is Some { Some(n - 1) } else { None },
        }
    }
}

/// Why a set of exclude patterns cannot be used, if it cannot: the first
/// pattern that does not compile, or the set that does not build.
pub open spec fn exclude_error(patterns: Seq<Seq<char>>) -> Option<Seq<char>> {
    match first_invalid(patterns, patterns.len()) {
        Some(k) => Some("Invalid glob '"@ + patterns[k] + "': "@ + glob_error_text(patterns[k])->0),
        None => match glob_set_build_error(patterns) {
            Some(e) => Some("Failed to build glob set: "@ + e),
            None => None,
        },
    }
}

proof fn lemma_first_invalid_stays(patterns: Seq<Seq<char>>, n: nat, m: nat)
    requires
        n <= m,
        first_invalid(patterns, n) is Some,
    ensures
        first_invalid(patterns, m) == first_invalid(patterns, n),
    decreases m - n,
{
    if n < m {
        lemma_first_invalid_stays(patterns, n, (m - 1) as nat);
    }
}

impl ExcludeSet {
    /// Compiles exclude patterns; fails with a scope error naming the
    /// first pattern that does not compile, or the set that does not build.
    pub fn new(patterns: Vec<String>) -> (r: Result<ExcludeSet, WtcdError>)
        ensures
            match r {
                Ok(s) => s@ == views(patterns@) && exclude_error(views(patterns@)) is None,
                Err(e) => exclude_error(views(patterns@)) matches Some(m) && e matches WtcdError::ScopeError(x) && x@ == m,
            },
    {
        let ghost pv = views(patterns@);
        let mut i: usize = 0;
        while i < patterns.len()
            invariant
                i <= patterns.len(),
                pv == views(patterns@),
                first_invalid(pv, i as nat) is None,
                forall|k: int| 0 <= k < i ==> glob_error_text(#[trigger] patterns@[k]@) is None,
            decreases patterns.len() - i,
        {
            assert(pv[i as int] == patterns@[i as int]@);
            match glob_error(patterns[i].as_str()) {
                Some(e) => {
                    proof {
                        lemma_first_invalid_stays(pv, (i + 1) as nat, pv.len());
                    }
                    let mut msg = concat3("Invalid glob '", patterns[i].as_str(), "': ");
                    msg.append(e.as_str());
                    return Err(WtcdError::ScopeError(msg));
                },
                None => {},
            }
            i = i + 1;
        }
        match build_glob_set(&patterns) {
            Ok(set) => Ok(ExcludeSet { patterns, set }),
            Err(e) => {
                let mut msg = owned("Failed to build glob set: ");
                msg.append(e.as_str());
                Err(WtcdError::ScopeError(msg))
            },
        }
    }

    /// Whether a path matches one of the patterns.
    pub fn is_match(&self, path: &str) -> (r: bool)
        ensures
            r == glob_set_match(self@, path@),
    {
        set_matches(self, path)
    }
}

// ─── Selection ──────────────────────────────────────────────────────────────

/// The candidates a scan keeps, in order: supported and not excluded.
pub open spec fn scan_kept(candidates: Seq<Seq<char>>, patterns: Seq<Seq<char>>) -> Seq<Seq<char>>
    decreases candidates.len(),
{
    if candidates.len() == 0 {
        Seq::empty()
    } else {
        let p = candidates.last();
        scan_kept(candidates.drop_last(), patterns) + if is_supported_path(p) && !glob_set_match(patterns, p) {
            seq![p]
        } else {
            Seq::empty()
        }
    }
}

/// A path's sort key: its components, then its text.
pub open spec fn path_key(p: Seq<char>) -> (Seq<Seq<char>>, Seq<char>) {
    (std_components(p), p)
}

/// The sort keys of paths.
pub open spec fn path_keys(paths: Seq<Seq<char>>) -> Seq<(Seq<Seq<char>>, Seq<char>)> {
    paths.map_values(|p: Seq<char>| path_key(p))
}

/// The paths of sort keys.
pub open spec fn key_paths(keys: Seq<(Seq<Seq<char>>, Seq<char>)>) -> Seq<Seq<char>> {
    keys.map_values(|k: (Seq<Seq<char>>, Seq<char>)| k.1)
}

/// Paths sorted as `PathBuf`s sort: component by component.
pub open spec fn path_order(paths: Seq<Seq<char>>) -> Seq<Seq<char>> {
    key_paths(sorted_rank::<Lex2<RankedList<String>, String>>(path_keys(paths)))
}

/// The files a scan keeps of the candidates found under the source roots
/// (paths relative to the repository root): those with a supported
/// extension that no exclude pattern matches, sorted as paths.
pub fn select_scanned(candidates: &Vec<String>, exclude: &ExcludeSet) -> (r: Vec<String>)
    ensures
        views(r@) == path_order(scan_kept(views(candidates@), exclude@)),
{
    let ghost cv = views(candidates@);
    let mut keys: Vec<Lex2<RankedList<String>, String>> = Vec::new();
    let ghost kept: Seq<Seq<char>> = Seq::empty();
    let mut i: usize = 0;
    assert(cv.take(0) =~= Seq::<Seq<char>>::empty());
    while i < candidates.len()
        invariant
            i <= candidates.len(),
            cv == views(candidates@),
            kept == scan_kept(cv.take(i as int), exclude@),
            view_seq(keys@) == path_keys(kept),
        decreases candidates.len() - i,
    {
        let p = candidates[i].as_str();
        proof {
            assert(cv.take(i + 1).drop_last() =~= cv.take(i as int));
            assert(cv.take(i + 1).last() == p@);
        }
        if is_supported(p) && !exclude.is_match(p) {
            let comps = path_components(p);
            let key = Lex2 { first: RankedList { items: comps }, second: owned(p) };
            assert(key@ == path_key(p@)) by {
                assert(crate::order::view_seq(comps@) =~= views(comps@));
            }
            let ghost before = kept;
            let ghost kb = keys@;
            keys.push(key);
            proof {
                kept = kept.push(p@);
                assert(kept =~= before + seq![p@]);
                lemma_view_seq_push(kb, key);
                assert(path_keys(kept) =~= path_keys(before).push(path_key(p@)));
            }
        } else {
            assert(kept + Seq::<Seq<char>>::empty() =~= kept);
        }
        i = i + 1;
    }
    assert(cv.take(candidates.len() as int) =~= cv);
    let sorted = sort_ranked(keys);
    let mut r: Vec<String> = Vec::new();
    let ghost sv = view_seq(sorted@);
    let mut j: usize = 0;
    while j < sorted.len()
        invariant
            j <= sorted.len(),
            sv == view_seq(sorted@),
            views(r@) == key_paths(sv.take(j as int)),
        decreases sorted.len() - j,
    {
        let ghost rb = r@;
        r.push(owned(sorted[j].second.as_str()));
        proof {
            assert(sv[j as int] == sorted@[j as int]@);
            crate::text::lemma_views_push(rb, r@.last());
            assert(key_paths(sv.take(j + 1)) =~= key_paths(sv.take(j as int)).push(sv[j as int].1));
        }
        j = j + 1;
    }
    assert(sv.take(sorted.len() as int) =~= sv);
    r
}

} // verus!
