//! The routing index: one entry per mirrored file, with keywords that a
//! query is matched against.
use crate::fingerprint::{confidence_name, confidence_to_string};
use crate::order::{strictly_sorted, sorted_unique, chars_lt, Ranked};
use crate::text::{
    chars_of, concat2, contains_text, is_uppercase, is_whitespace, lemma_views_push, owned, split_by, split_chars,
    str_eq, string_of, to_lowercase, unicode_lowercase, unicode_uppercase, unicode_whitespace, views,
};
use crate::types::{FileResult, SideEffect, SideEffectKind, ConfidenceBand};
use vstd::prelude::*;
use vstd::string::StrSliceExecFns;

verus! {

// ─── Index types ────────────────────────────────────────────────────────────

/// A single entry in the routing index.
#[derive(Debug, Clone, PartialEq)]
pub struct RoutingIndexEntry {
    pub artifact_id: String,
    pub module_id: String,
    pub source_path: String,
    pub exports: Vec<String>,
    pub keywords: Vec<String>,
    pub dependencies: Vec<String>,
    pub risk_tags: Vec<String>,
    pub freshness: String,
    pub confidence: String,
}

/// The routing index.
#[derive(Debug, Clone, PartialEq)]
pub struct RoutingIndex {
    pub api_version: String,
    pub entries: Vec<RoutingIndexEntry>,
}

/// A single query result.
///
/// Its relevance is `matches / query_tokens` times the freshness weight
/// times the confidence weight of the entry (see [`freshness_tenths`] and
/// [`confidence_halves`]).
#[derive(Debug, Clone, PartialEq)]
pub struct RouteResult {
    pub source_path: String,
    pub artifact_id: String,
    /// How many query tokens are keywords of the entry.
    pub matches: usize,
    /// How many tokens the query has.
    pub query_tokens: usize,
    pub freshness: String,
    pub exports: Vec<String>,
    pub confidence: String,
}

/// The answer to a route query.
#[derive(Debug, Clone, PartialEq)]
pub struct RouteOutput {
    pub api_version: String,
    pub query: String,
    pub total_candidates: usize,
    pub results: Vec<RouteResult>,
}

// ─── Query tokens ───────────────────────────────────────────────────────────

/// The characters a query is split at: white space, `.`, `_`, `-` and `/`.
pub open spec fn is_query_separator(c: char) -> bool {
    unicode_whitespace(c) || c == '.' || c == '_' || c == '-' || c == '/'
}

/// The maximal runs of characters of `s` that satisfy no separator test.
pub open spec fn query_runs(s: Seq<char>) -> Seq<Seq<char>>
    decreases s.len(),
{
    if s.len() == 0 {
        Seq::<Seq<char>>::empty()
    } else {
        let prev = query_runs(s.drop_last());
        let c = s.last();
        if is_query_separator(c) {
            prev
        } else if s.len() >= 2 && !is_query_separator(s[s.len() - 2]) {
            prev.update(prev.len() - 1, prev.last().push(c))
        } else {
            prev.push(seq![c])
        }
    }
}

/// The tokens of a query: the runs of its lower-cased text.
pub open spec fn query_tokens(query: Seq<char>) -> Seq<Seq<char>> {
    query_runs(unicode_lowercase(query))
}

fn is_query_separator_exec(c: char) -> (r: bool)
    ensures
        r == is_query_separator(c),
{
    is_whitespace(c) || c == '.' || c == '_' || c == '-' || c == '/'
}

/// Splits a query into lower-case tokens at white space, `.`, `_`, `-` and `/`,
/// dropping empty tokens.
pub fn tokenize_query(query: &str) -> (tokens: Vec<String>)
    ensures
        views(tokens@) == query_tokens(query@),
{
    let lower = to_lowercase(query);
    let s = chars_of(lower.as_str());
    let mut done: Vec<String> = Vec::new();
    let mut cur: Vec<char> = Vec::new();
    let mut i: usize = 0;
    while i < s.len()
        invariant
            i <= s.len(),
            query_runs(s@.take(i as int)) == if cur@.len() > 0 {
                views(done@).push(cur@)
            } else {
                views(done@)
            },
            cur@.len() > 0 <==> (i > 0 && !is_query_separator(s@[i - 1])),
        decreases s.len() - i,
    {
        let c = s[i];
        proof {
            assert(s@.take(i + 1).drop_last() =~= s@.take(i as int));
            assert(s@.take(i + 1).last() == c);
            if i > 0 {
                assert(s@.take(i + 1)[i - 1] == s@[i - 1]);
            }
        }
        if is_query_separator_exec(c) {
            if cur.len() > 0 {
                let ghost old_done = done@;
                let finished = string_of(&cur);
                done.push(finished);
                proof {
                    lemma_views_push(old_done, done@.last());
                }
                cur = Vec::new();
            }
        } else {
            let ghost old_cur = cur@;
            cur.push(c);
            proof {
                if old_cur.len() > 0 {
                    assert(cur@ =~= old_cur.push(c));
                } else {
                    assert(cur@ =~= seq![c]);
                }
            }
        }
        i = i + 1;
    }
    proof {
        assert(s@.take(s.len() as int) =~= s@);
    }
    if cur.len() > 0 {
        let ghost old_done = done@;
        let finished = string_of(&cur);
        done.push(finished);
        proof {
            lemma_views_push(old_done, done@.last());
        }
    }
    done
}

// ─── Camel case ─────────────────────────────────────────────────────────────

/// `_` and `-` separate the words of an identifier.
pub open spec fn is_word_separator(c: char) -> bool {
    c == '_' || c == '-'
}

/// Whether a piece is still open after the character `c`: every character
/// but `_` and `-` joins a piece (an upper-case one starts a new piece).
pub open spec fn keeps_piece(c: char) -> bool {
    unicode_uppercase(c) || !is_word_separator(c)
}

/// The pieces an identifier is cut into before lower-casing: a piece starts
/// at each upper-case character and after each `_` or `-`, which are dropped.
pub open spec fn camel_pieces(s: Seq<char>) -> Seq<Seq<char>>
    decreases s.len(),
{
    if s.len() == 0 {
        Seq::<Seq<char>>::empty()
    } else {
        let prev = camel_pieces(s.drop_last());
        let c = s.last();
        if unicode_uppercase(c) {
            prev.push(seq![c])
        } else if is_word_separator(c) {
            prev
        } else if s.len() >= 2 && keeps_piece(s[s.len() - 2]) {
            prev.update(prev.len() - 1, prev.last().push(c))
        } else {
            prev.push(seq![c])
        }
    }
}

/// The lower-case tokens of a camelCase, snake_case or kebab-case identifier.
pub open spec fn camel_tokens(s: Seq<char>) -> Seq<Seq<char>> {
    camel_pieces(s).map_values(|p: Seq<char>| unicode_lowercase(p))
}

fn split_camel_chars(s: &Vec<char>) -> (tokens: Vec<String>)
    ensures
        views(tokens@) == camel_tokens(s@),
{
    let mut tokens: Vec<String> = Vec::new();
    let mut cur: Vec<char> = Vec::new();
    let ghost mut pieces: Seq<Seq<char>> = Seq::empty();
    let mut i: usize = 0;
    while i < s.len()
        invariant
            i <= s.len(),
            views(tokens@) == pieces.map_values(|p: Seq<char>| unicode_lowercase(p)),
            camel_pieces(s@.take(i as int)) == if cur@.len() > 0 {
                pieces.push(cur@)
            } else {
                pieces
            },
            cur@.len() > 0 <==> (i > 0 && keeps_piece(s@[i - 1])),
        decreases s.len() - i,
    {
        let c = s[i];
        proof {
            assert(s@.take(i + 1).drop_last() =~= s@.take(i as int));
            assert(s@.take(i + 1).last() == c);
            if i > 0 {
                assert(s@.take(i + 1)[i - 1] == s@[i - 1]);
            }
        }
        if is_uppercase(c) {
            if cur.len() > 0 {
                let ghost old_tokens = tokens@;
                let text = string_of(&cur);
                tokens.push(to_lowercase(text.as_str()));
                proof {
                    lemma_views_push(old_tokens, tokens@.last());
                    assert(views(tokens@) =~= pieces.push(cur@).map_values(|p: Seq<char>| unicode_lowercase(p)));
                    pieces = pieces.push(cur@);
                }
            }
            cur = Vec::new();
            cur.push(c);
            assert(cur@ =~= seq![c]);
        } else if c == '_' || c == '-' {
            if cur.len() > 0 {
                let ghost old_tokens = tokens@;
                let text = string_of(&cur);
                tokens.push(to_lowercase(text.as_str()));
                proof {
                    lemma_views_push(old_tokens, tokens@.last());
                    assert(views(tokens@) =~= pieces.push(cur@).map_values(|p: Seq<char>| unicode_lowercase(p)));
                    pieces = pieces.push(cur@);
                }
                cur = Vec::new();
            }
        } else {
            let ghost old_cur = cur@;
            cur.push(c);
            proof {
                if old_cur.len() > 0 {
                    assert(cur@ =~= old_cur.push(c));
                    assert(pieces.push(old_cur).update(pieces.len() as int, old_cur.push(c)) =~= pieces.push(cur@));
                } else {
                    assert(cur@ =~= seq![c]);
                }
            }
        }
        i = i + 1;
    }
    proof {
        assert(s@.take(s.len() as int) =~= s@);
    }
    if cur.len() > 0 {
        let ghost old_tokens = tokens@;
        let text = string_of(&cur);
        tokens.push(to_lowercase(text.as_str()));
        proof {
            lemma_views_push(old_tokens, tokens@.last());
            assert(views(tokens@) =~= pieces.push(cur@).map_values(|p: Seq<char>| unicode_lowercase(p)));
        }
    } else {
        assert(views(tokens@) =~= camel_tokens(s@));
    }
    tokens
}

/// Splits a camelCase identifier into lower-case tokens; `_` and `-` also
/// separate tokens.
pub fn split_camel_case(s: &str) -> (tokens: Vec<String>)
    ensures
        views(tokens@) == camel_tokens(s@),
{
    let chars = chars_of(s);
    split_camel_chars(&chars)
}

// ─── Keywords ───────────────────────────────────────────────────────────────

/// The lists of `xs` one after the other.
pub open spec fn flatten(xs: Seq<Seq<Seq<char>>>) -> Seq<Seq<char>>
    decreases xs.len(),
{
    if xs.len() == 0 {
        Seq::<Seq<char>>::empty()
    } else {
        flatten(xs.drop_last()) + xs.last()
    }
}

/// The non-empty texts of `s`, in order.
pub open spec fn nonempty_texts(s: Seq<Seq<char>>) -> Seq<Seq<char>>
    decreases s.len(),
{
    if s.len() == 0 {
        Seq::<Seq<char>>::empty()
    } else if s.last().len() > 0 {
        nonempty_texts(s.drop_last()).push(s.last())
    } else {
        nonempty_texts(s.drop_last())
    }
}

/// The keywords of a piece of a word between `_`: its non-empty camel-case tokens.
pub open spec fn sub_keywords(sub: Seq<char>) -> Seq<Seq<char>> {
    nonempty_texts(camel_tokens(sub))
}

/// The keywords of a word: those of its pieces between `_`.
pub open spec fn word_keywords(word: Seq<char>) -> Seq<Seq<char>> {
    flatten(split_by(word, '_').map_values(|sub: Seq<char>| sub_keywords(sub)))
}

/// The keywords of a path segment: those of its parts between `.`.
pub open spec fn segment_keywords(segment: Seq<char>) -> Seq<Seq<char>> {
    flatten(split_by(segment, '.').map_values(|part: Seq<char>| word_keywords(part)))
}

/// The keywords of a path: those of its segments between `/`.
pub open spec fn path_keywords(path: Seq<char>) -> Seq<Seq<char>> {
    flatten(split_by(path, '/').map_values(|segment: Seq<char>| segment_keywords(segment)))
}

/// Every keyword found in a source path, export names and module id, with
/// repeats, in the order found.
pub open spec fn keyword_list(source_path: Seq<char>, exports: Seq<Seq<char>>, module_id: Seq<char>) -> Seq<Seq<char>> {
    path_keywords(source_path) + flatten(exports.map_values(|e: Seq<char>| word_keywords(e))) + word_keywords(module_id)
}

pub proof fn lemma_flatten_step(xs: Seq<Seq<Seq<char>>>, k: int)
    requires
        0 <= k < xs.len(),
    ensures
        flatten(xs.take(k + 1)) == flatten(xs.take(k)) + xs[k],
{
    assert(xs.take(k + 1).drop_last() =~= xs.take(k));
    assert(xs.take(k + 1).last() == xs[k]);
}

fn push_nonempty(acc: &mut Vec<String>, tokens: Vec<String>)
    ensures
        views(final(acc)@) == views(old(acc)@) + nonempty_texts(views(tokens@)),
{
    let ghost start = views(acc@);
    let ghost ts = views(tokens@);
    let mut j: usize = 0;
    while j < tokens.len()
        invariant
            j <= tokens.len(),
            ts == views(tokens@),
            views(acc@) == start + nonempty_texts(ts.take(j as int)),
        decreases tokens.len() - j,
    {
        proof {
            assert(ts.take(j + 1).drop_last() =~= ts.take(j as int));
            assert(ts.take(j + 1).last() == tokens@[j as int]@);
        }
        if tokens[j].as_str().unicode_len() > 0 {
            let ghost old_acc = acc@;
            acc.push(owned(tokens[j].as_str()));
            proof {
                lemma_views_push(old_acc, acc@.last());
                assert(views(acc@) =~= start + nonempty_texts(ts.take(j + 1)));
            }
        }
        j = j + 1;
    }
    assert(ts.take(tokens.len() as int) =~= ts);
}

fn push_word_keywords(acc: &mut Vec<String>, word: &Vec<char>)
    ensures
        views(final(acc)@) == views(old(acc)@) + word_keywords(word@),
{
    let ghost start = views(acc@);
    let ghost xs = split_by(word@, '_').map_values(|sub: Seq<char>| sub_keywords(sub));
    let subs = split_chars(word, '_');
    let mut k: usize = 0;
    while k < subs.len()
        invariant
            k <= subs.len(),
            subs@.len() == split_by(word@, '_').len(),
            forall|i: int| 0 <= i < subs@.len() ==> #[trigger] subs@[i]@ == split_by(word@, '_')[i],
            xs == split_by(word@, '_').map_values(|sub: Seq<char>| sub_keywords(sub)),
            views(acc@) == start + flatten(xs.take(k as int)),
        decreases subs.len() - k,
    {
        let tokens = split_camel_chars(&subs[k]);
        let ghost before = views(acc@);
        push_nonempty(acc, tokens);
        proof {
            lemma_flatten_step(xs, k as int);
            assert(xs[k as int] == sub_keywords(subs@[k as int]@));
            assert(views(acc@) =~= start + flatten(xs.take(k + 1)));
        }
        k = k + 1;
    }
    assert(xs.take(subs.len() as int) =~= xs);
}

fn push_segment_keywords(acc: &mut Vec<String>, segment: &Vec<char>)
    ensures
        views(final(acc)@) == views(old(acc)@) + segment_keywords(segment@),
{
    let ghost start = views(acc@);
    let ghost xs = split_by(segment@, '.').map_values(|part: Seq<char>| word_keywords(part));
    let parts = split_chars(segment, '.');
    let mut k: usize = 0;
    while k < parts.len()
        invariant
            k <= parts.len(),
            parts@.len() == split_by(segment@, '.').len(),
            forall|i: int| 0 <= i < parts@.len() ==> #[trigger] parts@[i]@ == split_by(segment@, '.')[i],
            xs == split_by(segment@, '.').map_values(|part: Seq<char>| word_keywords(part)),
            views(acc@) == start + flatten(xs.take(k as int)),
        decreases parts.len() - k,
    {
        let ghost before = views(acc@);
        push_word_keywords(acc, &parts[k]);
        proof {
            lemma_flatten_step(xs, k as int);
            assert(xs[k as int] == word_keywords(parts@[k as int]@));
            assert(views(acc@) =~= start + flatten(xs.take(k + 1)));
        }
        k = k + 1;
    }
    assert(xs.take(parts.len() as int) =~= xs);
}

fn push_path_keywords(acc: &mut Vec<String>, path: &Vec<char>)
    ensures
        views(final(acc)@) == views(old(acc)@) + path_keywords(path@),
{
    let ghost start = views(acc@);
    let ghost xs = split_by(path@, '/').map_values(|segment: Seq<char>| segment_keywords(segment));
    let segments = split_chars(path, '/');
    let mut k: usize = 0;
    while k < segments.len()
        invariant
            k <= segments.len(),
            segments@.len() == split_by(path@, '/').len(),
            forall|i: int| 0 <= i < segments@.len() ==> #[trigger] segments@[i]@ == split_by(path@, '/')[i],
            xs == split_by(path@, '/').map_values(|segment: Seq<char>| segment_keywords(segment)),
            views(acc@) == start + flatten(xs.take(k as int)),
        decreases segments.len() - k,
    {
        let ghost before = views(acc@);
        push_segment_keywords(acc, &segments[k]);
        proof {
            lemma_flatten_step(xs, k as int);
            assert(xs[k as int] == segment_keywords(segments@[k as int]@));
            assert(views(acc@) =~= start + flatten(xs.take(k + 1)));
        }
        k = k + 1;
    }
    assert(xs.take(segments.len() as int) =~= xs);
}

/// Extracts the keywords of a file: its path is split at `/`, `.` and `_`,
/// export names and the module id at `_`, and every piece into its
/// camel-case tokens; the non-empty lower-case tokens, sorted, each once.
pub fn extract_keywords(source_path: &str, exports: &[String], module_id: &str) -> (keywords: Vec<String>)
    ensures
        strictly_sorted(views(keywords@)),
        views(keywords@).to_set() =~= keyword_list(source_path@, views(exports@), module_id@).to_set(),
{
    let mut acc: Vec<String> = Vec::new();
    let path_chars = chars_of(source_path);
    push_path_keywords(&mut acc, &path_chars);
    let ghost after_path = views(acc@);
    let ghost xs = views(exports@).map_values(|e: Seq<char>| word_keywords(e));
    let mut k: usize = 0;
    while k < exports.len()
        invariant
            k <= exports.len(),
            xs == views(exports@).map_values(|e: Seq<char>| word_keywords(e)),
            views(acc@) == path_keywords(source_path@) + flatten(xs.take(k as int)),
        decreases exports.len() - k,
    {
        let word = chars_of(exports[k].as_str());
        push_word_keywords(&mut acc, &word);
        proof {
            lemma_flatten_step(xs, k as int);
            assert(xs[k as int] == word_keywords(exports@[k as int]@));
            assert(views(acc@) =~= path_keywords(source_path@) + flatten(xs.take(k + 1)));
        }
        k = k + 1;
    }
    assert(xs.take(exports.len() as int) =~= xs);
    let module_chars = chars_of(module_id);
    push_word_keywords(&mut acc, &module_chars);
    assert(views(acc@) =~= keyword_list(source_path@, views(exports@), module_id@));
    sorted_unique(acc)
}

// ─── Risk tags ──────────────────────────────────────────────────────────────

/// The risk tag of a side effect kind.
pub open spec fn risk_tag(kind: SideEffectKind) -> Seq<char> {
    match kind {
        SideEffectKind::Network => "external_api"@,
        SideEffectKind::Io => "file_io"@,
        SideEffectKind::Storage => "persistence"@,
        SideEffectKind::Log => "logging"@,
    }
}

/// The risk tags of a list of side effects, as a set.
pub open spec fn risk_tag_set(side_effects: Seq<SideEffect>) -> Set<Seq<char>> {
    side_effects.map_values(|s: SideEffect| risk_tag(s.kind)).to_set()
}

fn risk_tag_text(kind: SideEffectKind) -> (s: String)
    ensures
        s@ == risk_tag(kind),
{
    match kind {
        SideEffectKind::Network => owned("external_api"),
        SideEffectKind::Io => owned("file_io"),
        SideEffectKind::Storage => owned("persistence"),
        SideEffectKind::Log => owned("logging"),
    }
}

/// The risk tags of the side effects: network → `external_api`, io →
/// `file_io`, storage → `persistence`, log → `logging`; sorted, each once.
pub fn derive_risk_tags(side_effects: &[SideEffect]) -> (tags: Vec<String>)
    ensures
        strictly_sorted(views(tags@)),
        views(tags@).to_set() =~= risk_tag_set(side_effects@),
{
    let ghost want = side_effects@.map_values(|s: SideEffect| risk_tag(s.kind));
    let mut all: Vec<String> = Vec::new();
    let mut i: usize = 0;
    while i < side_effects.len()
        invariant
            i <= side_effects.len(),
            want == side_effects@.map_values(|s: SideEffect| risk_tag(s.kind)),
            views(all@) == want.take(i as int),
        decreases side_effects.len() - i,
    {
        let ghost old_all = all@;
        all.push(risk_tag_text(side_effects[i].kind));
        proof {
            lemma_views_push(old_all, all@.last());
            assert(views(all@) =~= want.take(i + 1));
        }
        i = i + 1;
    }
    assert(want.take(side_effects.len() as int) =~= want);
    sorted_unique(all)
}

// ─── Building the index ─────────────────────────────────────────────────────

/// The module id recorded for `path`: the last pair of `module_ids` whose
/// first part is `path`.
pub open spec fn module_lookup(module_ids: Seq<(String, String)>, path: Seq<char>) -> Option<Seq<char>>
    decreases module_ids.len(),
{
    if module_ids.len() == 0 {
        None
    } else if module_ids.last().0@ == path {
        Some(module_ids.last().1@)
    } else {
        module_lookup(module_ids.drop_last(), path)
    }
}

/// The module id of `path`, `global` when none is recorded.
pub open spec fn module_of(module_ids: Seq<(String, String)>, path: Seq<char>) -> Seq<char> {
    match module_lookup(module_ids, path) {
        Some(m) => m,
        None => "global"@,
    }
}

/// The parse results that get an index entry: those with some confidence.
pub open spec fn indexed_results(frs: Seq<FileResult>) -> Seq<FileResult>
    decreases frs.len(),
{
    if frs.len() == 0 {
        Seq::<FileResult>::empty()
    } else if frs.last().confidence != ConfidenceBand::NoConfidence {
        indexed_results(frs.drop_last()).push(frs.last())
    } else {
        indexed_results(frs.drop_last())
    }
}

/// The export names of a parse result.
pub open spec fn export_names_of(fr: FileResult) -> Seq<Seq<char>> {
    fr.exports@.map_values(|e: crate::types::ExportedSymbol| e.name@)
}

/// The import sources of a parse result.
pub open spec fn import_sources_of(fr: FileResult) -> Seq<Seq<char>> {
    fr.imports@.map_values(|d: crate::types::DependencyEdge| d.source@)
}

/// Whether `e` is the index entry of the parse result `fr`.
pub open spec fn is_entry_for(e: RoutingIndexEntry, fr: FileResult, module_ids: Seq<(String, String)>) -> bool {
    let path = fr.file_path@;
    let module_id = module_of(module_ids, path);
    &&& e.artifact_id@ == "file_mirror:"@ + path
    &&& e.module_id@ == module_id
    &&& e.source_path@ == path
    &&& views(e.exports@) == export_names_of(fr)
    &&& strictly_sorted(views(e.keywords@))
    &&& views(e.keywords@).to_set() == keyword_list(path, export_names_of(fr), module_id).to_set()
    &&& views(e.dependencies@) == import_sources_of(fr)
    &&& strictly_sorted(views(e.risk_tags@))
    &&& views(e.risk_tags@).to_set() == risk_tag_set(fr.side_effects@)
    &&& e.freshness@ == "fresh"@
    &&& e.confidence@ == confidence_name(fr.confidence)
}

fn find_module(module_ids: &Vec<(String, String)>, path: &str) -> (r: String)
    ensures
        r@ == module_of(module_ids@, path@),
{
    let mut i: usize = module_ids.len();
    assert(module_ids@.take(module_ids.len() as int) =~= module_ids@);
    while i > 0
        invariant
            i <= module_ids.len(),
            module_lookup(module_ids@, path@) == module_lookup(module_ids@.take(i as int), path@),
        decreases i,
    {
        proof {
            assert(module_ids@.take(i as int).drop_last() =~= module_ids@.take(i - 1));
            assert(module_ids@.take(i as int).last() == module_ids@[i - 1]);
        }
        if str_eq(module_ids[i - 1].0.as_str(), path) {
            return owned(module_ids[i - 1].1.as_str());
        }
        i = i - 1;
    }
    owned("global")
}

fn index_entry(fr: &FileResult, module_ids: &Vec<(String, String)>) -> (e: RoutingIndexEntry)
    ensures
        is_entry_for(e, *fr, module_ids@),
{
    let ghost names = export_names_of(*fr);
    let mut export_names: Vec<String> = Vec::new();
    let mut i: usize = 0;
    while i < fr.exports.len()
        invariant
            i <= fr.exports.len(),
            names == export_names_of(*fr),
            views(export_names@) == names.take(i as int),
        decreases fr.exports.len() - i,
    {
        let ghost old_names = export_names@;
        export_names.push(owned(fr.exports[i].name.as_str()));
        proof {
            lemma_views_push(old_names, export_names@.last());
            assert(views(export_names@) =~= names.take(i + 1));
        }
        i = i + 1;
    }
    assert(names.take(fr.exports.len() as int) =~= names);
    let ghost sources = import_sources_of(*fr);
    let mut dependencies: Vec<String> = Vec::new();
    let mut j: usize = 0;
    while j < fr.imports.len()
        invariant
            j <= fr.imports.len(),
            sources == import_sources_of(*fr),
            views(dependencies@) == sources.take(j as int),
        decreases fr.imports.len() - j,
    {
        let ghost old_deps = dependencies@;
        dependencies.push(owned(fr.imports[j].source.as_str()));
        proof {
            lemma_views_push(old_deps, dependencies@.last());
            assert(views(dependencies@) =~= sources.take(j + 1));
        }
        j = j + 1;
    }
    assert(sources.take(fr.imports.len() as int) =~= sources);
    let risk_tags = derive_risk_tags(fr.side_effects.as_slice());
    let module_id = find_module(module_ids, fr.file_path.as_str());
    let keywords = extract_keywords(fr.file_path.as_str(), export_names.as_slice(), module_id.as_str());
    RoutingIndexEntry {
        artifact_id: concat2("file_mirror:", fr.file_path.as_str()),
        module_id,
        source_path: owned(fr.file_path.as_str()),
        exports: export_names,
        keywords,
        dependencies,
        risk_tags,
        freshness: owned("fresh"),
        confidence: confidence_to_string(&fr.confidence),
    }
}

/// Builds the routing index: one entry per parse result with some
/// confidence, in order.  `module_ids` maps a file path to its module id
/// (the last pair for a path counts); a file without one is in module
/// `global`.
pub fn build_routing_index(file_results: &[FileResult], module_ids: &Vec<(String, String)>) -> (index: RoutingIndex)
    ensures
        index.api_version@ == "1"@,
        index.entries@.len() == indexed_results(file_results@).len(),
        forall|i: int| 0 <= i < index.entries@.len() ==>
            #[trigger] is_entry_for(index.entries@[i], indexed_results(file_results@)[i], module_ids@),
{
    let mut entries: Vec<RoutingIndexEntry> = Vec::new();
    let mut i: usize = 0;
    while i < file_results.len()
        invariant
            i <= file_results.len(),
            entries@.len() == indexed_results(file_results@.take(i as int)).len(),
            forall|k: int| 0 <= k < entries@.len() ==>
                #[trigger] is_entry_for(entries@[k], indexed_results(file_results@.take(i as int))[k], module_ids@),
        decreases file_results.len() - i,
    {
        proof {
            assert(file_results@.take(i + 1).drop_last() =~= file_results@.take(i as int));
            assert(file_results@.take(i + 1).last() == file_results@[i as int]);
        }
        let fr = &file_results[i];
        if fr.confidence != ConfidenceBand::NoConfidence {
            let e = index_entry(fr, module_ids);
            entries.push(e);
        }
        i = i + 1;
    }
    assert(file_results@.take(file_results.len() as int) =~= file_results@);
    RoutingIndex { api_version: owned("1"), entries }
}

// ─── Route queries ──────────────────────────────────────────────────────────

/// The freshness weight of an entry, in tenths: fresh 10, stale 7,
/// invalid 3, anything else 5.
pub open spec fn freshness_tenths(freshness: Seq<char>) -> nat {
    if freshness == "fresh"@ {
        10
    } else if freshness == "stale"@ {
        7
    } else if freshness == "invalid"@ {
        3
    } else {
        5
    }
}

/// The confidence weight of an entry, in halves: high 2, low 1, anything else 0.
pub open spec fn confidence_halves(confidence: Seq<char>) -> nat {
    if confidence == "high"@ {
        2
    } else if confidence == "low"@ {
        1
    } else {
        0
    }
}

/// The rank of a confidence when scores tie: high 2, low 1, anything else 0.
pub open spec fn confidence_rank(confidence: Seq<char>) -> nat {
    if confidence == "high"@ {
        2
    } else if confidence == "low"@ {
        1
    } else {
        0
    }
}

/// How many of the query tokens (counted with repeats) are keywords.
pub open spec fn match_count(tokens: Seq<Seq<char>>, keywords: Seq<Seq<char>>) -> nat
    decreases tokens.len(),
{
    if tokens.len() == 0 {
        0
    } else {
        match_count(tokens.drop_last(), keywords) + if keywords.contains(tokens.last()) { 1nat } else { 0nat }
    }
}

/// The score of an entry, in units of `1 / (20 * number of tokens)` of relevance.
pub open spec fn entry_score(e: RoutingIndexEntry, tokens: Seq<Seq<char>>) -> nat {
    match_count(tokens, views(e.keywords@)) * freshness_tenths(e.freshness@) * confidence_halves(e.confidence@)
}

/// The entries that match at least one token, in index order.
pub open spec fn matching_entries(entries: Seq<RoutingIndexEntry>, tokens: Seq<Seq<char>>) -> Seq<RoutingIndexEntry>
    decreases entries.len(),
{
    if entries.len() == 0 {
        Seq::<RoutingIndexEntry>::empty()
    } else if match_count(tokens, views(entries.last().keywords@)) > 0 {
        matching_entries(entries.drop_last(), tokens).push(entries.last())
    } else {
        matching_entries(entries.drop_last(), tokens)
    }
}

/// The rank of a candidate: score, confidence rank, source path, position.
pub type KeyView = (nat, nat, Seq<char>, nat);

/// The key of the `j`-th candidate.
pub open spec fn candidate_key(e: RoutingIndexEntry, tokens: Seq<Seq<char>>, j: nat) -> KeyView {
    (entry_score(e, tokens), confidence_rank(e.confidence@), e.source_path@, j)
}

/// The keys of the candidates, in candidate order.
pub open spec fn candidate_keys(cands: Seq<RoutingIndexEntry>, tokens: Seq<Seq<char>>) -> Seq<KeyView> {
    Seq::new(cands.len(), |j: int| candidate_key(cands[j], tokens, j as nat))
}

/// The rank key of a route candidate.  Candidates come in order of score
/// (higher first), then confidence rank (higher first), then source path,
/// then position in the index.
#[derive(Debug)]
pub struct RouteKey {
    pub score: u128,
    pub confidence_rank: u64,
    pub source_path: String,
    pub ordinal: usize,
}

impl View for RouteKey {
    type V = KeyView;

    open spec fn view(&self) -> KeyView {
        (self.score as nat, self.confidence_rank as nat, self.source_path@, self.ordinal as nat)
    }
}

/// `a` comes no later than `b`.
pub open spec fn key_le(a: KeyView, b: KeyView) -> bool {
    a.0 > b.0 || (a.0 == b.0 && (a.1 > b.1 || (a.1 == b.1 && (chars_lt(a.2, b.2) || (a.2 == b.2 && a.3 <= b.3)))))
}

proof fn lemma_chars_lt_trans(a: Seq<char>, b: Seq<char>, c: Seq<char>)
    requires
        chars_lt(a, b) || a == b,
        chars_lt(b, c) || b == c,
        chars_lt(a, b) || chars_lt(b, c),
    ensures
        chars_lt(a, c),
{
    if chars_lt(a, b) && chars_lt(b, c) {
        crate::order::lemma_chars_le_trans(a, b, c);
        if a == c {
            crate::order::lemma_chars_le_antisym(a, b);
        }
    }
}

impl Ranked for RouteKey {
    open spec fn ranks_le(a: KeyView, b: KeyView) -> bool {
        key_le(a, b)
    }

    proof fn lemma_ranks_total(a: KeyView, b: KeyView) {
        crate::order::lemma_chars_le_total(a.2, b.2);
    }

    proof fn lemma_ranks_trans(a: KeyView, b: KeyView, c: KeyView) {
        if a.0 == b.0 && b.0 == c.0 && a.1 == b.1 && b.1 == c.1 {
            if a.2 != b.2 || b.2 != c.2 {
                lemma_chars_lt_trans(a.2, b.2, c.2);
            }
        }
    }

    proof fn lemma_ranks_antisym(a: KeyView, b: KeyView) {
        if a.2 != b.2 && a.0 == b.0 && a.1 == b.1 {
            crate::order::lemma_chars_le_antisym(a.2, b.2);
        }
    }

    fn rank_le(&self, other: &Self) -> (r: bool) {
        if self.score != other.score {
            self.score > other.score
        } else if self.confidence_rank != other.confidence_rank {
            self.confidence_rank > other.confidence_rank
        } else if !str_eq(self.source_path.as_str(), other.source_path.as_str()) {
            crate::order::str_le(self.source_path.as_str(), other.source_path.as_str())
        } else {
            self.ordinal <= other.ordinal
        }
    }
}

/// A route result seen as text and numbers.
pub type ResultView = (Seq<char>, Seq<char>, nat, nat, Seq<char>, Seq<Seq<char>>, Seq<char>);

/// The text of a route result.
pub open spec fn result_view(r: RouteResult) -> ResultView {
    (r.source_path@, r.artifact_id@, r.matches as nat, r.query_tokens as nat, r.freshness@, views(r.exports@), r.confidence@)
}

/// The result an entry gives for the query tokens.
pub open spec fn result_of(e: RoutingIndexEntry, tokens: Seq<Seq<char>>) -> ResultView {
    (
        e.source_path@,
        e.artifact_id@,
        match_count(tokens, views(e.keywords@)),
        tokens.len(),
        e.freshness@,
        views(e.exports@),
        e.confidence@,
    )
}

/// All results of a query, best first.
pub open spec fn ranked_results(entries: Seq<RoutingIndexEntry>, tokens: Seq<Seq<char>>) -> Seq<ResultView> {
    let cands = matching_entries(entries, tokens);
    crate::order::sorted_rank::<RouteKey>(candidate_keys(cands, tokens)).map_values(
        |k: KeyView| result_of(cands[k.3 as int], tokens),
    )
}

/// The first `n` elements of `s` (all of them when there are fewer).
pub open spec fn first_n<A>(s: Seq<A>, n: nat) -> Seq<A> {
    if n < s.len() {
        s.take(n as int)
    } else {
        s
    }
}

/// The score of a route result: matches times freshness weight times confidence weight.
pub open spec fn result_score(r: ResultView) -> nat {
    r.2 * freshness_tenths(r.4) * confidence_halves(r.6)
}

/// Every entry that matches the query has at least one keyword among its tokens.
pub proof fn lemma_matching_entries_match(entries: Seq<RoutingIndexEntry>, tokens: Seq<Seq<char>>, k: int)
    requires
        0 <= k < matching_entries(entries, tokens).len(),
    ensures
        match_count(tokens, views(matching_entries(entries, tokens)[k].keywords@)) > 0,
    decreases entries.len(),
{
    if entries.len() > 0 {
        let rest = matching_entries(entries.drop_last(), tokens);
        if match_count(tokens, views(entries.last().keywords@)) > 0 {
            if k < rest.len() {
                lemma_matching_entries_match(entries.drop_last(), tokens, k);
            }
        } else {
            lemma_matching_entries_match(entries.drop_last(), tokens, k);
        }
    }
}

/// The `i`-th ranked result comes from the candidate its key points at, and
/// scores what that key says.
proof fn lemma_ranked_entry(entries: Seq<RoutingIndexEntry>, tokens: Seq<Seq<char>>, i: int) -> (m: int)
    requires
        0 <= i < ranked_results(entries, tokens).len(),
    ensures
        0 <= m < matching_entries(entries, tokens).len(),
        ranked_results(entries, tokens)[i] == result_of(matching_entries(entries, tokens)[m], tokens),
        crate::order::sorted_rank::<RouteKey>(candidate_keys(matching_entries(entries, tokens), tokens))[i]
            == candidate_key(matching_entries(entries, tokens)[m], tokens, m as nat),
{
    let cands = matching_entries(entries, tokens);
    let keys = candidate_keys(cands, tokens);
    let sorted = crate::order::sorted_rank::<RouteKey>(keys);
    crate::order::lemma_rank_total_ordering::<RouteKey>();
    keys.lemma_sort_by_ensures(crate::order::rank_order::<RouteKey>());
    assert(sorted.contains(sorted[i]));
    assert(keys.contains(sorted[i]));
    let m = choose|m: int| 0 <= m < keys.len() && keys[m] == sorted[i];
    m
}

/// Route results come best first, and each matched the query: along the
/// answer to a query (any prefix of the ranked candidates), no result scores
/// higher than one before it, and every result has at least one match.
pub proof fn law_route_best_first(entries: Seq<RoutingIndexEntry>, tokens: Seq<Seq<char>>, n: nat, i: int, j: int)
    requires
        0 <= i < j < first_n(ranked_results(entries, tokens), n).len(),
    ensures
        result_score(first_n(ranked_results(entries, tokens), n)[i])
            >= result_score(first_n(ranked_results(entries, tokens), n)[j]),
        first_n(ranked_results(entries, tokens), n)[j].2 > 0,
{
    let cands = matching_entries(entries, tokens);
    let keys = candidate_keys(cands, tokens);
    let sorted = crate::order::sorted_rank::<RouteKey>(keys);
    let ranked = ranked_results(entries, tokens);
    assert(first_n(ranked, n)[i] == ranked[i]);
    assert(first_n(ranked, n)[j] == ranked[j]);
    crate::order::lemma_rank_total_ordering::<RouteKey>();
    keys.lemma_sort_by_ensures(crate::order::rank_order::<RouteKey>());
    let mi = lemma_ranked_entry(entries, tokens, i);
    let mj = lemma_ranked_entry(entries, tokens, j);
    assert(crate::order::rank_order::<RouteKey>()(sorted[i], sorted[j]));
    assert(key_le(sorted[i], sorted[j]));
    lemma_matching_entries_match(entries, tokens, mj);
}

fn freshness_weight(freshness: &str) -> (w: u64)
    ensures
        w == freshness_tenths(freshness@),
{
    if str_eq(freshness, "fresh") {
        10
    } else if str_eq(freshness, "stale") {
        7
    } else if str_eq(freshness, "invalid") {
        3
    } else {
        5
    }
}

fn confidence_weight(confidence: &str) -> (w: u64)
    ensures
        w == confidence_halves(confidence@),
{
    if str_eq(confidence, "high") {
        2
    } else if str_eq(confidence, "low") {
        1
    } else {
        0
    }
}

/// The tie-break rank of a confidence: high 2, low 1, anything else 0.
pub fn confidence_sort_value(confidence: &str) -> (v: u64)
    ensures
        v == confidence_rank(confidence@),
{
    if str_eq(confidence, "high") {
        2
    } else if str_eq(confidence, "low") {
        1
    } else {
        0
    }
}

fn count_matches(tokens: &Vec<String>, keywords: &Vec<String>) -> (m: usize)
    ensures
        m == match_count(views(tokens@), views(keywords@)),
        m <= tokens.len(),
{
    let ghost ts = views(tokens@);
    let mut m: usize = 0;
    let mut i: usize = 0;
    while i < tokens.len()
        invariant
            i <= tokens.len(),
            ts == views(tokens@),
            m == match_count(ts.take(i as int), views(keywords@)),
            m <= i,
        decreases tokens.len() - i,
    {
        proof {
            assert(ts.take(i + 1).drop_last() =~= ts.take(i as int));
            assert(ts.take(i + 1).last() == tokens@[i as int]@);
        }
        if contains_text(keywords, tokens[i].as_str()) {
            m = m + 1;
        }
        i = i + 1;
    }
    assert(ts.take(tokens.len() as int) =~= ts);
    m
}

proof fn lemma_no_tokens_no_match(entries: Seq<RoutingIndexEntry>, tokens: Seq<Seq<char>>)
    requires
        tokens.len() == 0,
    ensures
        matching_entries(entries, tokens).len() == 0,
    decreases entries.len(),
{
    if entries.len() > 0 {
        lemma_no_tokens_no_match(entries.drop_last(), tokens);
    }
}

fn result_for(e: &RoutingIndexEntry, matches: usize, query_tokens: usize) -> (r: RouteResult)
    ensures
        result_view(r) == (e.source_path@, e.artifact_id@, matches as nat, query_tokens as nat, e.freshness@, views(
            e.exports@,
        ), e.confidence@),
{
    let exports = crate::text::copy_strings(&e.exports);
    assert(views(exports@) =~= views(e.exports@));
    RouteResult {
        source_path: owned(e.source_path.as_str()),
        artifact_id: owned(e.artifact_id.as_str()),
        matches,
        query_tokens,
        freshness: owned(e.freshness.as_str()),
        exports,
        confidence: owned(e.confidence.as_str()),
    }
}

/// Answers a route query: the entries with keywords among the query's
/// tokens, best first by relevance, then confidence, then source path (then
/// index order), at most `top_k` of them.  `total_candidates` counts all
/// entries that matched.
pub fn route_query(query: &str, index: &RoutingIndex, top_k: usize) -> (out: RouteOutput)
    ensures
        out.api_version@ == "1"@,
        out.query@ == query@,
        out.total_candidates == matching_entries(index.entries@, query_tokens(query@)).len(),
        out.results@.map_values(|r: RouteResult| result_view(r)) == first_n(
            ranked_results(index.entries@, query_tokens(query@)),
            top_k as nat,
        ),
{
    let tokens = tokenize_query(query);
    let ghost ts = views(tokens@);
    if tokens.len() == 0 {
        proof {
            lemma_no_tokens_no_match(index.entries@, ts);
            crate::order::lemma_sorted_empty::<RouteKey>(candidate_keys(matching_entries(index.entries@, ts), ts));
        }
        let results: Vec<RouteResult> = Vec::new();
        assert(results@.map_values(|r: RouteResult| result_view(r)) =~= first_n(
            ranked_results(index.entries@, ts),
            top_k as nat,
        ));
        return RouteOutput { api_version: owned("1"), query: owned(query), total_candidates: 0, results };
    }
    let entries = &index.entries;
    let mut cand_idx: Vec<usize> = Vec::new();
    let mut counts: Vec<usize> = Vec::new();
    let mut keys: Vec<RouteKey> = Vec::new();
    let mut i: usize = 0;
    while i < entries.len()
        invariant
            i <= entries.len(),
            entries == &index.entries,
            ts == views(tokens@),
            cand_idx@.len() == matching_entries(entries@.take(i as int), ts).len(),
            counts@.len() == cand_idx@.len(),
            forall|j: int| 0 <= j < cand_idx@.len() ==> #[trigger] cand_idx@[j] < entries@.len(),
            forall|j: int| 0 <= j < cand_idx@.len() ==> entries@[#[trigger] cand_idx@[j] as int] == matching_entries(
                entries@.take(i as int),
                ts,
            )[j],
            forall|j: int| 0 <= j < cand_idx@.len() ==> #[trigger] counts@[j] == match_count(ts, views(
                matching_entries(entries@.take(i as int), ts)[j].keywords@,
            )),
            crate::order::view_seq(keys@) == candidate_keys(matching_entries(entries@.take(i as int), ts), ts),
        decreases entries.len() - i,
    {
        let ghost prev = matching_entries(entries@.take(i as int), ts);
        proof {
            assert(entries@.take(i + 1).drop_last() =~= entries@.take(i as int));
            assert(entries@.take(i + 1).last() == entries@[i as int]);
        }
        let e = &entries[i];
        let m = count_matches(&tokens, &e.keywords);
        if m > 0 {
            let fw = freshness_weight(e.freshness.as_str());
            let cw = confidence_weight(e.confidence.as_str());
            assert((m as int) * (fw as int) <= (m as int) * 10) by (nonlinear_arith)
                requires
                    fw <= 10,
                    m >= 0,
            ;
            let mf: u128 = (m as u128) * (fw as u128);
            assert((mf as int) * (cw as int) <= (mf as int) * 2) by (nonlinear_arith)
                requires
                    cw <= 2,
                    mf >= 0,
            ;
            let score: u128 = mf * (cw as u128);
            assert((m as int) * (fw as int) * (cw as int) == entry_score(*e, ts));
            let key = RouteKey {
                score,
                confidence_rank: confidence_sort_value(e.confidence.as_str()),
                source_path: owned(e.source_path.as_str()),
                ordinal: cand_idx.len(),
            };
            let ghost old_keys = keys@;
            keys.push(key);
            cand_idx.push(i);
            counts.push(m);
            proof {
                let now = matching_entries(entries@.take(i + 1), ts);
                assert(now == prev.push(*e));
                assert(crate::order::view_seq(keys@) =~= crate::order::view_seq(old_keys).push(
                    candidate_key(*e, ts, prev.len()),
                ));
                assert(candidate_keys(now, ts) =~= candidate_keys(prev, ts).push(candidate_key(*e, ts, prev.len())));
            }
        }
        i = i + 1;
    }
    proof {
        assert(entries@.take(entries.len() as int) =~= entries@);
    }
    let ghost cands = matching_entries(entries@, ts);
    let ghost key_views = candidate_keys(cands, ts);
    let total = keys.len();
    let sorted = crate::order::sort_ranked(keys);
    proof {
        crate::order::lemma_rank_total_ordering::<RouteKey>();
        key_views.lemma_sort_by_ensures(crate::order::rank_order::<RouteKey>());
        key_views.to_multiset_ensures();
        crate::order::sorted_rank::<RouteKey>(key_views).to_multiset_ensures();
        assert(crate::order::sorted_rank::<RouteKey>(key_views).len() == key_views.len());
    }
    let ghost order = crate::order::sorted_rank::<RouteKey>(key_views);
    let ghost want = order.map_values(|k: KeyView| result_of(cands[k.3 as int], ts));
    let limit = if top_k < total { top_k } else { total };
    let mut results: Vec<RouteResult> = Vec::new();
    let mut p: usize = 0;
    while p < limit
        invariant
            p <= limit,
            limit <= total,
            total == cand_idx@.len(),
            sorted@.len() == total,
            order.len() == total,
            counts@.len() == cand_idx@.len(),
            cands == matching_entries(entries@, ts),
            cand_idx@.len() == cands.len(),
            key_views == candidate_keys(cands, ts),
            order == crate::order::sorted_rank::<RouteKey>(key_views),
            crate::order::view_seq(sorted@) == order,
            forall|x: KeyView| !key_views.contains(x) ==> !(#[trigger] order.contains(x)),
            want == order.map_values(|k: KeyView| result_of(cands[k.3 as int], ts)),
            forall|j: int| 0 <= j < cand_idx@.len() ==> #[trigger] cand_idx@[j] < entries@.len(),
            forall|j: int| 0 <= j < cand_idx@.len() ==> entries@[#[trigger] cand_idx@[j] as int] == cands[j],
            forall|j: int| 0 <= j < cand_idx@.len() ==> #[trigger] counts@[j] == match_count(ts, views(cands[j].keywords@)),
            ts == views(tokens@),
            entries == &index.entries,
            results@.map_values(|r: RouteResult| result_view(r)) == want.take(p as int),
        decreases limit - p,
    {
        let k = &sorted[p];
        proof {
            assert(order[p as int] == k@);
            assert(order.contains(k@));
            assert(key_views.contains(k@));
            let w = choose|w: int| 0 <= w < key_views.len() && key_views[w] == k@;
            assert(k.ordinal as nat == w);
        }
        let o = k.ordinal;
        let e = &entries[cand_idx[o]];
        let r = result_for(e, counts[o], tokens.len());
        let ghost old_results = results@;
        results.push(r);
        proof {
            assert(want[p as int] == result_of(cands[o as int], ts));
            assert(results@.map_values(|r: RouteResult| result_view(r)) =~= old_results.map_values(
                |r: RouteResult| result_view(r),
            ).push(want[p as int]));
            assert(want.take(p + 1) =~= want.take(p as int).push(want[p as int]));
        }
        p = p + 1;
    }
    proof {
        if limit == total {
            assert(want.take(limit as int) =~= want);
        }
    }
    RouteOutput { api_version: owned("1"), query: owned(query), total_candidates: total, results }
}

} // verus!
