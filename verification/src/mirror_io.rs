//! The content side of writing and reading mirrors: the manual appendix
//! kept across rewrites, the front matter of an existing mirror, orphaned
//! mirrors.  Reading and writing the files is left to the caller.
use crate::fingerprint::{compute_fingerprints, semantic_fingerprint, source_fingerprint};
use crate::mirror_types::{FingerprintResult, MirrorFile};
use crate::template::{generate_mirror_at, is_body_for, is_header_for, mirror_path_of, mirror_to_source_path, source_of_mirror, source_to_mirror_path};
use crate::text::{chars_of, concat2, concat3, contains_text, find, first_occurrence, lemma_first_is_choice, lemma_first_occurrence, lemma_trim_edges, lemma_trim_framed, lemma_views_push, occurs_at, occurs_in, owned, string_of, trim_chars, trim_end_chars, trim_end_spec, trim_spec, unicode_whitespace, views};
use crate::types::FileResult;
use vstd::prelude::*;

verus! {

/// The marker that opens the manual appendix of a mirror.
pub const APPENDIX_START: &'static str = "<!-- manual_appendix_start -->";

/// The marker that closes the manual appendix of a mirror.
pub const APPENDIX_END: &'static str = "<!-- manual_appendix_end -->";

/// What became of the manual appendix when a mirror was rewritten.
#[derive(Debug, Clone, PartialEq)]
pub struct AppendixResult {
    pub appendix_preserved: bool,
    pub appendix_content: Option<String>,
}

/// What writing a mirror produced.
#[derive(Debug, Clone, PartialEq)]
pub struct MirrorWriteResult {
    pub mirror_path: String,
    pub source_fingerprint: String,
    pub semantic_fingerprint: String,
    pub appendix_preserved: bool,
}

/// The manual appendix of a mirror: the text between the first start
/// marker and the first end marker, trimmed; `None` when a marker is
/// missing, the end marker does not come after the start marker, or
/// nothing but white space lies between them.
pub open spec fn appendix_of(content: Seq<char>) -> Option<Seq<char>> {
    match (first_occurrence(content, APPENDIX_START@), first_occurrence(content, APPENDIX_END@)) {
        (Some(i), Some(j)) => if j <= i {
            None
        } else {
            let t = trim_spec(content.subrange(i + APPENDIX_START@.len(), j));
            if t.len() == 0 {
                None
            } else {
                Some(t)
            }
        },
        _ => None,
    }
}

proof fn lemma_markers_apart(content: Seq<char>, i: int, j: int)
    requires
        occurs_at(content, APPENDIX_START@, i),
        occurs_at(content, APPENDIX_END@, j),
        i < j,
    ensures
        i + APPENDIX_START@.len() <= j,
{
    reveal_strlit("<!-- manual_appendix_start -->");
    reveal_strlit("<!-- manual_appendix_end -->");
    if j < i + APPENDIX_START@.len() {
        assert(content.subrange(j, j + APPENDIX_END@.len())[0] == '<');
        assert(content[j] == '<');
        assert(content.subrange(i, i + APPENDIX_START@.len())[j - i] == content[j]);
        assert(APPENDIX_START@[j - i] != '<');
    }
}

/// Extracts the manual appendix of a mirror's content.
pub fn extract_appendix(content: &str) -> (r: Option<String>)
    ensures
        match r {
            Some(a) => appendix_of(content@) == Some(a@),
            None => appendix_of(content@) is None,
        },
{
    let c = chars_of(content);
    let start_marker = chars_of(APPENDIX_START);
    let end_marker = chars_of(APPENDIX_END);
    let start_idx = match find(&c, &start_marker) {
        Some(i) => i,
        None => return None,
    };
    let end_idx = match find(&c, &end_marker) {
        Some(j) => j,
        None => return None,
    };
    if end_idx <= start_idx {
        return None;
    }
    proof {
        lemma_markers_apart(c@, start_idx as int, end_idx as int);
    }
    let a = start_idx + start_marker.len();
    let mut middle: Vec<char> = Vec::new();
    let mut k: usize = a;
    while k < end_idx
        invariant
            a <= k <= end_idx <= c.len(),
            middle@ == c@.subrange(a as int, k as int),
        decreases end_idx - k,
    {
        middle.push(c[k]);
        k = k + 1;
        assert(middle@ =~= c@.subrange(a as int, k as int));
    }
    let trimmed = trim_chars(&middle);
    if trimmed.len() == 0 {
        return None;
    }
    Some(string_of(&trimmed))
}

/// The appendix block appended to a rewritten mirror.
pub open spec fn appendix_section(appendix: Seq<char>) -> Seq<char> {
    "\n\n"@ + APPENDIX_START@ + "\n"@ + appendix + "\n"@ + APPENDIX_END@ + "\n"@
}

/// Builds the appendix block appended to a rewritten mirror.
pub fn build_appendix_section(appendix_content: &str) -> (r: String)
    ensures
        r@ == appendix_section(appendix_content@),
{
    let mut r = concat3("\n\n", APPENDIX_START, "\n");
    r.append(appendix_content);
    r.append("\n");
    r.append(APPENDIX_END);
    r.append("\n");
    r
}

/// Content with its appendix block cut out: when both markers occur, the
/// text before the first start marker followed by the text after the first
/// end marker, without trailing white space; otherwise the content as it is.
pub open spec fn without_appendix(content: Seq<char>) -> Seq<char> {
    match (first_occurrence(content, APPENDIX_START@), first_occurrence(content, APPENDIX_END@)) {
        (Some(i), Some(j)) => trim_end_spec(content.take(i) + content.skip(j + APPENDIX_END@.len())),
        _ => content,
    }
}

/// Removes the appendix markers and what lies between them.
pub fn strip_appendix_markers(content: &str) -> (r: String)
    ensures
        r@ == without_appendix(content@),
{
    let c = chars_of(content);
    let start_marker = chars_of(APPENDIX_START);
    let end_marker = chars_of(APPENDIX_END);
    match find(&c, &start_marker) {
        None => owned(content),
        Some(start_idx) => match find(&c, &end_marker) {
            None => owned(content),
            Some(end_idx) => {
                assert(occurs_at(c@, end_marker@, end_idx as int));
                assert(end_idx + end_marker@.len() <= c@.len());
                assert(end_idx + end_marker.len() <= c.len());
                let after_end = end_idx + end_marker.len();
                let mut joined: Vec<char> = Vec::new();
                let mut k: usize = 0;
                while k < start_idx
                    invariant
                        k <= start_idx <= c.len(),
                        joined@ == c@.take(k as int),
                    decreases start_idx - k,
                {
                    joined.push(c[k]);
                    k = k + 1;
                    assert(joined@ =~= c@.take(k as int));
                }
                let mut m: usize = after_end;
                while m < c.len()
                    invariant
                        after_end <= m <= c.len(),
                        joined@ == c@.take(start_idx as int) + c@.subrange(after_end as int, m as int),
                    decreases c.len() - m,
                {
                    joined.push(c[m]);
                    m = m + 1;
                    assert(joined@ =~= c@.take(start_idx as int) + c@.subrange(after_end as int, m as int));
                }
                assert(c@.subrange(after_end as int, c.len() as int) =~= c@.skip(after_end as int));
                let trimmed = trim_end_chars(&joined);
                string_of(&trimmed)
            },
        },
    }
}

/// The appendix kept when a mirror is rewritten.
pub open spec fn kept_appendix(existing: Option<Seq<char>>, preserve_appendix: bool) -> Option<Seq<char>> {
    match existing {
        Some(e) => if preserve_appendix {
            appendix_of(e)
        } else {
            None
        },
        None => None,
    }
}

/// The content written when a mirror is rewritten.
pub open spec fn merged_content(new_content: Seq<char>, existing: Option<Seq<char>>, preserve_appendix: bool) -> Seq<char> {
    match kept_appendix(existing, preserve_appendix) {
        Some(a) => without_appendix(new_content) + appendix_section(a),
        None => new_content,
    }
}

/// Decides what to write when a mirror is rewritten.  `existing` is the
/// current content of the mirror file, if there is one; when
/// `preserve_appendix` holds, its manual appendix is carried over into the
/// new content.
pub fn merge_appendix(new_content: &str, existing: Option<&str>, preserve_appendix: bool) -> (r: (
    String,
    AppendixResult,
))
    ensures
        r.0@ == merged_content(new_content@, match existing { Some(e) => Some(e@), None => None }, preserve_appendix),
        r.1.appendix_preserved == kept_appendix(match existing { Some(e) => Some(e@), None => None }, preserve_appendix) is Some,
        match r.1.appendix_content {
            Some(a) => kept_appendix(match existing { Some(e) => Some(e@), None => None }, preserve_appendix) == Some(a@),
            None => kept_appendix(match existing { Some(e) => Some(e@), None => None }, preserve_appendix) is None,
        },
{
    let appendix = match existing {
        Some(e) => if preserve_appendix {
            extract_appendix(e)
        } else {
            None
        },
        None => None,
    };
    match appendix {
        Some(a) => {
            let mut content = strip_appendix_markers(new_content);
            let section = build_appendix_section(a.as_str());
            content.append(section.as_str());
            (content, AppendixResult { appendix_preserved: true, appendix_content: Some(a) })
        },
        None => (owned(new_content), AppendixResult { appendix_preserved: false, appendix_content: None }),
    }
}

/// The YAML text of a mirror's front matter: what lies between the first
/// and the second `---`.
pub open spec fn front_matter_of(content: Seq<char>) -> Option<Seq<char>> {
    match first_occurrence(content, "---"@) {
        Some(i) => match first_occurrence(content.skip(i + 3), "---"@) {
            Some(j) => Some(content.subrange(i + 3, i + 3 + j)),
            None => None,
        },
        None => None,
    }
}

/// The YAML text of a mirror's front matter, if it has one.
pub fn front_matter_yaml(content: &str) -> (r: Option<String>)
    ensures
        match r {
            Some(y) => front_matter_of(content@) == Some(y@),
            None => front_matter_of(content@) is None,
        },
{
    proof {
        reveal_strlit("---");
    }
    let c = chars_of(content);
    let sep = chars_of("---");
    let i = match find(&c, &sep) {
        Some(i) => i,
        None => return None,
    };
    assert(sep@.len() == 3);
    assert(occurs_at(c@, sep@, i as int));
    assert(i + sep.len() <= c.len());
    assert(i + 3 <= c.len());
    let start = i + 3;
    let mut rest: Vec<char> = Vec::new();
    let mut k: usize = start;
    while k < c.len()
        invariant
            start <= k <= c.len(),
            rest@ == c@.subrange(start as int, k as int),
        decreases c.len() - k,
    {
        rest.push(c[k]);
        k = k + 1;
        assert(rest@ =~= c@.subrange(start as int, k as int));
    }
    assert(rest@ =~= c@.skip(start as int));
    let j = match find(&rest, &sep) {
        Some(j) => j,
        None => return None,
    };
    let mut yaml: Vec<char> = Vec::new();
    let mut m: usize = 0;
    while m < j
        invariant
            m <= j <= rest.len(),
            yaml@ == rest@.take(m as int),
        decreases j - m,
    {
        yaml.push(rest[m]);
        m = m + 1;
        assert(yaml@ =~= rest@.take(m as int));
    }
    assert(yaml@ =~= c@.subrange(start as int, start + j));
    Some(string_of(&yaml))
}

/// Whether the mirror at `<mirror root>/<relative>` is an orphan: it maps
/// back to a source path that is not among the sources.
pub open spec fn is_orphan(relative: Seq<char>, mirror_root: Seq<char>, sources: Seq<Seq<char>>) -> bool {
    match source_of_mirror(mirror_root + "/"@ + relative, mirror_root) {
        Some(s) => !sources.contains(s),
        None => false,
    }
}

/// The orphans among the mirror files (given relative to the mirror root),
/// in order.
pub open spec fn orphans_of(relatives: Seq<Seq<char>>, mirror_root: Seq<char>, sources: Seq<Seq<char>>) -> Seq<Seq<char>>
    decreases relatives.len(),
{
    if relatives.len() == 0 {
        Seq::<Seq<char>>::empty()
    } else if is_orphan(relatives.last(), mirror_root, sources) {
        orphans_of(relatives.drop_last(), mirror_root, sources).push(relatives.last())
    } else {
        orphans_of(relatives.drop_last(), mirror_root, sources)
    }
}

/// The mirror files (given relative to the mirror root) whose source file
/// is not among `source_paths`.
pub fn find_orphan_mirrors(source_paths: &Vec<String>, mirror_root: &str, relative_mirrors: &Vec<String>) -> (r: Vec<String>)
    ensures
        views(r@) == orphans_of(views(relative_mirrors@), mirror_root@, views(source_paths@)),
{
    let ghost rels = views(relative_mirrors@);
    let mut r: Vec<String> = Vec::new();
    let mut i: usize = 0;
    while i < relative_mirrors.len()
        invariant
            i <= relative_mirrors.len(),
            rels == views(relative_mirrors@),
            views(r@) == orphans_of(rels.take(i as int), mirror_root@, views(source_paths@)),
        decreases relative_mirrors.len() - i,
    {
        proof {
            assert(rels.take(i + 1).drop_last() =~= rels.take(i as int));
            assert(rels.take(i + 1).last() == relative_mirrors@[i as int]@);
        }
        let rel = relative_mirrors[i].as_str();
        let mut full = concat2(mirror_root, "/");
        full.append(rel);
        match mirror_to_source_path(full.as_str(), mirror_root) {
            Some(source) => {
                if !contains_text(source_paths, source.as_str()) {
                    let ghost old = r@;
                    r.push(owned(rel));
                    proof {
                        lemma_views_push(old, r@.last());
                    }
                }
            },
            None => {},
        }
        i = i + 1;
    }
    assert(rels.take(relative_mirrors.len() as int) =~= rels);
    r
}

/// Everything needed to write the mirror of a source file but the YAML text
/// of its header: where it goes, the fingerprints, and the mirror.
pub fn plan_mirror(
    source_path: &str,
    source_content: &str,
    file_result: &FileResult,
    source_commit: &str,
    module_id: &str,
    mirror_root: &str,
    generated_at: String,
) -> (r: (String, FingerprintResult, MirrorFile))
    ensures
        r.0@ == mirror_path_of(source_path@, mirror_root@),
        r.1.source@ == source_fingerprint(source_content@),
        r.1.semantic@ == semantic_fingerprint(*file_result),
        r.1.fp_version@ == "1"@,
        is_header_for(r.2.header, *file_result, r.1, source_commit@, module_id@, generated_at@),
        is_body_for(r.2.body, *file_result),
{
    let fingerprints = compute_fingerprints(source_content, file_result);
    let mirror_path = source_to_mirror_path(source_path, mirror_root);
    let mirror = generate_mirror_at(file_result, &fingerprints, source_commit, module_id, generated_at);
    (mirror_path, fingerprints, mirror)
}

// ─── Rewriting keeps the appendix ──────────────────────────────────────────

proof fn lemma_marker_chars()
    ensures
        APPENDIX_START@.len() == 30,
        APPENDIX_END@.len() == 28,
        forall|k: int| 0 <= k < 30 ==> #[trigger] APPENDIX_START@[k] != '\n',
        forall|k: int| 0 <= k < 28 ==> #[trigger] APPENDIX_END@[k] != '\n',
        forall|k: int| 0 < k < 30 ==> #[trigger] APPENDIX_START@[k] != '<',
        APPENDIX_END@[0] == '<',
        APPENDIX_START@[21] != APPENDIX_END@[21],
{
    reveal_strlit("<!-- manual_appendix_start -->");
    reveal_strlit("<!-- manual_appendix_end -->");
}

pub(crate) proof fn lemma_no_occurrence_across(m: Seq<char>, pat: Seq<char>, p: int, k: int)
    requires
        p <= k < p + pat.len(),
        0 <= k < m.len(),
        m[k] == '\n',
        forall|q: int| 0 <= q < pat.len() ==> #[trigger] pat[q] != '\n',
    ensures
        !occurs_at(m, pat, p),
{
    if occurs_at(m, pat, p) {
        assert(m.subrange(p, p + pat.len())[k - p] == m[k]);
    }
}

pub(crate) proof fn lemma_occurrence_inside(m: Seq<char>, part: Seq<char>, off: int, pat: Seq<char>, p: int)
    requires
        0 <= off,
        off + part.len() <= m.len(),
        m.subrange(off, off + part.len()) == part,
        off <= p,
        p + pat.len() <= off + part.len(),
        occurs_at(m, pat, p),
    ensures
        occurs_at(part, pat, p - off),
{
    assert(part.subrange(p - off, p - off + pat.len()) =~= m.subrange(p, p + pat.len()));
}

/// The layout of `new_content` followed by the appendix block of `a`.
pub open spec fn written_layout(m: Seq<char>, new_content: Seq<char>, a: Seq<char>) -> bool {
    let len = new_content.len() as int;
    let sp = len + 2;
    let ap = sp + 31;
    let ep = ap + a.len() + 1;
    &&& m.len() == ep + 29
    &&& m[len] == '\n'
    &&& m[len + 1] == '\n'
    &&& m[sp + 30] == '\n'
    &&& m[ap + a.len()] == '\n'
    &&& m.subrange(0, len) == new_content
    &&& m.subrange(sp, sp + 30) == APPENDIX_START@
    &&& m.subrange(ap, ap + a.len()) == a
    &&& m.subrange(ep, ep + 28) == APPENDIX_END@
    &&& m.subrange(sp + 30, ep) == seq!['\n'] + a + seq!['\n']
}

proof fn lemma_layout(new_content: Seq<char>, a: Seq<char>)
    ensures
        written_layout(new_content + appendix_section(a), new_content, a),
{
    lemma_marker_chars();
    reveal_strlit("\n\n");
    reveal_strlit("\n");
    let st = APPENDIX_START@;
    let en = APPENDIX_END@;
    let sec = seq!['\n', '\n'] + st + seq!['\n'] + a + seq!['\n'] + en + seq!['\n'];
    assert(appendix_section(a) =~= sec);
    let m = new_content + sec;
    let len = new_content.len() as int;
    let sp = len + 2;
    let ap = sp + 31;
    let ep = ap + a.len() + 1;
    assert(m.subrange(0, len) =~= new_content);
    assert(m.subrange(sp, sp + 30) =~= st);
    assert(m.subrange(ap, ap + a.len()) =~= a);
    assert(m.subrange(ep, ep + 28) =~= en);
    assert(m.subrange(sp + 30, ep) =~= seq!['\n'] + a + seq!['\n']);
}

proof fn lemma_existing_appendix(existing: Seq<char>)
    requires
        appendix_of(existing) is Some,
    ensures
        appendix_of(existing)->0.len() > 0,
        !unicode_whitespace(appendix_of(existing)->0[0]),
        !unicode_whitespace(appendix_of(existing)->0.last()),
        forall|p: int| !occurs_at(appendix_of(existing)->0, APPENDIX_END@, p),
{
    lemma_marker_chars();
    let st = APPENDIX_START@;
    let en = APPENDIX_END@;
    let a = appendix_of(existing)->0;
    lemma_first_occurrence(existing, st);
    lemma_first_occurrence(existing, en);
    let i0 = first_occurrence(existing, st)->0;
    let j0 = first_occurrence(existing, en)->0;
    lemma_markers_apart(existing, i0, j0);
    let sub = existing.subrange(i0 + 30, j0);
    assert(a == trim_spec(sub));
    let lo = lemma_trim_edges(sub);
    let off = i0 + 30 + lo;
    assert(existing.subrange(off, off + a.len()) =~= a);
    assert forall|p: int| !occurs_at(a, en, p) by {
        if occurs_at(a, en, p) {
            assert(existing.subrange(off + p, off + p + 28) =~= a.subrange(p, p + 28));
            assert(occurs_at(existing, en, off + p));
        }
    }
}

proof fn lemma_written_start(m: Seq<char>, new_content: Seq<char>, a: Seq<char>)
    requires
        written_layout(m, new_content, a),
        !occurs_in(new_content, APPENDIX_START@),
    ensures
        first_occurrence(m, APPENDIX_START@) == Some(new_content.len() as int + 2),
{
    lemma_marker_chars();
    let st = APPENDIX_START@;
    let len = new_content.len() as int;
    let sp = len + 2;
    assert forall|p: int| 0 <= p < sp implies !occurs_at(m, st, p) by {
        if p + 30 <= len {
            if occurs_at(m, st, p) {
                lemma_occurrence_inside(m, new_content, 0, st, p);
            }
        } else if p <= len {
            lemma_no_occurrence_across(m, st, p, len);
        } else {
            lemma_no_occurrence_across(m, st, p, len + 1);
        }
    }
    lemma_first_is_choice(m, st, sp);
}

#[verifier::spinoff_prover]
#[verifier::rlimit(40)]
proof fn lemma_written_end(m: Seq<char>, new_content: Seq<char>, a: Seq<char>)
    requires
        written_layout(m, new_content, a),
        !occurs_in(new_content, APPENDIX_END@),
        forall|p: int| !occurs_at(a, APPENDIX_END@, p),
    ensures
        first_occurrence(m, APPENDIX_END@) == Some(new_content.len() as int + 33 + a.len() + 1),
{
    lemma_marker_chars();
    let st = APPENDIX_START@;
    let en = APPENDIX_END@;
    let len = new_content.len() as int;
    let sp = len + 2;
    let ap = sp + 31;
    let ep = ap + a.len() + 1;
    assert forall|p: int| 0 <= p < ep implies !occurs_at(m, en, p) by {
        if p + 28 <= len {
            if occurs_at(m, en, p) {
                lemma_occurrence_inside(m, new_content, 0, en, p);
            }
        } else if p <= len {
            lemma_no_occurrence_across(m, en, p, len);
        } else if p < sp {
            lemma_no_occurrence_across(m, en, p, len + 1);
        } else if p == sp {
            if occurs_at(m, en, p) {
                assert(m.subrange(p, p + 28)[21] == m[sp + 21]);
                assert(m.subrange(sp, sp + 30)[21] == m[sp + 21]);
            }
        } else if p < sp + 30 {
            if occurs_at(m, en, p) {
                assert(m.subrange(p, p + 28)[0] == m[p]);
                assert(m.subrange(sp, sp + 30)[p - sp] == m[p]);
            }
        } else if p == sp + 30 {
            lemma_no_occurrence_across(m, en, p, sp + 30);
        } else if p + 28 <= ap + a.len() {
            if occurs_at(m, en, p) {
                lemma_occurrence_inside(m, a, ap, en, p);
            }
        } else {
            lemma_no_occurrence_across(m, en, p, ap + a.len());
        }
    }
    assert(m.subrange(ep, ep + 28) == en);
    lemma_first_is_choice(m, en, ep);
}

proof fn lemma_appendix_at(m: Seq<char>, i: int, j: int, a: Seq<char>)
    requires
        first_occurrence(m, APPENDIX_START@) == Some(i),
        first_occurrence(m, APPENDIX_END@) == Some(j),
        i < j,
        i + APPENDIX_START@.len() <= j,
        trim_spec(m.subrange(i + APPENDIX_START@.len(), j)) == a,
        a.len() > 0,
    ensures
        appendix_of(m) == Some(a),
{
}

/// Rewriting a mirror keeps its manual appendix: when the existing mirror
/// has one and the new content carries no appendix markers, the appendix
/// read back from what is written is the one that was there.
pub proof fn law_appendix_survives_rewrite(new_content: Seq<char>, existing: Seq<char>)
    requires
        appendix_of(existing) is Some,
        !occurs_in(new_content, APPENDIX_START@),
        !occurs_in(new_content, APPENDIX_END@),
    ensures
        appendix_of(merged_content(new_content, Some(existing), true)) == appendix_of(existing),
{
    crate::text::lemma_newline_is_whitespace();
    let a = appendix_of(existing)->0;
    lemma_existing_appendix(existing);
    lemma_first_occurrence(new_content, APPENDIX_START@);
    assert(without_appendix(new_content) == new_content);
    let m = new_content + appendix_section(a);
    assert(merged_content(new_content, Some(existing), true) == m);
    lemma_layout(new_content, a);
    lemma_written_start(m, new_content, a);
    lemma_written_end(m, new_content, a);
    lemma_trim_framed(a);
    let len = new_content.len() as int;
    let i = len + 2;
    let j = len + 33 + a.len() + 1;
    assert(APPENDIX_START@.len() == 30) by {
        lemma_marker_chars();
    }
    assert(m.subrange(i + 30, j) == seq!['\n'] + a + seq!['\n']);
    lemma_appendix_at(m, i, j, a);
}

/// Building an appendix block and reading it back gives the trimmed
/// appendix: for a body without appendix markers and an appendix that does
/// not close the block itself and is not blank, the appendix read from the
/// body followed by the block is the appendix, trimmed.
#[verifier::spinoff_prover]
pub proof fn law_appendix_round_trip(body: Seq<char>, a: Seq<char>)
    requires
        trim_spec(a).len() > 0,
        !occurs_in(body, APPENDIX_START@),
        !occurs_in(body, APPENDIX_END@),
        !occurs_in(a, APPENDIX_END@),
    ensures
        appendix_of(body + appendix_section(a)) == Some(trim_spec(a)),
{
    let m = body + appendix_section(a);
    lemma_layout(body, a);
    lemma_written_start(m, body, a);
    lemma_written_end(m, body, a);
    let len = body.len() as int;
    let i = len + 2;
    let j = len + 33 + a.len() + 1;
    assert(APPENDIX_START@.len() == 30) by {
        lemma_marker_chars();
    }
    assert(m.subrange(i + 30, j) == seq!['\n'] + a + seq!['\n']);
    crate::text::lemma_trim_newline_framed(a);
    lemma_appendix_at(m, i, j, trim_spec(a));
}

} // verus!
