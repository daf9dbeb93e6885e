//! The reverse dependency graph: for each file, which files import it.
//!
//! The graph keeps the list of import edges `(importer, imported)` in the
//! order in which the file results list them; the reverse lookups are
//! filters over that list.
use crate::paths::{components, components_of, is_absolute, is_skipped_part, path_extension, render_components, render_path, extension_of};
use crate::text::{contains_text, chars_of, concat2, find, lemma_push_contains, lemma_push_no_dup, occurs_in, owned, split_by, split_chars, str_eq, string_of, views};
use crate::types::FileResult;
use vstd::prelude::*;

verus! {

// ─── Import path resolution ────────────────────────────────────────────────

/// Applies `..` to the components collected so far, and drops empty and `.` pieces.
pub open spec fn collapse(parts: Seq<Seq<char>>) -> Seq<Seq<char>>
    decreases parts.len(),
{
    if parts.len() == 0 {
        parts
    } else {
        let acc = collapse(parts.drop_last());
        let p = parts.last();
        if is_skipped_part(p) {
            acc
        } else if p == seq!['.', '.'] && acc.len() > 0 && acc.last() != seq!['.', '.'] {
            acc.drop_last()
        } else {
            acc.push(p)
        }
    }
}

/// The extensions tried, in order, for an import written without one,
/// given the importing file's extension.
pub open spec fn extension_candidates_spec(ext: Seq<char>) -> Seq<Seq<char>> {
    if ext == "ts"@ || ext == "tsx"@ || ext == "js"@ || ext == "jsx"@ {
        seq![".ts"@, ".tsx"@, ".js"@, ".jsx"@]
    } else if ext == "rs"@ {
        seq![".rs"@]
    } else if ext == "py"@ {
        seq![".py"@]
    } else if ext == "go"@ {
        seq![".go"@]
    } else if ext == "c"@ {
        seq![".c"@, ".h"@]
    } else if ext == "cpp"@ || ext == "cc"@ || ext == "cxx"@ || ext == "hpp"@ || ext == "hh"@ || ext == "hxx"@ {
        seq![".cpp"@, ".cc"@, ".h"@, ".hpp"@]
    } else if ext == "cs"@ {
        seq![".cs"@]
    } else if ext == "dart"@ {
        seq![".dart"@]
    } else if ext == "java"@ {
        seq![".java"@]
    } else if ext == "kt"@ || ext == "kts"@ {
        seq![".kt"@, ".kts"@]
    } else if ext == "swift"@ {
        seq![".swift"@]
    } else if ext == "zig"@ {
        seq![".zig"@]
    } else {
        seq![".ts"@, ".tsx"@, ".js"@, ".jsx"@]
    }
}

/// The extension of a path, or the empty text when it has none.
pub open spec fn extension_or_empty(p: Seq<char>) -> Seq<char> {
    match path_extension(p) {
        Some(e) => e,
        None => Seq::<char>::empty(),
    }
}

/// The joined and collapsed path of a relative import, before an extension is added.
pub open spec fn joined_import(importer: Seq<char>, source: Seq<char>) -> Seq<char> {
    let dir = components(importer);
    let dir_parts = if dir.len() == 0 { dir } else { dir.drop_last() };
    render_path(is_absolute(importer), collapse(dir_parts + split_by(source, '/')))
}

/// Where an import specifier points, seen from the importing file.
///
/// A relative specifier (starting with `.`) is joined to the importer's
/// directory and collapsed; when the result has no extension and is not an
/// `/index` path, the importer's first candidate extension is appended.
/// Any other specifier (a package) is kept as it is.
pub open spec fn resolve_import(importer: Seq<char>, source: Seq<char>) -> Seq<char> {
    if source.len() > 0 && source[0] == '.' {
        let joined = joined_import(importer, source);
        if path_extension(joined) is None && !occurs_in(joined, "/index"@) {
            joined + extension_candidates_spec(extension_or_empty(importer))[0]
        } else {
            joined
        }
    } else {
        source
    }
}

/// A relative import written without an extension points at a file of the
/// importer's own language: from a `.rs`, `.py`, `.go`, `.c`, `.cpp`, `.cs`,
/// `.dart`, `.java`, `.kt`, `.swift`, `.zig` or `.ts` file it gets that same
/// extension (`./mod` from `src/main.rs` is `src/mod.rs`).  An import with an
/// extension, or one ending in an `/index` path, is only joined and
/// collapsed, and a package import is kept as written.
pub proof fn law_extensionless_import_takes_importer_extension(importer: Seq<char>, source: Seq<char>, e: Seq<char>)
    requires
        path_extension(importer) == Some(e),
    ensures
        source.len() > 0 && source[0] == '.' && path_extension(joined_import(importer, source)) is None
            && !occurs_in(joined_import(importer, source), "/index"@) && (e == "ts"@ || e == "rs"@ || e == "py"@ || e == "go"@ || e == "c"@ || e == "cpp"@ || e == "cs"@ || e == "dart"@ || e == "java"@ || e == "kt"@ || e == "swift"@ || e == "zig"@)
            ==> resolve_import(importer, source) == joined_import(importer, source) + "."@ + e,
        source.len() > 0 && source[0] == '.' && path_extension(joined_import(importer, source)) is Some
            ==> resolve_import(importer, source) == joined_import(importer, source),
        !(source.len() > 0 && source[0] == '.') ==> resolve_import(importer, source) == source,
{
    reveal_strlit("ts");
    reveal_strlit("tsx");
    reveal_strlit("js");
    reveal_strlit("jsx");
    reveal_strlit("rs");
    reveal_strlit("py");
    reveal_strlit("go");
    reveal_strlit("c");
    reveal_strlit("cpp");
    reveal_strlit("cc");
    reveal_strlit("cxx");
    reveal_strlit("hpp");
    reveal_strlit("hh");
    reveal_strlit("hxx");
    reveal_strlit("cs");
    reveal_strlit("dart");
    reveal_strlit("java");
    reveal_strlit("kt");
    reveal_strlit("kts");
    reveal_strlit("swift");
    reveal_strlit("zig");
    reveal_strlit(".cpp");
    reveal_strlit(".js");
    reveal_strlit(".go");
    reveal_strlit(".java");
    reveal_strlit(".zig");
    reveal_strlit(".py");
    reveal_strlit(".kts");
    reveal_strlit(".tsx");
    reveal_strlit(".swift");
    reveal_strlit(".cs");
    reveal_strlit(".hpp");
    reveal_strlit(".kt");
    reveal_strlit(".rs");
    reveal_strlit(".cc");
    reveal_strlit(".jsx");
    reveal_strlit(".c");
    reveal_strlit(".dart");
    reveal_strlit(".h");
    reveal_strlit(".ts");
    reveal_strlit(".");
    if e == "ts"@ {
        assert(e.len() == 2);
        assert(e[0] == 't');
        assert(e[1] == 's');
        assert(extension_candidates_spec(e)[0] == ".ts"@);
        assert(".ts"@ =~= "."@ + e);
    }
    if e == "rs"@ {
        assert(e.len() == 2);
        assert(e[0] == 'r');
        assert(e[1] == 's');
        assert(e != "ts"@) by { assert("ts"@[0] == 't'); }
        assert(e != "tsx"@) by { assert("tsx"@.len() == 3); }
        assert(e != "js"@) by { assert("js"@[0] == 'j'); }
        assert(e != "jsx"@) by { assert("jsx"@.len() == 3); }
        assert(extension_candidates_spec(e)[0] == ".rs"@);
        assert(".rs"@ =~= "."@ + e);
    }
    if e == "py"@ {
        assert(e.len() == 2);
        assert(e[0] == 'p');
        assert(e[1] == 'y');
        assert(e != "ts"@) by { assert("ts"@[0] == 't'); }
        assert(e != "tsx"@) by { assert("tsx"@.len() == 3); }
        assert(e != "js"@) by { assert("js"@[0] == 'j'); }
        assert(e != "jsx"@) by { assert("jsx"@.len() == 3); }
        assert(e != "rs"@) by { assert("rs"@[0] == 'r'); }
        assert(extension_candidates_spec(e)[0] == ".py"@);
        assert(".py"@ =~= "."@ + e);
    }
    if e == "go"@ {
        assert(e.len() == 2);
        assert(e[0] == 'g');
        assert(e[1] == 'o');
        assert(e != "ts"@) by { assert("ts"@[0] == 't'); }
        assert(e != "tsx"@) by { assert("tsx"@.len() == 3); }
        assert(e != "js"@) by { assert("js"@[0] == 'j'); }
        assert(e != "jsx"@) by { assert("jsx"@.len() == 3); }
        assert(e != "rs"@) by { assert("rs"@[0] == 'r'); }
        assert(e != "py"@) by { assert("py"@[0] == 'p'); }
        assert(extension_candidates_spec(e)[0] == ".go"@);
        assert(".go"@ =~= "."@ + e);
    }
    if e == "c"@ {
        assert(e.len() == 1);
        assert(e[0] == 'c');
        assert(e != "ts"@) by { assert("ts"@.len() == 2); }
        assert(e != "tsx"@) by { assert("tsx"@.len() == 3); }
        assert(e != "js"@) by { assert("js"@.len() == 2); }
        assert(e != "jsx"@) by { assert("jsx"@.len() == 3); }
        assert(e != "rs"@) by { assert("rs"@.len() == 2); }
        assert(e != "py"@) by { assert("py"@.len() == 2); }
        assert(e != "go"@) by { assert("go"@.len() == 2); }
        assert(extension_candidates_spec(e)[0] == ".c"@);
        assert(".c"@ =~= "."@ + e);
    }
    if e == "cpp"@ {
        assert(e.len() == 3);
        assert(e[0] == 'c');
        assert(e[1] == 'p');
        assert(e[2] == 'p');
        assert(e != "ts"@) by { assert("ts"@.len() == 2); }
        assert(e != "tsx"@) by { assert("tsx"@[0] == 't'); }
        assert(e != "js"@) by { assert("js"@.len() == 2); }
        assert(e != "jsx"@) by { assert("jsx"@[0] == 'j'); }
        assert(e != "rs"@) by { assert("rs"@.len() == 2); }
        assert(e != "py"@) by { assert("py"@.len() == 2); }
        assert(e != "go"@) by { assert("go"@.len() == 2); }
        assert(e != "c"@) by { assert("c"@.len() == 1); }
        assert(extension_candidates_spec(e)[0] == ".cpp"@);
        assert(".cpp"@ =~= "."@ + e);
    }
    if e == "cs"@ {
        assert(e.len() == 2);
        assert(e[0] == 'c');
        assert(e[1] == 's');
        assert(e != "ts"@) by { assert("ts"@[0] == 't'); }
        assert(e != "tsx"@) by { assert("tsx"@.len() == 3); }
        assert(e != "js"@) by { assert("js"@[0] == 'j'); }
        assert(e != "jsx"@) by { assert("jsx"@.len() == 3); }
        assert(e != "rs"@) by { assert("rs"@[0] == 'r'); }
        assert(e != "py"@) by { assert("py"@[0] == 'p'); }
        assert(e != "go"@) by { assert("go"@[0] == 'g'); }
        assert(e != "c"@) by { assert("c"@.len() == 1); }
        assert(e != "cpp"@) by { assert("cpp"@.len() == 3); }
        assert(e != "cc"@) by { assert("cc"@[1] == 'c'); }
        assert(e != "cxx"@) by { assert("cxx"@.len() == 3); }
        assert(e != "hpp"@) by { assert("hpp"@.len() == 3); }
        assert(e != "hh"@) by { assert("hh"@[0] == 'h'); }
        assert(e != "hxx"@) by { assert("hxx"@.len() == 3); }
        assert(extension_candidates_spec(e)[0] == ".cs"@);
        assert(".cs"@ =~= "."@ + e);
    }
    if e == "dart"@ {
        assert(e.len() == 4);
        assert(e[0] == 'd');
        assert(e[1] == 'a');
        assert(e[2] == 'r');
        assert(e[3] == 't');
        assert(e != "ts"@) by { assert("ts"@.len() == 2); }
        assert(e != "tsx"@) by { assert("tsx"@.len() == 3); }
        assert(e != "js"@) by { assert("js"@.len() == 2); }
        assert(e != "jsx"@) by { assert("jsx"@.len() == 3); }
        assert(e != "rs"@) by { assert("rs"@.len() == 2); }
        assert(e != "py"@) by { assert("py"@.len() == 2); }
        assert(e != "go"@) by { assert("go"@.len() == 2); }
        assert(e != "c"@) by { assert("c"@.len() == 1); }
        assert(e != "cpp"@) by { assert("cpp"@.len() == 3); }
        assert(e != "cc"@) by { assert("cc"@.len() == 2); }
        assert(e != "cxx"@) by { assert("cxx"@.len() == 3); }
        assert(e != "hpp"@) by { assert("hpp"@.len() == 3); }
        assert(e != "hh"@) by { assert("hh"@.len() == 2); }
        assert(e != "hxx"@) by { assert("hxx"@.len() == 3); }
        assert(e != "cs"@) by { assert("cs"@.len() == 2); }
        assert(extension_candidates_spec(e)[0] == ".dart"@);
        assert(".dart"@ =~= "."@ + e);
    }
    if e == "java"@ {
        assert(e.len() == 4);
        assert(e[0] == 'j');
        assert(e[1] == 'a');
        assert(e[2] == 'v');
        assert(e[3] == 'a');
        assert(e != "ts"@) by { assert("ts"@.len() == 2); }
        assert(e != "tsx"@) by { assert("tsx"@.len() == 3); }
        assert(e != "js"@) by { assert("js"@.len() == 2); }
        assert(e != "jsx"@) by { assert("jsx"@.len() == 3); }
        assert(e != "rs"@) by { assert("rs"@.len() == 2); }
        assert(e != "py"@) by { assert("py"@.len() == 2); }
        assert(e != "go"@) by { assert("go"@.len() == 2); }
        assert(e != "c"@) by { assert("c"@.len() == 1); }
        assert(e != "cpp"@) by { assert("cpp"@.len() == 3); }
        assert(e != "cc"@) by { assert("cc"@.len() == 2); }
        assert(e != "cxx"@) by { assert("cxx"@.len() == 3); }
        assert(e != "hpp"@) by { assert("hpp"@.len() == 3); }
        assert(e != "hh"@) by { assert("hh"@.len() == 2); }
        assert(e != "hxx"@) by { assert("hxx"@.len() == 3); }
        assert(e != "cs"@) by { assert("cs"@.len() == 2); }
        assert(e != "dart"@) by { assert("dart"@[0] == 'd'); }
        assert(extension_candidates_spec(e)[0] == ".java"@);
        assert(".java"@ =~= "."@ + e);
    }
    if e == "kt"@ {
        assert(e.len() == 2);
        assert(e[0] == 'k');
        assert(e[1] == 't');
        assert(e != "ts"@) by { assert("ts"@[0] == 't'); }
        assert(e != "tsx"@) by { assert("tsx"@.len() == 3); }
        assert(e != "js"@) by { assert("js"@[0] == 'j'); }
        assert(e != "jsx"@) by { assert("jsx"@.len() == 3); }
        assert(e != "rs"@) by { assert("rs"@[0] == 'r'); }
        assert(e != "py"@) by { assert("py"@[0] == 'p'); }
        assert(e != "go"@) by { assert("go"@[0] == 'g'); }
        assert(e != "c"@) by { assert("c"@.len() == 1); }
        assert(e != "cpp"@) by { assert("cpp"@.len() == 3); }
        assert(e != "cc"@) by { assert("cc"@[0] == 'c'); }
        assert(e != "cxx"@) by { assert("cxx"@.len() == 3); }
        assert(e != "hpp"@) by { assert("hpp"@.len() == 3); }
        assert(e != "hh"@) by { assert("hh"@[0] == 'h'); }
        assert(e != "hxx"@) by { assert("hxx"@.len() == 3); }
        assert(e != "cs"@) by { assert("cs"@[0] == 'c'); }
        assert(e != "dart"@) by { assert("dart"@.len() == 4); }
        assert(e != "java"@) by { assert("java"@.len() == 4); }
        assert(extension_candidates_spec(e)[0] == ".kt"@);
        assert(".kt"@ =~= "."@ + e);
    }
    if e == "swift"@ {
        assert(e.len() == 5);
        assert(e[0] == 's');
        assert(e[1] == 'w');
        assert(e[2] == 'i');
        assert(e[3] == 'f');
        assert(e[4] == 't');
        assert(e != "ts"@) by { assert("ts"@.len() == 2); }
        assert(e != "tsx"@) by { assert("tsx"@.len() == 3); }
        assert(e != "js"@) by { assert("js"@.len() == 2); }
        assert(e != "jsx"@) by { assert("jsx"@.len() == 3); }
        assert(e != "rs"@) by { assert("rs"@.len() == 2); }
        assert(e != "py"@) by { assert("py"@.len() == 2); }
        assert(e != "go"@) by { assert("go"@.len() == 2); }
        assert(e != "c"@) by { assert("c"@.len() == 1); }
        assert(e != "cpp"@) by { assert("cpp"@.len() == 3); }
        assert(e != "cc"@) by { assert("cc"@.len() == 2); }
        assert(e != "cxx"@) by { assert("cxx"@.len() == 3); }
        assert(e != "hpp"@) by { assert("hpp"@.len() == 3); }
        assert(e != "hh"@) by { assert("hh"@.len() == 2); }
        assert(e != "hxx"@) by { assert("hxx"@.len() == 3); }
        assert(e != "cs"@) by { assert("cs"@.len() == 2); }
        assert(e != "dart"@) by { assert("dart"@.len() == 4); }
        assert(e != "java"@) by { assert("java"@.len() == 4); }
        assert(e != "kt"@) by { assert("kt"@.len() == 2); }
        assert(e != "kts"@) by { assert("kts"@.len() == 3); }
        assert(extension_candidates_spec(e)[0] == ".swift"@);
        assert(".swift"@ =~= "."@ + e);
    }
    if e == "zig"@ {
        assert(e.len() == 3);
        assert(e[0] == 'z');
        assert(e[1] == 'i');
        assert(e[2] == 'g');
        assert(e != "ts"@) by { assert("ts"@.len() == 2); }
        assert(e != "tsx"@) by { assert("tsx"@[0] == 't'); }
        assert(e != "js"@) by { assert("js"@.len() == 2); }
        assert(e != "jsx"@) by { assert("jsx"@[0] == 'j'); }
        assert(e != "rs"@) by { assert("rs"@.len() == 2); }
        assert(e != "py"@) by { assert("py"@.len() == 2); }
        assert(e != "go"@) by { assert("go"@.len() == 2); }
        assert(e != "c"@) by { assert("c"@.len() == 1); }
        assert(e != "cpp"@) by { assert("cpp"@[0] == 'c'); }
        assert(e != "cc"@) by { assert("cc"@.len() == 2); }
        assert(e != "cxx"@) by { assert("cxx"@[0] == 'c'); }
        assert(e != "hpp"@) by { assert("hpp"@[0] == 'h'); }
        assert(e != "hh"@) by { assert("hh"@.len() == 2); }
        assert(e != "hxx"@) by { assert("hxx"@[0] == 'h'); }
        assert(e != "cs"@) by { assert("cs"@.len() == 2); }
        assert(e != "dart"@) by { assert("dart"@.len() == 4); }
        assert(e != "java"@) by { assert("java"@.len() == 4); }
        assert(e != "kt"@) by { assert("kt"@.len() == 2); }
        assert(e != "kts"@) by { assert("kts"@[0] == 'k'); }
        assert(e != "swift"@) by { assert("swift"@.len() == 5); }
        assert(extension_candidates_spec(e)[0] == ".zig"@);
        assert(".zig"@ =~= "."@ + e);
    }
}

/// The extensions tried for an extension-less import from a file with extension `ext`.
pub fn extension_candidates(ext: &str) -> (r: Vec<String>)
    ensures
        views(r@) == extension_candidates_spec(ext@),
{
    let mut r: Vec<String> = Vec::new();
    if str_eq(ext, "ts") || str_eq(ext, "tsx") || str_eq(ext, "js") || str_eq(ext, "jsx") {
        r.push(owned(".ts"));
        r.push(owned(".tsx"));
        r.push(owned(".js"));
        r.push(owned(".jsx"));
    } else if str_eq(ext, "rs") {
        r.push(owned(".rs"));
    } else if str_eq(ext, "py") {
        r.push(owned(".py"));
    } else if str_eq(ext, "go") {
        r.push(owned(".go"));
    } else if str_eq(ext, "c") {
        r.push(owned(".c"));
        r.push(owned(".h"));
    } else if str_eq(ext, "cpp") || str_eq(ext, "cc") || str_eq(ext, "cxx") || str_eq(ext, "hpp")
        || str_eq(ext, "hh") || str_eq(ext, "hxx") {
        r.push(owned(".cpp"));
        r.push(owned(".cc"));
        r.push(owned(".h"));
        r.push(owned(".hpp"));
    } else if str_eq(ext, "cs") {
        r.push(owned(".cs"));
    } else if str_eq(ext, "dart") {
        r.push(owned(".dart"));
    } else if str_eq(ext, "java") {
        r.push(owned(".java"));
    } else if str_eq(ext, "kt") || str_eq(ext, "kts") {
        r.push(owned(".kt"));
        r.push(owned(".kts"));
    } else if str_eq(ext, "swift") {
        r.push(owned(".swift"));
    } else if str_eq(ext, "zig") {
        r.push(owned(".zig"));
    } else {
        r.push(owned(".ts"));
        r.push(owned(".tsx"));
        r.push(owned(".js"));
        r.push(owned(".jsx"));
    }
    assert(views(r@) =~= extension_candidates_spec(ext@));
    r
}

proof fn lemma_collapse_step(parts: Seq<Seq<char>>, i: int)
    requires
        0 <= i < parts.len(),
    ensures
        parts.take(i + 1).drop_last() == parts.take(i),
        parts.take(i + 1).last() == parts[i],
{
    assert(parts.take(i + 1).drop_last() =~= parts.take(i));
}

/// The text of a list of character buffers.
pub open spec fn vviews(v: Seq<Vec<char>>) -> Seq<Seq<char>> {
    v.map_values(|c: Vec<char>| c@)
}

proof fn lemma_vviews_push(v: Seq<Vec<char>>, x: Vec<char>)
    ensures
        vviews(v.push(x)) =~= vviews(v).push(x@),
{
}

/// The directory components of `importer` followed by the pieces of `source`.
fn import_parts(imp: &Vec<char>, src: &Vec<char>) -> (parts: Vec<Vec<char>>)
    ensures
        vviews(parts@) == ({
            let dir = components(imp@);
            let dir_parts = if dir.len() == 0 { dir } else { dir.drop_last() };
            dir_parts + split_by(src@, '/')
        }),
{
    let comps = components_of(imp);
    let pieces = split_chars(src, '/');
    let mut parts: Vec<Vec<char>> = Vec::new();
    let dir_count: usize = if comps.len() == 0 { 0 } else { comps.len() - 1 };
    let mut i: usize = 0;
    while i < dir_count
        invariant
            i <= dir_count,
            dir_count <= comps@.len(),
            parts@.len() == i,
            forall|k: int| 0 <= k < i ==> #[trigger] parts@[k]@ == comps@[k]@,
        decreases dir_count - i,
    {
        let copy = string_to_chars_copy(&comps[i]);
        parts.push(copy);
        i = i + 1;
    }
    let mut j: usize = 0;
    while j < pieces.len()
        invariant
            j <= pieces.len(),
            dir_count <= comps@.len(),
            parts@.len() == dir_count + j,
            forall|k: int| 0 <= k < dir_count ==> #[trigger] parts@[k]@ == comps@[k]@,
            forall|k: int| 0 <= k < j ==> #[trigger] parts@[dir_count + k]@ == pieces@[k]@,
        decreases pieces.len() - j,
    {
        let copy = string_to_chars_copy(&pieces[j]);
        parts.push(copy);
        j = j + 1;
    }
    proof {
        let dir = components(imp@);
        let dir_parts = if dir.len() == 0 { dir } else { dir.drop_last() };
        let want = dir_parts + split_by(src@, '/');
        assert forall|k: int| 0 <= k < parts@.len() implies #[trigger] vviews(parts@)[k] == want[k] by {
            if k < dir_count {
                assert(parts@[k]@ == comps@[k]@);
            } else {
                assert(parts@[dir_count + (k - dir_count)]@ == pieces@[k - dir_count]@);
            }
        }
        assert(vviews(parts@) =~= want);
    }
    parts
}

/// Collapses `.`, empty pieces and `..` in a list of pieces.
fn collapse_parts(parts: &Vec<Vec<char>>) -> (acc: Vec<Vec<char>>)
    ensures
        vviews(acc@) == collapse(vviews(parts@)),
{
    let ghost all = vviews(parts@);
    let mut acc: Vec<Vec<char>> = Vec::new();
    let mut k: usize = 0;
    while k < parts.len()
        invariant
            k <= parts.len(),
            all == vviews(parts@),
            vviews(acc@) == collapse(all.take(k as int)),
        decreases parts.len() - k,
    {
        proof {
            lemma_collapse_step(all, k as int);
        }
        let p = &parts[k];
        let skipped = p.len() == 0 || (p.len() == 1 && p[0] == '.');
        let dotdot = p.len() == 2 && p[0] == '.' && p[1] == '.';
        proof {
            assert(all[k as int] == p@);
            if p@.len() == 1 && p@[0] == '.' {
                assert(p@ =~= seq!['.']);
            }
            if p@ == seq!['.'] {
                assert(p@.len() == 1);
            }
            if dotdot {
                assert(p@ =~= seq!['.', '.']);
            }
            if p@ == seq!['.', '.'] {
                assert(p@.len() == 2);
            }
        }
        if skipped {
        } else if dotdot && acc.len() > 0 && !is_dot_dot_chars(&acc[acc.len() - 1]) {
            let ghost before = acc@;
            acc.pop();
            assert(before =~= acc@.push(before.last()));
            proof {
                lemma_vviews_push(acc@, before.last());
            }
            assert(vviews(acc@) =~= vviews(before).drop_last());
        } else {
            let copy = string_to_chars_copy(p);
            proof {
                lemma_vviews_push(acc@, copy);
            }
            acc.push(copy);
        }
        k = k + 1;
    }
    assert(all.take(parts.len() as int) =~= all);
    acc
}

/// Resolves an import specifier written in `importer_path` to a path.
pub fn resolve_import_path(importer_path: &str, import_source: &str) -> (r: String)
    ensures
        r@ == resolve_import(importer_path@, import_source@),
{
    let src = chars_of(import_source);
    if !(src.len() > 0 && src[0] == '.') {
        return owned(import_source);
    }
    let imp = chars_of(importer_path);
    let parts = import_parts(&imp, &src);
    let acc = collapse_parts(&parts);
    let rooted = imp.len() > 0 && imp[0] == '/';
    let joined = render_components(rooted, &acc, acc.len());
    proof {
        assert(acc@.take(acc@.len() as int) =~= acc@);
        assert(joined@ == joined_import(importer_path@, import_source@));
    }
    let joined_str = string_of(&joined);
    let has_ext = extension_of(joined_str.as_str()).is_some();
    let index_marker = chars_of("/index");
    let has_index = find(&joined, &index_marker).is_some();
    if !has_ext && !has_index {
        let importer_ext = match extension_of(importer_path) {
            Some(e) => e,
            None => String::new(),
        };
        let candidates = extension_candidates(importer_ext.as_str());
        assert(extension_candidates_spec(importer_ext@).len() > 0);
        assert(views(candidates@)[0] == candidates@[0]@);
        concat2(joined_str.as_str(), candidates[0].as_str())
    } else {
        joined_str
    }
}

fn is_dot_dot_chars(v: &Vec<char>) -> (r: bool)
    ensures
        r == (v@ == seq!['.', '.']),
{
    let r = v.len() == 2 && v[0] == '.' && v[1] == '.';
    proof {
        if r {
            assert(v@ =~= seq!['.', '.']);
        }
    }
    r
}

fn string_to_chars_copy(v: &Vec<char>) -> (r: Vec<char>)
    ensures
        r@ == v@,
{
    let mut r: Vec<char> = Vec::new();
    let mut i: usize = 0;
    while i < v.len()
        invariant
            i <= v.len(),
            r@ == v@.take(i as int),
        decreases v.len() - i,
    {
        r.push(v[i]);
        i = i + 1;
        assert(r@ =~= v@.take(i as int));
    }
    assert(v@.take(v.len() as int) =~= v@);
    r
}

// ─── The graph ──────────────────────────────────────────────────────────────

/// An import edge seen as text: `(importer, imported)`.
pub type EdgeView = (Seq<char>, Seq<char>);

/// The import edges of one file, in the order of its imports.
pub open spec fn file_edges(fr: FileResult) -> Seq<EdgeView> {
    fr.imports@.map_values(|e: crate::types::DependencyEdge| (fr.file_path@, resolve_import(fr.file_path@, e.source@)))
}

/// The import edges of all files, file by file.
pub open spec fn all_edges(frs: Seq<FileResult>) -> Seq<EdgeView>
    decreases frs.len(),
{
    if frs.len() == 0 {
        Seq::<EdgeView>::empty()
    } else {
        all_edges(frs.drop_last()) + file_edges(frs.last())
    }
}

/// The files that import `path`, one entry per edge, in edge order.
pub open spec fn importers_in(edges: Seq<EdgeView>, path: Seq<char>) -> Seq<Seq<char>>
    decreases edges.len(),
{
    if edges.len() == 0 {
        Seq::<Seq<char>>::empty()
    } else if edges.last().1 == path {
        importers_in(edges.drop_last(), path).push(edges.last().0)
    } else {
        importers_in(edges.drop_last(), path)
    }
}

/// The paths that `path` imports, one entry per edge, in edge order.
pub open spec fn imports_in(edges: Seq<EdgeView>, path: Seq<char>) -> Seq<Seq<char>>
    decreases edges.len(),
{
    if edges.len() == 0 {
        Seq::<Seq<char>>::empty()
    } else if edges.last().0 == path {
        imports_in(edges.drop_last(), path).push(edges.last().1)
    } else {
        imports_in(edges.drop_last(), path)
    }
}

/// `p` is among the importers of `q` exactly when some edge runs from `p` to `q`.
pub proof fn lemma_importers_edge(edges: Seq<EdgeView>, p: Seq<char>, q: Seq<char>)
    ensures
        importers_in(edges, q).contains(p) <==> exists|i: int| 0 <= i < edges.len() && #[trigger] edges[i] == (p, q),
    decreases edges.len(),
{
    if edges.len() > 0 {
        let init = edges.drop_last();
        lemma_importers_edge(init, p, q);
        let rest = importers_in(init, q);
        if edges.last().1 == q {
            let r = rest.push(edges.last().0);
            assert(r[rest.len() as int] == edges.last().0);
            if r.contains(p) {
                let k = choose|k: int| 0 <= k < r.len() && r[k] == p;
                if k < rest.len() {
                    assert(rest[k] == p);
                    let i = choose|i: int| 0 <= i < init.len() && #[trigger] init[i] == (p, q);
                    assert(edges[i] == init[i]);
                } else {
                    assert(edges[edges.len() - 1] == (p, q));
                }
            }
            if exists|i: int| 0 <= i < edges.len() && #[trigger] edges[i] == (p, q) {
                let i = choose|i: int| 0 <= i < edges.len() && #[trigger] edges[i] == (p, q);
                if i < init.len() {
                    assert(init[i] == edges[i]);
                    let k = choose|k: int| 0 <= k < rest.len() && rest[k] == p;
                    assert(r[k] == p);
                }
            }
        } else {
            if exists|i: int| 0 <= i < edges.len() && #[trigger] edges[i] == (p, q) {
                let i = choose|i: int| 0 <= i < edges.len() && #[trigger] edges[i] == (p, q);
                assert(i < init.len());
                assert(init[i] == edges[i]);
            }
            if rest.contains(p) {
                let i = choose|i: int| 0 <= i < init.len() && #[trigger] init[i] == (p, q);
                assert(edges[i] == init[i]);
            }
        }
    }
}

/// `q` is among the imports of `p` exactly when some edge runs from `p` to `q`.
proof fn lemma_imports_edge(edges: Seq<EdgeView>, p: Seq<char>, q: Seq<char>)
    ensures
        imports_in(edges, p).contains(q) <==> exists|i: int| 0 <= i < edges.len() && #[trigger] edges[i] == (p, q),
    decreases edges.len(),
{
    if edges.len() > 0 {
        let init = edges.drop_last();
        lemma_imports_edge(init, p, q);
        let rest = imports_in(init, p);
        if edges.last().0 == p {
            let r = rest.push(edges.last().1);
            assert(r[rest.len() as int] == edges.last().1);
            if r.contains(q) {
                let k = choose|k: int| 0 <= k < r.len() && r[k] == q;
                if k < rest.len() {
                    assert(rest[k] == q);
                    let i = choose|i: int| 0 <= i < init.len() && #[trigger] init[i] == (p, q);
                    assert(edges[i] == init[i]);
                } else {
                    assert(edges[edges.len() - 1] == (p, q));
                }
            }
            if exists|i: int| 0 <= i < edges.len() && #[trigger] edges[i] == (p, q) {
                let i = choose|i: int| 0 <= i < edges.len() && #[trigger] edges[i] == (p, q);
                if i < init.len() {
                    assert(init[i] == edges[i]);
                    let k = choose|k: int| 0 <= k < rest.len() && rest[k] == q;
                    assert(r[k] == q);
                }
            }
        } else {
            if exists|i: int| 0 <= i < edges.len() && #[trigger] edges[i] == (p, q) {
                let i = choose|i: int| 0 <= i < edges.len() && #[trigger] edges[i] == (p, q);
                assert(i < init.len());
                assert(init[i] == edges[i]);
            }
            if rest.contains(q) {
                let i = choose|i: int| 0 <= i < init.len() && #[trigger] init[i] == (p, q);
                assert(edges[i] == init[i]);
            }
        }
    }
}

/// How many times `x` occurs in `s`.
pub open spec fn occurrences<A>(s: Seq<A>, x: A) -> nat
    decreases s.len(),
{
    if s.len() == 0 {
        0
    } else {
        occurrences(s.drop_last(), x) + if s.last() == x { 1nat } else { 0nat }
    }
}

proof fn lemma_occurrences_push<A>(s: Seq<A>, y: A, x: A)
    ensures
        occurrences(s.push(y), x) == occurrences(s, x) + if y == x { 1nat } else { 0nat },
{
    assert(s.push(y).drop_last() =~= s);
}

/// The graph counts each import: the importers of `q` list `p` exactly as
/// many times as the imports of `p` list `q`, namely as many times as there
/// are edges from `p` to `q`.
pub proof fn law_import_counts_agree(edges: Seq<EdgeView>, p: Seq<char>, q: Seq<char>)
    ensures
        occurrences(importers_in(edges, q), p) == occurrences(edges, (p, q)),
        occurrences(imports_in(edges, p), q) == occurrences(edges, (p, q)),
    decreases edges.len(),
{
    if edges.len() > 0 {
        let init = edges.drop_last();
        let e = edges.last();
        law_import_counts_agree(init, p, q);
        if e.1 == q {
            lemma_occurrences_push(importers_in(init, q), e.0, p);
        }
        if e.0 == p {
            lemma_occurrences_push(imports_in(init, p), e.1, q);
        }
    }
}

/// The imports recorded for `path` by the parse results: the sum of the
/// import counts of the results for that path.
pub open spec fn imports_total(frs: Seq<FileResult>, path: Seq<char>) -> nat
    decreases frs.len(),
{
    if frs.len() == 0 {
        0
    } else {
        imports_total(frs.drop_last(), path) + if frs.last().file_path@ == path {
            frs.last().imports@.len()
        } else {
            0
        }
    }
}

proof fn lemma_imports_in_concat(a: Seq<EdgeView>, b: Seq<EdgeView>, p: Seq<char>)
    ensures
        imports_in(a + b, p) == imports_in(a, p) + imports_in(b, p),
    decreases b.len(),
{
    if b.len() == 0 {
        assert(a + b =~= a);
        assert(imports_in(a, p) + imports_in(b, p) =~= imports_in(a, p));
    } else {
        assert((a + b).drop_last() =~= a + b.drop_last());
        assert((a + b).last() == b.last());
        lemma_imports_in_concat(a, b.drop_last(), p);
        if b.last().0 == p {
            assert(imports_in(a, p) + imports_in(b.drop_last(), p).push(b.last().1)
                =~= (imports_in(a, p) + imports_in(b.drop_last(), p)).push(b.last().1));
        }
    }
}

proof fn lemma_imports_in_from(es: Seq<EdgeView>, q: Seq<char>, p: Seq<char>)
    requires
        forall|i: int| 0 <= i < es.len() ==> (#[trigger] es[i]).0 == q,
    ensures
        imports_in(es, p).len() == if q == p { es.len() } else { 0 },
    decreases es.len(),
{
    if es.len() > 0 {
        assert(es.last() == es[es.len() - 1]);
        lemma_imports_in_from(es.drop_last(), q, p);
    }
}

/// The graph keeps every import: the imports listed for a path number the
/// imports of the parse results for that path, summed.
pub proof fn law_imports_counted_per_path(frs: Seq<FileResult>, p: Seq<char>)
    ensures
        imports_in(all_edges(frs), p).len() == imports_total(frs, p),
    decreases frs.len(),
{
    if frs.len() > 0 {
        let fr = frs.last();
        law_imports_counted_per_path(frs.drop_last(), p);
        lemma_imports_in_concat(all_edges(frs.drop_last()), file_edges(fr), p);
        lemma_imports_in_from(file_edges(fr), fr.file_path@, p);
    }
}

/// The two directions of the graph agree: `p` is listed among the importers
/// of `q` exactly when `q` is listed among the imports of `p`.
pub proof fn law_importers_mirror_imports(edges: Seq<EdgeView>, p: Seq<char>, q: Seq<char>)
    ensures
        importers_in(edges, q).contains(p) <==> imports_in(edges, p).contains(q),
{
    lemma_importers_edge(edges, p, q);
    lemma_imports_edge(edges, p, q);
}

/// Every path that occurs in some edge, at either end.
pub open spec fn edge_paths(edges: Seq<EdgeView>) -> Set<Seq<char>> {
    Set::new(|p: Seq<char>| exists|i: int| 0 <= i < edges.len() && (edges[i].0 == p || edges[i].1 == p))
}

/// The files affected by a change to `changed`: the importers of a changed
/// file that are not changed themselves.
pub open spec fn affected_by(edges: Seq<EdgeView>, changed: Seq<Seq<char>>) -> Set<Seq<char>> {
    Set::new(|p: Seq<char>| !changed.contains(p) && exists|i: int| 0 <= i < changed.len() && #[trigger] importers_in(edges, changed[i]).contains(p))
}

/// `acc` extended by each candidate in turn that is neither changed nor
/// already listed.
pub open spec fn add_new(acc: Seq<Seq<char>>, cands: Seq<Seq<char>>, changed: Seq<Seq<char>>) -> Seq<Seq<char>>
    decreases cands.len(),
{
    if cands.len() == 0 {
        acc
    } else {
        let a = add_new(acc, cands.drop_last(), changed);
        let p = cands.last();
        if !changed.contains(p) && !a.contains(p) {
            a.push(p)
        } else {
            a
        }
    }
}

/// The files affected by the first `n` changed files, in the order they are
/// found: the importers of each changed file in edge order, skipping changed
/// files and repeats.
pub open spec fn affected_upto(edges: Seq<EdgeView>, changed: Seq<Seq<char>>, n: nat) -> Seq<Seq<char>>
    decreases n,
{
    if n == 0 {
        Seq::<Seq<char>>::empty()
    } else {
        add_new(affected_upto(edges, changed, (n - 1) as nat), importers_in(edges, changed[n - 1]), changed)
    }
}

/// The files affected by a change, in the order they are found.
pub open spec fn affected_order(edges: Seq<EdgeView>, changed: Seq<Seq<char>>) -> Seq<Seq<char>> {
    affected_upto(edges, changed, changed.len())
}

/// Reverse dependency graph built from parse results.
#[derive(Debug, Clone)]
pub struct ReverseDepGraph {
    /// `(importer, imported)` pairs in the order of the file results.
    edges: Vec<(String, String)>,
}

/// The text of a list of edges.
pub open spec fn edge_views(v: Seq<(String, String)>) -> Seq<EdgeView> {
    v.map_values(|e: (String, String)| (e.0@, e.1@))
}

impl View for ReverseDepGraph {
    type V = Seq<EdgeView>;

    closed spec fn view(&self) -> Seq<EdgeView> {
        edge_views(self.edges@)
    }
}

proof fn lemma_all_edges_step(frs: Seq<FileResult>, i: int)
    requires
        0 <= i < frs.len(),
    ensures
        all_edges(frs.take(i + 1)) == all_edges(frs.take(i)) + file_edges(frs[i]),
{
    assert(frs.take(i + 1).drop_last() =~= frs.take(i));
    assert(frs.take(i + 1).last() == frs[i]);
}

impl ReverseDepGraph {
    /// Builds the graph from all file results: one edge per import, the
    /// import specifier resolved against the importing file.
    pub fn build(file_results: &Vec<FileResult>) -> (g: Self)
        ensures
            g@ == all_edges(file_results@),
    {
        let mut edges: Vec<(String, String)> = Vec::new();
        let mut i: usize = 0;
        while i < file_results.len()
            invariant
                i <= file_results.len(),
                edge_views(edges@) == all_edges(file_results@.take(i as int)),
            decreases file_results.len() - i,
        {
            proof {
                lemma_all_edges_step(file_results@, i as int);
            }
            let fr = &file_results[i];
            let ghost before = edge_views(edges@);
            let mut j: usize = 0;
            while j < fr.imports.len()
                invariant
                    j <= fr.imports.len(),
                    edge_views(edges@) == before + file_edges(*fr).take(j as int),
                decreases fr.imports.len() - j,
            {
                let target = resolve_import_path(fr.file_path.as_str(), fr.imports[j].source.as_str());
                let ghost old_edges = edges@;
                edges.push((owned(fr.file_path.as_str()), target));
                proof {
                    assert(edge_views(edges@) =~= edge_views(old_edges).push((fr.file_path@, target@)));
                    assert(file_edges(*fr)[j as int] == (fr.file_path@, resolve_import(fr.file_path@, fr.imports@[j as int].source@)));
                    assert(file_edges(*fr).take(j + 1) =~= file_edges(*fr).take(j as int).push(file_edges(*fr)[j as int]));
                }
                j = j + 1;
                assert(edge_views(edges@) =~= before + file_edges(*fr).take(j as int));
            }
            assert(file_edges(*fr).take(fr.imports.len() as int) =~= file_edges(*fr));
            i = i + 1;
        }
        assert(file_results@.take(file_results.len() as int) =~= file_results@);
        ReverseDepGraph { edges }
    }

    /// The files that import `path`, in edge order (one entry per import edge).
    pub fn get_importers(&self, path: &str) -> (r: Vec<String>)
        ensures
            views(r@) == importers_in(self@, path@),
    {
        let ghost e = self@;
        let mut r: Vec<String> = Vec::new();
        let mut i: usize = 0;
        while i < self.edges.len()
            invariant
                i <= self.edges.len(),
                e == edge_views(self.edges@),
                views(r@) == importers_in(e.take(i as int), path@),
            decreases self.edges.len() - i,
        {
            proof {
                assert(e.take(i + 1).drop_last() =~= e.take(i as int));
            }
            if str_eq(self.edges[i].1.as_str(), path) {
                r.push(owned(self.edges[i].0.as_str()));
            }
            i = i + 1;
            assert(views(r@) =~= importers_in(e.take(i as int), path@));
        }
        assert(e.take(self.edges.len() as int) =~= e);
        r
    }

    /// The paths that `path` imports, in edge order (one entry per import edge).
    pub fn get_imports(&self, path: &str) -> (r: Vec<String>)
        ensures
            views(r@) == imports_in(self@, path@),
    {
        let ghost e = self@;
        let mut r: Vec<String> = Vec::new();
        let mut i: usize = 0;
        while i < self.edges.len()
            invariant
                i <= self.edges.len(),
                e == edge_views(self.edges@),
                views(r@) == imports_in(e.take(i as int), path@),
            decreases self.edges.len() - i,
        {
            proof {
                assert(e.take(i + 1).drop_last() =~= e.take(i as int));
            }
            if str_eq(self.edges[i].0.as_str(), path) {
                r.push(owned(self.edges[i].1.as_str()));
            }
            i = i + 1;
            assert(views(r@) =~= imports_in(e.take(i as int), path@));
        }
        assert(e.take(self.edges.len() as int) =~= e);
        r
    }

    /// How many import edges point at `path`.
    pub fn importer_count(&self, path: &str) -> (n: usize)
        ensures
            n == importers_in(self@, path@).len(),
    {
        let ghost e = self@;
        let mut n: usize = 0;
        let mut i: usize = 0;
        while i < self.edges.len()
            invariant
                i <= self.edges.len(),
                e == edge_views(self.edges@),
                n == importers_in(e.take(i as int), path@).len(),
                n <= i,
            decreases self.edges.len() - i,
        {
            proof {
                assert(e.take(i + 1).drop_last() =~= e.take(i as int));
            }
            if str_eq(self.edges[i].1.as_str(), path) {
                n = n + 1;
            }
            i = i + 1;
        }
        assert(e.take(self.edges.len() as int) =~= e);
        n
    }

    /// The files that import a changed file without being changed
    /// themselves, each listed once.
    pub fn expand_affected(&self, changed: &Vec<String>) -> (r: Vec<String>)
        ensures
            views(r@) == affected_order(self@, views(changed@)),
            views(r@).no_duplicates(),
            views(r@).to_set() =~= affected_by(self@, views(changed@)),
    {
        let ghost e = self@;
        let ghost ch = views(changed@);
        let mut r: Vec<String> = Vec::new();
        let mut i: usize = 0;
        while i < changed.len()
            invariant
                i <= changed.len(),
                e == self@,
                ch == views(changed@),
                views(r@) == affected_upto(e, ch, i as nat),
                views(r@).no_duplicates(),
                forall|p: Seq<char>| #[trigger] views(r@).contains(p) <==> (!ch.contains(p) && exists|k: int|
                    0 <= k < i && #[trigger] importers_in(e, ch[k]).contains(p)),
            decreases changed.len() - i,
        {
            let importers = self.get_importers(changed[i].as_str());
            let ghost imps = views(importers@);
            let ghost before = views(r@);
            let mut j: usize = 0;
            while j < importers.len()
                invariant
                    j <= importers.len(),
                    i < changed.len(),
                    e == self@,
                    ch == views(changed@),
                    imps == views(importers@),
                    imps == importers_in(e, ch[i as int]),
                    views(r@) == add_new(before, imps.take(j as int), ch),
                    views(r@).no_duplicates(),
                    forall|p: Seq<char>| #[trigger] views(r@).contains(p) <==> (before.contains(p) || (
                        !ch.contains(p) && imps.take(j as int).contains(p))),
                    forall|p: Seq<char>| before.contains(p) ==> !ch.contains(p),
                decreases importers.len() - j,
            {
                let cand = importers[j].as_str();
                proof {
                    assert(imps[j as int] == cand@);
                    assert(imps.take(j + 1) =~= imps.take(j as int).push(cand@));
                }
                proof {
                    lemma_push_contains(imps.take(j as int), cand@);
                    assert(imps.take(j + 1).drop_last() =~= imps.take(j as int));
                }
                if !contains_text(changed, cand) && !contains_text(&r, cand) {
                    let ghost old_r = views(r@);
                    r.push(owned(cand));
                    proof {
                        assert(views(r@) =~= old_r.push(cand@));
                        lemma_push_no_dup(old_r, cand@);
                        assert forall|p: Seq<char>| #[trigger] views(r@).contains(p) <==> (old_r.contains(p) || p == cand@) by {
                            if views(r@).contains(p) {
                                let w = choose|w: int| 0 <= w < views(r@).len() && views(r@)[w] == p;
                                if w < old_r.len() {
                                    assert(old_r[w] == p);
                                }
                            }
                            if old_r.contains(p) {
                                let w = choose|w: int| 0 <= w < old_r.len() && old_r[w] == p;
                                assert(views(r@)[w] == p);
                            }
                            if p == cand@ {
                                assert(views(r@)[old_r.len() as int] == p);
                            }
                        }
                    }
                }
                j = j + 1;
            }
            proof {
                assert(imps.take(importers.len() as int) =~= imps);
                assert(views(r@) == affected_upto(e, ch, (i + 1) as nat));
                assert forall|p: Seq<char>| #[trigger] views(r@).contains(p) <==> (!ch.contains(p) && exists|k: int|
                    0 <= k < i + 1 && #[trigger] importers_in(e, ch[k]).contains(p)) by {
                    if views(r@).contains(p) && !before.contains(p) {
                        assert(importers_in(e, ch[i as int]).contains(p));
                    }
                    if !ch.contains(p) && exists|k: int| 0 <= k < i + 1 && #[trigger] importers_in(e, ch[k]).contains(p) {
                        let k = choose|k: int| 0 <= k < i + 1 && #[trigger] importers_in(e, ch[k]).contains(p);
                        if k < i {
                            assert(before.contains(p));
                        }
                    }
                }
            }
            i = i + 1;
        }
        r
    }

    /// Every path in the graph (importers and imported files), each listed once.
    pub fn all_paths(&self) -> (r: Vec<String>)
        ensures
            views(r@).no_duplicates(),
            views(r@).to_set() =~= edge_paths(self@),
    {
        let ghost e = self@;
        let mut r: Vec<String> = Vec::new();
        let mut i: usize = 0;
        while i < self.edges.len()
            invariant
                i <= self.edges.len(),
                e == edge_views(self.edges@),
                views(r@).no_duplicates(),
                forall|p: Seq<char>| #[trigger] views(r@).contains(p) <==> exists|k: int|
                    0 <= k < i && (e[k].0 == p || e[k].1 == p),
            decreases self.edges.len() - i,
        {
            let ghost before = views(r@);
            let a = self.edges[i].0.as_str();
            let b = self.edges[i].1.as_str();
            assert(e[i as int] == (a@, b@));
            if !contains_text(&r, a) {
                let ghost o = views(r@);
                r.push(owned(a));
                proof {
                    assert(views(r@) =~= o.push(a@));
                    lemma_push_no_dup(o, a@);
                }
            }
            let ghost mid = views(r@);
            if !contains_text(&r, b) {
                r.push(owned(b));
                proof {
                    assert(views(r@) =~= mid.push(b@));
                    lemma_push_no_dup(mid, b@);
                }
            }
            proof {
                assert forall|p: Seq<char>| #[trigger] views(r@).contains(p) <==> (before.contains(p) || p == a@ || p == b@) by {
                    if views(r@).contains(p) {
                        let w = choose|w: int| 0 <= w < views(r@).len() && views(r@)[w] == p;
                        if w < before.len() {
                            assert(before[w] == p);
                        } else if w < mid.len() {
                            assert(mid[w] == p);
                        }
                    }
                    if before.contains(p) {
                        let w = choose|w: int| 0 <= w < before.len() && before[w] == p;
                        assert(mid[w] == p);
                        assert(views(r@)[w] == p);
                    }
                    if p == a@ && !before.contains(p) {
                        assert(mid[before.len() as int] == p);
                        assert(views(r@)[before.len() as int] == p);
                    }
                    if p == b@ && !mid.contains(p) {
                        assert(views(r@)[mid.len() as int] == p);
                    }
                    if p == b@ && mid.contains(p) {
                        let w = choose|w: int| 0 <= w < mid.len() && mid[w] == p;
                        assert(views(r@)[w] == p);
                    }
                }
                assert forall|p: Seq<char>| #[trigger] views(r@).contains(p) <==> exists|k: int|
                    0 <= k < i + 1 && (e[k].0 == p || e[k].1 == p) by {
                    if before.contains(p) {
                        let k = choose|k: int| 0 <= k < i && (e[k].0 == p || e[k].1 == p);
                    }
                }
            }
            i = i + 1;
        }
        proof {
            assert forall|p: Seq<char>| views(r@).to_set().contains(p) <==> edge_paths(e).contains(p) by {
            }
        }
        r
    }
}

} // verus!
