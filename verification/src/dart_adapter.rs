//! The Dart adapter: declarations read off a tree-sitter syntax tree,
//! imports and exports read off the source lines.
use crate::decls::{
    add_function_decl, add_named_decl, add_text_record, function_decl, meta_record, named_decl, push_meta_record,
    slice_chars, text_record,
};
use crate::modules::as_positions;
use crate::syntax::{
    append_all, children, children_of, collect, dart_syntax, elapsed_ms, first_where, is_parsed_result,
    is_treeless_result, kind_is, line_of, node_line, opt_tree, parse_dart, parsed_result, plain_export,
    plain_export_of, seq_view, start_timer, text_or, text_or_default, treeless_result, EffectView, ExportView,
    ImportView, NodeView, SigView, SyntaxTree, TreeView,
};
use crate::text::{chars_of, ends_with, lines, lines_of, owned, starts_with, string_of, trim_spec, trim_str, views};
use crate::types::{DependencyEdge, ExportKind, ExportedSymbol, FileResult, FunctionSignature, ImportKind, SideEffect};
use vstd::prelude::*;

verus! {

/// The prefix of the Dart adapter's records.
pub const DART_META: &'static str = "dart-meta:";

/// Whether a node is an identifier or a type identifier.
pub open spec fn is_identifier_node() -> spec_fn(NodeView) -> bool {
    |n: NodeView| n.kind == "identifier"@ || n.kind == "type_identifier"@
}

/// What a mixin at node `i` contributes: its first identifier child names
/// it (its text, or `?`); an export of a type and a record.
pub open spec fn dart_mixin(t: Seq<NodeView>, i: int) -> (Seq<ExportView>, Seq<EffectView>) {
    let line = line_of(t[i].row);
    match first_where(t, children(t, i), is_identifier_node()) {
        Some(c) => {
            let name = text_or(t[c], "?"@);
            (seq![plain_export(name, ExportKind::Type, line)], seq![meta_record("dart-meta:"@, "mixin"@, name, line)])
        },
        None => (Seq::empty(), Seq::empty()),
    }
}

/// What node `i` contributes: exports, signatures and records.  A class is
/// a `class_declaration` node (`class_definition` in earlier grammars).
pub open spec fn dart_node(t: Seq<NodeView>, i: int) -> (Seq<ExportView>, Seq<SigView>, Seq<EffectView>) {
    let k = t[i].kind;
    let pre = "dart-meta:"@;
    if k == "class_definition"@ || k == "class_declaration"@ {
        let r = named_decl(t, i, "name"@, Some(ExportKind::Class), pre, Some("class"@), false);
        (r.0, Seq::empty(), r.1)
    } else if k == "function_signature"@ {
        let f = function_decl(t, i, "formal_parameter"@, false, "return_type"@, "dynamic"@);
        (f.0, f.1, Seq::empty())
    } else if k == "enum_declaration"@ {
        let r = named_decl(t, i, "name"@, Some(ExportKind::Enum), pre, Some("enum"@), false);
        (r.0, Seq::empty(), r.1)
    } else if k == "mixin_declaration"@ || k == "mixin_definition"@ {
        let r = dart_mixin(t, i);
        (r.0, Seq::empty(), r.1)
    } else {
        (Seq::empty(), Seq::empty(), Seq::empty())
    }
}

/// Node-by-node exports.
pub open spec fn dart_export_at(t: Seq<NodeView>) -> spec_fn(int) -> Seq<ExportView> {
    |i: int| dart_node(t, i).0
}

/// Node-by-node signatures.
pub open spec fn dart_signature_at(t: Seq<NodeView>) -> spec_fn(int) -> Seq<SigView> {
    |i: int| dart_node(t, i).1
}

/// Node-by-node declaration records.
pub open spec fn dart_decl_effect_at(t: Seq<NodeView>) -> spec_fn(int) -> Seq<EffectView> {
    |i: int| dart_node(t, i).2
}

/// The side effects node `i` shows: annotations, with their text.
pub open spec fn dart_effect(t: Seq<NodeView>, i: int) -> Seq<EffectView> {
    if t[i].kind == "annotation"@ {
        text_record(t, i, line_of(t[i].row), "dart-meta:"@, "annotation"@, Some(""@))
    } else {
        Seq::empty()
    }
}

/// Node-by-node side effects.
pub open spec fn dart_effect_at(t: Seq<NodeView>) -> spec_fn(int) -> Seq<EffectView> {
    |i: int| dart_effect(t, i)
}

/// Whether a character is a single or double quote.
pub open spec fn is_quote(c: char) -> bool {
    c == '\'' || c == '"'
}

/// `s` without its leading quotes.
pub open spec fn trim_start_quotes(s: Seq<char>) -> Seq<char>
    decreases s.len(),
{
    if s.len() > 0 && is_quote(s[0]) {
        trim_start_quotes(s.drop_first())
    } else {
        s
    }
}

/// `s` without its trailing quotes.
pub open spec fn trim_end_quotes(s: Seq<char>) -> Seq<char>
    decreases s.len(),
{
    if s.len() > 0 && is_quote(s.last()) {
        trim_end_quotes(s.drop_last())
    } else {
        s
    }
}

/// `s` without its leading and trailing quotes (what `str::trim_matches`
/// gives for the two quote characters).
pub open spec fn trim_quotes(s: Seq<char>) -> Seq<char> {
    trim_end_quotes(trim_start_quotes(s))
}

/// The library an `import '<uri>';` or `export '<uri>';` line names.
#[verifier::opaque]
pub open spec fn dart_import(line: Seq<char>) -> Seq<ImportView> {
    let x = trim_spec(line);
    if ("import "@.is_prefix_of(x) || "export "@.is_prefix_of(x)) && x.len() > 0 && x.last() == ';' {
        seq![(trim_quotes(trim_spec(x.subrange(7, x.len() - 1))), Seq::empty(), ImportKind::Named)]
    } else {
        Seq::empty()
    }
}

/// Line-by-line imports.
pub open spec fn dart_import_at(ls: Seq<Seq<char>>) -> spec_fn(int) -> Seq<ImportView> {
    |k: int| dart_import(ls[k])
}

/// The imports and exports of a Dart source, line by line.
pub open spec fn dart_imports(source: Seq<char>) -> Seq<ImportView> {
    collect(lines_of(source).len(), dart_import_at(lines_of(source)))
}

/// Whether `r` is the Dart adapter's result for `path`, given the source and the parser's tree.
pub open spec fn is_dart_result(r: FileResult, path: Seq<char>, source: Seq<char>, tree: Option<TreeView>) -> bool {
    match tree {
        Some(t) => is_parsed_result(
            r,
            path,
            t,
            collect(t.nodes.len(), dart_export_at(t.nodes)),
            dart_imports(source),
            collect(t.nodes.len(), dart_signature_at(t.nodes)),
            collect(t.nodes.len(), dart_decl_effect_at(t.nodes)) + collect(t.nodes.len(), dart_effect_at(t.nodes)),
        ),
        None => is_treeless_result(r, path),
    }
}

// ─── Executable extraction ──────────────────────────────────────────────────

fn first_identifier(t: &SyntaxTree, i: usize) -> (r: Option<usize>)
    requires
        i < t.nodes.len(),
    ensures
        crate::syntax::opt_pos(r) == first_where(t@.nodes, children(t@.nodes, i as int), is_identifier_node()),
        r matches Some(c) ==> c < t.nodes.len(),
{
    let ghost v = t@.nodes;
    let ghost p = is_identifier_node();
    let ks = children_of(t, i);
    let ghost kv = as_positions(ks@);
    assert(kv.skip(0) =~= kv);
    let mut k: usize = 0;
    while k < ks.len()
        invariant
            k <= ks.len(),
            v == t@.nodes,
            kv == as_positions(ks@),
            kv == children(v, i as int),
            kv.len() == ks@.len(),
            forall|m: int| 0 <= m < ks@.len() ==> i < #[trigger] ks@[m] < t.nodes.len(),
            first_where(v, kv, p) == first_where(v, kv.skip(k as int), p),
            p == is_identifier_node(),
        decreases ks.len() - k,
    {
        let c = ks[k];
        assert(kv[k as int] == c as int);
        assert(v[c as int] == t.nodes@[c as int]@);
        let hit = kind_is(t, c, "identifier") || kind_is(t, c, "type_identifier");
        assert(p(v[c as int]) == hit);
        if hit {
            assert(kv.skip(k as int)[0] == c as int);
            return Some(c);
        }
        proof {
            crate::syntax::lemma_first_where_skip(v, kv, k as int, p);
        }
        k = k + 1;
    }
    assert(kv.skip(k as int) =~= Seq::<int>::empty());
    None
}

fn mixin_decl(t: &SyntaxTree, i: usize, exports: &mut Vec<ExportedSymbol>, out: &mut Vec<SideEffect>)
    requires
        i < t.nodes.len(),
    ensures
        seq_view(final(exports)@) == seq_view(old(exports)@) + dart_mixin(t@.nodes, i as int).0,
        seq_view(final(out)@) == seq_view(old(out)@) + dart_mixin(t@.nodes, i as int).1,
{
    let ghost e0 = seq_view(exports@);
    let ghost o0 = seq_view(out@);
    match first_identifier(t, i) {
        Some(c) => {
            let name = text_or_default(t, c, "?");
            let line = node_line(t, i);
            let e = plain_export_of(owned(name.as_str()), ExportKind::Type, line);
            exports.push(e);
            assert(seq_view(exports@) =~= e0 + seq![e@]);
            push_meta_record(out, DART_META, "mixin", name.as_str(), line);
            assert(seq_view(out@) =~= o0 + seq![meta_record(DART_META@, "mixin"@, name@, line as nat)]);
        },
        None => {
            assert(e0 + Seq::<ExportView>::empty() =~= e0);
            assert(o0 + Seq::<EffectView>::empty() =~= o0);
        },
    }
}

fn visit(t: &SyntaxTree, i: usize, exports: &mut Vec<ExportedSymbol>, signatures: &mut Vec<FunctionSignature>, out: &mut Vec<SideEffect>)
    requires
        i < t.nodes.len(),
    ensures
        seq_view(final(exports)@) == seq_view(old(exports)@) + dart_node(t@.nodes, i as int).0,
        seq_view(final(signatures)@) == seq_view(old(signatures)@) + dart_node(t@.nodes, i as int).1,
        seq_view(final(out)@) == seq_view(old(out)@) + dart_node(t@.nodes, i as int).2,
{
    let ghost e0 = seq_view(exports@);
    let ghost s0 = seq_view(signatures@);
    let ghost o0 = seq_view(out@);
    proof {
        assert(e0 + Seq::<ExportView>::empty() =~= e0);
        assert(s0 + Seq::<SigView>::empty() =~= s0);
        assert(o0 + Seq::<EffectView>::empty() =~= o0);
    }
    if kind_is(t, i, "class_definition") || kind_is(t, i, "class_declaration") {
        add_named_decl(t, i, "name", Some(ExportKind::Class), DART_META, Some("class"), false, exports, out);
    } else if kind_is(t, i, "function_signature") {
        add_function_decl(t, i, "formal_parameter", false, "return_type", "dynamic", exports, signatures);
    } else if kind_is(t, i, "enum_declaration") {
        add_named_decl(t, i, "name", Some(ExportKind::Enum), DART_META, Some("enum"), false, exports, out);
    } else if kind_is(t, i, "mixin_declaration") || kind_is(t, i, "mixin_definition") {
        mixin_decl(t, i, exports, out);
    }
}

fn effect_of(t: &SyntaxTree, i: usize, out: &mut Vec<SideEffect>)
    requires
        i < t.nodes.len(),
    ensures
        seq_view(final(out)@) == seq_view(old(out)@) + dart_effect(t@.nodes, i as int),
{
    let ghost o0 = seq_view(out@);
    assert(o0 + Seq::<EffectView>::empty() =~= o0);
    if kind_is(t, i, "annotation") {
        let line = node_line(t, i);
        add_text_record(t, i, line, DART_META, "annotation", Some(""), out);
    }
}

/// `s` without its leading and trailing quotes.
pub fn strip_quotes(s: &str) -> (r: String)
    ensures
        r@ == trim_quotes(s@),
{
    let v = chars_of(s);
    let mut lo: usize = 0;
    assert(v@.skip(0) =~= v@);
    while lo < v.len() && (v[lo] == '\'' || v[lo] == '"')
        invariant
            lo <= v.len(),
            v@ == s@,
            trim_start_quotes(v@.skip(lo as int)) == trim_start_quotes(s@),
        decreases v.len() - lo,
    {
        assert(v@.skip(lo as int).drop_first() =~= v@.skip(lo + 1));
        lo = lo + 1;
    }
    let ghost w = v@.skip(lo as int);
    assert(trim_start_quotes(s@) == w);
    let mut hi: usize = v.len();
    assert(v@.subrange(lo as int, hi as int) =~= w);
    while hi > lo && (v[hi - 1] == '\'' || v[hi - 1] == '"')
        invariant
            lo <= hi <= v.len(),
            v@ == s@,
            trim_end_quotes(v@.subrange(lo as int, hi as int)) == trim_end_quotes(w),
        decreases hi - lo,
    {
        assert(v@.subrange(lo as int, hi as int).drop_last() =~= v@.subrange(lo as int, hi - 1));
        hi = hi - 1;
    }
    let mut out: Vec<char> = Vec::new();
    let mut k: usize = lo;
    while k < hi
        invariant
            lo <= k <= hi <= v.len(),
            out@ == v@.subrange(lo as int, k as int),
        decreases hi - k,
    {
        out.push(v[k]);
        k = k + 1;
        assert(out@ =~= v@.subrange(lo as int, k as int));
    }
    string_of(&out)
}

fn import_of(line: &str, out: &mut Vec<DependencyEdge>)
    ensures
        seq_view(final(out)@) == seq_view(old(out)@) + dart_import(line@),
{
    let ghost o0 = seq_view(out@);
    reveal(dart_import);
    proof {
        reveal_strlit("import ");
        reveal_strlit("export ");
        reveal_strlit(";");
    }
    let x = trim_str(line);
    let n = x.as_str().unicode_len();
    let ends = ends_with(x.as_str(), ";");
    proof {
        if ends {
            assert(x@.subrange(n - 1, n as int) =~= ";"@);
            assert(x@.subrange(n - 1, n as int)[0] == x@[n - 1]);
        }
        if n > 0 && x@.last() == ';' {
            assert(x@.subrange(x@.len() - 1, x@.len() as int) =~= ";"@);
        }
    }
    assert(ends == (x@.len() > 0 && x@.last() == ';'));
    if (starts_with(x.as_str(), "import ") || starts_with(x.as_str(), "export ")) && ends {
        assert(n >= 8) by {
            assert("import "@.len() == 7 && "export "@.len() == 7);
            if "import "@.is_prefix_of(x@) {
                assert(x@[6] == "import "@[6]);
            } else {
                assert(x@[6] == "export "@[6]);
            }
        }
        let inner = slice_chars(x.as_str(), 7, n - 1);
        let trimmed = trim_str(inner.as_str());
        let symbols: Vec<String> = Vec::new();
        assert(views(symbols@) =~= Seq::<Seq<char>>::empty());
        let e = DependencyEdge { source: strip_quotes(trimmed.as_str()), symbols, kind: ImportKind::Named };
        out.push(e);
        assert(seq_view(out@) =~= o0 + seq![e@]);
    } else {
        assert(o0 + Seq::<ImportView>::empty() =~= o0);
    }
}

/// The imports and exports of a Dart source, read off its lines.
pub fn dart_source_imports(source: &str) -> (r: Vec<DependencyEdge>)
    ensures
        seq_view(r@) == dart_imports(source@),
{
    let ls = lines(source);
    let ghost lv = lines_of(source@);
    let mut out: Vec<DependencyEdge> = Vec::new();
    assert(seq_view(out@) =~= Seq::<ImportView>::empty());
    let mut i: usize = 0;
    while i < ls.len()
        invariant
            i <= ls.len(),
            views(ls@) == lv,
            lv.len() == ls@.len(),
            seq_view(out@) == collect(i as nat, dart_import_at(lv)),
        decreases ls.len() - i,
    {
        assert(views(ls@)[i as int] == ls@[i as int]@);
        import_of(ls[i].as_str(), &mut out);
        i = i + 1;
    }
    out
}

/// The Dart adapter's result for `path`, given the source and the parser's tree.
pub fn dart_file_result(tree: &Option<SyntaxTree>, source: &str, path: &str) -> (r: FileResult)
    ensures
        is_dart_result(r, path@, source@, opt_tree(*tree)),
        r.parse_time_ms == 0,
{
    match tree {
        Some(t) => {
            let ghost v = t@.nodes;
            let mut exports: Vec<ExportedSymbol> = Vec::new();
            let mut signatures: Vec<FunctionSignature> = Vec::new();
            let mut effects: Vec<SideEffect> = Vec::new();
            assert(seq_view(exports@) =~= Seq::<ExportView>::empty());
            assert(seq_view(signatures@) =~= Seq::<SigView>::empty());
            assert(seq_view(effects@) =~= Seq::<EffectView>::empty());
            let mut i: usize = 0;
            while i < t.nodes.len()
                invariant
                    i <= t.nodes.len(),
                    v == t@.nodes,
                    v.len() == t.nodes.len(),
                    seq_view(exports@) == collect(i as nat, dart_export_at(v)),
                    seq_view(signatures@) == collect(i as nat, dart_signature_at(v)),
                    seq_view(effects@) == collect(i as nat, dart_decl_effect_at(v)),
                decreases t.nodes.len() - i,
            {
                visit(t, i, &mut exports, &mut signatures, &mut effects);
                i = i + 1;
            }
            let imports = dart_source_imports(source);
            let mut more: Vec<SideEffect> = Vec::new();
            assert(seq_view(more@) =~= Seq::<EffectView>::empty());
            let mut j: usize = 0;
            while j < t.nodes.len()
                invariant
                    j <= t.nodes.len(),
                    v == t@.nodes,
                    v.len() == t.nodes.len(),
                    seq_view(more@) == collect(j as nat, dart_effect_at(v)),
                decreases t.nodes.len() - j,
            {
                effect_of(t, j, &mut more);
                j = j + 1;
            }
            append_all(&mut effects, more);
            parsed_result(path, t, exports, imports, signatures, effects)
        },
        None => treeless_result(path),
    }
}

/// The adapter for Dart sources.
pub struct DartAdapter {}

impl DartAdapter {
    /// A new adapter.
    pub fn new() -> (a: Self) {
        DartAdapter {}
    }

    /// The language the adapter handles.
    pub fn language_name(&self) -> (r: &'static str)
        ensures
            r@ == "dart"@,
    {
        "dart"
    }

    /// The file extensions the adapter claims.
    pub fn file_extensions(&self) -> (r: Vec<String>)
        ensures
            views(r@) == seq!["dart"@],
    {
        let r = vec![owned("dart")];
        assert(views(r@) =~= seq!["dart"@]);
        r
    }

    /// Parses a Dart source file.  The parse time is measured on the clock.
    pub fn parse(&self, source: &str, file_path: &str) -> (r: FileResult)
        ensures
            is_dart_result(r, file_path@, source@, dart_syntax(source@)),
    {
        let start = start_timer();
        let tree = parse_dart(source);
        let mut r = dart_file_result(&tree, source, file_path);
        r.parse_time_ms = elapsed_ms(&start);
        r
    }
}

} // verus!
