//! The Zig adapter: declarations read off a tree-sitter syntax tree,
//! `@import` calls read off the source lines.
use crate::decls::{
    add_function_decl, add_named_decl, add_text_record, flag_record, function_decl, meta_record, named_decl,
    push_flag_record, push_meta_record, text_record,
};
use crate::modules::as_positions;
use crate::syntax::{
    append_all, child_by_kind, children, children_of, collect, elapsed_ms, is_parsed_result,
    is_treeless_result, kind_child, kind_is, line_of, node_line, opt_tree, parse_zig, parsed_result,
    plain_export, plain_export_of, seq_view, start_timer, text_or, text_or_default, treeless_result,
    zig_syntax, EffectView, ExportView, ImportView, NodeView, SigView, SyntaxTree, TreeView,
};
use crate::text::{
    after_first, before_first, first_occurrence, lemma_first_occurrence, lines, lines_of, owned, trim_char, trim_matches_char, trim_spec, trim_str, views,
};
use crate::types::{DependencyEdge, ExportKind, ExportedSymbol, FileResult, FunctionSignature, ImportKind, SideEffect};
use vstd::prelude::*;

verus! {

/// The prefix of the Zig adapter's records.
pub const ZIG_META: &'static str = "zig-meta:";

/// The container tag of a node kind: struct, enum, union or opaque declarations.
pub open spec fn container_tag(k: Seq<char>) -> Option<Seq<char>> {
    if k == "struct_declaration"@ {
        Some("struct"@)
    } else if k == "enum_declaration"@ {
        Some("enum"@)
    } else if k == "union_declaration"@ {
        Some("union"@)
    } else if k == "opaque_declaration"@ {
        Some("opaque"@)
    } else {
        None
    }
}

/// The tag of the last container among the nodes `ks`.
pub open spec fn last_container(t: Seq<NodeView>, ks: Seq<int>) -> Option<Seq<char>>
    decreases ks.len(),
{
    if ks.len() == 0 {
        None
    } else {
        match container_tag(t[ks.last()].kind) {
            Some(g) => Some(g),
            None => last_container(t, ks.drop_last()),
        }
    }
}

/// The export kind of a variable holding a container with tag `g`, or of a
/// plain variable.
pub open spec fn container_export_kind(g: Option<Seq<char>>) -> ExportKind {
    match g {
        Some(x) => if x == "struct"@ {
            ExportKind::Class
        } else if x == "enum"@ {
            ExportKind::Enum
        } else {
            ExportKind::Type
        },
        None => ExportKind::Var,
    }
}

/// What a variable declaration at node `i` contributes: its first
/// identifier child names it; its last container child, if any, decides the
/// export's kind and gives a record.
pub open spec fn zig_variable(t: Seq<NodeView>, i: int) -> (Seq<ExportView>, Seq<EffectView>) {
    let line = line_of(t[i].row);
    let g = last_container(t, children(t, i));
    match kind_child(t, i, "identifier"@) {
        Some(c) => {
            let name = text_or(t[c], "?"@);
            (
                seq![plain_export(name, container_export_kind(g), line)],
                match g {
                    Some(x) => seq![meta_record("zig-meta:"@, x, name, line)],
                    None => Seq::empty(),
                },
            )
        },
        None => (Seq::empty(), Seq::empty()),
    }
}

/// What node `i` contributes: exports, signatures and records.
pub open spec fn zig_node(t: Seq<NodeView>, i: int) -> (Seq<ExportView>, Seq<SigView>, Seq<EffectView>) {
    let k = t[i].kind;
    let pre = "zig-meta:"@;
    if k == "function_declaration"@ {
        let f = function_decl(t, i, "parameter"@, true, "return_type"@, "void"@);
        (f.0, f.1, Seq::empty())
    } else if k == "struct_declaration"@ {
        let r = named_decl(t, i, "name"@, Some(ExportKind::Class), pre, Some("struct"@), false);
        (r.0, Seq::empty(), r.1)
    } else if k == "enum_declaration"@ {
        let r = named_decl(t, i, "name"@, Some(ExportKind::Enum), pre, Some("enum"@), false);
        (r.0, Seq::empty(), r.1)
    } else if k == "union_declaration"@ {
        let r = named_decl(t, i, "name"@, Some(ExportKind::Type), pre, Some("union"@), false);
        (r.0, Seq::empty(), r.1)
    } else if k == "opaque_declaration"@ {
        let r = named_decl(t, i, "name"@, Some(ExportKind::Type), pre, Some("opaque"@), false);
        (r.0, Seq::empty(), r.1)
    } else if k == "variable_declaration"@ {
        let r = zig_variable(t, i);
        (r.0, Seq::empty(), r.1)
    } else {
        (Seq::empty(), Seq::empty(), Seq::empty())
    }
}

/// Node-by-node exports.
pub open spec fn zig_export_at(t: Seq<NodeView>) -> spec_fn(int) -> Seq<ExportView> {
    |i: int| zig_node(t, i).0
}

/// Node-by-node signatures.
pub open spec fn zig_signature_at(t: Seq<NodeView>) -> spec_fn(int) -> Seq<SigView> {
    |i: int| zig_node(t, i).1
}

/// Node-by-node declaration records.
pub open spec fn zig_decl_effect_at(t: Seq<NodeView>) -> spec_fn(int) -> Seq<EffectView> {
    |i: int| zig_node(t, i).2
}

/// The side effects node `i` shows: builtin calls (with the text of their
/// first child, or `?`), tests and compile-time expressions.
pub open spec fn zig_effect(t: Seq<NodeView>, i: int) -> Seq<EffectView> {
    let k = t[i].kind;
    let line = line_of(t[i].row);
    if k == "builtin_call_expression"@ {
        let ks = children(t, i);
        if ks.len() > 0 {
            text_record(t, ks[0], line, "zig-meta:"@, "builtin"@, Some("?"@))
        } else {
            Seq::empty()
        }
    } else if k == "test_declaration"@ {
        seq![flag_record("zig-meta:"@, "test"@, line)]
    } else if k == "comptime_expression"@ {
        seq![flag_record("zig-meta:"@, "comptime"@, line)]
    } else {
        Seq::empty()
    }
}

/// Node-by-node side effects.
pub open spec fn zig_effect_at(t: Seq<NodeView>) -> spec_fn(int) -> Seq<EffectView> {
    |i: int| zig_effect(t, i)
}

/// One step through a piece of a line: for the first `@import(` that a
/// `)` follows, the import between them (trimmed and without surrounding
/// `"`, when not empty) and the text after the `)`.
#[verifier::opaque]
pub open spec fn zig_step(rest: Seq<char>) -> Option<(Seq<ImportView>, Seq<char>)> {
    match first_occurrence(rest, "@import("@) {
        Some(s) => {
            let after = rest.skip(s + 8);
            match first_occurrence(after, ")"@) {
                Some(e) => {
                    let p = trim_char(trim_spec(after.take(e)), '"');
                    Some((
                        if p.len() > 0 { seq![(p, Seq::<Seq<char>>::empty(), ImportKind::Named)] } else { Seq::empty() },
                        after.skip(e + 1),
                    ))
                },
                None => None,
            }
        },
        None => None,
    }
}

/// A step leaves less text than it was given.
pub proof fn lemma_zig_step_shrinks(rest: Seq<char>)
    ensures
        zig_step(rest) matches Some(x) ==> x.1.len() < rest.len(),
{
    reveal(zig_step);
    reveal_strlit("@import(");
    reveal_strlit(")");
    lemma_first_occurrence(rest, "@import("@);
    if let Some(s) = first_occurrence(rest, "@import("@) {
        lemma_first_occurrence(rest.skip(s + 8), ")"@);
    }
}

/// The imports in a piece of a line: each `@import(` followed by a `)`
/// names one, in order.
pub open spec fn zig_line_imports(rest: Seq<char>) -> Seq<ImportView>
    decreases rest.len(),
{
    match zig_step(rest) {
        Some(x) => {
            proof {
                lemma_zig_step_shrinks(rest);
            }
            x.0 + zig_line_imports(x.1)
        },
        None => Seq::empty(),
    }
}

/// Line-by-line imports.
pub open spec fn zig_import_at(ls: Seq<Seq<char>>) -> spec_fn(int) -> Seq<ImportView> {
    |k: int| zig_line_imports(ls[k])
}

/// The imports of a Zig source, line by line.
pub open spec fn zig_imports(source: Seq<char>) -> Seq<ImportView> {
    collect(lines_of(source).len(), zig_import_at(lines_of(source)))
}

/// Whether `r` is the Zig adapter's result for `path`, given the source and the parser's tree.
pub open spec fn is_zig_result(r: FileResult, path: Seq<char>, source: Seq<char>, tree: Option<TreeView>) -> bool {
    match tree {
        Some(t) => is_parsed_result(
            r,
            path,
            t,
            collect(t.nodes.len(), zig_export_at(t.nodes)),
            zig_imports(source),
            collect(t.nodes.len(), zig_signature_at(t.nodes)),
            collect(t.nodes.len(), zig_decl_effect_at(t.nodes)) + collect(t.nodes.len(), zig_effect_at(t.nodes)),
        ),
        None => is_treeless_result(r, path),
    }
}

// ─── Executable extraction ──────────────────────────────────────────────────

fn container_of(t: &SyntaxTree, i: usize) -> (r: Option<String>)
    requires
        i < t.nodes.len(),
    ensures
        crate::text::opt_view(r) == last_container(t@.nodes, children(t@.nodes, i as int)),
{
    let ghost v = t@.nodes;
    let ks = children_of(t, i);
    let ghost kv = as_positions(ks@);
    let mut g: Option<String> = None;
    let mut k: usize = 0;
    assert(kv.take(0) =~= Seq::<int>::empty());
    while k < ks.len()
        invariant
            k <= ks.len(),
            v == t@.nodes,
            kv == as_positions(ks@),
            kv == children(v, i as int),
            kv.len() == ks@.len(),
            forall|m: int| 0 <= m < ks@.len() ==> i < #[trigger] ks@[m] < t.nodes.len(),
            crate::text::opt_view(g) == last_container(v, kv.take(k as int)),
        decreases ks.len() - k,
    {
        let c = ks[k];
        proof {
            assert(kv.take(k + 1).drop_last() =~= kv.take(k as int));
            assert(kv.take(k + 1).last() == c as int);
        }
        if kind_is(t, c, "struct_declaration") {
            g = Some(owned("struct"));
        } else if kind_is(t, c, "enum_declaration") {
            g = Some(owned("enum"));
        } else if kind_is(t, c, "union_declaration") {
            g = Some(owned("union"));
        } else if kind_is(t, c, "opaque_declaration") {
            g = Some(owned("opaque"));
        }
        k = k + 1;
    }
    assert(kv.take(ks.len() as int) =~= kv);
    g
}

fn variable_decl(t: &SyntaxTree, i: usize, exports: &mut Vec<ExportedSymbol>, out: &mut Vec<SideEffect>)
    requires
        i < t.nodes.len(),
    ensures
        seq_view(final(exports)@) == seq_view(old(exports)@) + zig_variable(t@.nodes, i as int).0,
        seq_view(final(out)@) == seq_view(old(out)@) + zig_variable(t@.nodes, i as int).1,
{
    let ghost e0 = seq_view(exports@);
    let ghost o0 = seq_view(out@);
    let g = container_of(t, i);
    match child_by_kind(t, i, "identifier") {
        Some(c) => {
            let name = text_or_default(t, c, "?");
            let line = node_line(t, i);
            let kind = match &g {
                Some(x) => if crate::text::str_eq(x.as_str(), "struct") {
                    ExportKind::Class
                } else if crate::text::str_eq(x.as_str(), "enum") {
                    ExportKind::Enum
                } else {
                    ExportKind::Type
                },
                None => ExportKind::Var,
            };
            let e = plain_export_of(owned(name.as_str()), kind, line);
            exports.push(e);
            assert(seq_view(exports@) =~= e0 + seq![e@]);
            match &g {
                Some(x) => {
                    push_meta_record(out, ZIG_META, x.as_str(), name.as_str(), line);
                    assert(seq_view(out@) =~= o0 + seq![meta_record(ZIG_META@, x@, name@, line as nat)]);
                },
                None => {
                    assert(o0 + Seq::<EffectView>::empty() =~= o0);
                },
            }
        },
        None => {
            assert(e0 + Seq::<ExportView>::empty() =~= e0);
            assert(o0 + Seq::<EffectView>::empty() =~= o0);
        },
    }
}

fn visit(t: &SyntaxTree, i: usize, exports: &mut Vec<ExportedSymbol>, signatures: &mut Vec<FunctionSignature>, out: &mut Vec<SideEffect>)
    requires
        i < t.nodes.len(),
    ensures
        seq_view(final(exports)@) == seq_view(old(exports)@) + zig_node(t@.nodes, i as int).0,
        seq_view(final(signatures)@) == seq_view(old(signatures)@) + zig_node(t@.nodes, i as int).1,
        seq_view(final(out)@) == seq_view(old(out)@) + zig_node(t@.nodes, i as int).2,
{
    let ghost e0 = seq_view(exports@);
    let ghost s0 = seq_view(signatures@);
    let ghost o0 = seq_view(out@);
    proof {
        assert(e0 + Seq::<ExportView>::empty() =~= e0);
        assert(s0 + Seq::<SigView>::empty() =~= s0);
        assert(o0 + Seq::<EffectView>::empty() =~= o0);
    }
    if kind_is(t, i, "function_declaration") {
        add_function_decl(t, i, "parameter", true, "return_type", "void", exports, signatures);
    } else if kind_is(t, i, "struct_declaration") {
        add_named_decl(t, i, "name", Some(ExportKind::Class), ZIG_META, Some("struct"), false, exports, out);
    } else if kind_is(t, i, "enum_declaration") {
        add_named_decl(t, i, "name", Some(ExportKind::Enum), ZIG_META, Some("enum"), false, exports, out);
    } else if kind_is(t, i, "union_declaration") {
        add_named_decl(t, i, "name", Some(ExportKind::Type), ZIG_META, Some("union"), false, exports, out);
    } else if kind_is(t, i, "opaque_declaration") {
        add_named_decl(t, i, "name", Some(ExportKind::Type), ZIG_META, Some("opaque"), false, exports, out);
    } else if kind_is(t, i, "variable_declaration") {
        variable_decl(t, i, exports, out);
    }
}

fn effect_of(t: &SyntaxTree, i: usize, out: &mut Vec<SideEffect>)
    requires
        i < t.nodes.len(),
    ensures
        seq_view(final(out)@) == seq_view(old(out)@) + zig_effect(t@.nodes, i as int),
{
    let ghost o0 = seq_view(out@);
    assert(o0 + Seq::<EffectView>::empty() =~= o0);
    let line = node_line(t, i);
    if kind_is(t, i, "builtin_call_expression") {
        let ks = children_of(t, i);
        if ks.len() > 0 {
            assert(as_positions(ks@)[0] == ks@[0] as int);
            add_text_record(t, ks[0], line, ZIG_META, "builtin", Some("?"), out);
        }
    } else if kind_is(t, i, "test_declaration") {
        push_flag_record(out, ZIG_META, "test", line);
        assert(seq_view(out@) =~= o0 + seq![flag_record(ZIG_META@, "test"@, line as nat)]);
    } else if kind_is(t, i, "comptime_expression") {
        push_flag_record(out, ZIG_META, "comptime", line);
        assert(seq_view(out@) =~= o0 + seq![flag_record(ZIG_META@, "comptime"@, line as nat)]);
    }
}

fn import_step(rest: &str, out: &mut Vec<DependencyEdge>) -> (r: Option<String>)
    ensures
        match zig_step(rest@) {
            Some(x) => r matches Some(tl) && tl@ == x.1 && seq_view(final(out)@) == seq_view(old(out)@) + x.0,
            None => r is None && seq_view(final(out)@) == seq_view(old(out)@),
        },
{
    proof {
        reveal(zig_step);
        reveal_strlit("@import(");
        reveal_strlit(")");
        lemma_first_occurrence(rest@, "@import("@);
    }
    let ghost before = seq_view(out@);
    let after = match after_first(rest, "@import(") {
        Some(a) => a,
        None => return None,
    };
    proof {
        lemma_first_occurrence(after@, ")"@);
    }
    let head = before_first(after.as_str(), ")");
    let tail = match after_first(after.as_str(), ")") {
        Some(x) => x,
        None => return None,
    };
    let trimmed = trim_str(head.as_str());
    let p = trim_matches_char(trimmed.as_str(), '"');
    if p.as_str().unicode_len() > 0 {
        let symbols: Vec<String> = Vec::new();
        assert(views(symbols@) =~= Seq::<Seq<char>>::empty());
        let e = DependencyEdge { source: p, symbols, kind: ImportKind::Named };
        out.push(e);
        assert(seq_view(out@) =~= before + seq![e@]);
    } else {
        assert(before + Seq::<ImportView>::empty() =~= before);
    }
    Some(tail)
}

/// The imports of one line of a Zig source.
pub fn zig_imports_of_line(line: &str) -> (r: Vec<DependencyEdge>)
    ensures
        seq_view(r@) == zig_line_imports(line@),
{
    let mut out: Vec<DependencyEdge> = Vec::new();
    let mut rest = owned(line);
    assert(seq_view(out@) =~= Seq::<ImportView>::empty());
    loop
        invariant
            seq_view(out@) + zig_line_imports(rest@) == zig_line_imports(line@),
        decreases rest@.len(),
    {
        let ghost before = seq_view(out@);
        let ghost r0 = rest@;
        proof {
            lemma_zig_step_shrinks(r0);
        }
        match import_step(rest.as_str(), &mut out) {
            Some(tail) => {
                rest = tail;
                proof {
                    let x = zig_step(r0)->0;
                    assert(zig_line_imports(r0) == x.0 + zig_line_imports(x.1));
                    assert(seq_view(out@) + zig_line_imports(rest@) =~= before + zig_line_imports(r0));
                }
            },
            None => {
                assert(before + Seq::<ImportView>::empty() =~= before);
                return out;
            },
        }
    }
}

/// The imports of a Zig source, read off its lines.
pub fn zig_source_imports(source: &str) -> (r: Vec<DependencyEdge>)
    ensures
        seq_view(r@) == zig_imports(source@),
{
    let ls = lines(source);
    let ghost lv = lines_of(source@);
    let mut out: Vec<DependencyEdge> = Vec::new();
    assert(seq_view(out@) =~= Seq::<ImportView>::empty());
    let mut i: usize = 0;
    while i < ls.len()
        invariant
            i <= ls.len(),
            views(ls@) == lv,
            lv.len() == ls@.len(),
            seq_view(out@) == collect(i as nat, zig_import_at(lv)),
        decreases ls.len() - i,
    {
        assert(views(ls@)[i as int] == ls@[i as int]@);
        let more = zig_imports_of_line(ls[i].as_str());
        append_all(&mut out, more);
        i = i + 1;
    }
    out
}

/// The Zig adapter's result for `path`, given the source and the parser's tree.
pub fn zig_file_result(tree: &Option<SyntaxTree>, source: &str, path: &str) -> (r: FileResult)
    ensures
        is_zig_result(r, path@, source@, opt_tree(*tree)),
        r.parse_time_ms == 0,
{
    match tree {
        Some(t) => {
            let ghost v = t@.nodes;
            let mut exports: Vec<ExportedSymbol> = Vec::new();
            let mut signatures: Vec<FunctionSignature> = Vec::new();
            let mut effects: Vec<SideEffect> = Vec::new();
            assert(seq_view(exports@) =~= Seq::<ExportView>::empty());
            assert(seq_view(signatures@) =~= Seq::<SigView>::empty());
            assert(seq_view(effects@) =~= Seq::<EffectView>::empty());
            let mut i: usize = 0;
            while i < t.nodes.len()
                invariant
                    i <= t.nodes.len(),
                    v == t@.nodes,
                    v.len() == t.nodes.len(),
                    seq_view(exports@) == collect(i as nat, zig_export_at(v)),
                    seq_view(signatures@) == collect(i as nat, zig_signature_at(v)),
                    seq_view(effects@) == collect(i as nat, zig_decl_effect_at(v)),
                decreases t.nodes.len() - i,
            {
                visit(t, i, &mut exports, &mut signatures, &mut effects);
                i = i + 1;
            }
            let imports = zig_source_imports(source);
            let mut more: Vec<SideEffect> = Vec::new();
            assert(seq_view(more@) =~= Seq::<EffectView>::empty());
            let mut j: usize = 0;
            while j < t.nodes.len()
                invariant
                    j <= t.nodes.len(),
                    v == t@.nodes,
                    v.len() == t.nodes.len(),
                    seq_view(more@) == collect(j as nat, zig_effect_at(v)),
                decreases t.nodes.len() - j,
            {
                effect_of(t, j, &mut more);
                j = j + 1;
            }
            append_all(&mut effects, more);
            parsed_result(path, t, exports, imports, signatures, effects)
        },
        None => treeless_result(path),
    }
}

/// The adapter for Zig sources.
pub struct ZigAdapter {}

impl ZigAdapter {
    /// A new adapter.
    pub fn new() -> (a: Self) {
        ZigAdapter {}
    }

    /// The language the adapter handles.
    pub fn language_name(&self) -> (r: &'static str)
        ensures
            r@ == "zig"@,
    {
        "zig"
    }

    /// The file extensions the adapter claims.
    pub fn file_extensions(&self) -> (r: Vec<String>)
        ensures
            views(r@) == seq!["zig"@],
    {
        let r = vec![owned("zig")];
        assert(views(r@) =~= seq!["zig"@]);
        r
    }

    /// Parses a Zig source file.  The parse time is measured on the clock.
    pub fn parse(&self, source: &str, file_path: &str) -> (r: FileResult)
        ensures
            is_zig_result(r, file_path@, source@, zig_syntax(source@)),
    {
        let start = start_timer();
        let tree = parse_zig(source);
        let mut r = zig_file_result(&tree, source, file_path);
        r.parse_time_ms = elapsed_ms(&start);
        r
    }
}

} // verus!
