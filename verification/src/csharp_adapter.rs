//! The C# adapter: declarations read off a tree-sitter syntax tree,
//! `using` directives read off the source lines.
use crate::decls::{
    add_function_decl, add_named_decl, add_text_record, flag_record, function_decl, named_decl, param_list,
    params_under, push_flag_record, slice_chars, text_record,
};
use crate::syntax::{
    append_all, child_by_field, collect, csharp_syntax, elapsed_ms, field_child, is_parsed_result,
    is_treeless_result, kind_is, line_of, node_line, opt_tree, parse_csharp, parsed_result, plain_export,
    plain_export_of, seq_view, start_timer, text_or, text_or_default, treeless_result, EffectView, ExportView,
    ImportView, NodeView, SigView, SyntaxTree, TreeView,
};
use crate::text::{ends_with, lines, lines_of, owned, starts_with, trim_spec, trim_str, views};
use crate::types::{
    DependencyEdge, ExportKind, ExportedSymbol, FileResult, FunctionSignature, ImportKind, Parameter,
    SideEffect,
};
use vstd::prelude::*;

verus! {

/// The prefix of the C# adapter's records.
pub const CSHARP_META: &'static str = "csharp-meta:";

/// What a constructor at node `i` contributes: when its `name` child names
/// it, an export and a signature returning `void`.
pub open spec fn csharp_constructor(t: Seq<NodeView>, i: int) -> (Seq<ExportView>, Seq<SigView>) {
    match field_child(t, i, "name"@) {
        Some(n) => {
            let name = text_or(t[n], "?"@);
            (
                seq![plain_export(name, ExportKind::Function, line_of(t[i].row))],
                seq![(name, param_list(t, field_child(t, i, "parameters"@), "parameter"@, false), "void"@)],
            )
        },
        None => (Seq::empty(), Seq::empty()),
    }
}

/// What node `i` contributes: exports, signatures and records.
pub open spec fn csharp_node(t: Seq<NodeView>, i: int) -> (Seq<ExportView>, Seq<SigView>, Seq<EffectView>) {
    let k = t[i].kind;
    let pre = "csharp-meta:"@;
    if k == "class_declaration"@ {
        let r = named_decl(t, i, "name"@, Some(ExportKind::Class), pre, Some("class"@), false);
        (r.0, Seq::empty(), r.1)
    } else if k == "struct_declaration"@ {
        let r = named_decl(t, i, "name"@, Some(ExportKind::Class), pre, Some("struct"@), false);
        (r.0, Seq::empty(), r.1)
    } else if k == "interface_declaration"@ {
        let r = named_decl(t, i, "name"@, Some(ExportKind::Interface), pre, Some("interface"@), false);
        (r.0, Seq::empty(), r.1)
    } else if k == "enum_declaration"@ {
        let r = named_decl(t, i, "name"@, Some(ExportKind::Enum), pre, Some("enum"@), false);
        (r.0, Seq::empty(), r.1)
    } else if k == "method_declaration"@ {
        let f = function_decl(t, i, "parameter"@, false, "type"@, "void"@);
        (f.0, f.1, Seq::empty())
    } else if k == "constructor_declaration"@ {
        let f = csharp_constructor(t, i);
        (f.0, f.1, Seq::empty())
    } else if k == "namespace_declaration"@ {
        let r = named_decl(t, i, "name"@, None, pre, Some("namespace"@), false);
        (r.0, Seq::empty(), r.1)
    } else if k == "attribute_list"@ {
        (Seq::empty(), Seq::empty(), text_record(t, i, line_of(t[i].row), pre, "attribute"@, Some(""@)))
    } else {
        (Seq::empty(), Seq::empty(), Seq::empty())
    }
}

/// Node-by-node exports.
pub open spec fn csharp_export_at(t: Seq<NodeView>) -> spec_fn(int) -> Seq<ExportView> {
    |i: int| csharp_node(t, i).0
}

/// Node-by-node signatures.
pub open spec fn csharp_signature_at(t: Seq<NodeView>) -> spec_fn(int) -> Seq<SigView> {
    |i: int| csharp_node(t, i).1
}

/// Node-by-node declaration records.
pub open spec fn csharp_decl_effect_at(t: Seq<NodeView>) -> spec_fn(int) -> Seq<EffectView> {
    |i: int| csharp_node(t, i).2
}

/// The side effects node `i` shows: preprocessor directives.
pub open spec fn csharp_effect(t: Seq<NodeView>, i: int) -> Seq<EffectView> {
    if t[i].kind == "preprocessor_directive"@ {
        seq![flag_record("csharp-meta:"@, "preprocessor"@, line_of(t[i].row))]
    } else {
        Seq::empty()
    }
}

/// Node-by-node side effects.
pub open spec fn csharp_effect_at(t: Seq<NodeView>) -> spec_fn(int) -> Seq<EffectView> {
    |i: int| csharp_effect(t, i)
}

/// The namespace a `using <namespace>;` line imports.
#[verifier::opaque]
pub open spec fn csharp_using(line: Seq<char>) -> Seq<ImportView> {
    let x = trim_spec(line);
    if "using "@.is_prefix_of(x) && x.len() > 0 && x.last() == ';' {
        seq![(trim_spec(x.subrange(6, x.len() - 1)), Seq::empty(), ImportKind::Named)]
    } else {
        Seq::empty()
    }
}

/// Line-by-line `using` directives.
pub open spec fn csharp_using_at(ls: Seq<Seq<char>>) -> spec_fn(int) -> Seq<ImportView> {
    |k: int| csharp_using(ls[k])
}

/// The `using` directives of a C# source, line by line.
pub open spec fn csharp_usings(source: Seq<char>) -> Seq<ImportView> {
    collect(lines_of(source).len(), csharp_using_at(lines_of(source)))
}

/// Whether `r` is the C# adapter's result for `path`, given the source and the parser's tree.
pub open spec fn is_csharp_result(r: FileResult, path: Seq<char>, source: Seq<char>, tree: Option<TreeView>) -> bool {
    match tree {
        Some(t) => is_parsed_result(
            r,
            path,
            t,
            collect(t.nodes.len(), csharp_export_at(t.nodes)),
            csharp_usings(source),
            collect(t.nodes.len(), csharp_signature_at(t.nodes)),
            collect(t.nodes.len(), csharp_decl_effect_at(t.nodes)) + collect(t.nodes.len(), csharp_effect_at(t.nodes)),
        ),
        None => is_treeless_result(r, path),
    }
}

// ─── Executable extraction ──────────────────────────────────────────────────

fn visit(t: &SyntaxTree, i: usize, exports: &mut Vec<ExportedSymbol>, signatures: &mut Vec<FunctionSignature>, out: &mut Vec<SideEffect>)
    requires
        i < t.nodes.len(),
    ensures
        seq_view(final(exports)@) == seq_view(old(exports)@) + csharp_node(t@.nodes, i as int).0,
        seq_view(final(signatures)@) == seq_view(old(signatures)@) + csharp_node(t@.nodes, i as int).1,
        seq_view(final(out)@) == seq_view(old(out)@) + csharp_node(t@.nodes, i as int).2,
{
    let ghost e0 = seq_view(exports@);
    let ghost s0 = seq_view(signatures@);
    let ghost o0 = seq_view(out@);
    proof {
        assert(e0 + Seq::<ExportView>::empty() =~= e0);
        assert(s0 + Seq::<SigView>::empty() =~= s0);
        assert(o0 + Seq::<EffectView>::empty() =~= o0);
    }
    if kind_is(t, i, "class_declaration") {
        add_named_decl(t, i, "name", Some(ExportKind::Class), CSHARP_META, Some("class"), false, exports, out);
    } else if kind_is(t, i, "struct_declaration") {
        add_named_decl(t, i, "name", Some(ExportKind::Class), CSHARP_META, Some("struct"), false, exports, out);
    } else if kind_is(t, i, "interface_declaration") {
        add_named_decl(t, i, "name", Some(ExportKind::Interface), CSHARP_META, Some("interface"), false, exports, out);
    } else if kind_is(t, i, "enum_declaration") {
        add_named_decl(t, i, "name", Some(ExportKind::Enum), CSHARP_META, Some("enum"), false, exports, out);
    } else if kind_is(t, i, "method_declaration") {
        add_function_decl(t, i, "parameter", false, "type", "void", exports, signatures);
    } else if kind_is(t, i, "constructor_declaration") {
        match child_by_field(t, i, "name") {
            Some(n) => {
                let name = text_or_default(t, n, "?");
                let line = node_line(t, i);
                let e = plain_export_of(owned(name.as_str()), ExportKind::Function, line);
                exports.push(e);
                assert(seq_view(exports@) =~= e0 + seq![e@]);
                let parameters = params_under(t, child_by_field(t, i, "parameters"), "parameter", false);
                let sig = FunctionSignature { name, parameters, return_type: owned("void") };
                assert(sig.parameters@.map_values(|p: Parameter| p@) == seq_view(parameters@));
                signatures.push(sig);
                assert(seq_view(signatures@) =~= s0 + seq![sig@]);
            },
            None => {},
        }
    } else if kind_is(t, i, "namespace_declaration") {
        add_named_decl(t, i, "name", None, CSHARP_META, Some("namespace"), false, exports, out);
    } else if kind_is(t, i, "attribute_list") {
        let line = node_line(t, i);
        add_text_record(t, i, line, CSHARP_META, "attribute", Some(""), out);
    }
}

fn effect_of(t: &SyntaxTree, i: usize, out: &mut Vec<SideEffect>)
    requires
        i < t.nodes.len(),
    ensures
        seq_view(final(out)@) == seq_view(old(out)@) + csharp_effect(t@.nodes, i as int),
{
    let ghost o0 = seq_view(out@);
    if kind_is(t, i, "preprocessor_directive") {
        let line = node_line(t, i);
        push_flag_record(out, CSHARP_META, "preprocessor", line);
        assert(seq_view(out@) =~= o0 + seq![flag_record(CSHARP_META@, "preprocessor"@, line as nat)]);
    } else {
        assert(o0 + Seq::<EffectView>::empty() =~= o0);
    }
}

fn using_of(line: &str, out: &mut Vec<DependencyEdge>)
    ensures
        seq_view(final(out)@) == seq_view(old(out)@) + csharp_using(line@),
{
    let ghost o0 = seq_view(out@);
    reveal(csharp_using);
    proof {
        reveal_strlit("using ");
        reveal_strlit(";");
    }
    let x = trim_str(line);
    let n = x.as_str().unicode_len();
    if starts_with(x.as_str(), "using ") && ends_with(x.as_str(), ";") {
        assert(x@.last() == ';') by {
            assert(x@.subrange(n - 1, n as int) =~= ";"@);
            assert(x@.subrange(n - 1, n as int)[0] == x@[n - 1]);
        }
        assert(n >= 7) by {
            assert("using "@.len() == 6);
            assert(x@[5] == "using "@[5]);
        }
        let inner = slice_chars(x.as_str(), 6, n - 1);
        let symbols: Vec<String> = Vec::new();
        assert(views(symbols@) =~= Seq::<Seq<char>>::empty());
        let e = DependencyEdge { source: trim_str(inner.as_str()), symbols, kind: ImportKind::Named };
        out.push(e);
        assert(seq_view(out@) =~= o0 + seq![e@]);
    } else {
        proof {
            if "using "@.is_prefix_of(x@) && x@.len() > 0 && x@.last() == ';' {
                assert(";"@.is_suffix_of(x@)) by {
                    assert(x@.subrange(x@.len() - 1, x@.len() as int) =~= ";"@);
                }
            }
        }
        assert(o0 + Seq::<ImportView>::empty() =~= o0);
    }
}

/// The `using` directives of a C# source, read off its lines.
pub fn csharp_source_usings(source: &str) -> (r: Vec<DependencyEdge>)
    ensures
        seq_view(r@) == csharp_usings(source@),
{
    let ls = lines(source);
    let ghost lv = lines_of(source@);
    let mut out: Vec<DependencyEdge> = Vec::new();
    assert(seq_view(out@) =~= Seq::<ImportView>::empty());
    let mut i: usize = 0;
    while i < ls.len()
        invariant
            i <= ls.len(),
            views(ls@) == lv,
            lv.len() == ls@.len(),
            seq_view(out@) == collect(i as nat, csharp_using_at(lv)),
        decreases ls.len() - i,
    {
        assert(views(ls@)[i as int] == ls@[i as int]@);
        using_of(ls[i].as_str(), &mut out);
        i = i + 1;
    }
    out
}

/// The C# adapter's result for `path`, given the source and the parser's tree.
pub fn csharp_file_result(tree: &Option<SyntaxTree>, source: &str, path: &str) -> (r: FileResult)
    ensures
        is_csharp_result(r, path@, source@, opt_tree(*tree)),
        r.parse_time_ms == 0,
{
    match tree {
        Some(t) => {
            let ghost v = t@.nodes;
            let mut exports: Vec<ExportedSymbol> = Vec::new();
            let mut signatures: Vec<FunctionSignature> = Vec::new();
            let mut effects: Vec<SideEffect> = Vec::new();
            assert(seq_view(exports@) =~= Seq::<ExportView>::empty());
            assert(seq_view(signatures@) =~= Seq::<SigView>::empty());
            assert(seq_view(effects@) =~= Seq::<EffectView>::empty());
            let mut i: usize = 0;
            while i < t.nodes.len()
                invariant
                    i <= t.nodes.len(),
                    v == t@.nodes,
                    v.len() == t.nodes.len(),
                    seq_view(exports@) == collect(i as nat, csharp_export_at(v)),
                    seq_view(signatures@) == collect(i as nat, csharp_signature_at(v)),
                    seq_view(effects@) == collect(i as nat, csharp_decl_effect_at(v)),
                decreases t.nodes.len() - i,
            {
                visit(t, i, &mut exports, &mut signatures, &mut effects);
                i = i + 1;
            }
            let imports = csharp_source_usings(source);
            let mut more: Vec<SideEffect> = Vec::new();
            assert(seq_view(more@) =~= Seq::<EffectView>::empty());
            let mut j: usize = 0;
            while j < t.nodes.len()
                invariant
                    j <= t.nodes.len(),
                    v == t@.nodes,
                    v.len() == t.nodes.len(),
                    seq_view(more@) == collect(j as nat, csharp_effect_at(v)),
                decreases t.nodes.len() - j,
            {
                effect_of(t, j, &mut more);
                j = j + 1;
            }
            append_all(&mut effects, more);
            parsed_result(path, t, exports, imports, signatures, effects)
        },
        None => treeless_result(path),
    }
}

/// The adapter for C# sources.
pub struct CSharpAdapter {}

impl CSharpAdapter {
    /// A new adapter.
    pub fn new() -> (a: Self) {
        CSharpAdapter {}
    }

    /// The language the adapter handles.
    pub fn language_name(&self) -> (r: &'static str)
        ensures
            r@ == "csharp"@,
    {
        "csharp"
    }

    /// The file extensions the adapter claims.
    pub fn file_extensions(&self) -> (r: Vec<String>)
        ensures
            views(r@) == seq!["cs"@],
    {
        let r = vec![owned("cs")];
        assert(views(r@) =~= seq!["cs"@]);
        r
    }

    /// Parses a C# source file.  The parse time is measured on the clock.
    pub fn parse(&self, source: &str, file_path: &str) -> (r: FileResult)
        ensures
            is_csharp_result(r, file_path@, source@, csharp_syntax(source@)),
    {
        let start = start_timer();
        let tree = parse_csharp(source);
        let mut r = csharp_file_result(&tree, source, file_path);
        r.parse_time_ms = elapsed_ms(&start);
        r
    }
}

} // verus!
