//! The C++ adapter: declarations read off a tree-sitter syntax tree,
//! includes read off the source lines as for C.
use crate::c_adapter::{c_includes, c_source_includes};
use crate::decls::{
    add_named_decl, add_text_record, flag_record, named_decl, param_list, params_under, push_flag_record,
    text_record,
};
use crate::syntax::{
    append_all, child_by_field, children, children_of, collect, cpp_syntax, elapsed_ms, field_child,
    is_parsed_result, is_treeless_result, kind_is, line_of, node_line, opt_text_or, opt_text_or_default,
    opt_tree, parse_cpp, parsed_result, plain_export, plain_export_of, seq_view, start_timer, text_or,
    text_or_default, treeless_result, EffectView, ExportView, NodeView, SigView, SyntaxTree, TreeView,
};
use crate::text::{owned, views};
use crate::types::{ExportKind, ExportedSymbol, FileResult, FunctionSignature, SideEffect};
use vstd::prelude::*;

verus! {

/// The prefix of the C++ adapter's records.
pub const CPP_META: &'static str = "cpp-meta:";

/// Whether a node kind spells a name in a declarator.
pub open spec fn is_name_kind(k: Seq<char>) -> bool {
    k == "identifier"@ || k == "field_identifier"@ || k == "qualified_identifier"@ || k == "destructor_name"@
}

/// The name found scanning the subtree of `d` in document order from node
/// `k` on: the text of the first name node with non-empty text, skipping
/// what lies inside a name node (`skip` holds the depth of the one being
/// skipped); empty when there is none.
pub open spec fn name_scan(t: Seq<NodeView>, d: int, k: int, skip: Option<nat>) -> Seq<char>
    decreases t.len() - k,
{
    if k < 0 || k >= t.len() || (k > d && t[k].depth <= t[d].depth) {
        Seq::empty()
    } else if skip matches Some(sd) && t[k].depth > sd {
        name_scan(t, d, k + 1, skip)
    } else if is_name_kind(t[k].kind) {
        let x = text_or(t[k], ""@);
        if x.len() > 0 {
            x
        } else {
            name_scan(t, d, k + 1, Some(t[k].depth))
        }
    } else {
        name_scan(t, d, k + 1, None)
    }
}

/// The name a declarator `d` declares: the first name node of its subtree,
/// in document order, that is not inside another name node and has text.
pub open spec fn declarator_name(t: Seq<NodeView>, d: int) -> Seq<char> {
    name_scan(t, d, d, None)
}

/// The signature of function definition `i` with declarator `d`.
pub open spec fn cpp_signature(t: Seq<NodeView>, i: int, d: int, name: Seq<char>) -> SigView {
    (
        name,
        param_list(t, field_child(t, d, "parameters"@), "parameter_declaration"@, false),
        opt_text_or(t, field_child(t, i, "type"@), "void"@),
    )
}

/// What node `i` contributes: exports, signatures and records.
pub open spec fn cpp_node(t: Seq<NodeView>, i: int) -> (Seq<ExportView>, Seq<SigView>, Seq<EffectView>) {
    let k = t[i].kind;
    let pre = "cpp-meta:"@;
    let none = (Seq::<ExportView>::empty(), Seq::<SigView>::empty(), Seq::<EffectView>::empty());
    if k == "function_definition"@ {
        match field_child(t, i, "declarator"@) {
            Some(d) => {
                let name = declarator_name(t, d);
                if name.len() > 0 {
                    (
                        seq![plain_export(name, ExportKind::Function, line_of(t[i].row))],
                        seq![cpp_signature(t, i, d, name)],
                        Seq::empty(),
                    )
                } else {
                    none
                }
            },
            None => none,
        }
    } else if k == "class_specifier"@ || k == "struct_specifier"@ {
        let tag = if k == "class_specifier"@ { "class"@ } else { "struct"@ };
        let r = named_decl(t, i, "name"@, Some(ExportKind::Class), pre, Some(tag), true);
        (r.0, Seq::empty(), r.1)
    } else if k == "enum_specifier"@ {
        let r = named_decl(t, i, "name"@, Some(ExportKind::Enum), pre, Some("enum"@), true);
        (r.0, Seq::empty(), r.1)
    } else if k == "namespace_definition"@ {
        let r = named_decl(t, i, "name"@, None, pre, Some("namespace"@), false);
        (r.0, Seq::empty(), r.1)
    } else if k == "template_declaration"@ {
        (Seq::empty(), Seq::empty(), seq![flag_record(pre, "template"@, line_of(t[i].row))])
    } else {
        none
    }
}

/// Node-by-node exports.
pub open spec fn cpp_export_at(t: Seq<NodeView>) -> spec_fn(int) -> Seq<ExportView> {
    |i: int| cpp_node(t, i).0
}

/// Node-by-node signatures.
pub open spec fn cpp_signature_at(t: Seq<NodeView>) -> spec_fn(int) -> Seq<SigView> {
    |i: int| cpp_node(t, i).1
}

/// Node-by-node declaration records.
pub open spec fn cpp_decl_effect_at(t: Seq<NodeView>) -> spec_fn(int) -> Seq<EffectView> {
    |i: int| cpp_node(t, i).2
}

/// The side effects node `i` shows: conditional compilation (with the text
/// of its second child) and `using` declarations.
pub open spec fn cpp_effect(t: Seq<NodeView>, i: int) -> Seq<EffectView> {
    let k = t[i].kind;
    let line = line_of(t[i].row);
    if k == "preproc_ifdef"@ || k == "preproc_ifndef"@ || k == "preproc_if"@ {
        let ks = children(t, i);
        if ks.len() > 1 {
            text_record(t, ks[1], line, "cpp-meta:"@, "conditional"@, None)
        } else {
            Seq::empty()
        }
    } else if k == "using_declaration"@ {
        seq![flag_record("cpp-meta:"@, "using"@, line)]
    } else {
        Seq::empty()
    }
}

/// Node-by-node side effects.
pub open spec fn cpp_effect_at(t: Seq<NodeView>) -> spec_fn(int) -> Seq<EffectView> {
    |i: int| cpp_effect(t, i)
}

/// Whether `r` is the C++ adapter's result for `path`, given the source and the parser's tree.
pub open spec fn is_cpp_result(r: FileResult, path: Seq<char>, source: Seq<char>, tree: Option<TreeView>) -> bool {
    match tree {
        Some(t) => is_parsed_result(
            r,
            path,
            t,
            collect(t.nodes.len(), cpp_export_at(t.nodes)),
            c_includes(source),
            collect(t.nodes.len(), cpp_signature_at(t.nodes)),
            collect(t.nodes.len(), cpp_decl_effect_at(t.nodes)) + collect(t.nodes.len(), cpp_effect_at(t.nodes)),
        ),
        None => is_treeless_result(r, path),
    }
}

// ─── Executable extraction ──────────────────────────────────────────────────

/// The name declarator `d` declares.
pub fn name_of_declarator(t: &SyntaxTree, d: usize) -> (r: String)
    requires
        d < t.nodes.len(),
    ensures
        r@ == declarator_name(t@.nodes, d as int),
{
    let ghost v = t@.nodes;
    proof {
        reveal_strlit("");
    }
    let mut k: usize = d;
    let mut skip: Option<usize> = None;
    while k < t.nodes.len()
        invariant
            d <= k <= t.nodes.len(),
            v == t@.nodes,
            v.len() == t.nodes.len(),
            name_scan(v, d as int, k as int, crate::decls::opt_nat(skip)) == declarator_name(v, d as int),
        decreases t.nodes.len() - k,
    {
        assert(v[k as int] == t.nodes@[k as int]@);
        assert(v[d as int] == t.nodes@[d as int]@);
        if k > d && t.nodes[k].depth <= t.nodes[d].depth {
            assert(name_scan(v, d as int, k as int, crate::decls::opt_nat(skip)) == Seq::<char>::empty());
            proof {
                reveal_strlit("");
            }
            return owned("");
        }
        let skipping = match skip {
            Some(sd) => t.nodes[k].depth > sd,
            None => false,
        };
        if !skipping {
            if kind_is(t, k, "identifier") || kind_is(t, k, "field_identifier") || kind_is(t, k, "qualified_identifier")
                || kind_is(t, k, "destructor_name") {
                let x = text_or_default(t, k, "");
                if x.as_str().unicode_len() > 0 {
                    return x;
                }
                skip = Some(t.nodes[k].depth);
            } else {
                skip = None;
            }
        }
        k = k + 1;
    }
    assert(name_scan(v, d as int, k as int, crate::decls::opt_nat(skip)) == Seq::<char>::empty());
    owned("")
}

fn visit(t: &SyntaxTree, i: usize, exports: &mut Vec<ExportedSymbol>, signatures: &mut Vec<FunctionSignature>, out: &mut Vec<SideEffect>)
    requires
        i < t.nodes.len(),
    ensures
        seq_view(final(exports)@) == seq_view(old(exports)@) + cpp_node(t@.nodes, i as int).0,
        seq_view(final(signatures)@) == seq_view(old(signatures)@) + cpp_node(t@.nodes, i as int).1,
        seq_view(final(out)@) == seq_view(old(out)@) + cpp_node(t@.nodes, i as int).2,
{
    let ghost e0 = seq_view(exports@);
    let ghost s0 = seq_view(signatures@);
    let ghost o0 = seq_view(out@);
    proof {
        assert(e0 + Seq::<ExportView>::empty() =~= e0);
        assert(s0 + Seq::<SigView>::empty() =~= s0);
        assert(o0 + Seq::<EffectView>::empty() =~= o0);
    }
    if kind_is(t, i, "function_definition") {
        match child_by_field(t, i, "declarator") {
            Some(d) => {
                let name = name_of_declarator(t, d);
                if name.as_str().unicode_len() > 0 {
                    let line = node_line(t, i);
                    let e = plain_export_of(owned(name.as_str()), ExportKind::Function, line);
                    exports.push(e);
                    assert(seq_view(exports@) =~= e0 + seq![e@]);
                    let parameters = params_under(t, child_by_field(t, d, "parameters"), "parameter_declaration", false);
                    let return_type = opt_text_or_default(t, child_by_field(t, i, "type"), "void");
                    let sig = FunctionSignature { name, parameters, return_type };
                    assert(sig.parameters@.map_values(|p: crate::types::Parameter| p@) == seq_view(parameters@));
                    signatures.push(sig);
                    assert(seq_view(signatures@) =~= s0 + seq![sig@]);
                }
            },
            None => {},
        }
    } else if kind_is(t, i, "class_specifier") {
        add_named_decl(t, i, "name", Some(ExportKind::Class), CPP_META, Some("class"), true, exports, out);
    } else if kind_is(t, i, "struct_specifier") {
        add_named_decl(t, i, "name", Some(ExportKind::Class), CPP_META, Some("struct"), true, exports, out);
    } else if kind_is(t, i, "enum_specifier") {
        add_named_decl(t, i, "name", Some(ExportKind::Enum), CPP_META, Some("enum"), true, exports, out);
    } else if kind_is(t, i, "namespace_definition") {
        add_named_decl(t, i, "name", None, CPP_META, Some("namespace"), false, exports, out);
    } else if kind_is(t, i, "template_declaration") {
        let line = node_line(t, i);
        push_flag_record(out, CPP_META, "template", line);
        assert(seq_view(out@) =~= o0 + seq![flag_record(CPP_META@, "template"@, line as nat)]);
    }
}

fn effect_of(t: &SyntaxTree, i: usize, out: &mut Vec<SideEffect>)
    requires
        i < t.nodes.len(),
    ensures
        seq_view(final(out)@) == seq_view(old(out)@) + cpp_effect(t@.nodes, i as int),
{
    let ghost o0 = seq_view(out@);
    assert(o0 + Seq::<EffectView>::empty() =~= o0);
    let line = node_line(t, i);
    if kind_is(t, i, "preproc_ifdef") || kind_is(t, i, "preproc_ifndef") || kind_is(t, i, "preproc_if") {
        let ks = children_of(t, i);
        if ks.len() > 1 {
            assert(crate::modules::as_positions(ks@)[1] == ks@[1] as int);
            add_text_record(t, ks[1], line, CPP_META, "conditional", None, out);
        }
    } else if kind_is(t, i, "using_declaration") {
        push_flag_record(out, CPP_META, "using", line);
        assert(seq_view(out@) =~= o0 + seq![flag_record(CPP_META@, "using"@, line as nat)]);
    }
}

/// The C++ adapter's result for `path`, given the source and the parser's tree.
pub fn cpp_file_result(tree: &Option<SyntaxTree>, source: &str, path: &str) -> (r: FileResult)
    ensures
        is_cpp_result(r, path@, source@, opt_tree(*tree)),
        r.parse_time_ms == 0,
{
    match tree {
        Some(t) => {
            let ghost v = t@.nodes;
            let mut exports: Vec<ExportedSymbol> = Vec::new();
            let mut signatures: Vec<FunctionSignature> = Vec::new();
            let mut effects: Vec<SideEffect> = Vec::new();
            assert(seq_view(exports@) =~= Seq::<ExportView>::empty());
            assert(seq_view(signatures@) =~= Seq::<SigView>::empty());
            assert(seq_view(effects@) =~= Seq::<EffectView>::empty());
            let mut i: usize = 0;
            while i < t.nodes.len()
                invariant
                    i <= t.nodes.len(),
                    v == t@.nodes,
                    v.len() == t.nodes.len(),
                    seq_view(exports@) == collect(i as nat, cpp_export_at(v)),
                    seq_view(signatures@) == collect(i as nat, cpp_signature_at(v)),
                    seq_view(effects@) == collect(i as nat, cpp_decl_effect_at(v)),
                decreases t.nodes.len() - i,
            {
                visit(t, i, &mut exports, &mut signatures, &mut effects);
                i = i + 1;
            }
            let imports = c_source_includes(source);
            let mut more: Vec<SideEffect> = Vec::new();
            assert(seq_view(more@) =~= Seq::<EffectView>::empty());
            let mut j: usize = 0;
            while j < t.nodes.len()
                invariant
                    j <= t.nodes.len(),
                    v == t@.nodes,
                    v.len() == t.nodes.len(),
                    seq_view(more@) == collect(j as nat, cpp_effect_at(v)),
                decreases t.nodes.len() - j,
            {
                effect_of(t, j, &mut more);
                j = j + 1;
            }
            append_all(&mut effects, more);
            parsed_result(path, t, exports, imports, signatures, effects)
        },
        None => treeless_result(path),
    }
}

/// The adapter for C++ sources and headers.
pub struct CppAdapter {}

impl CppAdapter {
    /// A new adapter.
    pub fn new() -> (a: Self) {
        CppAdapter {}
    }

    /// The language the adapter handles.
    pub fn language_name(&self) -> (r: &'static str)
        ensures
            r@ == "cpp"@,
    {
        "cpp"
    }

    /// The file extensions the adapter claims.
    pub fn file_extensions(&self) -> (r: Vec<String>)
        ensures
            views(r@) == seq!["cpp"@, "cc"@, "cxx"@, "hpp"@, "h"@, "hh"@, "hxx"@],
    {
        let r = vec![owned("cpp"), owned("cc"), owned("cxx"), owned("hpp"), owned("h"), owned("hh"), owned("hxx")];
        assert(views(r@) =~= seq!["cpp"@, "cc"@, "cxx"@, "hpp"@, "h"@, "hh"@, "hxx"@]);
        r
    }

    /// Parses a C++ source file.  The parse time is measured on the clock.
    pub fn parse(&self, source: &str, file_path: &str) -> (r: FileResult)
        ensures
            is_cpp_result(r, file_path@, source@, cpp_syntax(source@)),
    {
        let start = start_timer();
        let tree = parse_cpp(source);
        let mut r = cpp_file_result(&tree, source, file_path);
        r.parse_time_ms = elapsed_ms(&start);
        r
    }
}

} // verus!
