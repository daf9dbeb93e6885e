//! The C adapter: declarations and calls read off a tree-sitter syntax
//! tree, includes read off the source lines.
use crate::decls::{
    add_named_decl, add_text_record, named_decl, param_list, params_under, push_record,
    text_record,
};
use crate::syntax::{
    append_all, c_syntax, child_by_field, children, children_of, collect, elapsed_ms, field_child,
    is_parsed_result, is_treeless_result, kind_is, line_of, node_line, opt_text_or, opt_text_or_default,
    opt_tree, parse_c, parsed_result, plain_export, plain_export_of, seq_view, start_timer, text_or,
    text_or_default, treeless_result, EffectView, ExportView, ImportView, NodeView, ParamView, SigView,
    SyntaxTree, TreeView,
};
use crate::text::{
    after_first, lines, lines_of, owned, starts_with, str_eq, text_after, trim_end_char,
    trim_end_matches_char, trim_spec, trim_str, views,
};
use crate::types::{
    DependencyEdge, ExportKind, ExportedSymbol, FileResult, FunctionSignature, ImportKind, Parameter,
    SideEffect, SideEffectKind,
};
use vstd::prelude::*;

verus! {

/// The prefix of the C adapter's records.
pub const C_META: &'static str = "c-meta:";

// ─── Declarations ───────────────────────────────────────────────────────────

/// The parameters of a declarator node `d` that is a function declarator.
pub open spec fn c_declarator_params(t: Seq<NodeView>, d: int) -> Seq<ParamView> {
    if t[d].kind == "function_declarator"@ {
        param_list(t, field_child(t, d, "parameters"@), "parameter_declaration"@, false)
    } else {
        Seq::empty()
    }
}

/// The return type of declaration node `i`: its `type` child's text, or `void`.
pub open spec fn c_return_type(t: Seq<NodeView>, i: int) -> Seq<char> {
    opt_text_or(t, field_child(t, i, "type"@), "void"@)
}

/// What a function definition or prototype at node `i` contributes, with
/// `d` its declarator and `inner` the declarator's own declarator (which
/// names it).  A definition takes its parameters from `inner` when that is a
/// function declarator; a prototype from `d`.
pub open spec fn c_function(t: Seq<NodeView>, i: int, inner: int, params: Seq<ParamView>) -> (Seq<ExportView>, Seq<SigView>) {
    let name = text_or(t[inner], "?"@);
    (seq![plain_export(name, ExportKind::Function, line_of(t[i].row))], seq![(name, params, c_return_type(t, i))])
}

/// What node `i` contributes: exports, signatures and records.
pub open spec fn c_node(t: Seq<NodeView>, i: int) -> (Seq<ExportView>, Seq<SigView>, Seq<EffectView>) {
    let k = t[i].kind;
    let pre = "c-meta:"@;
    let none = (Seq::<ExportView>::empty(), Seq::<SigView>::empty(), Seq::<EffectView>::empty());
    if k == "function_definition"@ {
        match field_child(t, i, "declarator"@) {
            Some(d) => match field_child(t, d, "declarator"@) {
                Some(inner) => {
                    let f = c_function(t, i, inner, c_declarator_params(t, inner));
                    (f.0, f.1, Seq::empty())
                },
                None => none,
            },
            None => none,
        }
    } else if k == "declaration"@ {
        match field_child(t, i, "declarator"@) {
            Some(d) => if t[d].kind == "function_declarator"@ {
                match field_child(t, d, "declarator"@) {
                    Some(inner) => {
                        let f = c_function(t, i, inner, c_declarator_params(t, d));
                        (f.0, f.1, Seq::empty())
                    },
                    None => none,
                }
            } else {
                none
            },
            None => none,
        }
    } else if k == "struct_specifier"@ {
        let r = named_decl(t, i, "name"@, Some(ExportKind::Class), pre, Some("struct"@), true);
        (r.0, Seq::empty(), r.1)
    } else if k == "enum_specifier"@ {
        let r = named_decl(t, i, "name"@, Some(ExportKind::Enum), pre, Some("enum"@), true);
        (r.0, Seq::empty(), r.1)
    } else if k == "type_definition"@ {
        let r = named_decl(t, i, "declarator"@, Some(ExportKind::Type), pre, Some("typedef"@), false);
        (r.0, Seq::empty(), r.1)
    } else if k == "preproc_def"@ || k == "preproc_function_def"@ {
        let r = named_decl(t, i, "name"@, Some(ExportKind::Const), pre, Some("define"@), false);
        (r.0, Seq::empty(), r.1)
    } else if k == "linkage_specification"@ {
        match field_child(t, i, "value"@) {
            Some(v) => (Seq::empty(), Seq::empty(), text_record(t, v, line_of(t[i].row), pre, "extern"@, None)),
            None => none,
        }
    } else {
        none
    }
}

/// Node-by-node exports.
pub open spec fn c_export_at(t: Seq<NodeView>) -> spec_fn(int) -> Seq<ExportView> {
    |i: int| c_node(t, i).0
}

/// Node-by-node signatures.
pub open spec fn c_signature_at(t: Seq<NodeView>) -> spec_fn(int) -> Seq<SigView> {
    |i: int| c_node(t, i).1
}

/// Node-by-node declaration records.
pub open spec fn c_decl_effect_at(t: Seq<NodeView>) -> spec_fn(int) -> Seq<EffectView> {
    |i: int| c_node(t, i).2
}

// ─── Side effects ───────────────────────────────────────────────────────────

/// The record a call of the function `name` on `line` leaves: printing,
/// memory and file functions of the C library are recognised.
pub open spec fn c_call_effect(name: Seq<char>, line: nat) -> Seq<EffectView> {
    if name == "printf"@ || name == "fprintf"@ || name == "sprintf"@ || name == "snprintf"@ {
        seq![(SideEffectKind::Log, "c-meta:io:"@ + name, line)]
    } else if name == "malloc"@ || name == "calloc"@ || name == "realloc"@ || name == "free"@ {
        seq![(SideEffectKind::Storage, "c-meta:memory:"@ + name, line)]
    } else if name == "fopen"@ || name == "fclose"@ || name == "fread"@ || name == "fwrite"@ {
        seq![(SideEffectKind::Io, "c-meta:file:"@ + name, line)]
    } else {
        Seq::empty()
    }
}

/// The side effects node `i` shows: conditional compilation (with the text
/// of its second child), includes, and calls of known library functions.
pub open spec fn c_effect(t: Seq<NodeView>, i: int) -> Seq<EffectView> {
    let k = t[i].kind;
    let line = line_of(t[i].row);
    if k == "preproc_ifdef"@ || k == "preproc_ifndef"@ || k == "preproc_if"@ {
        let ks = children(t, i);
        if ks.len() > 1 {
            text_record(t, ks[1], line, "c-meta:"@, "conditional"@, None)
        } else {
            Seq::empty()
        }
    } else if k == "preproc_include"@ {
        seq![(SideEffectKind::Log, "c-meta:include"@, line)]
    } else if k == "call_expression"@ {
        match field_child(t, i, "function"@) {
            Some(f) => match t[f].text {
                Some(name) => c_call_effect(name, line),
                None => Seq::empty(),
            },
            None => Seq::empty(),
        }
    } else {
        Seq::empty()
    }
}

/// Node-by-node side effects.
pub open spec fn c_effect_at(t: Seq<NodeView>) -> spec_fn(int) -> Seq<EffectView> {
    |i: int| c_effect(t, i)
}

// ─── Includes ───────────────────────────────────────────────────────────────

/// The include a source line declares: after `#include`, the text after the
/// first `<` without trailing `>`, or else after the first `"` without
/// trailing `"`.
#[verifier::opaque]
pub open spec fn c_include(line: Seq<char>) -> Seq<ImportView> {
    let x = trim_spec(line);
    if "#include"@.is_prefix_of(x) {
        match text_after(x, "<"@) {
            Some(rest) => seq![(trim_end_char(rest, '>'), Seq::empty(), ImportKind::Named)],
            None => match text_after(x, "\""@) {
                Some(rest) => seq![(trim_end_char(rest, '"'), Seq::empty(), ImportKind::Named)],
                None => Seq::empty(),
            },
        }
    } else {
        Seq::empty()
    }
}

/// Line-by-line includes.
pub open spec fn c_include_at(ls: Seq<Seq<char>>) -> spec_fn(int) -> Seq<ImportView> {
    |k: int| c_include(ls[k])
}

/// The includes of a C source, line by line.
pub open spec fn c_includes(source: Seq<char>) -> Seq<ImportView> {
    collect(lines_of(source).len(), c_include_at(lines_of(source)))
}

/// Whether `r` is the C adapter's result for `path`, given the source and the parser's tree.
pub open spec fn is_c_result(r: FileResult, path: Seq<char>, source: Seq<char>, tree: Option<TreeView>) -> bool {
    match tree {
        Some(t) => is_parsed_result(
            r,
            path,
            t,
            collect(t.nodes.len(), c_export_at(t.nodes)),
            c_includes(source),
            collect(t.nodes.len(), c_signature_at(t.nodes)),
            collect(t.nodes.len(), c_decl_effect_at(t.nodes)) + collect(t.nodes.len(), c_effect_at(t.nodes)),
        ),
        None => is_treeless_result(r, path),
    }
}

// ─── Executable extraction ──────────────────────────────────────────────────

fn declarator_params(t: &SyntaxTree, d: usize) -> (r: Vec<Parameter>)
    requires
        d < t.nodes.len(),
    ensures
        seq_view(r@) == c_declarator_params(t@.nodes, d as int),
{
    if kind_is(t, d, "function_declarator") {
        params_under(t, child_by_field(t, d, "parameters"), "parameter_declaration", false)
    } else {
        let e: Vec<Parameter> = Vec::new();
        assert(seq_view(e@) =~= Seq::<ParamView>::empty());
        e
    }
}

fn add_function(
    t: &SyntaxTree,
    i: usize,
    inner: usize,
    parameters: Vec<Parameter>,
    exports: &mut Vec<ExportedSymbol>,
    signatures: &mut Vec<FunctionSignature>,
)
    requires
        i < t.nodes.len(),
        inner < t.nodes.len(),
    ensures
        seq_view(final(exports)@) == seq_view(old(exports)@) + c_function(t@.nodes, i as int, inner as int, seq_view(parameters@)).0,
        seq_view(final(signatures)@) == seq_view(old(signatures)@) + c_function(t@.nodes, i as int, inner as int, seq_view(parameters@)).1,
{
    let ghost e0 = seq_view(exports@);
    let ghost s0 = seq_view(signatures@);
    let ghost pv = seq_view(parameters@);
    let name = text_or_default(t, inner, "?");
    let line = node_line(t, i);
    let e = plain_export_of(owned(name.as_str()), ExportKind::Function, line);
    exports.push(e);
    assert(seq_view(exports@) =~= e0 + seq![e@]);
    let return_type = opt_text_or_default(t, child_by_field(t, i, "type"), "void");
    let sig = FunctionSignature { name, parameters, return_type };
    assert(sig.parameters@.map_values(|p: Parameter| p@) == pv);
    signatures.push(sig);
    assert(seq_view(signatures@) =~= s0 + seq![sig@]);
}

fn visit(t: &SyntaxTree, i: usize, exports: &mut Vec<ExportedSymbol>, signatures: &mut Vec<FunctionSignature>, out: &mut Vec<SideEffect>)
    requires
        i < t.nodes.len(),
    ensures
        seq_view(final(exports)@) == seq_view(old(exports)@) + c_node(t@.nodes, i as int).0,
        seq_view(final(signatures)@) == seq_view(old(signatures)@) + c_node(t@.nodes, i as int).1,
        seq_view(final(out)@) == seq_view(old(out)@) + c_node(t@.nodes, i as int).2,
{
    let ghost e0 = seq_view(exports@);
    let ghost s0 = seq_view(signatures@);
    let ghost o0 = seq_view(out@);
    proof {
        assert(e0 + Seq::<ExportView>::empty() =~= e0);
        assert(s0 + Seq::<SigView>::empty() =~= s0);
        assert(o0 + Seq::<EffectView>::empty() =~= o0);
    }
    if kind_is(t, i, "function_definition") {
        match child_by_field(t, i, "declarator") {
            Some(d) => match child_by_field(t, d, "declarator") {
                Some(inner) => {
                    let ps = declarator_params(t, inner);
                    add_function(t, i, inner, ps, exports, signatures);
                },
                None => {},
            },
            None => {},
        }
    } else if kind_is(t, i, "declaration") {
        match child_by_field(t, i, "declarator") {
            Some(d) => {
                if kind_is(t, d, "function_declarator") {
                    match child_by_field(t, d, "declarator") {
                        Some(inner) => {
                            let ps = declarator_params(t, d);
                            add_function(t, i, inner, ps, exports, signatures);
                        },
                        None => {},
                    }
                }
            },
            None => {},
        }
    } else if kind_is(t, i, "struct_specifier") {
        add_named_decl(t, i, "name", Some(ExportKind::Class), C_META, Some("struct"), true, exports, out);
    } else if kind_is(t, i, "enum_specifier") {
        add_named_decl(t, i, "name", Some(ExportKind::Enum), C_META, Some("enum"), true, exports, out);
    } else if kind_is(t, i, "type_definition") {
        add_named_decl(t, i, "declarator", Some(ExportKind::Type), C_META, Some("typedef"), false, exports, out);
    } else if kind_is(t, i, "preproc_def") || kind_is(t, i, "preproc_function_def") {
        add_named_decl(t, i, "name", Some(ExportKind::Const), C_META, Some("define"), false, exports, out);
    } else if kind_is(t, i, "linkage_specification") {
        match child_by_field(t, i, "value") {
            Some(v) => {
                let line = node_line(t, i);
                add_text_record(t, v, line, C_META, "extern", None, out);
            },
            None => {},
        }
    }
}

fn call_effect(name: &str, line: u32, out: &mut Vec<SideEffect>)
    ensures
        seq_view(final(out)@) == seq_view(old(out)@) + c_call_effect(name@, line as nat),
{
    let ghost o0 = seq_view(out@);
    if str_eq(name, "printf") || str_eq(name, "fprintf") || str_eq(name, "sprintf") || str_eq(name, "snprintf") {
        push_record(out, SideEffectKind::Log, crate::text::concat2("c-meta:io:", name), line);
    } else if str_eq(name, "malloc") || str_eq(name, "calloc") || str_eq(name, "realloc") || str_eq(name, "free") {
        push_record(out, SideEffectKind::Storage, crate::text::concat2("c-meta:memory:", name), line);
    } else if str_eq(name, "fopen") || str_eq(name, "fclose") || str_eq(name, "fread") || str_eq(name, "fwrite") {
        push_record(out, SideEffectKind::Io, crate::text::concat2("c-meta:file:", name), line);
    } else {
        assert(o0 + Seq::<EffectView>::empty() =~= o0);
        return;
    }
    assert(seq_view(out@) =~= o0 + c_call_effect(name@, line as nat));
}

fn effect_of(t: &SyntaxTree, i: usize, out: &mut Vec<SideEffect>)
    requires
        i < t.nodes.len(),
    ensures
        seq_view(final(out)@) == seq_view(old(out)@) + c_effect(t@.nodes, i as int),
{
    let ghost o0 = seq_view(out@);
    assert(o0 + Seq::<EffectView>::empty() =~= o0);
    let line = node_line(t, i);
    if kind_is(t, i, "preproc_ifdef") || kind_is(t, i, "preproc_ifndef") || kind_is(t, i, "preproc_if") {
        let ks = children_of(t, i);
        if ks.len() > 1 {
            assert(crate::modules::as_positions(ks@)[1] == ks@[1] as int);
            add_text_record(t, ks[1], line, C_META, "conditional", None, out);
        }
    } else if kind_is(t, i, "preproc_include") {
        push_record(out, SideEffectKind::Log, owned("c-meta:include"), line);
        assert(seq_view(out@) =~= o0 + seq![(SideEffectKind::Log, "c-meta:include"@, line as nat)]);
    } else if kind_is(t, i, "call_expression") {
        match child_by_field(t, i, "function") {
            Some(f) => {
                assert(t@.nodes[f as int] == t.nodes@[f as int]@);
                match &t.nodes[f].text {
                    Some(name) => call_effect(name.as_str(), line, out),
                    None => {},
                }
            },
            None => {},
        }
    }
}

fn include_of(line: &str, out: &mut Vec<DependencyEdge>)
    ensures
        seq_view(final(out)@) == seq_view(old(out)@) + c_include(line@),
{
    let ghost o0 = seq_view(out@);
    assert(o0 + Seq::<ImportView>::empty() =~= o0);
    reveal(c_include);
    let x = trim_str(line);
    if starts_with(x.as_str(), "#include") {
        let path = match after_first(x.as_str(), "<") {
            Some(rest) => trim_end_matches_char(rest.as_str(), '>'),
            None => match after_first(x.as_str(), "\"") {
                Some(rest) => trim_end_matches_char(rest.as_str(), '"'),
                None => return,
            },
        };
        let symbols: Vec<String> = Vec::new();
        assert(views(symbols@) =~= Seq::<Seq<char>>::empty());
        let e = DependencyEdge { source: path, symbols, kind: ImportKind::Named };
        out.push(e);
        assert(seq_view(out@) =~= o0 + seq![e@]);
    }
}

/// The includes of a C source, read off its lines.
pub fn c_source_includes(source: &str) -> (r: Vec<DependencyEdge>)
    ensures
        seq_view(r@) == c_includes(source@),
{
    let ls = lines(source);
    let ghost lv = lines_of(source@);
    let mut out: Vec<DependencyEdge> = Vec::new();
    assert(seq_view(out@) =~= Seq::<ImportView>::empty());
    let mut i: usize = 0;
    while i < ls.len()
        invariant
            i <= ls.len(),
            views(ls@) == lv,
            lv.len() == ls@.len(),
            seq_view(out@) == collect(i as nat, c_include_at(lv)),
        decreases ls.len() - i,
    {
        assert(views(ls@)[i as int] == ls@[i as int]@);
        include_of(ls[i].as_str(), &mut out);
        i = i + 1;
    }
    out
}

/// The C adapter's result for `path`, given the source and the parser's tree.
pub fn c_file_result(tree: &Option<SyntaxTree>, source: &str, path: &str) -> (r: FileResult)
    ensures
        is_c_result(r, path@, source@, opt_tree(*tree)),
        r.parse_time_ms == 0,
{
    match tree {
        Some(t) => {
            let ghost v = t@.nodes;
            let mut exports: Vec<ExportedSymbol> = Vec::new();
            let mut signatures: Vec<FunctionSignature> = Vec::new();
            let mut effects: Vec<SideEffect> = Vec::new();
            assert(seq_view(exports@) =~= Seq::<ExportView>::empty());
            assert(seq_view(signatures@) =~= Seq::<SigView>::empty());
            assert(seq_view(effects@) =~= Seq::<EffectView>::empty());
            let mut i: usize = 0;
            while i < t.nodes.len()
                invariant
                    i <= t.nodes.len(),
                    v == t@.nodes,
                    v.len() == t.nodes.len(),
                    seq_view(exports@) == collect(i as nat, c_export_at(v)),
                    seq_view(signatures@) == collect(i as nat, c_signature_at(v)),
                    seq_view(effects@) == collect(i as nat, c_decl_effect_at(v)),
                decreases t.nodes.len() - i,
            {
                visit(t, i, &mut exports, &mut signatures, &mut effects);
                i = i + 1;
            }
            let imports = c_source_includes(source);
            let mut more: Vec<SideEffect> = Vec::new();
            assert(seq_view(more@) =~= Seq::<EffectView>::empty());
            let mut j: usize = 0;
            while j < t.nodes.len()
                invariant
                    j <= t.nodes.len(),
                    v == t@.nodes,
                    v.len() == t.nodes.len(),
                    seq_view(more@) == collect(j as nat, c_effect_at(v)),
                decreases t.nodes.len() - j,
            {
                effect_of(t, j, &mut more);
                j = j + 1;
            }
            append_all(&mut effects, more);
            parsed_result(path, t, exports, imports, signatures, effects)
        },
        None => treeless_result(path),
    }
}

/// The adapter for C sources and headers.
pub struct CAdapter {}

impl CAdapter {
    /// A new adapter.
    pub fn new() -> (a: Self) {
        CAdapter {}
    }

    /// The language the adapter handles.
    pub fn language_name(&self) -> (r: &'static str)
        ensures
            r@ == "c"@,
    {
        "c"
    }

    /// The file extensions the adapter claims.
    pub fn file_extensions(&self) -> (r: Vec<String>)
        ensures
            views(r@) == seq!["c"@, "h"@],
    {
        let r = vec![owned("c"), owned("h")];
        assert(views(r@) =~= seq!["c"@, "h"@]);
        r
    }

    /// Parses a C source file.  The parse time is measured on the clock.
    pub fn parse(&self, source: &str, file_path: &str) -> (r: FileResult)
        ensures
            is_c_result(r, file_path@, source@, c_syntax(source@)),
    {
        let start = start_timer();
        let tree = parse_c(source);
        let mut r = c_file_result(&tree, source, file_path);
        r.parse_time_ms = elapsed_ms(&start);
        r
    }
}

} // verus!
