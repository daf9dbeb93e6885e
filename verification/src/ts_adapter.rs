//! The TypeScript / JavaScript adapter: exports, imports, signatures and
//! side effects read off a tree-sitter syntax tree.
//!
//! Every extraction walks the tree in pre-order and collects what each node
//! contributes.
use crate::modules::as_positions;
use crate::syntax::{
    append_all, child_by_field, child_by_kind, children, children_of, collect, elapsed_ms,
    field_child, is_parsed_result, is_treeless_result, javascript_syntax, kind_child, kind_is,
    line_of, node_line, opt_text_or, opt_text_or_default, opt_tree, parent, parent_of,
    parse_javascript, parse_typescript, parsed_result, plain_export, plain_export_of, seq_view,
    start_timer, text_or, text_or_default, treeless_result, typescript_syntax, EffectView,
    ExportView, ImportView, NodeView, ParamView, SigView, SyntaxTree, TreeView,
};
use crate::text::{ends_with, owned, starts_with, str_eq, trim_char, trim_matches_char, trim_spec, trim_start_char, trim_start_matches_char, trim_str};
use crate::types::{
    DependencyEdge, ExportKind, ExportedSymbol, FileResult, FunctionSignature, ImportKind,
    Parameter, SideEffect, SideEffectKind,
};
use vstd::prelude::*;

verus! {

// ─── Exports ────────────────────────────────────────────────────────────────

/// The export of declaration `d` by its `name` field, if it has one.
pub open spec fn ts_named(t: Seq<NodeView>, d: int, kind: ExportKind, line: nat) -> Seq<ExportView> {
    match field_child(t, d, "name"@) {
        Some(n) => seq![plain_export(text_or(t[n], "?"@), kind, line)],
        None => Seq::empty(),
    }
}

/// The exports of those nodes `ks` of kind `child_kind`, each by its `name` field.
pub open spec fn ts_named_children(t: Seq<NodeView>, ks: Seq<int>, child_kind: Seq<char>, kind: ExportKind, line: nat) -> Seq<ExportView>
    decreases ks.len(),
{
    if ks.len() == 0 {
        Seq::empty()
    } else {
        ts_named_children(t, ks.drop_last(), child_kind, kind, line) + if t[ks.last()].kind == child_kind {
            ts_named(t, ks.last(), kind, line)
        } else {
            Seq::empty()
        }
    }
}

/// The exports an exported declaration `d` contributes.
pub open spec fn ts_decl_exports(t: Seq<NodeView>, d: int, line: nat) -> Seq<ExportView> {
    let k = t[d].kind;
    if k == "function_declaration"@ {
        ts_named(t, d, ExportKind::Function, line)
    } else if k == "class_declaration"@ {
        ts_named(t, d, ExportKind::Class, line)
    } else if k == "lexical_declaration"@ {
        let kind = if "let"@.is_prefix_of(text_or(t[d], "const"@)) { ExportKind::Let } else { ExportKind::Const };
        ts_named_children(t, children(t, d), "variable_declarator"@, kind, line)
    } else if k == "variable_declaration"@ {
        ts_named_children(t, children(t, d), "variable_declarator"@, ExportKind::Var, line)
    } else if k == "type_alias_declaration"@ {
        ts_named(t, d, ExportKind::Type, line)
    } else if k == "interface_declaration"@ {
        ts_named(t, d, ExportKind::Interface, line)
    } else if k == "enum_declaration"@ {
        ts_named(t, d, ExportKind::Enum, line)
    } else {
        Seq::empty()
    }
}

/// The exports node `i` contributes: an `export` statement's declaration,
/// then the names it re-exports from another module.
pub open spec fn ts_node_exports(t: Seq<NodeView>, i: int) -> Seq<ExportView> {
    if t[i].kind != "export_statement"@ {
        Seq::empty()
    } else {
        let line = line_of(t[i].row);
        let decl = match field_child(t, i, "declaration"@) {
            Some(d) => ts_decl_exports(t, d, line),
            None => Seq::empty(),
        };
        let reexports = match field_child(t, i, "source"@) {
            Some(_) => match kind_child(t, i, "export_clause"@) {
                Some(c) => ts_named_children(t, children(t, c), "export_specifier"@, ExportKind::Const, line),
                None => Seq::empty(),
            },
            None => Seq::empty(),
        };
        decl + reexports
    }
}

// ─── Imports ────────────────────────────────────────────────────────────────

/// A module specifier without its quotes.
pub open spec fn unquote(s: Seq<char>) -> Seq<char> {
    trim_char(trim_char(s, '"'), '\'')
}

/// The names of the `import_specifier` nodes among `ks`.
pub open spec fn ts_specifier_names(t: Seq<NodeView>, ks: Seq<int>) -> Seq<Seq<char>>
    decreases ks.len(),
{
    if ks.len() == 0 {
        Seq::empty()
    } else {
        ts_specifier_names(t, ks.drop_last()) + if t[ks.last()].kind == "import_specifier"@ {
            match field_child(t, ks.last(), "name"@) {
                Some(n) => seq![text_or(t[n], "?"@)],
                None => Seq::empty(),
            }
        } else {
            Seq::empty()
        }
    }
}

/// The kind and symbols of an import clause, by its first child.
pub open spec fn ts_clause(t: Seq<NodeView>, c: int) -> (ImportKind, Seq<Seq<char>>) {
    let ks = children(t, c);
    if ks.len() == 0 {
        (ImportKind::Named, Seq::empty())
    } else {
        let inner = ks[0];
        let k = t[inner].kind;
        if k == "named_imports"@ {
            (ImportKind::Named, ts_specifier_names(t, children(t, inner)))
        } else if k == "identifier"@ {
            (ImportKind::Default, seq![text_or(t[inner], "?"@)])
        } else if k == "namespace_import"@ {
            (ImportKind::Namespace, match kind_child(t, inner, "identifier"@) {
                Some(id) => seq![text_or(t[id], "?"@)],
                None => Seq::empty(),
            })
        } else {
            (ImportKind::Named, Seq::empty())
        }
    }
}

/// Whether call node `i` calls `require`.
pub open spec fn ts_is_require(t: Seq<NodeView>, i: int) -> bool {
    match field_child(t, i, "function"@) {
        Some(f) => t[f].text == Some("require"@),
        None => false,
    }
}

/// The imports node `i` contributes: an ES `import` statement (kept when it
/// names a module or a symbol) or a CommonJS `require` call.
pub open spec fn ts_node_imports(t: Seq<NodeView>, i: int) -> Seq<ImportView> {
    if t[i].kind == "import_statement"@ {
        let src = unquote(opt_text_or(t, field_child(t, i, "source"@), "\"\""@));
        let clause = match kind_child(t, i, "import_clause"@) {
            Some(c) => ts_clause(t, c),
            None => (ImportKind::Named, Seq::empty()),
        };
        if clause.1.len() > 0 || src.len() > 0 {
            seq![(src, clause.1, clause.0)]
        } else {
            Seq::empty()
        }
    } else if t[i].kind == "call_expression"@ && ts_is_require(t, i) {
        match field_child(t, i, "arguments"@) {
            Some(a) => seq![(unquote(opt_text_or(t, kind_child(t, a, "string"@), "\"\""@)), Seq::<Seq<char>>::empty(), ImportKind::Named)],
            None => Seq::empty(),
        }
    } else {
        Seq::empty()
    }
}

// ─── Signatures ─────────────────────────────────────────────────────────────

/// A type annotation without its leading colons and surrounding whitespace.
pub open spec fn strip_annotation(s: Seq<char>) -> Seq<char> {
    trim_spec(trim_start_char(s, ':'))
}

/// The parameter a child of a parameter list describes, if any.
pub open spec fn ts_param(t: Seq<NodeView>, c: int) -> Seq<ParamView> {
    let k = t[c].kind;
    if k == "required_parameter"@ || k == "optional_parameter"@ {
        seq![(
            opt_text_or(t, kind_child(t, c, "identifier"@), "?"@),
            strip_annotation(opt_text_or(t, kind_child(t, c, "type_annotation"@), "unknown"@)),
        )]
    } else if k == "identifier"@ {
        seq![(text_or(t[c], "?"@), "unknown"@)]
    } else {
        Seq::empty()
    }
}

/// The parameters described by the nodes `ks`.
pub open spec fn ts_params_of(t: Seq<NodeView>, ks: Seq<int>) -> Seq<ParamView>
    decreases ks.len(),
{
    if ks.len() == 0 {
        Seq::empty()
    } else {
        ts_params_of(t, ks.drop_last()) + ts_param(t, ks.last())
    }
}

/// The parameters of function node `f`, from its `formal_parameters` child.
pub open spec fn ts_parameters(t: Seq<NodeView>, f: int) -> Seq<ParamView> {
    match kind_child(t, f, "formal_parameters"@) {
        Some(p) => ts_params_of(t, children(t, p)),
        None => Seq::empty(),
    }
}

/// The name of an arrow function: the identifier of the variable it initialises.
pub open spec fn ts_arrow_name(t: Seq<NodeView>, i: int) -> Seq<char> {
    match parent(t, i) {
        Some(p) => if t[p].kind == "variable_declarator"@ {
            opt_text_or(t, kind_child(t, p, "identifier"@), "<anonymous>"@)
        } else {
            "<anonymous>"@
        },
        None => "<anonymous>"@,
    }
}

/// The signatures node `i` contributes: functions, methods and arrow functions.
pub open spec fn ts_node_signatures(t: Seq<NodeView>, i: int) -> Seq<SigView> {
    let k = t[i].kind;
    if k == "function_declaration"@ || k == "method_definition"@ {
        seq![(
            opt_text_or(t, field_child(t, i, "name"@), "<anonymous>"@),
            ts_parameters(t, i),
            strip_annotation(opt_text_or(t, field_child(t, i, "return_type"@), "unknown"@)),
        )]
    } else if k == "arrow_function"@ {
        seq![(
            ts_arrow_name(t, i),
            ts_parameters(t, i),
            strip_annotation(opt_text_or(t, kind_child(t, i, "type_annotation"@), "unknown"@)),
        )]
    } else {
        Seq::empty()
    }
}

// ─── Side effects ───────────────────────────────────────────────────────────

/// The side effect a called function's text denotes: the first API it starts with.
pub open spec fn ts_api_kind(text: Seq<char>) -> Option<SideEffectKind> {
    if "fs."@.is_prefix_of(text) {
        Some(SideEffectKind::Io)
    } else if "fetch"@.is_prefix_of(text) {
        Some(SideEffectKind::Network)
    } else if "axios."@.is_prefix_of(text) {
        Some(SideEffectKind::Network)
    } else if "axios"@.is_prefix_of(text) {
        Some(SideEffectKind::Network)
    } else if "console."@.is_prefix_of(text) {
        Some(SideEffectKind::Log)
    } else if "process.exit"@.is_prefix_of(text) {
        Some(SideEffectKind::Io)
    } else if "localStorage."@.is_prefix_of(text) {
        Some(SideEffectKind::Storage)
    } else if "sessionStorage."@.is_prefix_of(text) {
        Some(SideEffectKind::Storage)
    } else {
        None
    }
}

/// The side effects node `i` contributes: a call of a known API.
pub open spec fn ts_node_effects(t: Seq<NodeView>, i: int) -> Seq<EffectView> {
    if t[i].kind == "call_expression"@ {
        match field_child(t, i, "function"@) {
            Some(f) => match ts_api_kind(text_or(t[f], ""@)) {
                Some(kind) => seq![(kind, text_or(t[f], ""@), line_of(t[i].row))],
                None => Seq::empty(),
            },
            None => Seq::empty(),
        }
    } else {
        Seq::empty()
    }
}

// ─── Whole trees ────────────────────────────────────────────────────────────

/// Node-by-node export extraction.
pub open spec fn ts_export_at(t: Seq<NodeView>) -> spec_fn(int) -> Seq<ExportView> {
    |i: int| ts_node_exports(t, i)
}

/// Node-by-node import extraction.
pub open spec fn ts_import_at(t: Seq<NodeView>) -> spec_fn(int) -> Seq<ImportView> {
    |i: int| ts_node_imports(t, i)
}

/// Node-by-node signature extraction.
pub open spec fn ts_signature_at(t: Seq<NodeView>) -> spec_fn(int) -> Seq<SigView> {
    |i: int| ts_node_signatures(t, i)
}

/// Node-by-node side-effect extraction.
pub open spec fn ts_effect_at(t: Seq<NodeView>) -> spec_fn(int) -> Seq<EffectView> {
    |i: int| ts_node_effects(t, i)
}

/// Whether `r` is the TypeScript adapter's result for `path` given the parser's tree.
pub open spec fn is_ts_result(r: FileResult, path: Seq<char>, tree: Option<TreeView>) -> bool {
    match tree {
        Some(t) => is_parsed_result(
            r,
            path,
            t,
            collect(t.nodes.len(), ts_export_at(t.nodes)),
            collect(t.nodes.len(), ts_import_at(t.nodes)),
            collect(t.nodes.len(), ts_signature_at(t.nodes)),
            collect(t.nodes.len(), ts_effect_at(t.nodes)),
        ),
        None => is_treeless_result(r, path),
    }
}

/// Whether a path is parsed with the JavaScript grammar.
pub open spec fn is_js_path(path: Seq<char>) -> bool {
    ".js"@.is_suffix_of(path) || ".jsx"@.is_suffix_of(path)
}

// ─── Executable extraction ──────────────────────────────────────────────────

fn named_export(t: &SyntaxTree, d: usize, kind: ExportKind, line: u32) -> (r: Vec<ExportedSymbol>)
    requires
        d < t.nodes.len(),
    ensures
        seq_view(r@) == ts_named(t@.nodes, d as int, kind, line as nat),
{
    match child_by_field(t, d, "name") {
        Some(n) => {
            let e = plain_export_of(text_or_default(t, n, "?"), kind, line);
            let r = vec![e];
            assert(seq_view(r@) =~= seq![e@]);
            r
        },
        None => {
            let r: Vec<ExportedSymbol> = Vec::new();
            assert(seq_view(r@) =~= Seq::<ExportView>::empty());
            r
        },
    }
}

fn named_children(t: &SyntaxTree, ks: &Vec<usize>, child_kind: &str, kind: ExportKind, line: u32) -> (r: Vec<ExportedSymbol>)
    requires
        forall|m: int| 0 <= m < ks@.len() ==> #[trigger] ks@[m] < t.nodes.len(),
    ensures
        seq_view(r@) == ts_named_children(t@.nodes, as_positions(ks@), child_kind@, kind, line as nat),
{
    let ghost v = t@.nodes;
    let ghost kv = as_positions(ks@);
    let mut r: Vec<ExportedSymbol> = Vec::new();
    let mut k: usize = 0;
    assert(kv.take(0) =~= Seq::<int>::empty());
    while k < ks.len()
        invariant
            k <= ks.len(),
            v == t@.nodes,
            kv == as_positions(ks@),
            forall|m: int| 0 <= m < ks@.len() ==> #[trigger] ks@[m] < t.nodes.len(),
            seq_view(r@) == ts_named_children(v, kv.take(k as int), child_kind@, kind, line as nat),
        decreases ks.len() - k,
    {
        let j = ks[k];
        proof {
            assert(kv.take(k + 1).drop_last() =~= kv.take(k as int));
            assert(kv.take(k + 1).last() == j as int);
        }
        if kind_is(t, j, child_kind) {
            let more = named_export(t, j, kind, line);
            append_all(&mut r, more);
        } else {
            assert(seq_view(r@) + Seq::<ExportView>::empty() =~= seq_view(r@));
        }
        k = k + 1;
    }
    assert(kv.take(ks.len() as int) =~= kv);
    r
}

fn decl_exports(t: &SyntaxTree, d: usize, line: u32) -> (r: Vec<ExportedSymbol>)
    requires
        d < t.nodes.len(),
    ensures
        seq_view(r@) == ts_decl_exports(t@.nodes, d as int, line as nat),
{
    if kind_is(t, d, "function_declaration") {
        named_export(t, d, ExportKind::Function, line)
    } else if kind_is(t, d, "class_declaration") {
        named_export(t, d, ExportKind::Class, line)
    } else if kind_is(t, d, "lexical_declaration") {
        let text = text_or_default(t, d, "const");
        let kind = if starts_with(text.as_str(), "let") { ExportKind::Let } else { ExportKind::Const };
        let ks = children_of(t, d);
        named_children(t, &ks, "variable_declarator", kind, line)
    } else if kind_is(t, d, "variable_declaration") {
        let ks = children_of(t, d);
        named_children(t, &ks, "variable_declarator", ExportKind::Var, line)
    } else if kind_is(t, d, "type_alias_declaration") {
        named_export(t, d, ExportKind::Type, line)
    } else if kind_is(t, d, "interface_declaration") {
        named_export(t, d, ExportKind::Interface, line)
    } else if kind_is(t, d, "enum_declaration") {
        named_export(t, d, ExportKind::Enum, line)
    } else {
        let r: Vec<ExportedSymbol> = Vec::new();
        assert(seq_view(r@) =~= Seq::<ExportView>::empty());
        r
    }
}

fn node_exports(t: &SyntaxTree, i: usize) -> (r: Vec<ExportedSymbol>)
    requires
        i < t.nodes.len(),
    ensures
        seq_view(r@) == ts_node_exports(t@.nodes, i as int),
{
    let mut r: Vec<ExportedSymbol> = Vec::new();
    assert(seq_view(r@) =~= Seq::<ExportView>::empty());
    if !kind_is(t, i, "export_statement") {
        return r;
    }
    let line = node_line(t, i);
    match child_by_field(t, i, "declaration") {
        Some(d) => {
            let more = decl_exports(t, d, line);
            append_all(&mut r, more);
        },
        None => {},
    }
    let ghost decl = seq_view(r@);
    match child_by_field(t, i, "source") {
        Some(_) => match child_by_kind(t, i, "export_clause") {
            Some(c) => {
                let ks = children_of(t, c);
                let more = named_children(t, &ks, "export_specifier", ExportKind::Const, line);
                append_all(&mut r, more);
            },
            None => {
                assert(decl + Seq::<ExportView>::empty() =~= decl);
            },
        },
        None => {
            assert(decl + Seq::<ExportView>::empty() =~= decl);
        },
    }
    r
}

fn specifier_names(t: &SyntaxTree, ks: &Vec<usize>) -> (r: Vec<String>)
    requires
        forall|m: int| 0 <= m < ks@.len() ==> #[trigger] ks@[m] < t.nodes.len(),
    ensures
        seq_view(r@) == ts_specifier_names(t@.nodes, as_positions(ks@)),
{
    let ghost v = t@.nodes;
    let ghost kv = as_positions(ks@);
    let mut r: Vec<String> = Vec::new();
    let mut k: usize = 0;
    assert(kv.take(0) =~= Seq::<int>::empty());
    while k < ks.len()
        invariant
            k <= ks.len(),
            v == t@.nodes,
            kv == as_positions(ks@),
            forall|m: int| 0 <= m < ks@.len() ==> #[trigger] ks@[m] < t.nodes.len(),
            seq_view(r@) == ts_specifier_names(v, kv.take(k as int)),
        decreases ks.len() - k,
    {
        let j = ks[k];
        proof {
            assert(kv.take(k + 1).drop_last() =~= kv.take(k as int));
            assert(kv.take(k + 1).last() == j as int);
        }
        let ghost before = seq_view(r@);
        if kind_is(t, j, "import_specifier") {
            match child_by_field(t, j, "name") {
                Some(n) => {
                    r.push(text_or_default(t, n, "?"));
                    assert(seq_view(r@) =~= before + seq![r@.last()@]);
                },
                None => {
                    assert(before + Seq::<Seq<char>>::empty() =~= before);
                },
            }
        } else {
            assert(before + Seq::<Seq<char>>::empty() =~= before);
        }
        k = k + 1;
    }
    assert(kv.take(ks.len() as int) =~= kv);
    r
}

fn clause_import(t: &SyntaxTree, c: usize) -> (r: (ImportKind, Vec<String>))
    requires
        c < t.nodes.len(),
    ensures
        r.0 == ts_clause(t@.nodes, c as int).0,
        seq_view(r.1@) == ts_clause(t@.nodes, c as int).1,
{
    let ks = children_of(t, c);
    if ks.len() == 0 {
        let e: Vec<String> = Vec::new();
        assert(seq_view(e@) =~= Seq::<Seq<char>>::empty());
        return (ImportKind::Named, e);
    }
    let inner = ks[0];
    assert(as_positions(ks@)[0] == inner as int);
    if kind_is(t, inner, "named_imports") {
        let kids = children_of(t, inner);
        (ImportKind::Named, specifier_names(t, &kids))
    } else if kind_is(t, inner, "identifier") {
        let v = vec![text_or_default(t, inner, "?")];
        assert(seq_view(v@) =~= seq![v@[0]@]);
        (ImportKind::Default, v)
    } else if kind_is(t, inner, "namespace_import") {
        match child_by_kind(t, inner, "identifier") {
            Some(id) => {
                let v = vec![text_or_default(t, id, "?")];
                assert(seq_view(v@) =~= seq![v@[0]@]);
                (ImportKind::Namespace, v)
            },
            None => {
                let e: Vec<String> = Vec::new();
                assert(seq_view(e@) =~= Seq::<Seq<char>>::empty());
                (ImportKind::Namespace, e)
            },
        }
    } else {
        let e: Vec<String> = Vec::new();
        assert(seq_view(e@) =~= Seq::<Seq<char>>::empty());
        (ImportKind::Named, e)
    }
}

fn unquote_text(s: &str) -> (r: String)
    ensures
        r@ == unquote(s@),
{
    let a = trim_matches_char(s, '"');
    trim_matches_char(a.as_str(), '\'')
}

fn node_imports(t: &SyntaxTree, i: usize) -> (r: Vec<DependencyEdge>)
    requires
        i < t.nodes.len(),
    ensures
        seq_view(r@) == ts_node_imports(t@.nodes, i as int),
{
    let ghost v = t@.nodes;
    let mut r: Vec<DependencyEdge> = Vec::new();
    assert(seq_view(r@) =~= Seq::<ImportView>::empty());
    if kind_is(t, i, "import_statement") {
        let raw = opt_text_or_default(t, child_by_field(t, i, "source"), "\"\"");
        let src = unquote_text(raw.as_str());
        let (kind, symbols) = match child_by_kind(t, i, "import_clause") {
            Some(c) => clause_import(t, c),
            None => {
                let e: Vec<String> = Vec::new();
                assert(seq_view(e@) =~= Seq::<Seq<char>>::empty());
                (ImportKind::Named, e)
            },
        };
        if symbols.len() > 0 || src.as_str().unicode_len() > 0 {
            let edge = DependencyEdge { source: src, symbols, kind };
            r.push(edge);
            assert(seq_view(r@) =~= seq![edge@]);
        }
        return r;
    }
    if kind_is(t, i, "call_expression") {
        let is_require = match child_by_field(t, i, "function") {
            Some(f) => {
                assert(v[f as int] == t.nodes@[f as int]@);
                match &t.nodes[f].text {
                    Some(x) => str_eq(x.as_str(), "require"),
                    None => false,
                }
            },
            None => false,
        };
        if is_require {
            match child_by_field(t, i, "arguments") {
                Some(a) => {
                    let raw = opt_text_or_default(t, child_by_kind(t, a, "string"), "\"\"");
                    let edge = DependencyEdge { source: unquote_text(raw.as_str()), symbols: Vec::new(), kind: ImportKind::Named };
                    r.push(edge);
                    assert(edge.symbols@.map_values(|s: String| s@) =~= Seq::<Seq<char>>::empty());
                    assert(seq_view(r@) =~= seq![edge@]);
                },
                None => {},
            }
        }
    }
    r
}

fn strip_annotation_text(s: &str) -> (r: String)
    ensures
        r@ == strip_annotation(s@),
{
    let a = trim_start_matches_char(s, ':');
    trim_str(a.as_str())
}

fn param_of(t: &SyntaxTree, c: usize) -> (r: Vec<Parameter>)
    requires
        c < t.nodes.len(),
    ensures
        seq_view(r@) == ts_param(t@.nodes, c as int),
{
    let mut r: Vec<Parameter> = Vec::new();
    if kind_is(t, c, "required_parameter") || kind_is(t, c, "optional_parameter") {
        let name = opt_text_or_default(t, child_by_kind(t, c, "identifier"), "?");
        let ann = opt_text_or_default(t, child_by_kind(t, c, "type_annotation"), "unknown");
        let p = Parameter { name, type_annotation: strip_annotation_text(ann.as_str()) };
        r.push(p);
        assert(seq_view(r@) =~= seq![p@]);
    } else if kind_is(t, c, "identifier") {
        let p = Parameter { name: text_or_default(t, c, "?"), type_annotation: owned("unknown") };
        r.push(p);
        assert(seq_view(r@) =~= seq![p@]);
    } else {
        assert(seq_view(r@) =~= Seq::<ParamView>::empty());
    }
    r
}

fn parameters_of(t: &SyntaxTree, f: usize) -> (r: Vec<Parameter>)
    requires
        f < t.nodes.len(),
    ensures
        seq_view(r@) == ts_parameters(t@.nodes, f as int),
{
    let mut r: Vec<Parameter> = Vec::new();
    match child_by_kind(t, f, "formal_parameters") {
        Some(p) => {
            let ks = children_of(t, p);
            let ghost v = t@.nodes;
            let ghost kv = as_positions(ks@);
            let mut k: usize = 0;
            assert(kv.take(0) =~= Seq::<int>::empty());
            assert(seq_view(r@) =~= Seq::<ParamView>::empty());
            while k < ks.len()
                invariant
                    k <= ks.len(),
                    v == t@.nodes,
                    kv == as_positions(ks@),
                    forall|m: int| 0 <= m < ks@.len() ==> p < #[trigger] ks@[m] < t.nodes.len(),
                    seq_view(r@) == ts_params_of(v, kv.take(k as int)),
                decreases ks.len() - k,
            {
                let j = ks[k];
                proof {
                    assert(kv.take(k + 1).drop_last() =~= kv.take(k as int));
                    assert(kv.take(k + 1).last() == j as int);
                }
                let more = param_of(t, j);
                append_all(&mut r, more);
                k = k + 1;
            }
            assert(kv.take(ks.len() as int) =~= kv);
        },
        None => {
            assert(seq_view(r@) =~= Seq::<ParamView>::empty());
        },
    }
    r
}

fn arrow_name(t: &SyntaxTree, i: usize) -> (r: String)
    requires
        i < t.nodes.len(),
    ensures
        r@ == ts_arrow_name(t@.nodes, i as int),
{
    match parent_of(t, i) {
        Some(p) => if kind_is(t, p, "variable_declarator") {
            opt_text_or_default(t, child_by_kind(t, p, "identifier"), "<anonymous>")
        } else {
            owned("<anonymous>")
        },
        None => owned("<anonymous>"),
    }
}

fn node_signatures(t: &SyntaxTree, i: usize) -> (r: Vec<FunctionSignature>)
    requires
        i < t.nodes.len(),
    ensures
        seq_view(r@) == ts_node_signatures(t@.nodes, i as int),
{
    let mut r: Vec<FunctionSignature> = Vec::new();
    if kind_is(t, i, "function_declaration") || kind_is(t, i, "method_definition") {
        let name = opt_text_or_default(t, child_by_field(t, i, "name"), "<anonymous>");
        let parameters = parameters_of(t, i);
        let ret = opt_text_or_default(t, child_by_field(t, i, "return_type"), "unknown");
        let s = FunctionSignature { name, parameters, return_type: strip_annotation_text(ret.as_str()) };
        r.push(s);
        assert(seq_view(r@) =~= seq![s@]);
    } else if kind_is(t, i, "arrow_function") {
        let name = arrow_name(t, i);
        let parameters = parameters_of(t, i);
        let ret = opt_text_or_default(t, child_by_kind(t, i, "type_annotation"), "unknown");
        let s = FunctionSignature { name, parameters, return_type: strip_annotation_text(ret.as_str()) };
        r.push(s);
        assert(seq_view(r@) =~= seq![s@]);
    } else {
        assert(seq_view(r@) =~= Seq::<SigView>::empty());
    }
    r
}

fn api_kind(text: &str) -> (r: Option<SideEffectKind>)
    ensures
        r == ts_api_kind(text@),
{
    if starts_with(text, "fs.") {
        Some(SideEffectKind::Io)
    } else if starts_with(text, "fetch") {
        Some(SideEffectKind::Network)
    } else if starts_with(text, "axios.") {
        Some(SideEffectKind::Network)
    } else if starts_with(text, "axios") {
        Some(SideEffectKind::Network)
    } else if starts_with(text, "console.") {
        Some(SideEffectKind::Log)
    } else if starts_with(text, "process.exit") {
        Some(SideEffectKind::Io)
    } else if starts_with(text, "localStorage.") {
        Some(SideEffectKind::Storage)
    } else if starts_with(text, "sessionStorage.") {
        Some(SideEffectKind::Storage)
    } else {
        None
    }
}

fn node_effects(t: &SyntaxTree, i: usize) -> (r: Vec<SideEffect>)
    requires
        i < t.nodes.len(),
    ensures
        seq_view(r@) == ts_node_effects(t@.nodes, i as int),
{
    let mut r: Vec<SideEffect> = Vec::new();
    assert(seq_view(r@) =~= Seq::<EffectView>::empty());
    if kind_is(t, i, "call_expression") {
        match child_by_field(t, i, "function") {
            Some(f) => {
                let text = text_or_default(t, f, "");
                match api_kind(text.as_str()) {
                    Some(kind) => {
                        let e = SideEffect { kind, target: text, line: node_line(t, i) };
                        r.push(e);
                        assert(seq_view(r@) =~= seq![e@]);
                    },
                    None => {},
                }
            },
            None => {},
        }
    }
    r
}

/// The exports, imports, signatures and side effects of a TypeScript tree.
pub fn ts_extract(t: &SyntaxTree) -> (r: (Vec<ExportedSymbol>, Vec<DependencyEdge>, Vec<FunctionSignature>, Vec<SideEffect>))
    ensures
        seq_view(r.0@) == collect(t@.nodes.len(), ts_export_at(t@.nodes)),
        seq_view(r.1@) == collect(t@.nodes.len(), ts_import_at(t@.nodes)),
        seq_view(r.2@) == collect(t@.nodes.len(), ts_signature_at(t@.nodes)),
        seq_view(r.3@) == collect(t@.nodes.len(), ts_effect_at(t@.nodes)),
{
    let ghost v = t@.nodes;
    let mut exports: Vec<ExportedSymbol> = Vec::new();
    let mut imports: Vec<DependencyEdge> = Vec::new();
    let mut signatures: Vec<FunctionSignature> = Vec::new();
    let mut effects: Vec<SideEffect> = Vec::new();
    assert(seq_view(exports@) =~= Seq::<ExportView>::empty());
    assert(seq_view(imports@) =~= Seq::<ImportView>::empty());
    assert(seq_view(signatures@) =~= Seq::<SigView>::empty());
    assert(seq_view(effects@) =~= Seq::<EffectView>::empty());
    let mut i: usize = 0;
    while i < t.nodes.len()
        invariant
            i <= t.nodes.len(),
            v == t@.nodes,
            v.len() == t.nodes.len(),
            seq_view(exports@) == collect(i as nat, ts_export_at(v)),
            seq_view(imports@) == collect(i as nat, ts_import_at(v)),
            seq_view(signatures@) == collect(i as nat, ts_signature_at(v)),
            seq_view(effects@) == collect(i as nat, ts_effect_at(v)),
        decreases t.nodes.len() - i,
    {
        let e = node_exports(t, i);
        append_all(&mut exports, e);
        let m = node_imports(t, i);
        append_all(&mut imports, m);
        let s = node_signatures(t, i);
        append_all(&mut signatures, s);
        let f = node_effects(t, i);
        append_all(&mut effects, f);
        i = i + 1;
    }
    (exports, imports, signatures, effects)
}

/// The TypeScript adapter's result for `path`, given the parser's tree.
pub fn ts_file_result(tree: &Option<SyntaxTree>, path: &str) -> (r: FileResult)
    ensures
        is_ts_result(r, path@, opt_tree(*tree)),
        r.parse_time_ms == 0,
{
    match tree {
        Some(t) => {
            let (exports, imports, signatures, effects) = ts_extract(t);
            parsed_result(path, t, exports, imports, signatures, effects)
        },
        None => treeless_result(path),
    }
}

/// The adapter for TypeScript and JavaScript sources.
pub struct TsAdapter {}

impl TsAdapter {
    /// A new adapter.
    pub fn new() -> (a: Self) {
        TsAdapter {}
    }

    /// The language the adapter handles.
    pub fn language_name(&self) -> (r: &'static str)
        ensures
            r@ == "typescript"@,
    {
        "typescript"
    }

    /// The file extensions the adapter claims.
    pub fn file_extensions(&self) -> (r: Vec<String>)
        ensures
            seq_view(r@) == seq!["ts"@, "tsx"@, "js"@, "jsx"@],
    {
        let r = vec![owned("ts"), owned("tsx"), owned("js"), owned("jsx")];
        assert(seq_view(r@) =~= seq!["ts"@, "tsx"@, "js"@, "jsx"@]);
        r
    }

    /// Parses a source file: `.js` and `.jsx` files with the JavaScript
    /// grammar, others with the TypeScript grammar.  The parse time is
    /// measured on the clock.
    pub fn parse(&self, source: &str, file_path: &str) -> (r: FileResult)
        ensures
            is_ts_result(r, file_path@, if is_js_path(file_path@) {
                javascript_syntax(source@)
            } else {
                typescript_syntax(source@)
            }),
    {
        let start = start_timer();
        let js = ends_with(file_path, ".js") || ends_with(file_path, ".jsx");
        let tree = if js { parse_javascript(source) } else { parse_typescript(source) };
        let mut r = ts_file_result(&tree, file_path);
        r.parse_time_ms = elapsed_ms(&start);
        r
    }
}

} // verus!
