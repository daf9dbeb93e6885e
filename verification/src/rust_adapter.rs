//! The Rust adapter: items read off a tree-sitter syntax tree, `use`
//! declarations read off the source lines.
use crate::decls::{
    add_function_decl, add_named_decl, add_text_record, function_decl, named_decl, slice_chars, text_record,
};
use crate::syntax::{
    append_all, child_by_field, collect, elapsed_ms, field_child, is_parsed_result, is_treeless_result,
    kind_is, line_of, node_line, opt_tree, parse_rust, parsed_result, rust_syntax, seq_view, start_timer,
    treeless_result, EffectView, ExportView, ImportView, NodeView, SigView, SyntaxTree, TreeView,
};
use crate::text::{contains, ends_with, lines, lines_of, occurs_in, owned, starts_with, trim_spec, trim_str, views};
use crate::types::{DependencyEdge, ExportKind, ExportedSymbol, FileResult, FunctionSignature, ImportKind, SideEffect};
use vstd::prelude::*;

verus! {

/// The prefix of the Rust adapter's records.
pub const RUST_META: &'static str = "rust-meta:";

/// What node `i` contributes: exports, signatures and records.
pub open spec fn rust_node(t: Seq<NodeView>, i: int) -> (Seq<ExportView>, Seq<SigView>, Seq<EffectView>) {
    let k = t[i].kind;
    let pre = "rust-meta:"@;
    if k == "function_item"@ {
        let f = function_decl(t, i, "parameter"@, true, "return_type"@, "()"@);
        (f.0, f.1, Seq::empty())
    } else if k == "struct_item"@ {
        let r = named_decl(t, i, "name"@, Some(ExportKind::Class), pre, Some("struct"@), false);
        (r.0, Seq::empty(), r.1)
    } else if k == "enum_item"@ {
        let r = named_decl(t, i, "name"@, Some(ExportKind::Enum), pre, Some("enum"@), false);
        (r.0, Seq::empty(), r.1)
    } else if k == "trait_item"@ {
        let r = named_decl(t, i, "name"@, Some(ExportKind::Interface), pre, Some("trait"@), false);
        (r.0, Seq::empty(), r.1)
    } else if k == "type_item"@ {
        let r = named_decl(t, i, "name"@, Some(ExportKind::Type), pre, Some("type_alias"@), false);
        (r.0, Seq::empty(), r.1)
    } else if k == "impl_item"@ {
        let r = named_decl(t, i, "type"@, None, pre, Some("impl"@), false);
        (r.0, Seq::empty(), r.1)
    } else if k == "mod_item"@ {
        let r = named_decl(t, i, "name"@, None, pre, Some("mod"@), false);
        (r.0, Seq::empty(), r.1)
    } else if k == "const_item"@ {
        let r = named_decl(t, i, "name"@, Some(ExportKind::Const), pre, None, false);
        (r.0, Seq::empty(), r.1)
    } else if k == "static_item"@ {
        let r = named_decl(t, i, "name"@, Some(ExportKind::Var), pre, None, false);
        (r.0, Seq::empty(), r.1)
    } else {
        (Seq::empty(), Seq::empty(), Seq::empty())
    }
}

/// Node-by-node exports.
pub open spec fn rust_export_at(t: Seq<NodeView>) -> spec_fn(int) -> Seq<ExportView> {
    |i: int| rust_node(t, i).0
}

/// Node-by-node signatures.
pub open spec fn rust_signature_at(t: Seq<NodeView>) -> spec_fn(int) -> Seq<SigView> {
    |i: int| rust_node(t, i).1
}

/// Node-by-node declaration records.
pub open spec fn rust_decl_effect_at(t: Seq<NodeView>) -> spec_fn(int) -> Seq<EffectView> {
    |i: int| rust_node(t, i).2
}

/// The side effects node `i` shows: attributes (with their text) and macro
/// invocations (with the macro's name, or `?`).
pub open spec fn rust_effect(t: Seq<NodeView>, i: int) -> Seq<EffectView> {
    let line = line_of(t[i].row);
    if t[i].kind == "attribute_item"@ {
        text_record(t, i, line, "rust-meta:"@, "attribute"@, Some(""@))
    } else if t[i].kind == "macro_invocation"@ {
        match field_child(t, i, "macro"@) {
            Some(m) => text_record(t, m, line, "rust-meta:"@, "macro"@, Some("?"@)),
            None => Seq::empty(),
        }
    } else {
        Seq::empty()
    }
}

/// Node-by-node side effects.
pub open spec fn rust_effect_at(t: Seq<NodeView>) -> spec_fn(int) -> Seq<EffectView> {
    |i: int| rust_effect(t, i)
}

/// The import kind of a `use` path: a glob is a namespace import, a
/// renaming a default import, anything else a named one.
pub open spec fn rust_use_kind(p: Seq<char>) -> ImportKind {
    if occurs_in(p, "::*"@) {
        ImportKind::Namespace
    } else if occurs_in(p, " as "@) {
        ImportKind::Default
    } else {
        ImportKind::Named
    }
}

/// The path a `use` line imports: a line starting with `use ` that ends
/// with `;` or holds ` as `; the text after `use ` (without the `;`), trimmed.
#[verifier::opaque]
pub open spec fn rust_use(line: Seq<char>) -> Seq<ImportView> {
    let x = trim_spec(line);
    let ends = x.len() > 0 && x.last() == ';';
    if "use "@.is_prefix_of(x) && (ends || occurs_in(x, " as "@)) {
        let p = if ends { trim_spec(x.subrange(4, x.len() - 1)) } else { trim_spec(x.skip(4)) };
        seq![(p, Seq::empty(), rust_use_kind(p))]
    } else {
        Seq::empty()
    }
}

/// Line-by-line `use` declarations.
pub open spec fn rust_use_at(ls: Seq<Seq<char>>) -> spec_fn(int) -> Seq<ImportView> {
    |k: int| rust_use(ls[k])
}

/// The `use` declarations of a Rust source, line by line.
pub open spec fn rust_uses(source: Seq<char>) -> Seq<ImportView> {
    collect(lines_of(source).len(), rust_use_at(lines_of(source)))
}

/// Whether `r` is the Rust adapter's result for `path`, given the source and the parser's tree.
pub open spec fn is_rust_result(r: FileResult, path: Seq<char>, source: Seq<char>, tree: Option<TreeView>) -> bool {
    match tree {
        Some(t) => is_parsed_result(
            r,
            path,
            t,
            collect(t.nodes.len(), rust_export_at(t.nodes)),
            rust_uses(source),
            collect(t.nodes.len(), rust_signature_at(t.nodes)),
            collect(t.nodes.len(), rust_decl_effect_at(t.nodes)) + collect(t.nodes.len(), rust_effect_at(t.nodes)),
        ),
        None => is_treeless_result(r, path),
    }
}

// ─── Executable extraction ──────────────────────────────────────────────────

fn visit(t: &SyntaxTree, i: usize, exports: &mut Vec<ExportedSymbol>, signatures: &mut Vec<FunctionSignature>, out: &mut Vec<SideEffect>)
    requires
        i < t.nodes.len(),
    ensures
        seq_view(final(exports)@) == seq_view(old(exports)@) + rust_node(t@.nodes, i as int).0,
        seq_view(final(signatures)@) == seq_view(old(signatures)@) + rust_node(t@.nodes, i as int).1,
        seq_view(final(out)@) == seq_view(old(out)@) + rust_node(t@.nodes, i as int).2,
{
    let ghost e0 = seq_view(exports@);
    let ghost s0 = seq_view(signatures@);
    let ghost o0 = seq_view(out@);
    proof {
        assert(e0 + Seq::<ExportView>::empty() =~= e0);
        assert(s0 + Seq::<SigView>::empty() =~= s0);
        assert(o0 + Seq::<EffectView>::empty() =~= o0);
    }
    if kind_is(t, i, "function_item") {
        add_function_decl(t, i, "parameter", true, "return_type", "()", exports, signatures);
    } else if kind_is(t, i, "struct_item") {
        add_named_decl(t, i, "name", Some(ExportKind::Class), RUST_META, Some("struct"), false, exports, out);
    } else if kind_is(t, i, "enum_item") {
        add_named_decl(t, i, "name", Some(ExportKind::Enum), RUST_META, Some("enum"), false, exports, out);
    } else if kind_is(t, i, "trait_item") {
        add_named_decl(t, i, "name", Some(ExportKind::Interface), RUST_META, Some("trait"), false, exports, out);
    } else if kind_is(t, i, "type_item") {
        add_named_decl(t, i, "name", Some(ExportKind::Type), RUST_META, Some("type_alias"), false, exports, out);
    } else if kind_is(t, i, "impl_item") {
        add_named_decl(t, i, "type", None, RUST_META, Some("impl"), false, exports, out);
    } else if kind_is(t, i, "mod_item") {
        add_named_decl(t, i, "name", None, RUST_META, Some("mod"), false, exports, out);
    } else if kind_is(t, i, "const_item") {
        add_named_decl(t, i, "name", Some(ExportKind::Const), RUST_META, None, false, exports, out);
    } else if kind_is(t, i, "static_item") {
        add_named_decl(t, i, "name", Some(ExportKind::Var), RUST_META, None, false, exports, out);
    }
}

fn effect_of(t: &SyntaxTree, i: usize, out: &mut Vec<SideEffect>)
    requires
        i < t.nodes.len(),
    ensures
        seq_view(final(out)@) == seq_view(old(out)@) + rust_effect(t@.nodes, i as int),
{
    let ghost o0 = seq_view(out@);
    assert(o0 + Seq::<EffectView>::empty() =~= o0);
    let line = node_line(t, i);
    if kind_is(t, i, "attribute_item") {
        add_text_record(t, i, line, RUST_META, "attribute", Some(""), out);
    } else if kind_is(t, i, "macro_invocation") {
        match child_by_field(t, i, "macro") {
            Some(m) => add_text_record(t, m, line, RUST_META, "macro", Some("?"), out),
            None => {},
        }
    }
}

fn use_of(line: &str, out: &mut Vec<DependencyEdge>)
    ensures
        seq_view(final(out)@) == seq_view(old(out)@) + rust_use(line@),
{
    let ghost o0 = seq_view(out@);
    reveal(rust_use);
    proof {
        reveal_strlit("use ");
        reveal_strlit(";");
    }
    let x = trim_str(line);
    let n = x.as_str().unicode_len();
    let ends = ends_with(x.as_str(), ";");
    proof {
        if ends {
            assert(x@.subrange(n - 1, n as int) =~= ";"@);
            assert(x@.subrange(n - 1, n as int)[0] == x@[n - 1]);
        }
        if n > 0 && x@.last() == ';' {
            assert(x@.subrange(x@.len() - 1, x@.len() as int) =~= ";"@);
        }
    }
    assert(ends == (x@.len() > 0 && x@.last() == ';'));
    if starts_with(x.as_str(), "use ") && (ends || contains(x.as_str(), " as ")) {
        let p = if ends {
            assert(n >= 5) by {
                assert("use "@.len() == 4);
                assert(x@[3] == "use "@[3]);
            }
            let inner = slice_chars(x.as_str(), 4, n - 1);
            trim_str(inner.as_str())
        } else {
            let inner = crate::text::drop_chars(x.as_str(), 4);
            trim_str(inner.as_str())
        };
        let kind = if contains(p.as_str(), "::*") {
            ImportKind::Namespace
        } else if contains(p.as_str(), " as ") {
            ImportKind::Default
        } else {
            ImportKind::Named
        };
        let symbols: Vec<String> = Vec::new();
        assert(views(symbols@) =~= Seq::<Seq<char>>::empty());
        let e = DependencyEdge { source: p, symbols, kind };
        out.push(e);
        assert(seq_view(out@) =~= o0 + seq![e@]);
    } else {
        assert(o0 + Seq::<ImportView>::empty() =~= o0);
    }
}

/// The `use` declarations of a Rust source, read off its lines.
pub fn rust_source_uses(source: &str) -> (r: Vec<DependencyEdge>)
    ensures
        seq_view(r@) == rust_uses(source@),
{
    let ls = lines(source);
    let ghost lv = lines_of(source@);
    let mut out: Vec<DependencyEdge> = Vec::new();
    assert(seq_view(out@) =~= Seq::<ImportView>::empty());
    let mut i: usize = 0;
    while i < ls.len()
        invariant
            i <= ls.len(),
            views(ls@) == lv,
            lv.len() == ls@.len(),
            seq_view(out@) == collect(i as nat, rust_use_at(lv)),
        decreases ls.len() - i,
    {
        assert(views(ls@)[i as int] == ls@[i as int]@);
        use_of(ls[i].as_str(), &mut out);
        i = i + 1;
    }
    out
}

/// The Rust adapter's result for `path`, given the source and the parser's tree.
pub fn rust_file_result(tree: &Option<SyntaxTree>, source: &str, path: &str) -> (r: FileResult)
    ensures
        is_rust_result(r, path@, source@, opt_tree(*tree)),
        r.parse_time_ms == 0,
{
    match tree {
        Some(t) => {
            let ghost v = t@.nodes;
            let mut exports: Vec<ExportedSymbol> = Vec::new();
            let mut signatures: Vec<FunctionSignature> = Vec::new();
            let mut effects: Vec<SideEffect> = Vec::new();
            assert(seq_view(exports@) =~= Seq::<ExportView>::empty());
            assert(seq_view(signatures@) =~= Seq::<SigView>::empty());
            assert(seq_view(effects@) =~= Seq::<EffectView>::empty());
            let mut i: usize = 0;
            while i < t.nodes.len()
                invariant
                    i <= t.nodes.len(),
                    v == t@.nodes,
                    v.len() == t.nodes.len(),
                    seq_view(exports@) == collect(i as nat, rust_export_at(v)),
                    seq_view(signatures@) == collect(i as nat, rust_signature_at(v)),
                    seq_view(effects@) == collect(i as nat, rust_decl_effect_at(v)),
                decreases t.nodes.len() - i,
            {
                visit(t, i, &mut exports, &mut signatures, &mut effects);
                i = i + 1;
            }
            let imports = rust_source_uses(source);
            let mut more: Vec<SideEffect> = Vec::new();
            assert(seq_view(more@) =~= Seq::<EffectView>::empty());
            let mut j: usize = 0;
            while j < t.nodes.len()
                invariant
                    j <= t.nodes.len(),
                    v == t@.nodes,
                    v.len() == t.nodes.len(),
                    seq_view(more@) == collect(j as nat, rust_effect_at(v)),
                decreases t.nodes.len() - j,
            {
                effect_of(t, j, &mut more);
                j = j + 1;
            }
            append_all(&mut effects, more);
            parsed_result(path, t, exports, imports, signatures, effects)
        },
        None => treeless_result(path),
    }
}

/// The adapter for Rust sources.
pub struct RustAdapter {}

impl RustAdapter {
    /// A new adapter.
    pub fn new() -> (a: Self) {
        RustAdapter {}
    }

    /// The language the adapter handles.
    pub fn language_name(&self) -> (r: &'static str)
        ensures
            r@ == "rust"@,
    {
        "rust"
    }

    /// The file extensions the adapter claims.
    pub fn file_extensions(&self) -> (r: Vec<String>)
        ensures
            views(r@) == seq!["rs"@],
    {
        let r = vec![owned("rs")];
        assert(views(r@) =~= seq!["rs"@]);
        r
    }

    /// Parses a Rust source file.  The parse time is measured on the clock.
    pub fn parse(&self, source: &str, file_path: &str) -> (r: FileResult)
        ensures
            is_rust_result(r, file_path@, source@, rust_syntax(source@)),
    {
        let start = start_timer();
        let tree = parse_rust(source);
        let mut r = rust_file_result(&tree, source, file_path);
        r.parse_time_ms = elapsed_ms(&start);
        r
    }
}

} // verus!
