//! The Swift adapter: declarations read off a tree-sitter syntax tree,
//! imports read off the source lines.
use crate::decls::{
    add_function_decl, add_named_decl, add_text_record, function_decl, meta_record, named_decl, push_meta_record,
    text_record,
};
use crate::syntax::{
    append_all, child_by_field, collect, elapsed_ms, field_child, is_parsed_result, is_treeless_result,
    kind_is, line_of, node_line, opt_tree, parse_swift, parsed_result, plain_export, plain_export_of, seq_view,
    start_timer, swift_syntax, text_or, text_or_default, treeless_result, EffectView, ExportView, ImportView,
    NodeView, SigView, SyntaxTree, TreeView,
};
use crate::text::{lines, lines_of, owned, starts_with, str_eq, trim_spec, trim_str, views};
use crate::types::{DependencyEdge, ExportKind, ExportedSymbol, FileResult, FunctionSignature, ImportKind, SideEffect};
use vstd::prelude::*;

verus! {

/// The prefix of the Swift adapter's records.
pub const SWIFT_META: &'static str = "swift-meta:";

/// The declaration kind a class declaration at node `i` states (`class`
/// when it states none).
pub open spec fn swift_declaration_kind(t: Seq<NodeView>, i: int) -> Seq<char> {
    match field_child(t, i, "declaration_kind"@) {
        Some(k) => text_or(t[k], "class"@),
        None => "class"@,
    }
}

/// The record tag of a declaration kind.
pub open spec fn swift_kind_tag(dk: Seq<char>) -> Seq<char> {
    if dk == "enum"@ || dk == "struct"@ || dk == "extension"@ {
        dk
    } else {
        "class"@
    }
}

/// What a class declaration (which may declare a class, struct, enum or
/// extension) at node `i` contributes.
pub open spec fn swift_class(t: Seq<NodeView>, i: int) -> (Seq<ExportView>, Seq<EffectView>) {
    let dk = swift_declaration_kind(t, i);
    let line = line_of(t[i].row);
    match field_child(t, i, "name"@) {
        Some(n) => {
            let name = text_or(t[n], "?"@);
            let kind = if dk == "enum"@ { ExportKind::Enum } else { ExportKind::Class };
            (seq![plain_export(name, kind, line)], seq![meta_record("swift-meta:"@, swift_kind_tag(dk), name, line)])
        },
        None => (Seq::empty(), Seq::empty()),
    }
}

/// What node `i` contributes: exports, signatures and records.
pub open spec fn swift_node(t: Seq<NodeView>, i: int) -> (Seq<ExportView>, Seq<SigView>, Seq<EffectView>) {
    let k = t[i].kind;
    let pre = "swift-meta:"@;
    if k == "class_declaration"@ {
        let r = swift_class(t, i);
        (r.0, Seq::empty(), r.1)
    } else if k == "struct_declaration"@ {
        let r = named_decl(t, i, "name"@, Some(ExportKind::Class), pre, Some("struct"@), false);
        (r.0, Seq::empty(), r.1)
    } else if k == "protocol_declaration"@ {
        let r = named_decl(t, i, "name"@, Some(ExportKind::Interface), pre, Some("protocol"@), false);
        (r.0, Seq::empty(), r.1)
    } else if k == "enum_declaration"@ {
        let r = named_decl(t, i, "name"@, Some(ExportKind::Enum), pre, Some("enum"@), false);
        (r.0, Seq::empty(), r.1)
    } else if k == "function_declaration"@ {
        let f = function_decl(t, i, "parameter"@, true, "return_type"@, "Void"@);
        (f.0, f.1, Seq::empty())
    } else if k == "typealias_declaration"@ {
        let r = named_decl(t, i, "name"@, Some(ExportKind::Type), pre, Some("typealias"@), false);
        (r.0, Seq::empty(), r.1)
    } else if k == "extension_declaration"@ {
        let r = named_decl(t, i, "type"@, None, pre, Some("extension"@), false);
        (r.0, Seq::empty(), r.1)
    } else {
        (Seq::empty(), Seq::empty(), Seq::empty())
    }
}

/// Node-by-node exports.
pub open spec fn swift_export_at(t: Seq<NodeView>) -> spec_fn(int) -> Seq<ExportView> {
    |i: int| swift_node(t, i).0
}

/// Node-by-node signatures.
pub open spec fn swift_signature_at(t: Seq<NodeView>) -> spec_fn(int) -> Seq<SigView> {
    |i: int| swift_node(t, i).1
}

/// Node-by-node declaration records.
pub open spec fn swift_decl_effect_at(t: Seq<NodeView>) -> spec_fn(int) -> Seq<EffectView> {
    |i: int| swift_node(t, i).2
}

/// The side effects node `i` shows: attributes, with their text.
pub open spec fn swift_effect(t: Seq<NodeView>, i: int) -> Seq<EffectView> {
    if t[i].kind == "attribute"@ {
        text_record(t, i, line_of(t[i].row), "swift-meta:"@, "attribute"@, Some(""@))
    } else {
        Seq::empty()
    }
}

/// Node-by-node side effects.
pub open spec fn swift_effect_at(t: Seq<NodeView>) -> spec_fn(int) -> Seq<EffectView> {
    |i: int| swift_effect(t, i)
}

/// The module an `import <module>` line imports.
#[verifier::opaque]
pub open spec fn swift_import(line: Seq<char>) -> Seq<ImportView> {
    let x = trim_spec(line);
    if "import "@.is_prefix_of(x) {
        seq![(trim_spec(x.skip(7)), Seq::empty(), ImportKind::Named)]
    } else {
        Seq::empty()
    }
}

/// Line-by-line imports.
pub open spec fn swift_import_at(ls: Seq<Seq<char>>) -> spec_fn(int) -> Seq<ImportView> {
    |k: int| swift_import(ls[k])
}

/// The imports of a Swift source, line by line.
pub open spec fn swift_imports(source: Seq<char>) -> Seq<ImportView> {
    collect(lines_of(source).len(), swift_import_at(lines_of(source)))
}

/// Whether `r` is the Swift adapter's result for `path`, given the source and the parser's tree.
pub open spec fn is_swift_result(r: FileResult, path: Seq<char>, source: Seq<char>, tree: Option<TreeView>) -> bool {
    match tree {
        Some(t) => is_parsed_result(
            r,
            path,
            t,
            collect(t.nodes.len(), swift_export_at(t.nodes)),
            swift_imports(source),
            collect(t.nodes.len(), swift_signature_at(t.nodes)),
            collect(t.nodes.len(), swift_decl_effect_at(t.nodes)) + collect(t.nodes.len(), swift_effect_at(t.nodes)),
        ),
        None => is_treeless_result(r, path),
    }
}

// ─── Executable extraction ──────────────────────────────────────────────────

fn class_decl(t: &SyntaxTree, i: usize, exports: &mut Vec<ExportedSymbol>, out: &mut Vec<SideEffect>)
    requires
        i < t.nodes.len(),
    ensures
        seq_view(final(exports)@) == seq_view(old(exports)@) + swift_class(t@.nodes, i as int).0,
        seq_view(final(out)@) == seq_view(old(out)@) + swift_class(t@.nodes, i as int).1,
{
    let ghost e0 = seq_view(exports@);
    let ghost o0 = seq_view(out@);
    let dk = match child_by_field(t, i, "declaration_kind") {
        Some(k) => text_or_default(t, k, "class"),
        None => owned("class"),
    };
    match child_by_field(t, i, "name") {
        Some(n) => {
            let name = text_or_default(t, n, "?");
            let line = node_line(t, i);
            let kind = if str_eq(dk.as_str(), "enum") { ExportKind::Enum } else { ExportKind::Class };
            let e = plain_export_of(owned(name.as_str()), kind, line);
            exports.push(e);
            assert(seq_view(exports@) =~= e0 + seq![e@]);
            let tag = if str_eq(dk.as_str(), "enum") || str_eq(dk.as_str(), "struct") || str_eq(dk.as_str(), "extension") {
                dk
            } else {
                owned("class")
            };
            push_meta_record(out, SWIFT_META, tag.as_str(), name.as_str(), line);
            assert(seq_view(out@) =~= o0 + seq![meta_record(SWIFT_META@, tag@, name@, line as nat)]);
        },
        None => {
            assert(e0 + Seq::<ExportView>::empty() =~= e0);
            assert(o0 + Seq::<EffectView>::empty() =~= o0);
        },
    }
}

fn visit(t: &SyntaxTree, i: usize, exports: &mut Vec<ExportedSymbol>, signatures: &mut Vec<FunctionSignature>, out: &mut Vec<SideEffect>)
    requires
        i < t.nodes.len(),
    ensures
        seq_view(final(exports)@) == seq_view(old(exports)@) + swift_node(t@.nodes, i as int).0,
        seq_view(final(signatures)@) == seq_view(old(signatures)@) + swift_node(t@.nodes, i as int).1,
        seq_view(final(out)@) == seq_view(old(out)@) + swift_node(t@.nodes, i as int).2,
{
    let ghost e0 = seq_view(exports@);
    let ghost s0 = seq_view(signatures@);
    let ghost o0 = seq_view(out@);
    proof {
        assert(e0 + Seq::<ExportView>::empty() =~= e0);
        assert(s0 + Seq::<SigView>::empty() =~= s0);
        assert(o0 + Seq::<EffectView>::empty() =~= o0);
    }
    if kind_is(t, i, "class_declaration") {
        class_decl(t, i, exports, out);
    } else if kind_is(t, i, "struct_declaration") {
        add_named_decl(t, i, "name", Some(ExportKind::Class), SWIFT_META, Some("struct"), false, exports, out);
    } else if kind_is(t, i, "protocol_declaration") {
        add_named_decl(t, i, "name", Some(ExportKind::Interface), SWIFT_META, Some("protocol"), false, exports, out);
    } else if kind_is(t, i, "enum_declaration") {
        add_named_decl(t, i, "name", Some(ExportKind::Enum), SWIFT_META, Some("enum"), false, exports, out);
    } else if kind_is(t, i, "function_declaration") {
        add_function_decl(t, i, "parameter", true, "return_type", "Void", exports, signatures);
    } else if kind_is(t, i, "typealias_declaration") {
        add_named_decl(t, i, "name", Some(ExportKind::Type), SWIFT_META, Some("typealias"), false, exports, out);
    } else if kind_is(t, i, "extension_declaration") {
        add_named_decl(t, i, "type", None, SWIFT_META, Some("extension"), false, exports, out);
    }
}

fn effect_of(t: &SyntaxTree, i: usize, out: &mut Vec<SideEffect>)
    requires
        i < t.nodes.len(),
    ensures
        seq_view(final(out)@) == seq_view(old(out)@) + swift_effect(t@.nodes, i as int),
{
    let ghost o0 = seq_view(out@);
    assert(o0 + Seq::<EffectView>::empty() =~= o0);
    if kind_is(t, i, "attribute") {
        let line = node_line(t, i);
        add_text_record(t, i, line, SWIFT_META, "attribute", Some(""), out);
    }
}

fn import_of(line: &str, out: &mut Vec<DependencyEdge>)
    ensures
        seq_view(final(out)@) == seq_view(old(out)@) + swift_import(line@),
{
    let ghost o0 = seq_view(out@);
    reveal(swift_import);
    proof {
        reveal_strlit("import ");
    }
    let x = trim_str(line);
    if starts_with(x.as_str(), "import ") {
        let inner = crate::text::drop_chars(x.as_str(), 7);
        let symbols: Vec<String> = Vec::new();
        assert(views(symbols@) =~= Seq::<Seq<char>>::empty());
        let e = DependencyEdge { source: trim_str(inner.as_str()), symbols, kind: ImportKind::Named };
        out.push(e);
        assert(seq_view(out@) =~= o0 + seq![e@]);
    } else {
        assert(o0 + Seq::<ImportView>::empty() =~= o0);
    }
}

/// The imports of a Swift source, read off its lines.
pub fn swift_source_imports(source: &str) -> (r: Vec<DependencyEdge>)
    ensures
        seq_view(r@) == swift_imports(source@),
{
    let ls = lines(source);
    let ghost lv = lines_of(source@);
    let mut out: Vec<DependencyEdge> = Vec::new();
    assert(seq_view(out@) =~= Seq::<ImportView>::empty());
    let mut i: usize = 0;
    while i < ls.len()
        invariant
            i <= ls.len(),
            views(ls@) == lv,
            lv.len() == ls@.len(),
            seq_view(out@) == collect(i as nat, swift_import_at(lv)),
        decreases ls.len() - i,
    {
        assert(views(ls@)[i as int] == ls@[i as int]@);
        import_of(ls[i].as_str(), &mut out);
        i = i + 1;
    }
    out
}

/// The Swift adapter's result for `path`, given the source and the parser's tree.
pub fn swift_file_result(tree: &Option<SyntaxTree>, source: &str, path: &str) -> (r: FileResult)
    ensures
        is_swift_result(r, path@, source@, opt_tree(*tree)),
        r.parse_time_ms == 0,
{
    match tree {
        Some(t) => {
            let ghost v = t@.nodes;
            let mut exports: Vec<ExportedSymbol> = Vec::new();
            let mut signatures: Vec<FunctionSignature> = Vec::new();
            let mut effects: Vec<SideEffect> = Vec::new();
            assert(seq_view(exports@) =~= Seq::<ExportView>::empty());
            assert(seq_view(signatures@) =~= Seq::<SigView>::empty());
            assert(seq_view(effects@) =~= Seq::<EffectView>::empty());
            let mut i: usize = 0;
            while i < t.nodes.len()
                invariant
                    i <= t.nodes.len(),
                    v == t@.nodes,
                    v.len() == t.nodes.len(),
                    seq_view(exports@) == collect(i as nat, swift_export_at(v)),
                    seq_view(signatures@) == collect(i as nat, swift_signature_at(v)),
                    seq_view(effects@) == collect(i as nat, swift_decl_effect_at(v)),
                decreases t.nodes.len() - i,
            {
                visit(t, i, &mut exports, &mut signatures, &mut effects);
                i = i + 1;
            }
            let imports = swift_source_imports(source);
            let mut more: Vec<SideEffect> = Vec::new();
            assert(seq_view(more@) =~= Seq::<EffectView>::empty());
            let mut j: usize = 0;
            while j < t.nodes.len()
                invariant
                    j <= t.nodes.len(),
                    v == t@.nodes,
                    v.len() == t.nodes.len(),
                    seq_view(more@) == collect(j as nat, swift_effect_at(v)),
                decreases t.nodes.len() - j,
            {
                effect_of(t, j, &mut more);
                j = j + 1;
            }
            append_all(&mut effects, more);
            parsed_result(path, t, exports, imports, signatures, effects)
        },
        None => treeless_result(path),
    }
}

/// The adapter for Swift sources.
pub struct SwiftAdapter {}

impl SwiftAdapter {
    /// A new adapter.
    pub fn new() -> (a: Self) {
        SwiftAdapter {}
    }

    /// The language the adapter handles.
    pub fn language_name(&self) -> (r: &'static str)
        ensures
            r@ == "swift"@,
    {
        "swift"
    }

    /// The file extensions the adapter claims.
    pub fn file_extensions(&self) -> (r: Vec<String>)
        ensures
            views(r@) == seq!["swift"@],
    {
        let r = vec![owned("swift")];
        assert(views(r@) =~= seq!["swift"@]);
        r
    }

    /// Parses a Swift source file.  The parse time is measured on the clock.
    pub fn parse(&self, source: &str, file_path: &str) -> (r: FileResult)
        ensures
            is_swift_result(r, file_path@, source@, swift_syntax(source@)),
    {
        let start = start_timer();
        let tree = parse_swift(source);
        let mut r = swift_file_result(&tree, source, file_path);
        r.parse_time_ms = elapsed_ms(&start);
        r
    }
}

} // verus!
