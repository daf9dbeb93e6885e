//! The Go adapter: declarations read off a tree-sitter syntax tree, imports
//! and concurrency markers read off the source lines.
use crate::modules::as_positions;
use crate::syntax::{
    append_all, child_by_field, child_by_kind, children, children_of, collect, elapsed_ms, field_child,
    go_syntax, is_parsed_result, is_treeless_result, kind_is, line_number, line_of, node_line,
    opt_text_or, opt_text_or_default, opt_tree, parse_go, parsed_result, plain_export,
    plain_export_of, seq_view, start_timer, text_or, text_or_default, treeless_result, EffectView,
    ExportView, ImportView, NodeView, ParamView, SigView, SyntaxTree,
};
use crate::text::{
    before_first, concat2, concat3, drop_chars, contains, first_occurrence, is_uppercase, join, join_with,
    last_word, last_word_of, lines, lines_of, occurs_in, owned, split_words, starts_with, str_eq,
    text_before, trim_char, trim_matches_char, trim_spec, trim_start_matches_text, trim_start_text,
    trim_str, unicode_uppercase, views, words,
};
use crate::types::{
    DependencyEdge, ExportKind, ExportedSymbol, FileResult, FunctionSignature, ImportKind,
    Parameter, SideEffect, SideEffectKind,
};
use vstd::prelude::*;

verus! {

// ─── Declarations ───────────────────────────────────────────────────────────

/// Whether a Go name is exported: it starts with an upper-case letter.
pub open spec fn go_exported(name: Seq<char>) -> bool {
    name.len() > 0 && unicode_uppercase(name[0])
}

/// The visibility record of a declared name.
pub open spec fn visibility_effect(name: Seq<char>, line: nat) -> EffectView {
    (SideEffectKind::Log, "go-meta:visibility:"@ + name + ":"@ + if go_exported(name) { "public"@ } else { "private"@ }, line)
}

/// A metadata record.
pub open spec fn meta(tag: Seq<char>, text: Seq<char>, line: nat) -> EffectView {
    (SideEffectKind::Log, "go-meta:"@ + tag + text, line)
}

/// The field records of the nodes `ks` of a struct type.
pub open spec fn go_struct_fields(t: Seq<NodeView>, ks: Seq<int>, line: nat) -> Seq<EffectView>
    decreases ks.len(),
{
    if ks.len() == 0 {
        Seq::empty()
    } else {
        let c = ks.last();
        let k = t[c].kind;
        let text = trim_spec(text_or(t[c], ""@));
        go_struct_fields(t, ks.drop_last(), line) + if (k == "field_declaration"@ || k == "embedded_field"@) && text.len() > 0 {
            seq![meta("struct_field:"@, text, line)] + if k == "embedded_field"@ || words(text).len() == 1 {
                seq![meta("embedded_struct:"@, text, line)]
            } else {
                Seq::empty()
            }
        } else {
            Seq::empty()
        }
    }
}

/// The method records of the nodes `ks` of an interface type.
pub open spec fn go_interface_methods(t: Seq<NodeView>, ks: Seq<int>, line: nat) -> Seq<EffectView>
    decreases ks.len(),
{
    if ks.len() == 0 {
        Seq::empty()
    } else {
        let c = ks.last();
        let text = trim_spec(text_or(t[c], ""@));
        go_interface_methods(t, ks.drop_last(), line) + if t[c].kind == "method_spec"@ && text.len() > 0 {
            seq![meta("interface_method:"@, text, line)]
        } else {
            Seq::empty()
        }
    }
}

/// The records of the members of the type that type spec `s` declares.
pub open spec fn go_type_members(t: Seq<NodeView>, s: int, line: nat, wanted: Seq<char>) -> Seq<EffectView> {
    match field_child(t, s, "type"@) {
        Some(ty) => if wanted == "struct_type"@ {
            go_struct_fields(t, children(t, ty), line)
        } else {
            go_interface_methods(t, children(t, ty), line)
        },
        None => Seq::empty(),
    }
}

/// The kind of the type a type spec declares (empty when it has none).
pub open spec fn go_spec_type_kind(t: Seq<NodeView>, s: int) -> Seq<char> {
    match field_child(t, s, "type"@) {
        Some(x) => t[x].kind,
        None => ""@,
    }
}

/// The export kind of a declared type.
pub open spec fn go_type_export_kind(k: Seq<char>) -> ExportKind {
    if k == "struct_type"@ {
        ExportKind::Class
    } else if k == "interface_type"@ {
        ExportKind::Interface
    } else {
        ExportKind::Type
    }
}

/// The exports and records of the type specs among `ks`.
pub open spec fn go_type_specs(t: Seq<NodeView>, ks: Seq<int>, line: nat) -> (Seq<ExportView>, Seq<EffectView>)
    decreases ks.len(),
{
    if ks.len() == 0 {
        (Seq::empty(), Seq::empty())
    } else {
        let prev = go_type_specs(t, ks.drop_last(), line);
        let s = ks.last();
        if t[s].kind == "type_spec"@ {
            let name = opt_text_or(t, field_child(t, s, "name"@), "?"@);
            let tk = go_spec_type_kind(t, s);
            let members = if tk == "struct_type"@ {
                go_type_members(t, s, line, "struct_type"@)
            } else if tk == "interface_type"@ {
                go_type_members(t, s, line, "interface_type"@)
            } else {
                Seq::empty()
            };
            (
                prev.0.push(plain_export(name, go_type_export_kind(tk), line)),
                prev.1.push(visibility_effect(name, line)) + members,
            )
        } else {
            prev
        }
    }
}

/// The exports and records of the identifiers among `ks`.
pub open spec fn go_idents(t: Seq<NodeView>, ks: Seq<int>, kind: ExportKind, line: nat) -> (Seq<ExportView>, Seq<EffectView>)
    decreases ks.len(),
{
    if ks.len() == 0 {
        (Seq::empty(), Seq::empty())
    } else {
        let prev = go_idents(t, ks.drop_last(), kind, line);
        let n = ks.last();
        if t[n].kind == "identifier"@ {
            let name = text_or(t[n], "?"@);
            (prev.0.push(plain_export(name, kind, line)), prev.1.push(visibility_effect(name, line)))
        } else {
            prev
        }
    }
}

/// The exports and records of the value specs among `ks`.
pub open spec fn go_value_specs(t: Seq<NodeView>, ks: Seq<int>, kind: ExportKind, line: nat) -> (Seq<ExportView>, Seq<EffectView>)
    decreases ks.len(),
{
    if ks.len() == 0 {
        (Seq::empty(), Seq::empty())
    } else {
        let prev = go_value_specs(t, ks.drop_last(), kind, line);
        let s = ks.last();
        if t[s].kind == "const_spec"@ || t[s].kind == "var_spec"@ {
            let more = go_idents(t, children(t, s), kind, line);
            (prev.0 + more.0, prev.1 + more.1)
        } else {
            prev
        }
    }
}

/// The parameters the parameter declarations among `ks` describe.
pub open spec fn go_params(t: Seq<NodeView>, ks: Seq<int>) -> Seq<ParamView>
    decreases ks.len(),
{
    if ks.len() == 0 {
        Seq::empty()
    } else {
        let c = ks.last();
        let text = trim_spec(text_or(t[c], ""@));
        let parts = words(text);
        go_params(t, ks.drop_last()) + if t[c].kind == "parameter_declaration"@ && text.len() > 0 {
            if parts.len() >= 2 {
                Seq::new((parts.len() - 1) as nat, |k: int| (parts[k], parts.last()))
            } else {
                seq![(text, "unknown"@)]
            }
        } else {
            Seq::empty()
        }
    }
}

/// The signature of function or method node `i` named `name`.
pub open spec fn go_signature(t: Seq<NodeView>, i: int, name: Seq<char>) -> SigView {
    (
        name,
        match field_child(t, i, "parameters"@) {
            Some(p) => go_params(t, children(t, p)),
            None => Seq::empty(),
        },
        trim_spec(opt_text_or(t, field_child(t, i, "result"@), "void"@)),
    )
}

/// What node `i` contributes: exports, signatures and records.
pub open spec fn go_node(t: Seq<NodeView>, i: int) -> (Seq<ExportView>, Seq<SigView>, Seq<EffectView>) {
    let k = t[i].kind;
    let line = line_of(t[i].row);
    if k == "function_declaration"@ || k == "method_declaration"@ {
        match field_child(t, i, "name"@) {
            Some(n) => {
                let name = text_or(t[n], "?"@);
                let receiver = if k == "method_declaration"@ {
                    match field_child(t, i, "receiver"@) {
                        Some(r) => match t[r].text {
                            Some(rt) => seq![meta("receiver:"@, trim_spec(rt), line)],
                            None => Seq::empty(),
                        },
                        None => Seq::empty(),
                    }
                } else {
                    Seq::empty()
                };
                (
                    seq![plain_export(name, ExportKind::Function, line)],
                    seq![go_signature(t, i, name)],
                    seq![visibility_effect(name, line)] + receiver,
                )
            },
            None => (Seq::empty(), Seq::empty(), Seq::empty()),
        }
    } else if k == "type_declaration"@ {
        let r = go_type_specs(t, children(t, i), line);
        (r.0, Seq::empty(), r.1)
    } else if k == "const_declaration"@ || k == "var_declaration"@ {
        let kind = if k == "const_declaration"@ { ExportKind::Const } else { ExportKind::Var };
        let r = go_value_specs(t, children(t, i), kind, line);
        (r.0, Seq::empty(), r.1)
    } else {
        (Seq::empty(), Seq::empty(), Seq::empty())
    }
}

/// Node-by-node exports.
pub open spec fn go_export_at(t: Seq<NodeView>) -> spec_fn(int) -> Seq<ExportView> {
    |i: int| go_node(t, i).0
}

/// Node-by-node signatures.
pub open spec fn go_signature_at(t: Seq<NodeView>) -> spec_fn(int) -> Seq<SigView> {
    |i: int| go_node(t, i).1
}

/// Node-by-node records.
pub open spec fn go_effect_at(t: Seq<NodeView>) -> spec_fn(int) -> Seq<EffectView> {
    |i: int| go_node(t, i).2
}

// ─── Imports, from the source lines ─────────────────────────────────────────

/// The import an import line (inside a block or after `import `) declares.
pub open spec fn go_import_of(x: Seq<char>) -> Seq<ImportView> {
    if x.len() > 0 && x[0] == '"' {
        let src = trim_char(x, '"');
        if src.len() > 0 { seq![(src, Seq::<Seq<char>>::empty(), ImportKind::Named)] } else { Seq::empty() }
    } else {
        let parts = words(x);
        if parts.len() >= 2 {
            let alias = parts[0];
            let src = trim_char(parts[1], '"');
            let ks: (ImportKind, Seq<Seq<char>>) = if alias == "."@ {
                (ImportKind::Namespace, seq!["."@])
            } else if alias != "_"@ {
                (ImportKind::Default, seq![alias])
            } else {
                (ImportKind::Named, Seq::empty())
            };
            if src.len() > 0 { seq![(src, ks.1, ks.0)] } else { Seq::empty() }
        } else {
            Seq::empty()
        }
    }
}

/// One line of the import scan: whether an `import (` block is open after
/// it, and the imports it declares.
pub open spec fn go_import_step(in_block: bool, line: Seq<char>) -> (bool, Seq<ImportView>) {
    let clean = trim_spec(text_before(line, "//"@));
    if clean.len() == 0 {
        (in_block, Seq::empty())
    } else if clean == "import ("@ {
        (true, Seq::empty())
    } else if in_block && clean == ")"@ {
        (false, Seq::empty())
    } else if in_block {
        (in_block, go_import_of(clean))
    } else if "import "@.is_prefix_of(clean) {
        (in_block, go_import_of(trim_spec(clean.skip(7))))
    } else {
        (in_block, Seq::empty())
    }
}

/// The import scan over the first `n` lines.
pub open spec fn go_imports_upto(ls: Seq<Seq<char>>, n: nat) -> (bool, Seq<ImportView>)
    decreases n,
{
    if n == 0 {
        (false, Seq::empty())
    } else {
        let prev = go_imports_upto(ls, (n - 1) as nat);
        let step = go_import_step(prev.0, ls[n - 1]);
        (step.0, prev.1 + step.1)
    }
}

/// The imports of a Go source.
pub open spec fn go_imports(source: Seq<char>) -> Seq<ImportView> {
    go_imports_upto(lines_of(source), lines_of(source).len()).1
}

// ─── Side effects, from the source lines ────────────────────────────────────

/// Whether a word is a comment start.
pub open spec fn is_comment_word(w: Seq<char>) -> bool {
    "//"@.is_prefix_of(w)
}

/// The records of a line inside a struct body.
#[verifier::opaque]
pub open spec fn go_struct_line(clean: Seq<char>, ln: nat) -> Seq<EffectView> {
    let tokens = words(trim_spec(text_before(clean, "`"@)));
    (if tokens.len() >= 2 && !is_comment_word(tokens[0]) && tokens[0] != "type"@ && tokens[0] != "struct"@ {
        seq![meta("struct_field:"@, join_with(tokens, " "@), ln)]
    } else {
        Seq::empty()
    }) + if tokens.len() == 1 && !is_comment_word(tokens[0]) && tokens[0] != "{"@ {
        seq![meta("embedded_struct:"@, tokens[0], ln)]
    } else {
        Seq::empty()
    }
}

/// Whether a struct and an interface body are open after a line.
pub open spec fn go_scope_after(state: (bool, bool), clean: Seq<char>) -> (bool, bool) {
    if occurs_in(clean, "struct {"@) {
        (true, state.1)
    } else if occurs_in(clean, "interface {"@) {
        (state.0, true)
    } else if state.0 && clean == "}"@ {
        (false, state.1)
    } else if state.1 && clean == "}"@ {
        (state.0, false)
    } else {
        state
    }
}

/// The interface-method record of a line inside an interface body.
#[verifier::opaque]
pub open spec fn go_method_line(clean: Seq<char>, ln: nat) -> Seq<EffectView> {
    let method = trim_spec(last_word(text_before(clean, "("@)));
    if occurs_in(clean, "("@) && occurs_in(clean, ")"@) && !"type "@.is_prefix_of(clean)
        && clean != "interface {"@ && method.len() > 0 {
        seq![meta("interface_method:"@, method, ln)]
    } else {
        Seq::empty()
    }
}

/// The goroutine, channel and directive records of a line.
#[verifier::opaque]
pub open spec fn go_markers(clean: Seq<char>, ln: nat) -> Seq<EffectView> {
    (if occurs_in(clean, "go "@) { seq![(SideEffectKind::Network, "go-meta:goroutine"@, ln)] } else { Seq::empty() })
    + (if occurs_in(clean, "<-"@) || occurs_in(clean, "chan "@) {
        seq![(SideEffectKind::Io, "go-meta:channel"@, ln)]
    } else {
        Seq::empty()
    })
    + if "//go:"@.is_prefix_of(clean) {
        seq![meta("directive:"@, trim_start_text(clean, "//go:"@), ln)]
    } else {
        Seq::empty()
    }
}

/// One line of the side-effect scan: the open bodies after it and its records.
#[verifier::opaque]
pub open spec fn go_effect_step(state: (bool, bool), line: Seq<char>, ln: nat) -> ((bool, bool), Seq<EffectView>) {
    let clean = trim_spec(line);
    let st = go_scope_after(state, clean);
    (
        st,
        (if st.0 { go_struct_line(clean, ln) } else { Seq::empty() })
        + (if st.1 { go_method_line(clean, ln) } else { Seq::empty() })
        + go_markers(clean, ln),
    )
}

/// The side-effect scan over the first `n` lines.
pub open spec fn go_effects_upto(ls: Seq<Seq<char>>, n: nat) -> ((bool, bool), Seq<EffectView>)
    decreases n,
{
    if n == 0 {
        ((false, false), Seq::empty())
    } else {
        let prev = go_effects_upto(ls, (n - 1) as nat);
        let step = go_effect_step(prev.0, ls[n - 1], line_of((n - 1) as nat));
        (step.0, prev.1 + step.1)
    }
}

/// The side effects a Go source's lines show.
pub open spec fn go_line_effects(source: Seq<char>) -> Seq<EffectView> {
    go_effects_upto(lines_of(source), lines_of(source).len()).1
}

/// Whether `r` is the Go adapter's result for `path`, given the source and the parser's tree.
pub open spec fn is_go_result(r: FileResult, path: Seq<char>, source: Seq<char>, tree: Option<crate::syntax::TreeView>) -> bool {
    match tree {
        Some(t) => is_parsed_result(
            r,
            path,
            t,
            collect(t.nodes.len(), go_export_at(t.nodes)),
            go_imports(source),
            collect(t.nodes.len(), go_signature_at(t.nodes)),
            collect(t.nodes.len(), go_effect_at(t.nodes)) + go_line_effects(source),
        ),
        None => is_treeless_result(r, path),
    }
}

// ─── Executable extraction ──────────────────────────────────────────────────

fn push_effect(out: &mut Vec<SideEffect>, kind: SideEffectKind, target: String, line: u32)
    ensures
        seq_view(final(out)@) == seq_view(old(out)@).push((kind, target@, line as nat)),
{
    let ghost before = seq_view(out@);
    let e = SideEffect { kind, target, line };
    out.push(e);
    assert(seq_view(out@) =~= before.push(e@));
}

fn push_meta(out: &mut Vec<SideEffect>, tag: &str, text: &str, line: u32)
    ensures
        seq_view(final(out)@) == seq_view(old(out)@).push(meta(tag@, text@, line as nat)),
{
    let target = concat3("go-meta:", tag, text);
    push_effect(out, SideEffectKind::Log, target, line);
}

fn push_visibility(out: &mut Vec<SideEffect>, name: &str, line: u32)
    ensures
        seq_view(final(out)@) == seq_view(old(out)@).push(visibility_effect(name@, line as nat)),
{
    let exported = if name.unicode_len() > 0 { is_uppercase(name.get_char(0)) } else { false };
    let mut target = concat3("go-meta:visibility:", name, ":");
    target.append(if exported { "public" } else { "private" });
    push_effect(out, SideEffectKind::Log, target, line);
}

fn struct_fields(t: &SyntaxTree, ks: &Vec<usize>, line: u32, out: &mut Vec<SideEffect>)
    requires
        forall|m: int| 0 <= m < ks@.len() ==> #[trigger] ks@[m] < t.nodes.len(),
    ensures
        seq_view(final(out)@) == seq_view(old(out)@) + go_struct_fields(t@.nodes, as_positions(ks@), line as nat),
{
    let ghost v = t@.nodes;
    let ghost kv = as_positions(ks@);
    let ghost start = seq_view(out@);
    let mut k: usize = 0;
    assert(kv.take(0) =~= Seq::<int>::empty());
    assert(start + Seq::<EffectView>::empty() =~= start);
    while k < ks.len()
        invariant
            k <= ks.len(),
            v == t@.nodes,
            kv == as_positions(ks@),
            forall|m: int| 0 <= m < ks@.len() ==> #[trigger] ks@[m] < t.nodes.len(),
            seq_view(out@) == start + go_struct_fields(v, kv.take(k as int), line as nat),
        decreases ks.len() - k,
    {
        let c = ks[k];
        proof {
            assert(kv.take(k + 1).drop_last() =~= kv.take(k as int));
            assert(kv.take(k + 1).last() == c as int);
        }
        let ghost before = seq_view(out@);
        let raw = text_or_default(t, c, "");
        let text = trim_str(raw.as_str());
        let is_field = kind_is(t, c, "field_declaration");
        let is_embedded = kind_is(t, c, "embedded_field");
        if (is_field || is_embedded) && text.as_str().unicode_len() > 0 {
            push_meta(out, "struct_field:", text.as_str(), line);
            let ws = split_words(text.as_str());
            if is_embedded || ws.len() == 1 {
                push_meta(out, "embedded_struct:", text.as_str(), line);
            }
            assert(seq_view(out@) =~= before + go_struct_fields(v, kv.take(k + 1), line as nat).subrange(
                go_struct_fields(v, kv.take(k as int), line as nat).len() as int,
                go_struct_fields(v, kv.take(k + 1), line as nat).len() as int,
            ));
        }
        assert(seq_view(out@) =~= start + go_struct_fields(v, kv.take(k + 1), line as nat));
        k = k + 1;
    }
    assert(kv.take(ks.len() as int) =~= kv);
}

fn interface_methods(t: &SyntaxTree, ks: &Vec<usize>, line: u32, out: &mut Vec<SideEffect>)
    requires
        forall|m: int| 0 <= m < ks@.len() ==> #[trigger] ks@[m] < t.nodes.len(),
    ensures
        seq_view(final(out)@) == seq_view(old(out)@) + go_interface_methods(t@.nodes, as_positions(ks@), line as nat),
{
    let ghost v = t@.nodes;
    let ghost kv = as_positions(ks@);
    let ghost start = seq_view(out@);
    let mut k: usize = 0;
    assert(kv.take(0) =~= Seq::<int>::empty());
    assert(start + Seq::<EffectView>::empty() =~= start);
    while k < ks.len()
        invariant
            k <= ks.len(),
            v == t@.nodes,
            kv == as_positions(ks@),
            forall|m: int| 0 <= m < ks@.len() ==> #[trigger] ks@[m] < t.nodes.len(),
            seq_view(out@) == start + go_interface_methods(v, kv.take(k as int), line as nat),
        decreases ks.len() - k,
    {
        let c = ks[k];
        proof {
            assert(kv.take(k + 1).drop_last() =~= kv.take(k as int));
            assert(kv.take(k + 1).last() == c as int);
        }
        let raw = text_or_default(t, c, "");
        let text = trim_str(raw.as_str());
        if kind_is(t, c, "method_spec") && text.as_str().unicode_len() > 0 {
            push_meta(out, "interface_method:", text.as_str(), line);
        }
        assert(seq_view(out@) =~= start + go_interface_methods(v, kv.take(k + 1), line as nat));
        k = k + 1;
    }
    assert(kv.take(ks.len() as int) =~= kv);
}

fn type_specs(t: &SyntaxTree, ks: &Vec<usize>, line: u32, exports: &mut Vec<ExportedSymbol>, out: &mut Vec<SideEffect>)
    requires
        forall|m: int| 0 <= m < ks@.len() ==> #[trigger] ks@[m] < t.nodes.len(),
    ensures
        seq_view(final(exports)@) == seq_view(old(exports)@) + go_type_specs(t@.nodes, as_positions(ks@), line as nat).0,
        seq_view(final(out)@) == seq_view(old(out)@) + go_type_specs(t@.nodes, as_positions(ks@), line as nat).1,
{
    let ghost v = t@.nodes;
    let ghost kv = as_positions(ks@);
    let ghost e0 = seq_view(exports@);
    let ghost o0 = seq_view(out@);
    let mut k: usize = 0;
    assert(kv.take(0) =~= Seq::<int>::empty());
    assert(e0 + Seq::<ExportView>::empty() =~= e0);
    assert(o0 + Seq::<EffectView>::empty() =~= o0);
    while k < ks.len()
        invariant
            k <= ks.len(),
            v == t@.nodes,
            kv == as_positions(ks@),
            forall|m: int| 0 <= m < ks@.len() ==> #[trigger] ks@[m] < t.nodes.len(),
            seq_view(exports@) == e0 + go_type_specs(v, kv.take(k as int), line as nat).0,
            seq_view(out@) == o0 + go_type_specs(v, kv.take(k as int), line as nat).1,
        decreases ks.len() - k,
    {
        let s = ks[k];
        proof {
            assert(kv.take(k + 1).drop_last() =~= kv.take(k as int));
            assert(kv.take(k + 1).last() == s as int);
        }
        let ghost prev = go_type_specs(v, kv.take(k as int), line as nat);
        if kind_is(t, s, "type_spec") {
            let name = opt_text_or_default(t, child_by_field(t, s, "name"), "?");
            let ty = child_by_field(t, s, "type");
            let tk = match ty {
                Some(x) => {
                    assert(v[x as int] == t.nodes@[x as int]@);
                    owned(t.nodes[x].kind.as_str())
                },
                None => {
                    proof {
                        reveal_strlit("");
                    }
                    String::new()
                },
            };
            assert(tk@ == go_spec_type_kind(v, s as int));
            let is_struct = str_eq(tk.as_str(), "struct_type");
            let is_interface = str_eq(tk.as_str(), "interface_type");
            let kind = if is_struct {
                ExportKind::Class
            } else if is_interface {
                ExportKind::Interface
            } else {
                ExportKind::Type
            };
            let ghost eb = seq_view(exports@);
            let e = plain_export_of(owned(name.as_str()), kind, line);
            exports.push(e);
            assert(seq_view(exports@) =~= eb.push(e@));
            assert(eb.push(e@) =~= e0 + prev.0.push(e@));
            push_visibility(out, name.as_str(), line);
            let ghost ob = seq_view(out@);
            assert(ob =~= o0 + prev.1.push(visibility_effect(name@, line as nat)));
            if is_struct {
                match ty {
                    Some(x) => {
                        let kids = children_of(t, x);
                        struct_fields(t, &kids, line, out);
                    },
                    None => {},
                }
            } else if is_interface {
                match ty {
                    Some(x) => {
                        let kids = children_of(t, x);
                        interface_methods(t, &kids, line, out);
                    },
                    None => {},
                }
            }
            proof {
                let members = if tk@ == "struct_type"@ {
                    go_type_members(v, s as int, line as nat, "struct_type"@)
                } else if tk@ == "interface_type"@ {
                    go_type_members(v, s as int, line as nat, "interface_type"@)
                } else {
                    Seq::<EffectView>::empty()
                };
                assert(seq_view(out@) =~= ob + members);
                assert(ob + members =~= o0 + (prev.1.push(visibility_effect(name@, line as nat)) + members));
            }
        }
        k = k + 1;
    }
    assert(kv.take(ks.len() as int) =~= kv);
}

fn idents(t: &SyntaxTree, ks: &Vec<usize>, kind: ExportKind, line: u32, exports: &mut Vec<ExportedSymbol>, out: &mut Vec<SideEffect>)
    requires
        forall|m: int| 0 <= m < ks@.len() ==> #[trigger] ks@[m] < t.nodes.len(),
    ensures
        seq_view(final(exports)@) == seq_view(old(exports)@) + go_idents(t@.nodes, as_positions(ks@), kind, line as nat).0,
        seq_view(final(out)@) == seq_view(old(out)@) + go_idents(t@.nodes, as_positions(ks@), kind, line as nat).1,
{
    let ghost v = t@.nodes;
    let ghost kv = as_positions(ks@);
    let ghost e0 = seq_view(exports@);
    let ghost o0 = seq_view(out@);
    let mut k: usize = 0;
    assert(kv.take(0) =~= Seq::<int>::empty());
    assert(e0 + Seq::<ExportView>::empty() =~= e0);
    assert(o0 + Seq::<EffectView>::empty() =~= o0);
    while k < ks.len()
        invariant
            k <= ks.len(),
            v == t@.nodes,
            kv == as_positions(ks@),
            forall|m: int| 0 <= m < ks@.len() ==> #[trigger] ks@[m] < t.nodes.len(),
            seq_view(exports@) == e0 + go_idents(v, kv.take(k as int), kind, line as nat).0,
            seq_view(out@) == o0 + go_idents(v, kv.take(k as int), kind, line as nat).1,
        decreases ks.len() - k,
    {
        let n = ks[k];
        proof {
            assert(kv.take(k + 1).drop_last() =~= kv.take(k as int));
            assert(kv.take(k + 1).last() == n as int);
        }
        let ghost prev = go_idents(v, kv.take(k as int), kind, line as nat);
        if kind_is(t, n, "identifier") {
            let name = text_or_default(t, n, "?");
            let ghost eb = seq_view(exports@);
            let e = plain_export_of(owned(name.as_str()), kind, line);
            exports.push(e);
            assert(seq_view(exports@) =~= eb.push(e@));
            assert(eb.push(e@) =~= e0 + prev.0.push(e@));
            let ghost ob = seq_view(out@);
            push_visibility(out, name.as_str(), line);
            assert(ob.push(visibility_effect(name@, line as nat)) =~= o0 + prev.1.push(visibility_effect(name@, line as nat)));
        }
        k = k + 1;
    }
    assert(kv.take(ks.len() as int) =~= kv);
}

fn value_specs(t: &SyntaxTree, ks: &Vec<usize>, kind: ExportKind, line: u32, exports: &mut Vec<ExportedSymbol>, out: &mut Vec<SideEffect>)
    requires
        forall|m: int| 0 <= m < ks@.len() ==> #[trigger] ks@[m] < t.nodes.len(),
    ensures
        seq_view(final(exports)@) == seq_view(old(exports)@) + go_value_specs(t@.nodes, as_positions(ks@), kind, line as nat).0,
        seq_view(final(out)@) == seq_view(old(out)@) + go_value_specs(t@.nodes, as_positions(ks@), kind, line as nat).1,
{
    let ghost v = t@.nodes;
    let ghost kv = as_positions(ks@);
    let ghost e0 = seq_view(exports@);
    let ghost o0 = seq_view(out@);
    let mut k: usize = 0;
    assert(kv.take(0) =~= Seq::<int>::empty());
    assert(e0 + Seq::<ExportView>::empty() =~= e0);
    assert(o0 + Seq::<EffectView>::empty() =~= o0);
    while k < ks.len()
        invariant
            k <= ks.len(),
            v == t@.nodes,
            kv == as_positions(ks@),
            forall|m: int| 0 <= m < ks@.len() ==> #[trigger] ks@[m] < t.nodes.len(),
            seq_view(exports@) == e0 + go_value_specs(v, kv.take(k as int), kind, line as nat).0,
            seq_view(out@) == o0 + go_value_specs(v, kv.take(k as int), kind, line as nat).1,
        decreases ks.len() - k,
    {
        let s = ks[k];
        proof {
            assert(kv.take(k + 1).drop_last() =~= kv.take(k as int));
            assert(kv.take(k + 1).last() == s as int);
        }
        let ghost prev = go_value_specs(v, kv.take(k as int), kind, line as nat);
        if kind_is(t, s, "const_spec") || kind_is(t, s, "var_spec") {
            let kids = children_of(t, s);
            let ghost more = go_idents(v, as_positions(kids@), kind, line as nat);
            idents(t, &kids, kind, line, exports, out);
            assert(e0 + prev.0 + more.0 =~= e0 + (prev.0 + more.0));
            assert(o0 + prev.1 + more.1 =~= o0 + (prev.1 + more.1));
        }
        k = k + 1;
    }
    assert(kv.take(ks.len() as int) =~= kv);
}

fn params_of(t: &SyntaxTree, ks: &Vec<usize>) -> (r: Vec<Parameter>)
    requires
        forall|m: int| 0 <= m < ks@.len() ==> #[trigger] ks@[m] < t.nodes.len(),
    ensures
        seq_view(r@) == go_params(t@.nodes, as_positions(ks@)),
{
    let ghost v = t@.nodes;
    let ghost kv = as_positions(ks@);
    let mut r: Vec<Parameter> = Vec::new();
    let mut k: usize = 0;
    assert(kv.take(0) =~= Seq::<int>::empty());
    assert(seq_view(r@) =~= Seq::<ParamView>::empty());
    while k < ks.len()
        invariant
            k <= ks.len(),
            v == t@.nodes,
            kv == as_positions(ks@),
            forall|m: int| 0 <= m < ks@.len() ==> #[trigger] ks@[m] < t.nodes.len(),
            seq_view(r@) == go_params(v, kv.take(k as int)),
        decreases ks.len() - k,
    {
        let c = ks[k];
        proof {
            assert(kv.take(k + 1).drop_last() =~= kv.take(k as int));
            assert(kv.take(k + 1).last() == c as int);
        }
        let ghost before = seq_view(r@);
        let raw = text_or_default(t, c, "");
        let text = trim_str(raw.as_str());
        if kind_is(t, c, "parameter_declaration") && text.as_str().unicode_len() > 0 {
            let parts = split_words(text.as_str());
            let ghost pv = words(text@);
            assert(views(parts@) == pv);
            if parts.len() >= 2 {
                let last = parts.len() - 1;
                let mut j: usize = 0;
                while j < last
                    invariant
                        j <= last,
                        last + 1 == parts.len(),
                        views(parts@) == pv,
                        seq_view(r@) == before + Seq::new(j as nat, |m: int| (pv[m], pv.last())),
                    decreases last - j,
                {
                    let ghost b = seq_view(r@);
                    assert(views(parts@)[j as int] == parts@[j as int]@);
                    assert(views(parts@)[last as int] == parts@[last as int]@);
                    let p = Parameter { name: owned(parts[j].as_str()), type_annotation: owned(parts[last].as_str()) };
                    r.push(p);
                    assert(seq_view(r@) =~= b.push(p@));
                    assert(before + Seq::new((j + 1) as nat, |m: int| (pv[m], pv.last()))
                        =~= (before + Seq::new(j as nat, |m: int| (pv[m], pv.last()))).push(p@));
                    j = j + 1;
                }
            } else {
                let p = Parameter { name: text, type_annotation: owned("unknown") };
                r.push(p);
                assert(seq_view(r@) =~= before.push(p@));
            }
        } else {
            assert(before + Seq::<ParamView>::empty() =~= before);
        }
        k = k + 1;
    }
    assert(kv.take(ks.len() as int) =~= kv);
    r
}

fn signature_of(t: &SyntaxTree, i: usize, name: &str) -> (s: FunctionSignature)
    requires
        i < t.nodes.len(),
    ensures
        s@ == go_signature(t@.nodes, i as int, name@),
{
    let parameters = match child_by_field(t, i, "parameters") {
        Some(p) => {
            let kids = children_of(t, p);
            params_of(t, &kids)
        },
        None => {
            let e: Vec<Parameter> = Vec::new();
            assert(seq_view(e@) =~= Seq::<ParamView>::empty());
            e
        },
    };
    let ret = opt_text_or_default(t, child_by_field(t, i, "result"), "void");
    let s = FunctionSignature { name: owned(name), parameters, return_type: trim_str(ret.as_str()) };
    assert(s.parameters@.map_values(|p: Parameter| p@) == seq_view(parameters@));
    s
}

fn visit(t: &SyntaxTree, i: usize, exports: &mut Vec<ExportedSymbol>, signatures: &mut Vec<FunctionSignature>, out: &mut Vec<SideEffect>)
    requires
        i < t.nodes.len(),
    ensures
        seq_view(final(exports)@) == seq_view(old(exports)@) + go_node(t@.nodes, i as int).0,
        seq_view(final(signatures)@) == seq_view(old(signatures)@) + go_node(t@.nodes, i as int).1,
        seq_view(final(out)@) == seq_view(old(out)@) + go_node(t@.nodes, i as int).2,
{
    let ghost v = t@.nodes;
    let ghost e0 = seq_view(exports@);
    let ghost s0 = seq_view(signatures@);
    let ghost o0 = seq_view(out@);
    let line = node_line(t, i);
    let is_fn = kind_is(t, i, "function_declaration");
    let is_method = kind_is(t, i, "method_declaration");
    if is_fn || is_method {
        match child_by_field(t, i, "name") {
            Some(n) => {
                let name = text_or_default(t, n, "?");
                let e = plain_export_of(owned(name.as_str()), ExportKind::Function, line);
                exports.push(e);
                assert(seq_view(exports@) =~= e0 + seq![e@]);
                push_visibility(out, name.as_str(), line);
                let ghost o1 = seq_view(out@);
                if is_method {
                    match child_by_field(t, i, "receiver") {
                        Some(rn) => {
                            assert(v[rn as int] == t.nodes@[rn as int]@);
                            match &t.nodes[rn].text {
                                Some(rt) => {
                                    let trimmed = trim_str(rt.as_str());
                                    push_meta(out, "receiver:", trimmed.as_str(), line);
                                },
                                None => {},
                            }
                        },
                        None => {},
                    }
                }
                let sig = signature_of(t, i, name.as_str());
                signatures.push(sig);
                assert(seq_view(signatures@) =~= s0 + seq![sig@]);
                proof {
                    let receiver = if is_method {
                        match field_child(v, i as int, "receiver"@) {
                            Some(r) => match v[r].text {
                                Some(rt) => seq![meta("receiver:"@, trim_spec(rt), line as nat)],
                                None => Seq::<EffectView>::empty(),
                            },
                            None => Seq::<EffectView>::empty(),
                        }
                    } else {
                        Seq::<EffectView>::empty()
                    };
                    assert(seq_view(out@) =~= o1 + receiver);
                    assert(o1 + receiver =~= o0 + (seq![visibility_effect(name@, line as nat)] + receiver));
                }
            },
            None => {
                assert(e0 + Seq::<ExportView>::empty() =~= e0);
                assert(s0 + Seq::<SigView>::empty() =~= s0);
                assert(o0 + Seq::<EffectView>::empty() =~= o0);
            },
        }
    } else if kind_is(t, i, "type_declaration") {
        let kids = children_of(t, i);
        type_specs(t, &kids, line, exports, out);
        assert(s0 + Seq::<SigView>::empty() =~= s0);
    } else if kind_is(t, i, "const_declaration") || kind_is(t, i, "var_declaration") {
        let kind = if kind_is(t, i, "const_declaration") { ExportKind::Const } else { ExportKind::Var };
        let kids = children_of(t, i);
        value_specs(t, &kids, kind, line, exports, out);
        assert(s0 + Seq::<SigView>::empty() =~= s0);
    } else {
        assert(e0 + Seq::<ExportView>::empty() =~= e0);
        assert(s0 + Seq::<SigView>::empty() =~= s0);
        assert(o0 + Seq::<EffectView>::empty() =~= o0);
    }
}

fn edge_of(source: String, symbols: Vec<String>, kind: ImportKind, out: &mut Vec<DependencyEdge>)
    ensures
        seq_view(final(out)@) == seq_view(old(out)@).push((source@, views(symbols@), kind)),
{
    let ghost before = seq_view(out@);
    let e = DependencyEdge { source, symbols, kind };
    out.push(e);
    assert(seq_view(out@) =~= before.push(e@));
}

fn import_of(x: &str, out: &mut Vec<DependencyEdge>)
    ensures
        seq_view(final(out)@) == seq_view(old(out)@) + go_import_of(x@),
{
    let ghost before = seq_view(out@);
    if x.unicode_len() > 0 && x.get_char(0) == '"' {
        let src = trim_matches_char(x, '"');
        if src.as_str().unicode_len() > 0 {
            let syms: Vec<String> = Vec::new();
            assert(views(syms@) =~= Seq::<Seq<char>>::empty());
            edge_of(src, syms, ImportKind::Named, out);
            assert(seq_view(out@) =~= before + go_import_of(x@));
        } else {
            assert(before + Seq::<ImportView>::empty() =~= before);
        }
        return;
    }
    let parts = split_words(x);
    let ghost pv = words(x@);
    if parts.len() >= 2 {
        assert(views(parts@)[0] == parts@[0]@);
        assert(views(parts@)[1] == parts@[1]@);
        let alias = &parts[0];
        let src = trim_matches_char(parts[1].as_str(), '"');
        let (kind, syms) = if str_eq(alias.as_str(), ".") {
            let v = vec![owned(".")];
            assert(views(v@) =~= seq!["."@]);
            (ImportKind::Namespace, v)
        } else if !str_eq(alias.as_str(), "_") {
            let v = vec![owned(alias.as_str())];
            assert(views(v@) =~= seq![alias@]);
            (ImportKind::Default, v)
        } else {
            let v: Vec<String> = Vec::new();
            assert(views(v@) =~= Seq::<Seq<char>>::empty());
            (ImportKind::Named, v)
        };
        if src.as_str().unicode_len() > 0 {
            edge_of(src, syms, kind, out);
            assert(seq_view(out@) =~= before + go_import_of(x@));
        } else {
            assert(before + Seq::<ImportView>::empty() =~= before);
        }
    } else {
        assert(before + Seq::<ImportView>::empty() =~= before);
    }
}

fn import_step(in_block: bool, line: &str, out: &mut Vec<DependencyEdge>) -> (b: bool)
    ensures
        b == go_import_step(in_block, line@).0,
        seq_view(final(out)@) == seq_view(old(out)@) + go_import_step(in_block, line@).1,
{
    let ghost before = seq_view(out@);
    assert(before + Seq::<ImportView>::empty() =~= before);
    let head = before_first(line, "//");
    let clean = trim_str(head.as_str());
    if clean.as_str().unicode_len() == 0 {
        return in_block;
    }
    if str_eq(clean.as_str(), "import (") {
        return true;
    }
    if in_block && str_eq(clean.as_str(), ")") {
        return false;
    }
    if in_block {
        import_of(clean.as_str(), out);
        return in_block;
    }
    if starts_with(clean.as_str(), "import ") {
        proof {
            reveal_strlit("import ");
        }
        let rest = drop_chars(clean.as_str(), 7);
        let trimmed = trim_str(rest.as_str());
        import_of(trimmed.as_str(), out);
    }
    in_block
}

/// The imports of a Go source, read off its lines.
pub fn go_source_imports(source: &str) -> (r: Vec<DependencyEdge>)
    ensures
        seq_view(r@) == go_imports(source@),
{
    let ls = lines(source);
    let ghost lv = lines_of(source@);
    let mut out: Vec<DependencyEdge> = Vec::new();
    let mut in_block = false;
    let mut i: usize = 0;
    assert(seq_view(out@) =~= Seq::<ImportView>::empty());
    while i < ls.len()
        invariant
            i <= ls.len(),
            views(ls@) == lv,
            lv.len() == ls@.len(),
            go_imports_upto(lv, i as nat) == (in_block, seq_view(out@)),
        decreases ls.len() - i,
    {
        assert(views(ls@)[i as int] == ls@[i as int]@);
        in_block = import_step(in_block, ls[i].as_str(), &mut out);
        i = i + 1;
    }
    out
}

fn struct_line(clean: &str, ln: u32, out: &mut Vec<SideEffect>)
    ensures
        seq_view(final(out)@) == seq_view(old(out)@) + go_struct_line(clean@, ln as nat),
{
    reveal(go_struct_line);
    let ghost before = seq_view(out@);
    let head = before_first(clean, "`");
    let field_part = trim_str(head.as_str());
    let tokens = split_words(field_part.as_str());
    let ghost tv = words(field_part@);
    let ghost part1 = if tv.len() >= 2 && !is_comment_word(tv[0]) && tv[0] != "type"@ && tv[0] != "struct"@ {
        seq![meta("struct_field:"@, join_with(tv, " "@), ln as nat)]
    } else {
        Seq::<EffectView>::empty()
    };
    if tokens.len() >= 2 {
        assert(views(tokens@)[0] == tokens@[0]@);
        let first = &tokens[0];
        if !starts_with(first.as_str(), "//") && !str_eq(first.as_str(), "type") && !str_eq(first.as_str(), "struct") {
            let joined = join(&tokens, " ");
            push_meta(out, "struct_field:", joined.as_str(), ln);
        }
    }
    assert(seq_view(out@) =~= before + part1);
    if tokens.len() == 1 {
        assert(views(tokens@)[0] == tokens@[0]@);
        let first = &tokens[0];
        if !starts_with(first.as_str(), "//") && !str_eq(first.as_str(), "{") {
            push_meta(out, "embedded_struct:", first.as_str(), ln);
        }
    }
    assert(seq_view(out@) =~= before + go_struct_line(clean@, ln as nat));
}

fn method_line(c: &str, ln: u32, out: &mut Vec<SideEffect>)
    ensures
        seq_view(final(out)@) == seq_view(old(out)@) + go_method_line(c@, ln as nat),
{
    reveal(go_method_line);
    let ghost before = seq_view(out@);
    let head = before_first(c, "(");
    let lw = last_word_of(head.as_str());
    let method = trim_str(lw.as_str());
    if contains(c, "(") && contains(c, ")") && !starts_with(c, "type ") && !str_eq(c, "interface {")
        && method.as_str().unicode_len() > 0 {
        push_meta(out, "interface_method:", method.as_str(), ln);
        assert(seq_view(out@) =~= before + go_method_line(c@, ln as nat));
    } else {
        assert(seq_view(out@) =~= before + go_method_line(c@, ln as nat));
    }
}

fn markers(c: &str, ln: u32, out: &mut Vec<SideEffect>)
    ensures
        seq_view(final(out)@) == seq_view(old(out)@) + go_markers(c@, ln as nat),
{
    reveal(go_markers);
    let ghost before = seq_view(out@);
    let ghost a = if occurs_in(c@, "go "@) { seq![(SideEffectKind::Network, "go-meta:goroutine"@, ln as nat)] } else { Seq::<EffectView>::empty() };
    let ghost b = if occurs_in(c@, "<-"@) || occurs_in(c@, "chan "@) {
        seq![(SideEffectKind::Io, "go-meta:channel"@, ln as nat)]
    } else {
        Seq::<EffectView>::empty()
    };
    if contains(c, "go ") {
        push_effect(out, SideEffectKind::Network, owned("go-meta:goroutine"), ln);
    }
    assert(seq_view(out@) =~= before + a);
    if contains(c, "<-") || contains(c, "chan ") {
        push_effect(out, SideEffectKind::Io, owned("go-meta:channel"), ln);
    }
    assert(seq_view(out@) =~= before + a + b);
    if starts_with(c, "//go:") {
        let rest = trim_start_matches_text(c, "//go:");
        push_meta(out, "directive:", rest.as_str(), ln);
    }
    assert(seq_view(out@) =~= before + go_markers(c@, ln as nat));
}

fn effect_step(state: (bool, bool), line: &str, ln: u32, out: &mut Vec<SideEffect>) -> (st: (bool, bool))
    ensures
        st == go_effect_step(state, line@, ln as nat).0,
        seq_view(final(out)@) == seq_view(old(out)@) + go_effect_step(state, line@, ln as nat).1,
{
    reveal(go_effect_step);
    let ghost before = seq_view(out@);
    let clean = trim_str(line);
    let c = clean.as_str();
    let st = if contains(c, "struct {") {
        (true, state.1)
    } else if contains(c, "interface {") {
        (state.0, true)
    } else if state.0 && str_eq(c, "}") {
        (false, state.1)
    } else if state.1 && str_eq(c, "}") {
        (state.0, false)
    } else {
        state
    };
    assert(st == go_scope_after(state, clean@));
    let ghost fields = if st.0 { go_struct_line(clean@, ln as nat) } else { Seq::<EffectView>::empty() };
    let ghost methods = if st.1 { go_method_line(clean@, ln as nat) } else { Seq::<EffectView>::empty() };
    if st.0 {
        struct_line(c, ln, out);
    }
    assert(seq_view(out@) =~= before + fields);
    if st.1 {
        method_line(c, ln, out);
    }
    assert(seq_view(out@) =~= before + fields + methods);
    markers(c, ln, out);
    assert(seq_view(out@) =~= before + (fields + methods + go_markers(clean@, ln as nat)));
    st
}

/// The side effects a Go source's lines show: struct fields, interface
/// methods, goroutines, channels and compiler directives.
pub fn go_source_effects(source: &str) -> (r: Vec<SideEffect>)
    ensures
        seq_view(r@) == go_line_effects(source@),
{
    let ls = lines(source);
    let ghost lv = lines_of(source@);
    let mut out: Vec<SideEffect> = Vec::new();
    let mut state = (false, false);
    let mut i: usize = 0;
    assert(seq_view(out@) =~= Seq::<EffectView>::empty());
    while i < ls.len()
        invariant
            i <= ls.len(),
            views(ls@) == lv,
            lv.len() == ls@.len(),
            go_effects_upto(lv, i as nat) == (state, seq_view(out@)),
        decreases ls.len() - i,
    {
        assert(views(ls@)[i as int] == ls@[i as int]@);
        let ln = line_number(i);
        state = effect_step(state, ls[i].as_str(), ln, &mut out);
        i = i + 1;
    }
    out
}

/// The Go adapter's result for `path`, given the source and the parser's tree.
pub fn go_file_result(tree: &Option<SyntaxTree>, source: &str, path: &str) -> (r: FileResult)
    ensures
        is_go_result(r, path@, source@, opt_tree(*tree)),
        r.parse_time_ms == 0,
{
    match tree {
        Some(t) => {
            let ghost v = t@.nodes;
            let mut exports: Vec<ExportedSymbol> = Vec::new();
            let mut signatures: Vec<FunctionSignature> = Vec::new();
            let mut effects: Vec<SideEffect> = Vec::new();
            assert(seq_view(exports@) =~= Seq::<ExportView>::empty());
            assert(seq_view(signatures@) =~= Seq::<SigView>::empty());
            assert(seq_view(effects@) =~= Seq::<EffectView>::empty());
            let mut i: usize = 0;
            while i < t.nodes.len()
                invariant
                    i <= t.nodes.len(),
                    v == t@.nodes,
                    v.len() == t.nodes.len(),
                    seq_view(exports@) == collect(i as nat, go_export_at(v)),
                    seq_view(signatures@) == collect(i as nat, go_signature_at(v)),
                    seq_view(effects@) == collect(i as nat, go_effect_at(v)),
                decreases t.nodes.len() - i,
            {
                visit(t, i, &mut exports, &mut signatures, &mut effects);
                i = i + 1;
            }
            let imports = go_source_imports(source);
            let more = go_source_effects(source);
            append_all(&mut effects, more);
            parsed_result(path, t, exports, imports, signatures, effects)
        },
        None => treeless_result(path),
    }
}

/// The adapter for Go sources.
pub struct GoAdapter {}

impl GoAdapter {
    /// A new adapter.
    pub fn new() -> (a: Self) {
        GoAdapter {}
    }

    /// The language the adapter handles.
    pub fn language_name(&self) -> (r: &'static str)
        ensures
            r@ == "go"@,
    {
        "go"
    }

    /// The file extensions the adapter claims.
    pub fn file_extensions(&self) -> (r: Vec<String>)
        ensures
            views(r@) == seq!["go"@],
    {
        let r = vec![owned("go")];
        assert(views(r@) =~= seq!["go"@]);
        r
    }

    /// Parses a Go source file.  The parse time is measured on the clock.
    pub fn parse(&self, source: &str, file_path: &str) -> (r: FileResult)
        ensures
            is_go_result(r, file_path@, source@, go_syntax(source@)),
    {
        let start = start_timer();
        let tree = parse_go(source);
        let mut r = go_file_result(&tree, source, file_path);
        r.parse_time_ms = elapsed_ms(&start);
        r
    }
}

} // verus!
