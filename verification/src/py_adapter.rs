//! The Python adapter: definitions, decorators and side effects read off a
//! tree-sitter syntax tree; imports and `__all__` read off the source lines.
use crate::modules::as_positions;
use crate::order::{sorted_unique, strictly_sorted};
use crate::syntax::{
    append_all, child_by_field, child_by_kind, children, children_of, collect, elapsed_ms,
    field_child, first_where, is_parsed_result, is_treeless_result, kind_child, kind_is,
    line_number, line_of, node_line, opt_pos, opt_text_or, opt_text_or_default, opt_tree, parent,
    parent_of, parse_python, parsed_result, plain_export, plain_export_of, python_syntax, seq_view,
    start_timer, text_or, text_or_default, tree_confidence, tree_error, treeless_result,
    EffectView, ExportView, ImportView, NodeView, ParamView, SigView, SyntaxTree, TreeView,
};
use crate::text::{
    after_first, before_first, concat2, contains, drop_chars, ends_with, first_word,
    first_word_of, join, join_with, lines, lines_of, occurs_in, opt_view, owned, split_by,
    split_chars, starts_with, str_eq, string_of, text_after, text_before, trim_char, trim_end_char,
    trim_end_matches_char, trim_spec, trim_start_char, trim_start_matches_char,
    trim_start_matches_text, trim_start_text, trim_str, views,
};
use crate::types::{
    ConfidenceBand, DependencyEdge, ExportKind, ExportedSymbol, FileResult, FunctionSignature,
    ImportKind, Parameter, SideEffect, SideEffectKind,
};
use vstd::prelude::*;

verus! {

/// A metadata record.
pub open spec fn pmeta(text: Seq<char>, line: nat) -> EffectView {
    (SideEffectKind::Log, "py-meta:"@ + text, line)
}

// ─── Decorators ─────────────────────────────────────────────────────────────

/// The decorator names among the nodes `ks`: each `decorator` node's text
/// without surrounding whitespace and leading `@`, when not empty.
pub open spec fn py_decorator_list(t: Seq<NodeView>, ks: Seq<int>) -> Seq<Seq<char>>
    decreases ks.len(),
{
    if ks.len() == 0 {
        Seq::empty()
    } else {
        let c = ks.last();
        let text = trim_start_char(trim_spec(text_or(t[c], ""@)), '@');
        py_decorator_list(t, ks.drop_last()) + if t[c].kind == "decorator"@ && text.len() > 0 {
            seq![text]
        } else {
            Seq::empty()
        }
    }
}

/// The decorators in force at node `i`: those of the nearest
/// `decorated_definition` among the node and its ancestors.
pub open spec fn py_decorators(t: Seq<NodeView>, i: int) -> Seq<Seq<char>>
    decreases i,
{
    if 0 <= i < t.len() && t[i].kind == "decorated_definition"@ {
        py_decorator_list(t, children(t, i))
    } else {
        match parent(t, i) {
            Some(p) => if 0 <= p < i { py_decorators(t, p) } else { Seq::empty() },
            None => Seq::empty(),
        }
    }
}

/// The records the decorators of a function give.
pub open spec fn py_function_decorations(decs: Seq<Seq<char>>, line: nat) -> Seq<EffectView>
    decreases decs.len(),
{
    if decs.len() == 0 {
        Seq::empty()
    } else {
        let d = decs.last();
        py_function_decorations(decs.drop_last(), line) + seq![pmeta("decorator:function:"@ + d, line)]
            + (if "staticmethod"@.is_suffix_of(d) { seq![pmeta("method_type:staticmethod"@, line)] } else { Seq::empty() })
            + (if "classmethod"@.is_suffix_of(d) { seq![pmeta("method_type:classmethod"@, line)] } else { Seq::empty() })
            + if "property"@.is_suffix_of(d) { seq![pmeta("method_type:property"@, line)] } else { Seq::empty() }
    }
}

/// The records the decorators of a class give.
pub open spec fn py_class_decorations(decs: Seq<Seq<char>>, line: nat) -> Seq<EffectView>
    decreases decs.len(),
{
    if decs.len() == 0 {
        Seq::empty()
    } else {
        let d = decs.last();
        py_class_decorations(decs.drop_last(), line) + seq![pmeta("decorator:class:"@ + d, line)]
            + if "dataclass"@.is_suffix_of(d) { seq![pmeta("pattern:dataclass"@, line)] } else { Seq::empty() }
    }
}

// ─── Classes ────────────────────────────────────────────────────────────────

/// The non-empty trimmed pieces.
pub open spec fn nonempty_trimmed(parts: Seq<Seq<char>>) -> Seq<Seq<char>>
    decreases parts.len(),
{
    if parts.len() == 0 {
        Seq::empty()
    } else {
        let x = trim_spec(parts.last());
        nonempty_trimmed(parts.drop_last()) + if x.len() > 0 { seq![x] } else { Seq::empty() }
    }
}

/// The base classes of class node `c`, from its `superclasses` text.
pub open spec fn py_bases(t: Seq<NodeView>, c: int) -> Seq<Seq<char>> {
    match field_child(t, c, "superclasses"@) {
        Some(s) => nonempty_trimmed(split_by(trim_end_char(trim_start_char(trim_spec(text_or(t[s], ""@)), '('), ')'), ',')),
        None => Seq::empty(),
    }
}

/// The records the base classes of a class give.
pub open spec fn py_base_records(bases: Seq<Seq<char>>, line: nat) -> Seq<EffectView>
    decreases bases.len(),
{
    if bases.len() == 0 {
        Seq::empty()
    } else {
        let b = bases.last();
        py_base_records(bases.drop_last(), line) + seq![pmeta("class_base:"@ + b, line)]
            + if "BaseModel"@.is_suffix_of(b) { seq![pmeta("pattern:pydantic_basemodel"@, line)] } else { Seq::empty() }
    }
}

// ─── Signatures ─────────────────────────────────────────────────────────────

/// Whether a node can carry a parameter's annotation.
pub open spec fn annotation_like() -> spec_fn(NodeView) -> bool {
    |n: NodeView| occurs_in(n.kind, "type"@) || n.kind == "generic_type"@ || n.kind == "identifier"@
}

/// Whether a node can carry a return type.
pub open spec fn return_type_like() -> spec_fn(NodeView) -> bool {
    |n: NodeView| n.kind == "type"@ || n.kind == "generic_type"@
}

/// `a`, or `b` when `a` is absent.
pub open spec fn or_else(a: Option<int>, b: Option<int>) -> Option<int> {
    match a {
        Some(x) => Some(x),
        None => b,
    }
}

/// Whether a parameter node kind carries a name and possibly an annotation.
pub open spec fn is_rich_parameter(k: Seq<char>) -> bool {
    k == "typed_parameter"@ || k == "default_parameter"@ || k == "typed_default_parameter"@
        || k == "list_splat_pattern"@ || k == "dictionary_splat_pattern"@
}

/// The parameter node `p` describes, if any.
pub open spec fn py_param(t: Seq<NodeView>, p: int) -> Seq<ParamView> {
    let k = t[p].kind;
    if k == "identifier"@ {
        seq![(text_or(t[p], "?"@), "unknown"@)]
    } else if is_rich_parameter(k) {
        let name = or_else(field_child(t, p, "name"@), kind_child(t, p, "identifier"@));
        let ann = or_else(field_child(t, p, "type"@), first_where(t, children(t, p), annotation_like()));
        seq![(opt_text_or(t, name, "?"@), opt_text_or(t, ann, "unknown"@))]
    } else {
        Seq::empty()
    }
}

/// The parameters the nodes `ks` describe.
pub open spec fn py_params(t: Seq<NodeView>, ks: Seq<int>) -> Seq<ParamView>
    decreases ks.len(),
{
    if ks.len() == 0 {
        Seq::empty()
    } else {
        py_params(t, ks.drop_last()) + py_param(t, ks.last())
    }
}

/// The signature of function node `f` named `name`.
pub open spec fn py_signature(t: Seq<NodeView>, f: int, name: Seq<char>) -> SigView {
    let ret = or_else(field_child(t, f, "return_type"@), first_where(t, children(t, f), return_type_like()));
    (
        name,
        match field_child(t, f, "parameters"@) {
            Some(ps) => py_params(t, children(t, ps)),
            None => Seq::empty(),
        },
        trim_spec(trim_start_text(opt_text_or(t, ret, "unknown"@), "->"@)),
    )
}

// ─── Definitions ────────────────────────────────────────────────────────────

/// What node `i` contributes: exports, signatures and records.
#[verifier::opaque]
pub open spec fn py_node(t: Seq<NodeView>, i: int) -> (Seq<ExportView>, Seq<SigView>, Seq<EffectView>) {
    let k = t[i].kind;
    let line = line_of(t[i].row);
    let name = opt_text_or(t, field_child(t, i, "name"@), "<anonymous>"@);
    if k == "function_definition"@ {
        (
            seq![plain_export(name, ExportKind::Function, line)],
            seq![py_signature(t, i, name)],
            py_function_decorations(py_decorators(t, i), line),
        )
    } else if k == "class_definition"@ {
        (
            seq![plain_export(name, ExportKind::Class, line)],
            Seq::empty(),
            py_base_records(py_bases(t, i), line) + py_class_decorations(py_decorators(t, i), line),
        )
    } else {
        (Seq::empty(), Seq::empty(), Seq::empty())
    }
}

/// Node-by-node exports.
pub open spec fn py_export_at(t: Seq<NodeView>) -> spec_fn(int) -> Seq<ExportView> {
    |i: int| py_node(t, i).0
}

/// Node-by-node signatures.
pub open spec fn py_signature_at(t: Seq<NodeView>) -> spec_fn(int) -> Seq<SigView> {
    |i: int| py_node(t, i).1
}

/// Node-by-node records.
pub open spec fn py_effect_at(t: Seq<NodeView>) -> spec_fn(int) -> Seq<EffectView> {
    |i: int| py_node(t, i).2
}

// ─── Executable definitions ─────────────────────────────────────────────────

fn push_effect(out: &mut Vec<SideEffect>, kind: SideEffectKind, target: String, line: u32)
    ensures
        seq_view(final(out)@) == seq_view(old(out)@).push((kind, target@, line as nat)),
{
    let ghost before = seq_view(out@);
    let e = SideEffect { kind, target, line };
    out.push(e);
    assert(seq_view(out@) =~= before.push(e@));
}

fn push_meta(out: &mut Vec<SideEffect>, text: &str, line: u32)
    ensures
        seq_view(final(out)@) == seq_view(old(out)@).push(pmeta(text@, line as nat)),
{
    push_effect(out, SideEffectKind::Log, concat2("py-meta:", text), line);
}

fn decorator_list(t: &SyntaxTree, d: usize) -> (r: Vec<String>)
    requires
        d < t.nodes.len(),
    ensures
        views(r@) == py_decorator_list(t@.nodes, children(t@.nodes, d as int)),
{
    let ks = children_of(t, d);
    let ghost v = t@.nodes;
    let ghost kv = as_positions(ks@);
    let mut r: Vec<String> = Vec::new();
    let mut k: usize = 0;
    assert(kv.take(0) =~= Seq::<int>::empty());
    assert(views(r@) =~= Seq::<Seq<char>>::empty());
    while k < ks.len()
        invariant
            k <= ks.len(),
            v == t@.nodes,
            kv == as_positions(ks@),
            kv == children(v, d as int),
            forall|m: int| 0 <= m < ks@.len() ==> d < #[trigger] ks@[m] < t.nodes.len(),
            views(r@) == py_decorator_list(v, kv.take(k as int)),
        decreases ks.len() - k,
    {
        let c = ks[k];
        proof {
            assert(kv.take(k + 1).drop_last() =~= kv.take(k as int));
            assert(kv.take(k + 1).last() == c as int);
        }
        let ghost before = views(r@);
        let raw = text_or_default(t, c, "");
        let trimmed = trim_str(raw.as_str());
        let text = trim_start_matches_char(trimmed.as_str(), '@');
        if kind_is(t, c, "decorator") && text.as_str().unicode_len() > 0 {
            r.push(text);
            assert(views(r@) =~= before + seq![r@.last()@]);
        } else {
            assert(before + Seq::<Seq<char>>::empty() =~= before);
        }
        k = k + 1;
    }
    assert(kv.take(ks.len() as int) =~= kv);
    r
}

fn decorators_at(t: &SyntaxTree, i: usize) -> (r: Vec<String>)
    requires
        i < t.nodes.len(),
    ensures
        views(r@) == py_decorators(t@.nodes, i as int),
{
    let ghost v = t@.nodes;
    let mut j: usize = i;
    loop
        invariant
            j < t.nodes.len(),
            v == t@.nodes,
            py_decorators(v, i as int) == py_decorators(v, j as int),
        decreases j,
    {
        if kind_is(t, j, "decorated_definition") {
            return decorator_list(t, j);
        }
        match parent_of(t, j) {
            Some(p) => {
                j = p;
            },
            None => {
                let r: Vec<String> = Vec::new();
                assert(views(r@) =~= Seq::<Seq<char>>::empty());
                return r;
            },
        }
    }
}

fn function_decorations(decs: &Vec<String>, line: u32, out: &mut Vec<SideEffect>)
    ensures
        seq_view(final(out)@) == seq_view(old(out)@) + py_function_decorations(views(decs@), line as nat),
{
    let ghost start = seq_view(out@);
    let ghost dv = views(decs@);
    let mut k: usize = 0;
    assert(dv.take(0) =~= Seq::<Seq<char>>::empty());
    assert(start + Seq::<EffectView>::empty() =~= start);
    while k < decs.len()
        invariant
            k <= decs.len(),
            dv == views(decs@),
            seq_view(out@) == start + py_function_decorations(dv.take(k as int), line as nat),
        decreases decs.len() - k,
    {
        let d = decs[k].as_str();
        proof {
            assert(dv.take(k + 1).drop_last() =~= dv.take(k as int));
            assert(dv.take(k + 1).last() == d@);
        }
        let ghost b = seq_view(out@);
        let text = concat2("decorator:function:", d);
        push_meta(out, text.as_str(), line);
        if ends_with(d, "staticmethod") {
            push_meta(out, "method_type:staticmethod", line);
        }
        if ends_with(d, "classmethod") {
            push_meta(out, "method_type:classmethod", line);
        }
        if ends_with(d, "property") {
            push_meta(out, "method_type:property", line);
        }
        assert(seq_view(out@) =~= start + py_function_decorations(dv.take(k + 1), line as nat));
        k = k + 1;
    }
    assert(dv.take(decs.len() as int) =~= dv);
}

fn class_decorations(decs: &Vec<String>, line: u32, out: &mut Vec<SideEffect>)
    ensures
        seq_view(final(out)@) == seq_view(old(out)@) + py_class_decorations(views(decs@), line as nat),
{
    let ghost start = seq_view(out@);
    let ghost dv = views(decs@);
    let mut k: usize = 0;
    assert(dv.take(0) =~= Seq::<Seq<char>>::empty());
    assert(start + Seq::<EffectView>::empty() =~= start);
    while k < decs.len()
        invariant
            k <= decs.len(),
            dv == views(decs@),
            seq_view(out@) == start + py_class_decorations(dv.take(k as int), line as nat),
        decreases decs.len() - k,
    {
        let d = decs[k].as_str();
        proof {
            assert(dv.take(k + 1).drop_last() =~= dv.take(k as int));
            assert(dv.take(k + 1).last() == d@);
        }
        let text = concat2("decorator:class:", d);
        push_meta(out, text.as_str(), line);
        if ends_with(d, "dataclass") {
            push_meta(out, "pattern:dataclass", line);
        }
        assert(seq_view(out@) =~= start + py_class_decorations(dv.take(k + 1), line as nat));
        k = k + 1;
    }
    assert(dv.take(decs.len() as int) =~= dv);
}

fn nonempty_trimmed_of(parts: &Vec<Vec<char>>) -> (r: Vec<String>)
    ensures
        views(r@) == nonempty_trimmed(parts@.map_values(|p: Vec<char>| p@)),
{
    let ghost pv = parts@.map_values(|p: Vec<char>| p@);
    let mut r: Vec<String> = Vec::new();
    let mut k: usize = 0;
    assert(pv.take(0) =~= Seq::<Seq<char>>::empty());
    assert(views(r@) =~= Seq::<Seq<char>>::empty());
    while k < parts.len()
        invariant
            k <= parts.len(),
            pv == parts@.map_values(|p: Vec<char>| p@),
            views(r@) == nonempty_trimmed(pv.take(k as int)),
        decreases parts.len() - k,
    {
        proof {
            assert(pv.take(k + 1).drop_last() =~= pv.take(k as int));
            assert(pv.take(k + 1).last() == parts@[k as int]@);
        }
        let ghost before = views(r@);
        let s = string_of(&parts[k]);
        let x = trim_str(s.as_str());
        if x.as_str().unicode_len() > 0 {
            r.push(x);
            assert(views(r@) =~= before + seq![r@.last()@]);
        } else {
            assert(before + Seq::<Seq<char>>::empty() =~= before);
        }
        k = k + 1;
    }
    assert(pv.take(parts.len() as int) =~= pv);
    r
}

fn bases_of(t: &SyntaxTree, c: usize) -> (r: Vec<String>)
    requires
        c < t.nodes.len(),
    ensures
        views(r@) == py_bases(t@.nodes, c as int),
{
    match child_by_field(t, c, "superclasses") {
        Some(s) => {
            let raw = text_or_default(t, s, "");
            let a = trim_str(raw.as_str());
            let b = trim_start_matches_char(a.as_str(), '(');
            let inner = trim_end_matches_char(b.as_str(), ')');
            let chars = crate::text::chars_of(inner.as_str());
            let parts = split_chars(&chars, ',');
            assert(parts@.map_values(|p: Vec<char>| p@) =~= split_by(inner@, ','));
            nonempty_trimmed_of(&parts)
        },
        None => {
            let r: Vec<String> = Vec::new();
            assert(views(r@) =~= Seq::<Seq<char>>::empty());
            r
        },
    }
}

fn base_records(bases: &Vec<String>, line: u32, out: &mut Vec<SideEffect>)
    ensures
        seq_view(final(out)@) == seq_view(old(out)@) + py_base_records(views(bases@), line as nat),
{
    let ghost start = seq_view(out@);
    let ghost bv = views(bases@);
    let mut k: usize = 0;
    assert(bv.take(0) =~= Seq::<Seq<char>>::empty());
    assert(start + Seq::<EffectView>::empty() =~= start);
    while k < bases.len()
        invariant
            k <= bases.len(),
            bv == views(bases@),
            seq_view(out@) == start + py_base_records(bv.take(k as int), line as nat),
        decreases bases.len() - k,
    {
        let b = bases[k].as_str();
        proof {
            assert(bv.take(k + 1).drop_last() =~= bv.take(k as int));
            assert(bv.take(k + 1).last() == b@);
        }
        let text = concat2("class_base:", b);
        push_meta(out, text.as_str(), line);
        if ends_with(b, "BaseModel") {
            push_meta(out, "pattern:pydantic_basemodel", line);
        }
        assert(seq_view(out@) =~= start + py_base_records(bv.take(k + 1), line as nat));
        k = k + 1;
    }
    assert(bv.take(bases.len() as int) =~= bv);
}

proof fn lemma_first_where_skip(t: Seq<NodeView>, ks: Seq<int>, k: int, p: spec_fn(NodeView) -> bool)
    requires
        0 <= k < ks.len(),
        !p(t[ks[k]]),
    ensures
        first_where(t, ks.skip(k), p) == first_where(t, ks.skip(k + 1), p),
{
    assert(ks.skip(k).drop_first() =~= ks.skip(k + 1));
}

fn first_annotation_child(t: &SyntaxTree, i: usize, for_return: bool) -> (r: Option<usize>)
    requires
        i < t.nodes.len(),
    ensures
        opt_pos(r) == first_where(t@.nodes, children(t@.nodes, i as int), if for_return { return_type_like() } else { annotation_like() }),
        r matches Some(k) ==> k < t.nodes.len(),
{
    let ghost v = t@.nodes;
    let ghost p = if for_return { return_type_like() } else { annotation_like() };
    let ks = children_of(t, i);
    let ghost kv = as_positions(ks@);
    assert(kv.skip(0) =~= kv);
    let mut k: usize = 0;
    while k < ks.len()
        invariant
            k <= ks.len(),
            v == t@.nodes,
            kv == as_positions(ks@),
            kv == children(v, i as int),
            kv.len() == ks@.len(),
            forall|m: int| 0 <= m < ks@.len() ==> i < #[trigger] ks@[m] < t.nodes.len(),
            first_where(v, kv, p) == first_where(v, kv.skip(k as int), p),
            p == if for_return { return_type_like() } else { annotation_like() },
        decreases ks.len() - k,
    {
        let j = ks[k];
        assert(kv[k as int] == j as int);
        assert(v[j as int] == t.nodes@[j as int]@);
        let kind = t.nodes[j].kind.as_str();
        let hit = if for_return {
            str_eq(kind, "type") || str_eq(kind, "generic_type")
        } else {
            contains(kind, "type") || str_eq(kind, "generic_type") || str_eq(kind, "identifier")
        };
        assert(p(v[j as int]) == hit);
        if hit {
            assert(kv.skip(k as int)[0] == j as int);
            return Some(j);
        }
        proof {
            lemma_first_where_skip(v, kv, k as int, p);
        }
        k = k + 1;
    }
    assert(kv.skip(k as int) =~= Seq::<int>::empty());
    None
}

fn or_else_pos(a: Option<usize>, b: Option<usize>) -> (r: Option<usize>)
    ensures
        opt_pos(r) == or_else(opt_pos(a), opt_pos(b)),
        r matches Some(x) ==> (a == Some(x) || b == Some(x)),
{
    match a {
        Some(x) => Some(x),
        None => b,
    }
}

fn param_of(t: &SyntaxTree, p: usize) -> (r: Vec<Parameter>)
    requires
        p < t.nodes.len(),
    ensures
        seq_view(r@) == py_param(t@.nodes, p as int),
{
    let mut r: Vec<Parameter> = Vec::new();
    if kind_is(t, p, "identifier") {
        let x = Parameter { name: text_or_default(t, p, "?"), type_annotation: owned("unknown") };
        r.push(x);
        assert(seq_view(r@) =~= seq![x@]);
    } else if kind_is(t, p, "typed_parameter") || kind_is(t, p, "default_parameter")
        || kind_is(t, p, "typed_default_parameter") || kind_is(t, p, "list_splat_pattern")
        || kind_is(t, p, "dictionary_splat_pattern") {
        let name = or_else_pos(child_by_field(t, p, "name"), child_by_kind(t, p, "identifier"));
        let ann = or_else_pos(child_by_field(t, p, "type"), first_annotation_child(t, p, false));
        let x = Parameter { name: opt_text_or_default(t, name, "?"), type_annotation: opt_text_or_default(t, ann, "unknown") };
        r.push(x);
        assert(seq_view(r@) =~= seq![x@]);
    } else {
        assert(seq_view(r@) =~= Seq::<ParamView>::empty());
    }
    r
}

fn signature_of(t: &SyntaxTree, f: usize, name: &str) -> (s: FunctionSignature)
    requires
        f < t.nodes.len(),
    ensures
        s@ == py_signature(t@.nodes, f as int, name@),
{
    let mut parameters: Vec<Parameter> = Vec::new();
    assert(seq_view(parameters@) =~= Seq::<ParamView>::empty());
    match child_by_field(t, f, "parameters") {
        Some(ps) => {
            let ks = children_of(t, ps);
            let ghost v = t@.nodes;
            let ghost kv = as_positions(ks@);
            let mut k: usize = 0;
            assert(kv.take(0) =~= Seq::<int>::empty());
            while k < ks.len()
                invariant
                    k <= ks.len(),
                    v == t@.nodes,
                    kv == as_positions(ks@),
                    forall|m: int| 0 <= m < ks@.len() ==> ps < #[trigger] ks@[m] < t.nodes.len(),
                    seq_view(parameters@) == py_params(v, kv.take(k as int)),
                decreases ks.len() - k,
            {
                let j = ks[k];
                proof {
                    assert(kv.take(k + 1).drop_last() =~= kv.take(k as int));
                    assert(kv.take(k + 1).last() == j as int);
                }
                let more = param_of(t, j);
                append_all(&mut parameters, more);
                k = k + 1;
            }
            assert(kv.take(ks.len() as int) =~= kv);
        },
        None => {},
    }
    let ret_node = or_else_pos(child_by_field(t, f, "return_type"), first_annotation_child(t, f, true));
    let raw = opt_text_or_default(t, ret_node, "unknown");
    let stripped = trim_start_matches_text(raw.as_str(), "->");
    let s = FunctionSignature { name: owned(name), parameters, return_type: trim_str(stripped.as_str()) };
    assert(s.parameters@.map_values(|p: Parameter| p@) == seq_view(parameters@));
    s
}

fn visit(t: &SyntaxTree, i: usize, exports: &mut Vec<ExportedSymbol>, signatures: &mut Vec<FunctionSignature>, out: &mut Vec<SideEffect>)
    requires
        i < t.nodes.len(),
    ensures
        seq_view(final(exports)@) == seq_view(old(exports)@) + py_node(t@.nodes, i as int).0,
        seq_view(final(signatures)@) == seq_view(old(signatures)@) + py_node(t@.nodes, i as int).1,
        seq_view(final(out)@) == seq_view(old(out)@) + py_node(t@.nodes, i as int).2,
{
    reveal(py_node);
    let ghost e0 = seq_view(exports@);
    let ghost s0 = seq_view(signatures@);
    let ghost o0 = seq_view(out@);
    let line = node_line(t, i);
    if kind_is(t, i, "function_definition") {
        let name = opt_text_or_default(t, child_by_field(t, i, "name"), "<anonymous>");
        let e = plain_export_of(owned(name.as_str()), ExportKind::Function, line);
        exports.push(e);
        assert(seq_view(exports@) =~= e0 + seq![e@]);
        let sig = signature_of(t, i, name.as_str());
        signatures.push(sig);
        assert(seq_view(signatures@) =~= s0 + seq![sig@]);
        let decs = decorators_at(t, i);
        function_decorations(&decs, line, out);
    } else if kind_is(t, i, "class_definition") {
        let name = opt_text_or_default(t, child_by_field(t, i, "name"), "<anonymous>");
        let e = plain_export_of(owned(name.as_str()), ExportKind::Class, line);
        exports.push(e);
        assert(seq_view(exports@) =~= e0 + seq![e@]);
        assert(s0 + Seq::<SigView>::empty() =~= s0);
        let bases = bases_of(t, i);
        base_records(&bases, line, out);
        let ghost o1 = seq_view(out@);
        let decs = decorators_at(t, i);
        class_decorations(&decs, line, out);
        assert(seq_view(out@) =~= o0 + (py_base_records(views(bases@), line as nat) + py_class_decorations(views(decs@), line as nat)));
    } else {
        assert(e0 + Seq::<ExportView>::empty() =~= e0);
        assert(s0 + Seq::<SigView>::empty() =~= s0);
        assert(o0 + Seq::<EffectView>::empty() =~= o0);
    }
}

// ─── Side effects, by a stack walk of the tree ──────────────────────────────

/// The API a call's text uses, with its kind and record name: the first of
/// the known APIs whose marker the text contains.
pub open spec fn py_api(text: Seq<char>) -> Option<(SideEffectKind, Seq<char>)> {
    if occurs_in(text, "open("@) {
        Some((SideEffectKind::Io, "open"@))
    } else if occurs_in(text, "requests."@) {
        Some((SideEffectKind::Network, "requests."@))
    } else if occurs_in(text, "urllib."@) {
        Some((SideEffectKind::Network, "urllib."@))
    } else if occurs_in(text, "sqlite3."@) {
        Some((SideEffectKind::Storage, "sqlite3."@))
    } else if occurs_in(text, "psycopg2."@) {
        Some((SideEffectKind::Storage, "psycopg2."@))
    } else if occurs_in(text, "print("@) {
        Some((SideEffectKind::Log, "print"@))
    } else if occurs_in(text, "logging."@) {
        Some((SideEffectKind::Log, "logging."@))
    } else if occurs_in(text, "subprocess."@) {
        Some((SideEffectKind::Io, "subprocess."@))
    } else if occurs_in(text, "sys.exit("@) {
        Some((SideEffectKind::Io, "sys.exit"@))
    } else if occurs_in(text, "os.environ"@) {
        Some((SideEffectKind::Io, "os.environ"@))
    } else {
        None
    }
}

/// The side effect a call node `j` records, if any.
pub open spec fn py_call_effect(t: Seq<NodeView>, j: int) -> Seq<EffectView> {
    if t[j].kind == "call"@ || t[j].kind == "call_expression"@ {
        match py_api(text_or(t[j], ""@)) {
            Some(a) => seq![(a.0, a.1, line_of(t[j].row))],
            None => Seq::empty(),
        }
    } else {
        Seq::empty()
    }
}

/// The records of at most `steps` steps of a stack walk: each step takes the
/// top node off the stack, records its call, and pushes its children in order.
pub open spec fn py_walk(t: Seq<NodeView>, stack: Seq<int>, steps: nat) -> Seq<EffectView>
    decreases steps,
{
    if steps == 0 || stack.len() == 0 {
        Seq::empty()
    } else {
        let top = stack.last();
        py_call_effect(t, top) + py_walk(t, stack.drop_last() + children(t, top), (steps - 1) as nat)
    }
}

/// The side effects of a tree: a stack walk from the root, one step per node.
#[verifier::opaque]
pub open spec fn py_walk_effects(t: Seq<NodeView>) -> Seq<EffectView> {
    py_walk(t, if t.len() > 0 { seq![0int] } else { Seq::empty() }, t.len())
}

fn api_of(text: &str) -> (r: Option<(SideEffectKind, &'static str)>)
    ensures
        match r {
            Some(a) => py_api(text@) == Some((a.0, a.1@)),
            None => py_api(text@) is None,
        },
{
    if contains(text, "open(") {
        Some((SideEffectKind::Io, "open"))
    } else if contains(text, "requests.") {
        Some((SideEffectKind::Network, "requests."))
    } else if contains(text, "urllib.") {
        Some((SideEffectKind::Network, "urllib."))
    } else if contains(text, "sqlite3.") {
        Some((SideEffectKind::Storage, "sqlite3."))
    } else if contains(text, "psycopg2.") {
        Some((SideEffectKind::Storage, "psycopg2."))
    } else if contains(text, "print(") {
        Some((SideEffectKind::Log, "print"))
    } else if contains(text, "logging.") {
        Some((SideEffectKind::Log, "logging."))
    } else if contains(text, "subprocess.") {
        Some((SideEffectKind::Io, "subprocess."))
    } else if contains(text, "sys.exit(") {
        Some((SideEffectKind::Io, "sys.exit"))
    } else if contains(text, "os.environ") {
        Some((SideEffectKind::Io, "os.environ"))
    } else {
        None
    }
}

fn call_effect(t: &SyntaxTree, j: usize, out: &mut Vec<SideEffect>)
    requires
        j < t.nodes.len(),
    ensures
        seq_view(final(out)@) == seq_view(old(out)@) + py_call_effect(t@.nodes, j as int),
{
    let ghost before = seq_view(out@);
    if kind_is(t, j, "call") || kind_is(t, j, "call_expression") {
        let text = text_or_default(t, j, "");
        match api_of(text.as_str()) {
            Some((kind, target)) => {
                push_effect(out, kind, owned(target), node_line(t, j));
                assert(seq_view(out@) =~= before + py_call_effect(t@.nodes, j as int));
                return;
            },
            None => {},
        }
    }
    assert(before + Seq::<EffectView>::empty() =~= before);
}

/// The side effects of a Python tree, by a stack walk from the root.
pub fn walk_effects(t: &SyntaxTree) -> (r: Vec<SideEffect>)
    ensures
        seq_view(r@) == py_walk_effects(t@.nodes),
{
    reveal(py_walk_effects);
    let ghost v = t@.nodes;
    let mut out: Vec<SideEffect> = Vec::new();
    let mut stack: Vec<usize> = Vec::new();
    if t.nodes.len() > 0 {
        stack.push(0);
    }
    assert(as_positions(stack@) =~= if v.len() > 0 { seq![0int] } else { Seq::<int>::empty() });
    let mut steps: usize = t.nodes.len();
    assert(seq_view(out@) + py_walk_effects(v) =~= py_walk_effects(v));
    while steps > 0 && stack.len() > 0
        invariant
            v == t@.nodes,
            forall|m: int| 0 <= m < stack@.len() ==> #[trigger] stack@[m] < t.nodes.len(),
            seq_view(out@) + py_walk(v, as_positions(stack@), steps as nat) == py_walk_effects(v),
        decreases steps,
    {
        let ghost st = as_positions(stack@);
        let ghost o = seq_view(out@);
        let top = stack.pop().unwrap();
        assert(st.last() == top as int);
        assert(as_positions(stack@) =~= st.drop_last());
        call_effect(t, top, &mut out);
        let mut kids = children_of(t, top);
        let ghost kv = as_positions(kids@);
        let ghost sb = stack@;
        let ghost kd = kids@;
        stack.append(&mut kids);
        assert(stack@ =~= sb + kd);
        assert(as_positions(stack@) =~= st.drop_last() + kv);
        assert forall|m: int| 0 <= m < stack@.len() implies #[trigger] stack@[m] < t.nodes.len() by {
            if m >= sb.len() {
                assert(stack@[m] == kd[m - sb.len()]);
            }
        }
        steps = steps - 1;
        assert(o + py_walk(v, st, (steps + 1) as nat) == o + (py_call_effect(v, top as int) + py_walk(v, as_positions(stack@), steps as nat)));
        assert(o + (py_call_effect(v, top as int) + py_walk(v, as_positions(stack@), steps as nat))
            =~= seq_view(out@) + py_walk(v, as_positions(stack@), steps as nat));
    }
    assert(py_walk(v, as_positions(stack@), steps as nat) =~= Seq::<EffectView>::empty());
    assert(seq_view(out@) + Seq::<EffectView>::empty() =~= seq_view(out@));
    out
}

// ─── Imports, from the source lines ─────────────────────────────────────────

/// The modules of an `import a, b` line's parts: the first word of each, when not empty.
pub open spec fn py_module_parts(parts: Seq<Seq<char>>) -> Seq<ImportView>
    decreases parts.len(),
{
    if parts.len() == 0 {
        Seq::empty()
    } else {
        let m = trim_spec(first_word(parts.last()));
        py_module_parts(parts.drop_last()) + if m.len() > 0 {
            seq![(m, Seq::<Seq<char>>::empty(), ImportKind::Namespace)]
        } else {
            Seq::empty()
        }
    }
}

/// The symbols of a `from m import a, b` line's parts: the first word of each, when not empty.
pub open spec fn py_symbol_list(parts: Seq<Seq<char>>) -> Seq<Seq<char>>
    decreases parts.len(),
{
    if parts.len() == 0 {
        Seq::empty()
    } else {
        let x = trim_spec(first_word(parts.last()));
        py_symbol_list(parts.drop_last()) + if x.len() > 0 { seq![x] } else { Seq::empty() }
    }
}

/// The imports a source line declares (comments after `#` ignored).
pub open spec fn py_import_line(line: Seq<char>) -> Seq<ImportView> {
    let clean = trim_spec(text_before(line, "#"@));
    if clean.len() == 0 {
        Seq::empty()
    } else if "import "@.is_prefix_of(clean) {
        py_module_parts(split_by(clean.skip(7), ','))
    } else if "from "@.is_prefix_of(clean) {
        let rest = clean.skip(5);
        match text_after(rest, " import "@) {
            Some(imported) => {
                let module = trim_spec(text_before(rest, " import "@));
                if module.len() > 0 {
                    seq![(module, py_symbol_list(split_by(trim_end_char(trim_start_char(trim_spec(imported), '('), ')'), ',')), ImportKind::Named)]
                } else {
                    Seq::empty()
                }
            },
            None => Seq::empty(),
        }
    } else {
        Seq::empty()
    }
}

/// Line-by-line imports.
pub open spec fn py_import_at(ls: Seq<Seq<char>>) -> spec_fn(int) -> Seq<ImportView> {
    |k: int| py_import_line(ls[k])
}

/// The imports of a Python source.
#[verifier::opaque]
pub open spec fn py_imports(source: Seq<char>) -> Seq<ImportView> {
    collect(lines_of(source).len(), py_import_at(lines_of(source)))
}

fn words_of_parts(parts: &Vec<Vec<char>>, modules: bool) -> (r: (Vec<DependencyEdge>, Vec<String>))
    ensures
        modules ==> seq_view(r.0@) == py_module_parts(parts@.map_values(|p: Vec<char>| p@)),
        !modules ==> views(r.1@) == py_symbol_list(parts@.map_values(|p: Vec<char>| p@)),
{
    let ghost pv = parts@.map_values(|p: Vec<char>| p@);
    let mut edges: Vec<DependencyEdge> = Vec::new();
    let mut names: Vec<String> = Vec::new();
    let mut k: usize = 0;
    assert(pv.take(0) =~= Seq::<Seq<char>>::empty());
    assert(seq_view(edges@) =~= Seq::<ImportView>::empty());
    assert(views(names@) =~= Seq::<Seq<char>>::empty());
    while k < parts.len()
        invariant
            k <= parts.len(),
            pv == parts@.map_values(|p: Vec<char>| p@),
            modules ==> seq_view(edges@) == py_module_parts(pv.take(k as int)),
            !modules ==> views(names@) == py_symbol_list(pv.take(k as int)),
        decreases parts.len() - k,
    {
        proof {
            assert(pv.take(k + 1).drop_last() =~= pv.take(k as int));
            assert(pv.take(k + 1).last() == parts@[k as int]@);
        }
        let ghost eb = seq_view(edges@);
        let ghost nb = views(names@);
        let s = string_of(&parts[k]);
        let w = first_word_of(s.as_str());
        let x = trim_str(w.as_str());
        if x.as_str().unicode_len() > 0 {
            if modules {
                let syms: Vec<String> = Vec::new();
                assert(views(syms@) =~= Seq::<Seq<char>>::empty());
                let e = DependencyEdge { source: x, symbols: syms, kind: ImportKind::Namespace };
                edges.push(e);
                assert(seq_view(edges@) =~= eb + seq![e@]);
            } else {
                names.push(x);
                assert(views(names@) =~= nb + seq![names@.last()@]);
            }
        } else {
            assert(eb + Seq::<ImportView>::empty() =~= eb);
            assert(nb + Seq::<Seq<char>>::empty() =~= nb);
        }
        k = k + 1;
    }
    assert(pv.take(parts.len() as int) =~= pv);
    (edges, names)
}

fn import_line(line: &str) -> (r: Vec<DependencyEdge>)
    ensures
        seq_view(r@) == py_import_line(line@),
{
    let head = before_first(line, "#");
    let clean = trim_str(head.as_str());
    let c = clean.as_str();
    let empty: Vec<DependencyEdge> = Vec::new();
    assert(seq_view(empty@) =~= Seq::<ImportView>::empty());
    if c.unicode_len() == 0 {
        return empty;
    }
    if starts_with(c, "import ") {
        proof {
            reveal_strlit("import ");
        }
        let rest = drop_chars(c, 7);
        let chars = crate::text::chars_of(rest.as_str());
        let parts = split_chars(&chars, ',');
        assert(parts@.map_values(|p: Vec<char>| p@) =~= split_by(rest@, ','));
        let (edges, _) = words_of_parts(&parts, true);
        return edges;
    }
    if starts_with(c, "from ") {
        proof {
            reveal_strlit("from ");
        }
        let rest = drop_chars(c, 5);
        match after_first(rest.as_str(), " import ") {
            Some(imported) => {
                let m = before_first(rest.as_str(), " import ");
                let module = trim_str(m.as_str());
                if module.as_str().unicode_len() > 0 {
                    let a = trim_str(imported.as_str());
                    let b = trim_start_matches_char(a.as_str(), '(');
                    let inner = trim_end_matches_char(b.as_str(), ')');
                    let chars = crate::text::chars_of(inner.as_str());
                    let parts = split_chars(&chars, ',');
                    assert(parts@.map_values(|p: Vec<char>| p@) =~= split_by(inner@, ','));
                    let (_, symbols) = words_of_parts(&parts, false);
                    let e = DependencyEdge { source: module, symbols, kind: ImportKind::Named };
                    let r = vec![e];
                    assert(seq_view(r@) =~= seq![e@]);
                    return r;
                }
                return empty;
            },
            None => {
                return empty;
            },
        }
    }
    empty
}

/// The imports of a Python source, read off its lines.
pub fn py_source_imports(source: &str) -> (r: Vec<DependencyEdge>)
    ensures
        seq_view(r@) == py_imports(source@),
{
    reveal(py_imports);
    let ls = lines(source);
    let ghost lv = lines_of(source@);
    let mut out: Vec<DependencyEdge> = Vec::new();
    let mut i: usize = 0;
    assert(seq_view(out@) =~= Seq::<ImportView>::empty());
    while i < ls.len()
        invariant
            i <= ls.len(),
            views(ls@) == lv,
            lv.len() == ls@.len(),
            seq_view(out@) == collect(i as nat, py_import_at(lv)),
        decreases ls.len() - i,
    {
        assert(views(ls@)[i as int] == ls@[i as int]@);
        let more = import_line(ls[i].as_str());
        append_all(&mut out, more);
        i = i + 1;
    }
    out
}

// ─── `__all__` ──────────────────────────────────────────────────────────────

/// One line of the `__all__` scan: whether capturing has begun, the text
/// captured so far, and whether the list has closed.
pub open spec fn py_all_step(st: (bool, Seq<char>, bool), line: Seq<char>) -> (bool, Seq<char>, bool) {
    if st.2 {
        st
    } else {
        let trimmed = trim_spec(line);
        if st.0 || ("__all__"@.is_prefix_of(trimmed) && occurs_in(trimmed, "="@)) {
            (true, st.1 + trimmed, occurs_in(trimmed, "]"@) || occurs_in(trimmed, ")"@))
        } else {
            st
        }
    }
}

/// The `__all__` scan over the first `n` lines.
pub open spec fn py_all_upto(ls: Seq<Seq<char>>, n: nat) -> (bool, Seq<char>, bool)
    decreases n,
{
    if n == 0 {
        (false, Seq::empty(), false)
    } else {
        py_all_step(py_all_upto(ls, (n - 1) as nat), ls[n - 1])
    }
}

/// One character of the quoted-name scan: inside a string or not, its
/// quote, the name being read, and the names read so far.
pub open spec fn py_quote_step(st: (bool, char, Seq<char>, Seq<Seq<char>>), ch: char) -> (bool, char, Seq<char>, Seq<Seq<char>>) {
    if !st.0 {
        if ch == '"' || ch == '\'' {
            (true, ch, Seq::empty(), st.3)
        } else {
            st
        }
    } else if ch == st.1 {
        (false, '\0', st.2, if st.2.len() > 0 { st.3.push(st.2) } else { st.3 })
    } else {
        (true, st.1, st.2.push(ch), st.3)
    }
}

/// The quoted-name scan over the first `n` characters.
pub open spec fn py_quote_upto(s: Seq<char>, n: nat) -> (bool, char, Seq<char>, Seq<Seq<char>>)
    decreases n,
{
    if n == 0 {
        (false, '\0', Seq::empty(), Seq::empty())
    } else {
        py_quote_step(py_quote_upto(s, (n - 1) as nat), s[n - 1])
    }
}

/// The names a Python source lists in `__all__`, in the order written (with
/// repetitions); absent when it lists none.
#[verifier::opaque]
pub open spec fn py_dunder_all(source: Seq<char>) -> Option<Seq<Seq<char>>> {
    let ls = lines_of(source);
    let merged = py_all_upto(ls, ls.len()).1;
    if merged.len() == 0 {
        None
    } else {
        match text_after(merged, "="@) {
            Some(rhs) => {
                let names = py_quote_upto(rhs, rhs.len()).3;
                if names.len() > 0 { Some(names) } else { None }
            },
            None => None,
        }
    }
}

/// The text the `__all__` scan captures from a source's lines.
fn all_text(source: &str) -> (r: String)
    ensures
        r@ == py_all_upto(lines_of(source@), lines_of(source@).len()).1,
{
    let ls = lines(source);
    let ghost lv = lines_of(source@);
    let mut capture = false;
    let mut merged = String::new();
    let mut done = false;
    let mut i: usize = 0;
    while i < ls.len()
        invariant
            i <= ls.len(),
            views(ls@) == lv,
            lv.len() == ls@.len(),
            py_all_upto(lv, i as nat) == (capture, merged@, done),
        decreases ls.len() - i,
    {
        assert(views(ls@)[i as int] == ls@[i as int]@);
        if !done {
            let trimmed = trim_str(ls[i].as_str());
            let t = trimmed.as_str();
            if capture || (starts_with(t, "__all__") && contains(t, "=")) {
                capture = true;
                merged.append(t);
                done = contains(t, "]") || contains(t, ")");
            }
        }
        i = i + 1;
    }
    merged
}

/// The names quoted in a text, in order.
fn quoted_names(rhs: &str) -> (r: Vec<String>)
    ensures
        views(r@) == py_quote_upto(rhs@, rhs@.len()).3,
{
    let chars = crate::text::chars_of(rhs);
    let mut in_string = false;
    let mut quote = '\0';
    let mut cur: Vec<char> = Vec::new();
    let mut names: Vec<String> = Vec::new();
    let mut k: usize = 0;
    assert(views(names@) =~= Seq::<Seq<char>>::empty());
    assert(cur@ =~= Seq::<char>::empty());
    while k < chars.len()
        invariant
            k <= chars.len(),
            chars@ == rhs@,
            py_quote_upto(rhs@, k as nat) == (in_string, quote, cur@, views(names@)),
        decreases chars.len() - k,
    {
        let ch = chars[k];
        if !in_string {
            if ch == '"' || ch == '\'' {
                in_string = true;
                quote = ch;
                cur = Vec::new();
                assert(cur@ =~= Seq::<char>::empty());
            }
        } else if ch == quote {
            if cur.len() > 0 {
                let ghost nb = views(names@);
                names.push(string_of(&cur));
                assert(views(names@) =~= nb.push(cur@));
            }
            in_string = false;
            quote = '\0';
        } else {
            cur.push(ch);
        }
        k = k + 1;
    }
    names
}

/// The names a Python source lists in `__all__`, in the order written.
pub fn dunder_all_names(source: &str) -> (r: Option<Vec<String>>)
    ensures
        opt_names(r) == py_dunder_all(source@),
{
    reveal(py_dunder_all);
    let merged = all_text(source);
    if merged.as_str().unicode_len() == 0 {
        return None;
    }
    let rhs = match after_first(merged.as_str(), "=") {
        Some(x) => x,
        None => {
            return None;
        },
    };
    let names = quoted_names(rhs.as_str());
    if names.len() > 0 {
        Some(names)
    } else {
        None
    }
}

// ─── Whole files ────────────────────────────────────────────────────────────

/// The exports of `es` whose names are among `names`, in order.
pub open spec fn keep_listed(es: Seq<ExportView>, names: Seq<Seq<char>>) -> Seq<ExportView>
    decreases es.len(),
{
    if es.len() == 0 {
        Seq::empty()
    } else {
        keep_listed(es.drop_last(), names) + if names.contains(es.last().0) { seq![es.last()] } else { Seq::empty() }
    }
}

/// Whether a record lists `names` in character order without repetition, joined by commas.
pub open spec fn is_dunder_record(e: EffectView, names: Seq<Seq<char>>) -> bool {
    exists|l: Seq<Seq<char>>| strictly_sorted(l) && l.to_set() == names.to_set()
        && e == pmeta("dunder_all:"@ + join_with(l, ","@), 1)
}

/// Whether a path names a package's `__init__.py`.
pub open spec fn is_package_init(path: Seq<char>) -> bool {
    "__init__.py"@.is_suffix_of(path)
}

/// The exports of a Python file: the definitions (only those listed in
/// `__all__` when it lists any), then `__package__` for an `__init__.py`.
pub open spec fn py_exports(t: Seq<NodeView>, source: Seq<char>, path: Seq<char>) -> Seq<ExportView> {
    let base = collect(t.len(), py_export_at(t));
    (match py_dunder_all(source) {
        Some(ns) => keep_listed(base, ns),
        None => base,
    }) + if is_package_init(path) { seq![plain_export("__package__"@, ExportKind::Const, 1)] } else { Seq::empty() }
}

/// Whether `r` is the Python adapter's result for `path`, given the source and the parser's tree.
pub open spec fn is_py_result(r: FileResult, path: Seq<char>, source: Seq<char>, tree: Option<TreeView>) -> bool {
    match tree {
        None => is_treeless_result(r, path),
        Some(t) => {
            let fixed = collect(t.nodes.len(), py_effect_at(t.nodes)) + py_walk_effects(t.nodes);
            let all = py_dunder_all(source);
            let ev = seq_view(r.side_effects@);
            &&& r.file_path@ == path
            &&& r.confidence == tree_confidence(t)
            &&& opt_view(r.error_message) == tree_error(t)
            &&& seq_view(r.exports@) == py_exports(t.nodes, source, path)
            &&& seq_view(r.imports@) == py_imports(source)
            &&& seq_view(r.signatures@) == collect(t.nodes.len(), py_signature_at(t.nodes))
            &&& ev.len() == fixed.len() + (if all is Some { 1int } else { 0int }) + (if is_package_init(path) { 1int } else { 0int })
            &&& ev.take(fixed.len() as int) == fixed
            &&& (all matches Some(ns) ==> is_dunder_record(ev[fixed.len() as int], ns))
            &&& (is_package_init(path) ==> ev.last() == pmeta("package_marker:true"@, 1))
        },
    }
}

fn keep_listed_exports(es: Vec<ExportedSymbol>, names: &Vec<String>) -> (r: Vec<ExportedSymbol>)
    ensures
        seq_view(r@) == keep_listed(seq_view(es@), views(names@)),
{
    let ghost ev = seq_view(es@);
    let mut r: Vec<ExportedSymbol> = Vec::new();
    let mut k: usize = 0;
    assert(ev.take(0) =~= Seq::<ExportView>::empty());
    assert(seq_view(r@) =~= Seq::<ExportView>::empty());
    while k < es.len()
        invariant
            k <= es.len(),
            ev == seq_view(es@),
            seq_view(r@) == keep_listed(ev.take(k as int), views(names@)),
        decreases es.len() - k,
    {
        proof {
            assert(ev.take(k + 1).drop_last() =~= ev.take(k as int));
            assert(ev.take(k + 1).last() == es@[k as int]@);
        }
        let ghost before = seq_view(r@);
        if crate::text::contains_text(names, es[k].name.as_str()) {
            let e = ExportedSymbol {
                name: owned(es[k].name.as_str()),
                kind: es[k].kind,
                line: es[k].line,
                is_generated: es[k].is_generated,
                confidence: es[k].confidence,
            };
            assert(e@ == es@[k as int]@);
            r.push(e);
            assert(seq_view(r@) =~= before + seq![es@[k as int]@]);
        } else {
            assert(before + Seq::<ExportView>::empty() =~= before);
        }
        k = k + 1;
    }
    assert(ev.take(es.len() as int) =~= ev);
    r
}

/// The views of optional names.
pub open spec fn opt_names(o: Option<Vec<String>>) -> Option<Seq<Seq<char>>> {
    match o {
        Some(v) => Some(views(v@)),
        None => None,
    }
}

fn finish_listing(exports: Vec<ExportedSymbol>, effects: &mut Vec<SideEffect>, all: Option<Vec<String>>, path: &str) -> (r: Vec<ExportedSymbol>)
    ensures
        seq_view(r@) == (match opt_names(all) {
            Some(ns) => keep_listed(seq_view(exports@), ns),
            None => seq_view(exports@),
        }) + if is_package_init(path@) { seq![plain_export("__package__"@, ExportKind::Const, 1)] } else { Seq::empty() },
        seq_view(final(effects)@).len() == seq_view(old(effects)@).len()
            + (if opt_names(all) is Some { 1int } else { 0int }) + (if is_package_init(path@) { 1int } else { 0int }),
        seq_view(final(effects)@).take(seq_view(old(effects)@).len() as int) == seq_view(old(effects)@),
        opt_names(all) matches Some(ns) ==> is_dunder_record(seq_view(final(effects)@)[seq_view(old(effects)@).len() as int], ns),
        is_package_init(path@) ==> seq_view(final(effects)@).last() == pmeta("package_marker:true"@, 1),
{
    let ghost fixed = seq_view(effects@);
    let mut kept = match &all {
        Some(names) => keep_listed_exports(exports, names),
        None => exports,
    };
    match all {
        Some(names) => {
            let sorted = sorted_unique(names);
            let joined = join(&sorted, ",");
            let text = concat2("dunder_all:", joined.as_str());
            push_meta(effects, text.as_str(), 1);
            proof {
                let l = views(sorted@);
                assert(seq_view(effects@)[fixed.len() as int] == pmeta("dunder_all:"@ + join_with(l, ","@), 1));
                assert(l.to_set() == views(names@).to_set());
            }
        },
        None => {},
    }
    let ghost with_all = seq_view(effects@);
    if ends_with(path, "__init__.py") {
        let ghost kb = seq_view(kept@);
        let e = plain_export_of(owned("__package__"), ExportKind::Const, 1);
        kept.push(e);
        assert(seq_view(kept@) =~= kb + seq![e@]);
        push_meta(effects, "package_marker:true", 1);
    } else {
        assert(seq_view(kept@) + Seq::<ExportView>::empty() =~= seq_view(kept@));
    }
    assert(seq_view(effects@).take(fixed.len() as int) =~= fixed);
    assert(with_all.take(fixed.len() as int) =~= fixed);
    kept
}

/// The exports, signatures and decorator records of a Python tree's definitions.
pub fn py_definitions(t: &SyntaxTree) -> (r: (Vec<ExportedSymbol>, Vec<FunctionSignature>, Vec<SideEffect>))
    ensures
        seq_view(r.0@) == collect(t@.nodes.len(), py_export_at(t@.nodes)),
        seq_view(r.1@) == collect(t@.nodes.len(), py_signature_at(t@.nodes)),
        seq_view(r.2@) == collect(t@.nodes.len(), py_effect_at(t@.nodes)),
{
    let ghost v = t@.nodes;
    let mut exports: Vec<ExportedSymbol> = Vec::new();
    let mut signatures: Vec<FunctionSignature> = Vec::new();
    let mut effects: Vec<SideEffect> = Vec::new();
    assert(seq_view(exports@) =~= Seq::<ExportView>::empty());
    assert(seq_view(signatures@) =~= Seq::<SigView>::empty());
    assert(seq_view(effects@) =~= Seq::<EffectView>::empty());
    let mut i: usize = 0;
    while i < t.nodes.len()
        invariant
            i <= t.nodes.len(),
            v == t@.nodes,
            v.len() == t.nodes.len(),
            seq_view(exports@) == collect(i as nat, py_export_at(v)),
            seq_view(signatures@) == collect(i as nat, py_signature_at(v)),
            seq_view(effects@) == collect(i as nat, py_effect_at(v)),
        decreases t.nodes.len() - i,
    {
        visit(t, i, &mut exports, &mut signatures, &mut effects);
        i = i + 1;
    }
    (exports, signatures, effects)
}

/// The Python adapter's result for `path`, given the source and the parser's tree.
pub fn py_file_result(tree: &Option<SyntaxTree>, source: &str, path: &str) -> (r: FileResult)
    ensures
        is_py_result(r, path@, source@, opt_tree(*tree)),
        r.parse_time_ms == 0,
{
    match tree {
        None => treeless_result(path),
        Some(t) => {
            let (exports, signatures, mut effects) = py_definitions(t);
            let imports = py_source_imports(source);
            let walked = walk_effects(t);
            append_all(&mut effects, walked);
            let all = dunder_all_names(source);
            let kept = finish_listing(exports, &mut effects, all, path);
            let r = parsed_result(path, t, kept, imports, signatures, effects);
            r
        },
    }
}

/// The adapter for Python sources.
pub struct PyAdapter {}

impl PyAdapter {
    /// A new adapter.
    pub fn new() -> (a: Self) {
        PyAdapter {}
    }

    /// The language the adapter handles.
    pub fn language_name(&self) -> (r: &'static str)
        ensures
            r@ == "python"@,
    {
        "python"
    }

    /// The file extensions the adapter claims.
    pub fn file_extensions(&self) -> (r: Vec<String>)
        ensures
            views(r@) == seq!["py"@, "pyi"@],
    {
        let r = vec![owned("py"), owned("pyi")];
        assert(views(r@) =~= seq!["py"@, "pyi"@]);
        r
    }

    /// Parses a Python source file.  The parse time is measured on the clock.
    pub fn parse(&self, source: &str, file_path: &str) -> (r: FileResult)
        ensures
            is_py_result(r, file_path@, source@, python_syntax(source@)),
    {
        let start = start_timer();
        let tree = parse_python(source);
        let mut r = py_file_result(&tree, source, file_path);
        r.parse_time_ms = elapsed_ms(&start);
        r
    }
}

} // verus!
