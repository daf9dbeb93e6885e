//! Declarations as the adapters of the C family, C#, Dart, Rust, Swift and
//! Zig read them off a syntax tree: named declarations with their records,
//! parameter lists, and the lines of a source text.
use crate::modules::as_positions;
use crate::syntax::{
    child_by_field, children, children_of, field_child, kind_is, line_of, opt_text_or, plain_export,
    plain_export_of, seq_view, text_or, text_or_default, EffectView, ExportView, NodeView, ParamView,
    SigView, SyntaxTree,
};
use crate::text::{
    chars_of, concat3, join, join_with, owned, split_by, split_chars, split_words, string_of, trim_spec,
    trim_str, views, words,
};
use crate::types::{ExportKind, ExportedSymbol, FunctionSignature, Parameter, SideEffect, SideEffectKind};
use vstd::prelude::*;

verus! {

/// A metadata record `<prefix><tag>:<name>`.
pub open spec fn meta_record(prefix: Seq<char>, tag: Seq<char>, name: Seq<char>, line: nat) -> EffectView {
    (SideEffectKind::Log, prefix + tag + ":"@ + name, line)
}

/// What a named declaration at node `i` contributes: the node's child under
/// `field` names it (its text, or `?`); when it has one, an export of `kind`
/// (if given) and a record tagged `tag` (if given).  With `nonempty`, an
/// empty name contributes nothing.
pub open spec fn named_decl(
    t: Seq<NodeView>,
    i: int,
    field: Seq<char>,
    kind: Option<ExportKind>,
    prefix: Seq<char>,
    tag: Option<Seq<char>>,
    nonempty: bool,
) -> (Seq<ExportView>, Seq<EffectView>) {
    let line = line_of(t[i].row);
    match field_child(t, i, field) {
        Some(n) => {
            let name = text_or(t[n], "?"@);
            if nonempty && name.len() == 0 {
                (Seq::empty(), Seq::empty())
            } else {
                (
                    match kind {
                        Some(k) => seq![plain_export(name, k, line)],
                        None => Seq::empty(),
                    },
                    match tag {
                        Some(g) => seq![meta_record(prefix, g, name, line)],
                        None => Seq::empty(),
                    },
                )
            }
        },
        None => (Seq::empty(), Seq::empty()),
    }
}

/// The parameter a text declares when split at white space: the last word
/// names it, the words before it, joined by spaces, give its type; fewer
/// than two words declare none.
pub open spec fn spaced_param(text: Seq<char>) -> Seq<ParamView> {
    let parts = words(text);
    if parts.len() >= 2 {
        seq![(parts.last(), join_with(parts.drop_last(), " "@))]
    } else {
        Seq::empty()
    }
}

/// The parameter a text declares when split at `:`: the first piece names
/// it and the second gives its type, both trimmed; without a `:` there is none.
pub open spec fn colon_param(text: Seq<char>) -> Seq<ParamView> {
    let parts = split_by(text, ':');
    if parts.len() >= 2 {
        seq![(trim_spec(parts[0]), trim_spec(parts[1]))]
    } else {
        Seq::empty()
    }
}

/// The parameters declared by those of the nodes `ks` that have kind `pkind`.
pub open spec fn params_where(t: Seq<NodeView>, ks: Seq<int>, pkind: Seq<char>, colon: bool) -> Seq<ParamView>
    decreases ks.len(),
{
    if ks.len() == 0 {
        Seq::empty()
    } else {
        let c = ks.last();
        let text = text_or(t[c], ""@);
        params_where(t, ks.drop_last(), pkind, colon) + if t[c].kind == pkind {
            if colon { colon_param(text) } else { spaced_param(text) }
        } else {
            Seq::empty()
        }
    }
}

/// The parameters under node `p`, if there is one.
pub open spec fn param_list(t: Seq<NodeView>, p: Option<int>, pkind: Seq<char>, colon: bool) -> Seq<ParamView> {
    match p {
        Some(q) => params_where(t, children(t, q), pkind, colon),
        None => Seq::empty(),
    }
}

/// The signature of node `i` named `name`: the parameters under the node's
/// `parameters` child, and the text of its `ret` child or `default`.
pub open spec fn plain_signature(
    t: Seq<NodeView>,
    i: int,
    name: Seq<char>,
    pkind: Seq<char>,
    colon: bool,
    ret: Seq<char>,
    default: Seq<char>,
) -> SigView {
    (name, param_list(t, field_child(t, i, "parameters"@), pkind, colon), opt_text_or(t, field_child(t, i, ret), default))
}

/// What a function declaration at node `i` contributes: when its `name`
/// child names it, an export and its signature.
pub open spec fn function_decl(
    t: Seq<NodeView>,
    i: int,
    pkind: Seq<char>,
    colon: bool,
    ret: Seq<char>,
    default: Seq<char>,
) -> (Seq<ExportView>, Seq<SigView>) {
    match field_child(t, i, "name"@) {
        Some(n) => {
            let name = text_or(t[n], "?"@);
            (
                seq![plain_export(name, ExportKind::Function, line_of(t[i].row))],
                seq![plain_signature(t, i, name, pkind, colon, ret, default)],
            )
        },
        None => (Seq::empty(), Seq::empty()),
    }
}

/// A record `<prefix><tag>:<text>` on `line` for the text of node `j`; a
/// node without text gets `default` in its place, or no record when
/// `default` is absent.
pub open spec fn text_record(t: Seq<NodeView>, j: int, line: nat, prefix: Seq<char>, tag: Seq<char>, default: Option<Seq<char>>) -> Seq<EffectView> {
    match t[j].text {
        Some(x) => seq![meta_record(prefix, tag, x, line)],
        None => match default {
            Some(d) => seq![meta_record(prefix, tag, d, line)],
            None => Seq::empty(),
        },
    }
}

/// An optional depth as a natural number.
pub open spec fn opt_nat(o: Option<usize>) -> Option<nat> {
    match o {
        Some(x) => Some(x as nat),
        None => None,
    }
}

/// A record `<prefix><tag>` on `line`, carrying no name.
pub open spec fn flag_record(prefix: Seq<char>, tag: Seq<char>, line: nat) -> EffectView {
    (SideEffectKind::Log, prefix + tag, line)
}

// ─── Executable ─────────────────────────────────────────────────────────────

/// The characters of `s` from position `a` up to (not including) `b`.
pub fn slice_chars(s: &str, a: usize, b: usize) -> (r: String)
    requires
        a <= b <= s@.len(),
    ensures
        r@ == s@.subrange(a as int, b as int),
{
    let v = chars_of(s);
    let mut out: Vec<char> = Vec::new();
    let mut i: usize = a;
    while i < b
        invariant
            a <= i <= b <= v.len(),
            v@ == s@,
            out@ == v@.subrange(a as int, i as int),
        decreases b - i,
    {
        out.push(v[i]);
        i = i + 1;
        assert(out@ =~= v@.subrange(a as int, i as int));
    }
    string_of(&out)
}

/// Appends one record.
pub fn push_record(out: &mut Vec<SideEffect>, kind: SideEffectKind, target: String, line: u32)
    ensures
        seq_view(final(out)@) == seq_view(old(out)@).push((kind, target@, line as nat)),
{
    let ghost before = seq_view(out@);
    let e = SideEffect { kind, target, line };
    out.push(e);
    assert(seq_view(out@) =~= before.push(e@));
}

/// Appends the record `<prefix><tag>:<name>`.
pub fn push_meta_record(out: &mut Vec<SideEffect>, prefix: &str, tag: &str, name: &str, line: u32)
    ensures
        seq_view(final(out)@) == seq_view(old(out)@).push(meta_record(prefix@, tag@, name@, line as nat)),
{
    let mut target = concat3(prefix, tag, ":");
    target.append(name);
    push_record(out, SideEffectKind::Log, target, line);
}

/// Appends the record `<prefix><tag>`.
pub fn push_flag_record(out: &mut Vec<SideEffect>, prefix: &str, tag: &str, line: u32)
    ensures
        seq_view(final(out)@) == seq_view(old(out)@).push(flag_record(prefix@, tag@, line as nat)),
{
    push_record(out, SideEffectKind::Log, crate::text::concat2(prefix, tag), line);
}

/// Appends what the named declaration at node `i` contributes.
pub fn add_named_decl(
    t: &SyntaxTree,
    i: usize,
    field: &str,
    kind: Option<ExportKind>,
    prefix: &str,
    tag: Option<&str>,
    nonempty: bool,
    exports: &mut Vec<ExportedSymbol>,
    out: &mut Vec<SideEffect>,
)
    requires
        i < t.nodes.len(),
    ensures
        seq_view(final(exports)@) == seq_view(old(exports)@) + named_decl(
            t@.nodes,
            i as int,
            field@,
            kind,
            prefix@,
            match tag { Some(g) => Some(g@), None => None },
            nonempty,
        ).0,
        seq_view(final(out)@) == seq_view(old(out)@) + named_decl(
            t@.nodes,
            i as int,
            field@,
            kind,
            prefix@,
            match tag { Some(g) => Some(g@), None => None },
            nonempty,
        ).1,
{
    let ghost e0 = seq_view(exports@);
    let ghost o0 = seq_view(out@);
    let line = crate::syntax::node_line(t, i);
    match child_by_field(t, i, field) {
        Some(n) => {
            let name = text_or_default(t, n, "?");
            if nonempty && name.as_str().unicode_len() == 0 {
                assert(e0 + Seq::<ExportView>::empty() =~= e0);
                assert(o0 + Seq::<EffectView>::empty() =~= o0);
            } else {
                match kind {
                    Some(k) => {
                        let e = plain_export_of(owned(name.as_str()), k, line);
                        exports.push(e);
                        assert(seq_view(exports@) =~= e0 + seq![e@]);
                    },
                    None => {
                        assert(e0 + Seq::<ExportView>::empty() =~= e0);
                    },
                }
                match tag {
                    Some(g) => {
                        push_meta_record(out, prefix, g, name.as_str(), line);
                        assert(seq_view(out@) =~= o0 + seq![meta_record(prefix@, g@, name@, line as nat)]);
                    },
                    None => {
                        assert(o0 + Seq::<EffectView>::empty() =~= o0);
                    },
                }
            }
        },
        None => {
            assert(e0 + Seq::<ExportView>::empty() =~= e0);
            assert(o0 + Seq::<EffectView>::empty() =~= o0);
        },
    }
}

/// The parameter a text declares when split at white space.
fn spaced_param_of(text: &str, out: &mut Vec<Parameter>)
    ensures
        seq_view(final(out)@) == seq_view(old(out)@) + spaced_param(text@),
{
    let ghost before = seq_view(out@);
    let parts = split_words(text);
    let ghost pv = words(text@);
    if parts.len() >= 2 {
        let last = parts.len() - 1;
        let mut init: Vec<String> = Vec::new();
        let mut k: usize = 0;
        while k < last
            invariant
                k <= last,
                last + 1 == parts.len(),
                views(parts@) == pv,
                views(init@) == pv.take(k as int),
            decreases last - k,
        {
            assert(views(parts@)[k as int] == parts@[k as int]@);
            let x = owned(parts[k].as_str());
            proof {
                crate::text::lemma_views_push(init@, x);
            }
            init.push(x);
            k = k + 1;
            assert(views(init@) =~= pv.take(k as int));
        }
        assert(pv.take(last as int) =~= pv.drop_last());
        assert(views(parts@)[last as int] == parts@[last as int]@);
        let ty = join(&init, " ");
        let p = Parameter { name: owned(parts[last].as_str()), type_annotation: ty };
        out.push(p);
        assert(seq_view(out@) =~= before + seq![p@]);
    } else {
        assert(before + Seq::<ParamView>::empty() =~= before);
    }
}

/// The parameter a text declares when split at `:`.
fn colon_param_of(text: &str, out: &mut Vec<Parameter>)
    ensures
        seq_view(final(out)@) == seq_view(old(out)@) + colon_param(text@),
{
    let ghost before = seq_view(out@);
    let v = chars_of(text);
    let parts = split_chars(&v, ':');
    if parts.len() >= 2 {
        let first = string_of(&parts[0]);
        let second = string_of(&parts[1]);
        let p = Parameter { name: trim_str(first.as_str()), type_annotation: trim_str(second.as_str()) };
        out.push(p);
        assert(seq_view(out@) =~= before + seq![p@]);
    } else {
        assert(before + Seq::<ParamView>::empty() =~= before);
    }
}

/// The parameters declared by those of the nodes `ks` that have kind `pkind`.
pub fn params_from(t: &SyntaxTree, ks: &Vec<usize>, pkind: &str, colon: bool) -> (r: Vec<Parameter>)
    requires
        forall|m: int| 0 <= m < ks@.len() ==> #[trigger] ks@[m] < t.nodes.len(),
    ensures
        seq_view(r@) == params_where(t@.nodes, as_positions(ks@), pkind@, colon),
{
    let ghost v = t@.nodes;
    let ghost kv = as_positions(ks@);
    let mut r: Vec<Parameter> = Vec::new();
    let mut k: usize = 0;
    assert(kv.take(0) =~= Seq::<int>::empty());
    assert(seq_view(r@) =~= Seq::<ParamView>::empty());
    while k < ks.len()
        invariant
            k <= ks.len(),
            v == t@.nodes,
            kv == as_positions(ks@),
            forall|m: int| 0 <= m < ks@.len() ==> #[trigger] ks@[m] < t.nodes.len(),
            seq_view(r@) == params_where(v, kv.take(k as int), pkind@, colon),
        decreases ks.len() - k,
    {
        let c = ks[k];
        proof {
            assert(kv.take(k + 1).drop_last() =~= kv.take(k as int));
            assert(kv.take(k + 1).last() == c as int);
        }
        let ghost before = seq_view(r@);
        if kind_is(t, c, pkind) {
            let text = text_or_default(t, c, "");
            if colon {
                colon_param_of(text.as_str(), &mut r);
            } else {
                spaced_param_of(text.as_str(), &mut r);
            }
        } else {
            assert(before + Seq::<ParamView>::empty() =~= before);
        }
        k = k + 1;
    }
    assert(kv.take(ks.len() as int) =~= kv);
    r
}

/// The parameters under node `p`, if there is one.
pub fn params_under(t: &SyntaxTree, p: Option<usize>, pkind: &str, colon: bool) -> (r: Vec<Parameter>)
    requires
        p matches Some(q) ==> q < t.nodes.len(),
    ensures
        seq_view(r@) == param_list(t@.nodes, crate::syntax::opt_pos(p), pkind@, colon),
{
    match p {
        Some(q) => {
            let kids = children_of(t, q);
            params_from(t, &kids, pkind, colon)
        },
        None => {
            let e: Vec<Parameter> = Vec::new();
            assert(seq_view(e@) =~= Seq::<ParamView>::empty());
            e
        },
    }
}

/// The signature of node `i` named `name`.
pub fn plain_signature_of(
    t: &SyntaxTree,
    i: usize,
    name: &str,
    pkind: &str,
    colon: bool,
    ret: &str,
    default: &str,
) -> (s: FunctionSignature)
    requires
        i < t.nodes.len(),
    ensures
        s@ == plain_signature(t@.nodes, i as int, name@, pkind@, colon, ret@, default@),
{
    let parameters = params_under(t, child_by_field(t, i, "parameters"), pkind, colon);
    let return_type = crate::syntax::opt_text_or_default(t, child_by_field(t, i, ret), default);
    let s = FunctionSignature { name: owned(name), parameters, return_type };
    assert(s.parameters@.map_values(|p: Parameter| p@) == seq_view(parameters@));
    s
}

/// Appends what the function declaration at node `i` contributes.
pub fn add_function_decl(
    t: &SyntaxTree,
    i: usize,
    pkind: &str,
    colon: bool,
    ret: &str,
    default: &str,
    exports: &mut Vec<ExportedSymbol>,
    signatures: &mut Vec<FunctionSignature>,
)
    requires
        i < t.nodes.len(),
    ensures
        seq_view(final(exports)@) == seq_view(old(exports)@) + function_decl(t@.nodes, i as int, pkind@, colon, ret@, default@).0,
        seq_view(final(signatures)@) == seq_view(old(signatures)@) + function_decl(t@.nodes, i as int, pkind@, colon, ret@, default@).1,
{
    let ghost e0 = seq_view(exports@);
    let ghost s0 = seq_view(signatures@);
    match child_by_field(t, i, "name") {
        Some(n) => {
            let name = text_or_default(t, n, "?");
            let line = crate::syntax::node_line(t, i);
            let e = plain_export_of(owned(name.as_str()), ExportKind::Function, line);
            exports.push(e);
            assert(seq_view(exports@) =~= e0 + seq![e@]);
            let sig = plain_signature_of(t, i, name.as_str(), pkind, colon, ret, default);
            signatures.push(sig);
            assert(seq_view(signatures@) =~= s0 + seq![sig@]);
        },
        None => {
            assert(e0 + Seq::<ExportView>::empty() =~= e0);
            assert(s0 + Seq::<SigView>::empty() =~= s0);
        },
    }
}

/// Appends the record `<prefix><tag>:<text>` for node `j` on `line`.
pub fn add_text_record(t: &SyntaxTree, j: usize, line: u32, prefix: &str, tag: &str, default: Option<&str>, out: &mut Vec<SideEffect>)
    requires
        j < t.nodes.len(),
    ensures
        seq_view(final(out)@) == seq_view(old(out)@) + text_record(
            t@.nodes,
            j as int,
            line as nat,
            prefix@,
            tag@,
            match default { Some(d) => Some(d@), None => None },
        ),
{
    let ghost o0 = seq_view(out@);
    assert(t@.nodes[j as int] == t.nodes@[j as int]@);
    match &t.nodes[j].text {
        Some(x) => {
            push_meta_record(out, prefix, tag, x.as_str(), line);
            assert(seq_view(out@) =~= o0 + seq![meta_record(prefix@, tag@, x@, line as nat)]);
        },
        None => match default {
            Some(d) => {
                push_meta_record(out, prefix, tag, d, line);
                assert(seq_view(out@) =~= o0 + seq![meta_record(prefix@, tag@, d@, line as nat)]);
            },
            None => {
                assert(o0 + Seq::<EffectView>::empty() =~= o0);
            },
        },
    }
}

} // verus!
