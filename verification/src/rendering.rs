//! A parse result written as its `Debug` rendering: the text a module's
//! fingerprint is taken over.  The layout is that of the derived `Debug`
//! (`Name { field: value, .. }`, lists in brackets, variant names); strings
//! are quoted and escaped as `str`'s `Debug` does.
use crate::text::{concat2, concat3, decimal, decimal_string, join, join_with, lemma_views_push, owned, views};
use crate::types::{
    ConfidenceBand, DependencyEdge, ExportKind, ExportedSymbol, FileResult, FunctionSignature, ImportKind, Parameter,
};
use vstd::prelude::*;

verus! {

/// What `{:?}` prints for a string: the quoted, escaped text.
pub uninterp spec fn str_debug(s: Seq<char>) -> Seq<char>;

/// Trusted: `format!("{:?}", s)`, std's `Debug` for `str`; the text is the
/// named [`str_debug`] of `s`.
#[verifier::external_body]
fn debug_str(s: &str) -> (r: String)
    ensures
        r@ == str_debug(s@),
{
    format!("{:?}", s)
}

/// A list as `Debug` prints it: the items between brackets, separated by `, `.
pub open spec fn list_debug(items: Seq<Seq<char>>) -> Seq<char> {
    "["@ + join_with(items, ", "@) + "]"@
}

/// The variant name of an export kind.
pub open spec fn export_kind_debug(k: ExportKind) -> Seq<char> {
    match k {
        ExportKind::Function => "Function"@,
        ExportKind::Class => "Class"@,
        ExportKind::Const => "Const"@,
        ExportKind::Let => "Let"@,
        ExportKind::Var => "Var"@,
        ExportKind::Type => "Type"@,
        ExportKind::Interface => "Interface"@,
        ExportKind::Enum => "Enum"@,
    }
}

/// The variant name of an import kind.
pub open spec fn import_kind_debug(k: ImportKind) -> Seq<char> {
    match k {
        ImportKind::Named => "Named"@,
        ImportKind::Default => "Default"@,
        ImportKind::Namespace => "Namespace"@,
    }
}

/// The variant name of a confidence band; the band without confidence is
/// written `None`, its name in the serialised format.
pub open spec fn confidence_debug(c: ConfidenceBand) -> Seq<char> {
    match c {
        ConfidenceBand::High => "High"@,
        ConfidenceBand::Low => "Low"@,
        ConfidenceBand::NoConfidence => "None"@,
    }
}

/// A boolean as `Debug` prints it.
pub open spec fn bool_debug(b: bool) -> Seq<char> {
    if b { "true"@ } else { "false"@ }
}

/// An exported symbol as `Debug` prints it.
pub open spec fn export_debug(e: ExportedSymbol) -> Seq<char> {
    "ExportedSymbol { name: "@ + str_debug(e.name@) + ", kind: "@ + export_kind_debug(e.kind) + ", line: "@
        + decimal(e.line as nat) + ", is_generated: "@ + bool_debug(e.is_generated) + ", confidence: "@
        + confidence_debug(e.confidence) + " }"@
}

/// An import edge as `Debug` prints it.
pub open spec fn edge_debug(d: DependencyEdge) -> Seq<char> {
    "DependencyEdge { source: "@ + str_debug(d.source@) + ", symbols: "@ + list_debug(
        d.symbols@.map_values(|s: String| str_debug(s@)),
    ) + ", kind: "@ + import_kind_debug(d.kind) + " }"@
}

/// A parameter as `Debug` prints it.
pub open spec fn param_debug(p: Parameter) -> Seq<char> {
    "Parameter { name: "@ + str_debug(p.name@) + ", type_annotation: "@ + str_debug(p.type_annotation@) + " }"@
}

/// A signature as `Debug` prints it.
pub open spec fn signature_debug(s: FunctionSignature) -> Seq<char> {
    "FunctionSignature { name: "@ + str_debug(s.name@) + ", parameters: "@ + list_debug(
        s.parameters@.map_values(|p: Parameter| param_debug(p)),
    ) + ", return_type: "@ + str_debug(s.return_type@) + " }"@
}

/// What `format!("{}:{:?}:{:?}:{:?}", path, exports, imports, signatures)`
/// renders.
pub open spec fn debug_rendering(
    path: Seq<char>,
    exports: Seq<ExportedSymbol>,
    imports: Seq<DependencyEdge>,
    signatures: Seq<FunctionSignature>,
) -> Seq<char> {
    path + ":"@ + list_debug(exports.map_values(|e: ExportedSymbol| export_debug(e))) + ":"@ + list_debug(
        imports.map_values(|d: DependencyEdge| edge_debug(d)),
    ) + ":"@ + list_debug(signatures.map_values(|s: FunctionSignature| signature_debug(s)))
}

// ─── Executable ─────────────────────────────────────────────────────────────

fn list_text(items: &Vec<String>) -> (r: String)
    ensures
        r@ == list_debug(views(items@)),
{
    let inner = join(items, ", ");
    concat3("[", inner.as_str(), "]")
}

fn export_kind_text(k: ExportKind) -> (r: &'static str)
    ensures
        r@ == export_kind_debug(k),
{
    match k {
        ExportKind::Function => "Function",
        ExportKind::Class => "Class",
        ExportKind::Const => "Const",
        ExportKind::Let => "Let",
        ExportKind::Var => "Var",
        ExportKind::Type => "Type",
        ExportKind::Interface => "Interface",
        ExportKind::Enum => "Enum",
    }
}

fn import_kind_text(k: ImportKind) -> (r: &'static str)
    ensures
        r@ == import_kind_debug(k),
{
    match k {
        ImportKind::Named => "Named",
        ImportKind::Default => "Default",
        ImportKind::Namespace => "Namespace",
    }
}

fn confidence_text(c: ConfidenceBand) -> (r: &'static str)
    ensures
        r@ == confidence_debug(c),
{
    match c {
        ConfidenceBand::High => "High",
        ConfidenceBand::Low => "Low",
        ConfidenceBand::NoConfidence => "None",
    }
}

/// An exported symbol as `Debug` prints it.
pub fn export_text(e: &ExportedSymbol) -> (r: String)
    ensures
        r@ == export_debug(*e),
{
    let mut r = concat2("ExportedSymbol { name: ", debug_str(e.name.as_str()).as_str());
    r.append(", kind: ");
    r.append(export_kind_text(e.kind));
    r.append(", line: ");
    r.append(decimal_string(e.line as usize).as_str());
    r.append(", is_generated: ");
    r.append(if e.is_generated { "true" } else { "false" });
    r.append(", confidence: ");
    r.append(confidence_text(e.confidence));
    r.append(" }");
    r
}

fn quoted_all(xs: &Vec<String>) -> (r: Vec<String>)
    ensures
        views(r@) == xs@.map_values(|s: String| str_debug(s@)),
{
    let mut r: Vec<String> = Vec::new();
    let mut i: usize = 0;
    while i < xs.len()
        invariant
            i <= xs.len(),
            views(r@) == xs@.take(i as int).map_values(|s: String| str_debug(s@)),
        decreases xs.len() - i,
    {
        let q = debug_str(xs[i].as_str());
        proof {
            lemma_views_push(r@, q);
        }
        r.push(q);
        i = i + 1;
        assert(views(r@) =~= xs@.take(i as int).map_values(|s: String| str_debug(s@)));
    }
    assert(xs@.take(xs.len() as int) =~= xs@);
    r
}

/// An import edge as `Debug` prints it.
pub fn edge_text(d: &DependencyEdge) -> (r: String)
    ensures
        r@ == edge_debug(*d),
{
    let symbols = list_text(&quoted_all(&d.symbols));
    let mut r = concat2("DependencyEdge { source: ", debug_str(d.source.as_str()).as_str());
    r.append(", symbols: ");
    r.append(symbols.as_str());
    r.append(", kind: ");
    r.append(import_kind_text(d.kind));
    r.append(" }");
    r
}

fn param_text(p: &Parameter) -> (r: String)
    ensures
        r@ == param_debug(*p),
{
    let mut r = concat2("Parameter { name: ", debug_str(p.name.as_str()).as_str());
    r.append(", type_annotation: ");
    r.append(debug_str(p.type_annotation.as_str()).as_str());
    r.append(" }");
    r
}

/// A signature as `Debug` prints it.
pub fn signature_text(s: &FunctionSignature) -> (r: String)
    ensures
        r@ == signature_debug(*s),
{
    let mut ps: Vec<String> = Vec::new();
    let mut i: usize = 0;
    while i < s.parameters.len()
        invariant
            i <= s.parameters.len(),
            views(ps@) == s.parameters@.take(i as int).map_values(|p: Parameter| param_debug(p)),
        decreases s.parameters.len() - i,
    {
        let t = param_text(&s.parameters[i]);
        proof {
            lemma_views_push(ps@, t);
        }
        ps.push(t);
        i = i + 1;
        assert(views(ps@) =~= s.parameters@.take(i as int).map_values(|p: Parameter| param_debug(p)));
    }
    assert(s.parameters@.take(s.parameters.len() as int) =~= s.parameters@);
    let params = list_text(&ps);
    let mut r = concat2("FunctionSignature { name: ", debug_str(s.name.as_str()).as_str());
    r.append(", parameters: ");
    r.append(params.as_str());
    r.append(", return_type: ");
    r.append(debug_str(s.return_type.as_str()).as_str());
    r.append(" }");
    r
}

/// A parse result as `format!("{}:{:?}:{:?}:{:?}", path, exports, imports,
/// signatures)` renders it.
pub fn render_debug(fr: &FileResult) -> (s: String)
    ensures
        s@ == debug_rendering(fr.file_path@, fr.exports@, fr.imports@, fr.signatures@),
{
    let mut es: Vec<String> = Vec::new();
    let mut i: usize = 0;
    while i < fr.exports.len()
        invariant
            i <= fr.exports.len(),
            views(es@) == fr.exports@.take(i as int).map_values(|e: ExportedSymbol| export_debug(e)),
        decreases fr.exports.len() - i,
    {
        let t = export_text(&fr.exports[i]);
        proof {
            lemma_views_push(es@, t);
        }
        es.push(t);
        i = i + 1;
        assert(views(es@) =~= fr.exports@.take(i as int).map_values(|e: ExportedSymbol| export_debug(e)));
    }
    assert(fr.exports@.take(fr.exports.len() as int) =~= fr.exports@);
    let mut ds: Vec<String> = Vec::new();
    let mut j: usize = 0;
    while j < fr.imports.len()
        invariant
            j <= fr.imports.len(),
            views(ds@) == fr.imports@.take(j as int).map_values(|d: DependencyEdge| edge_debug(d)),
        decreases fr.imports.len() - j,
    {
        let t = edge_text(&fr.imports[j]);
        proof {
            lemma_views_push(ds@, t);
        }
        ds.push(t);
        j = j + 1;
        assert(views(ds@) =~= fr.imports@.take(j as int).map_values(|d: DependencyEdge| edge_debug(d)));
    }
    assert(fr.imports@.take(fr.imports.len() as int) =~= fr.imports@);
    let mut ss: Vec<String> = Vec::new();
    let mut k: usize = 0;
    while k < fr.signatures.len()
        invariant
            k <= fr.signatures.len(),
            views(ss@) == fr.signatures@.take(k as int).map_values(|s: FunctionSignature| signature_debug(s)),
        decreases fr.signatures.len() - k,
    {
        let t = signature_text(&fr.signatures[k]);
        proof {
            lemma_views_push(ss@, t);
        }
        ss.push(t);
        k = k + 1;
        assert(views(ss@) =~= fr.signatures@.take(k as int).map_values(|s: FunctionSignature| signature_debug(s)));
    }
    assert(fr.signatures@.take(fr.signatures.len() as int) =~= fr.signatures@);
    let mut r = concat2(fr.file_path.as_str(), ":");
    r.append(list_text(&es).as_str());
    r.append(":");
    r.append(list_text(&ds).as_str());
    r.append(":");
    r.append(list_text(&ss).as_str());
    r
}

} // verus!
