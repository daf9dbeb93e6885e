//! Source and semantic fingerprints.
//!
//! The source fingerprint is the SHA-256 of the raw source bytes.  The
//! semantic fingerprint is the SHA-256 of a canonical JSON text of a parse
//! result that leaves out line numbers and sorts every collection, so it is
//! stable across formatting changes and reorderings.
use crate::order::{lemma_sorted_empty, lemma_sorted_rank_perm, lemma_view_seq_push, Lex2, RankedList, lemma_map_multiset, lemma_rank_total_ordering, lemma_sorted_unique, rank_order, sort_ranked, sorted_rank, view_seq, Ranked};
use crate::text::{chars_of, join_with, string_of, views};
use crate::types::{ConfidenceBand, DependencyEdge, ExportKind, ExportedSymbol, FileResult, FunctionSignature, ImportKind, Parameter, SideEffect, SideEffectKind};
use crate::mirror_types::FingerprintResult;
use sha2::Digest;
use vstd::prelude::*;

verus! {

// ─── SHA-256 ────────────────────────────────────────────────────────────────

/// The SHA-256 digest of a byte sequence (what `sha2::Sha256::digest` computes).
pub uninterp spec fn sha256_of(data: Seq<u8>) -> Seq<u8>;

/// Trusted: `sha2::Sha256::digest` through the `Digest` trait; the result is
/// the named `sha256_of` of the input and is 32 bytes long (the output size
/// of `Sha256`).
#[verifier::external_body]
fn sha256_digest(data: &[u8]) -> (d: Vec<u8>)
    ensures
        d@ == sha256_of(data@),
        d@.len() == 32,
{
    sha2::Sha256::digest(data).to_vec()
}

// ─── Hex ────────────────────────────────────────────────────────────────────

/// The lower-case hexadecimal digit for `d < 16`.
pub open spec fn hex_digit(d: nat) -> char {
    if d < 10 {
        crate::text::digit_char(d)
    } else if d == 10 { 'a' }
    else if d == 11 { 'b' }
    else if d == 12 { 'c' }
    else if d == 13 { 'd' }
    else if d == 14 { 'e' }
    else { 'f' }
}

/// Two lower-case hex digits per byte (what `{:02x}` prints for each byte).
pub open spec fn hex_of(bytes: Seq<u8>) -> Seq<char>
    decreases bytes.len(),
{
    if bytes.len() == 0 {
        Seq::<char>::empty()
    } else {
        hex_of(bytes.drop_last()) + seq![hex_digit((bytes.last() / 16) as nat), hex_digit((bytes.last() % 16) as nat)]
    }
}

fn hex_char(d: u8) -> (c: char)
    requires
        d < 16,
    ensures
        c == hex_digit(d as nat),
{
    if d == 0 { '0' }
    else if d == 1 { '1' }
    else if d == 2 { '2' }
    else if d == 3 { '3' }
    else if d == 4 { '4' }
    else if d == 5 { '5' }
    else if d == 6 { '6' }
    else if d == 7 { '7' }
    else if d == 8 { '8' }
    else if d == 9 { '9' }
    else if d == 10 { 'a' }
    else if d == 11 { 'b' }
    else if d == 12 { 'c' }
    else if d == 13 { 'd' }
    else if d == 14 { 'e' }
    else { 'f' }
}

/// Lower-case hex encoding of bytes.
pub fn hex_encode(bytes: &[u8]) -> (s: Vec<char>)
    ensures
        s@ == hex_of(bytes@),
{
    let mut s: Vec<char> = Vec::new();
    let mut i: usize = 0;
    while i < bytes.len()
        invariant
            i <= bytes@.len(),
            s@ == hex_of(bytes@.take(i as int)),
        decreases bytes.len() - i,
    {
        assert(bytes@.take(i + 1).drop_last() =~= bytes@.take(i as int));
        assert(bytes@.take(i + 1).last() == bytes@[i as int]);
        let b = bytes[i];
        s.push(hex_char(b / 16));
        s.push(hex_char(b % 16));
        i = i + 1;
        assert(s@ =~= hex_of(bytes@.take(i as int)));
    }
    assert(bytes@.take(bytes@.len() as int) =~= bytes@);
    s
}

/// `sha256:` followed by the hex SHA-256 of the bytes.
pub open spec fn digest_text(bytes: Seq<u8>) -> Seq<char> {
    "sha256:"@ + hex_of(sha256_of(bytes))
}

/// Two hex digits per byte.
pub proof fn lemma_hex_of_len(bytes: Seq<u8>)
    ensures
        hex_of(bytes).len() == 2 * bytes.len(),
    decreases bytes.len(),
{
    if bytes.len() > 0 {
        lemma_hex_of_len(bytes.drop_last());
    }
}

fn digest_string(bytes: &[u8]) -> (s: String)
    ensures
        s@ == digest_text(bytes@),
        s@.len() == 71,
        s@.take(7) == "sha256:"@,
        sha256_of(bytes@).len() == 32,
{
    let d = sha256_digest(bytes);
    let h = hex_encode(d.as_slice());
    let mut out = chars_of("sha256:");
    let ghost prefix = out@;
    let mut i: usize = 0;
    while i < h.len()
        invariant
            i <= h.len(),
            prefix == "sha256:"@,
            out@ == prefix + h@.take(i as int),
        decreases h.len() - i,
    {
        out.push(h[i]);
        i = i + 1;
        assert(out@ =~= prefix + h@.take(i as int));
    }
    assert(h@.take(h.len() as int) =~= h@);
    proof {
        lemma_hex_of_len(d@);
        reveal_strlit("sha256:");
        assert(out@.take(7) =~= "sha256:"@);
    }
    string_of(&out)
}

/// The source fingerprint of a text: the digest of its UTF-8 bytes.
pub open spec fn source_fingerprint(source: Seq<char>) -> Seq<char> {
    digest_text(vstd::utf8::encode_utf8(source))
}

/// Source fingerprint: SHA-256 of the raw source bytes, with no normalisation.
pub fn compute_source_fingerprint(source: &str) -> (fp: String)
    ensures
        fp@ == source_fingerprint(source@),
        fp@.len() == 71,
        fp@.take(7) == "sha256:"@,
{
    let bytes = source.as_bytes();
    digest_string(bytes)
}

// ─── JSON text ──────────────────────────────────────────────────────────────

/// How one character is written inside a JSON string (as serde_json writes it).
pub open spec fn escape_char(c: char) -> Seq<char> {
    if c == '"' {
        seq!['\\', '"']
    } else if c == '\\' {
        seq!['\\', '\\']
    } else if c == '\n' {
        seq!['\\', 'n']
    } else if c == '\r' {
        seq!['\\', 'r']
    } else if c == '\t' {
        seq!['\\', 't']
    } else if c == '\x08' {
        seq!['\\', 'b']
    } else if c == '\x0c' {
        seq!['\\', 'f']
    } else if (c as u32) < 0x20 {
        seq!['\\', 'u', '0', '0', hex_digit(((c as u32) / 16) as nat), hex_digit(((c as u32) % 16) as nat)]
    } else {
        seq![c]
    }
}

/// The escaped characters of a text.
pub open spec fn escape_text(s: Seq<char>) -> Seq<char>
    decreases s.len(),
{
    if s.len() == 0 {
        Seq::<char>::empty()
    } else {
        escape_text(s.drop_last()) + escape_char(s.last())
    }
}

/// A JSON string literal holding `s`.
pub open spec fn json_str(s: Seq<char>) -> Seq<char> {
    seq!['"'] + escape_text(s) + seq!['"']
}

fn append(out: &mut Vec<char>, s: &Vec<char>)
    ensures
        final(out)@ == old(out)@ + s@,
{
    let ghost start = out@;
    let mut i: usize = 0;
    while i < s.len()
        invariant
            i <= s.len(),
            out@ == start + s@.take(i as int),
        decreases s.len() - i,
    {
        out.push(s[i]);
        i = i + 1;
        assert(out@ =~= start + s@.take(i as int));
    }
    assert(s@.take(s.len() as int) =~= s@);
}

fn append_str(out: &mut Vec<char>, s: &str)
    ensures
        final(out)@ == old(out)@ + s@,
{
    let v = chars_of(s);
    append(out, &v);
}

fn escape_one(out: &mut Vec<char>, c: char)
    ensures
        final(out)@ == old(out)@ + escape_char(c),
{
    let ghost start = out@;
    if c == '"' {
        out.push('\\');
        out.push('"');
    } else if c == '\\' {
        out.push('\\');
        out.push('\\');
    } else if c == '\n' {
        out.push('\\');
        out.push('n');
    } else if c == '\r' {
        out.push('\\');
        out.push('r');
    } else if c == '\t' {
        out.push('\\');
        out.push('t');
    } else if c == '\x08' {
        out.push('\\');
        out.push('b');
    } else if c == '\x0c' {
        out.push('\\');
        out.push('f');
    } else if (c as u32) < 0x20 {
        let code = c as u32;
        out.push('\\');
        out.push('u');
        out.push('0');
        out.push('0');
        out.push(hex_char((code / 16) as u8));
        out.push(hex_char((code % 16) as u8));
    } else {
        out.push(c);
    }
    assert(out@ =~= start + escape_char(c));
}

fn append_json_str(out: &mut Vec<char>, s: &Vec<char>)
    ensures
        final(out)@ == old(out)@ + json_str(s@),
{
    let ghost start = out@;
    out.push('"');
    let mut i: usize = 0;
    while i < s.len()
        invariant
            i <= s.len(),
            out@ == start + seq!['"'] + escape_text(s@.take(i as int)),
        decreases s.len() - i,
    {
        assert(s@.take(i + 1).drop_last() =~= s@.take(i as int));
        assert(s@.take(i + 1).last() == s@[i as int]);
        escape_one(out, s[i]);
        i = i + 1;
        assert(out@ =~= start + seq!['"'] + escape_text(s@.take(i as int)));
    }
    assert(s@.take(s.len() as int) =~= s@);
    out.push('"');
    assert(out@ =~= start + json_str(s@));
}

fn join_rendered(items: &Vec<Vec<char>>) -> (out: Vec<char>)
    ensures
        out@ == join_with(view_seq(items@), ","@),
{
    let ghost vs = view_seq(items@);
    let mut out: Vec<char> = Vec::new();
    let mut i: usize = 0;
    while i < items.len()
        invariant
            i <= items.len(),
            vs == view_seq(items@),
            out@ == join_with(vs.take(i as int), ","@),
        decreases items.len() - i,
    {
        assert(vs.take(i + 1).drop_last() =~= vs.take(i as int));
        assert(vs[i as int] == items@[i as int]@);
        if i > 0 {
            append_str(&mut out, ",");
        } else {
            assert(vs.take(1) =~= seq![vs[0]]);
        }
        append(&mut out, &items[i]);
        i = i + 1;
    }
    assert(vs.take(items.len() as int) =~= vs);
    out
}

// ─── Canonical semantic object ─────────────────────────────────────────────

/// A pair of texts ranked by its first text, then its second.
pub type TextPair = Lex2<Vec<char>, Vec<char>>;

/// A canonical import: kind, then source, then the sorted symbol list.
pub type CanonImport = Lex2<Vec<char>, Lex2<Vec<char>, RankedList<Vec<char>>>>;

/// A canonical signature: name, then sorted parameters, then return type.
pub type CanonSig = Lex2<Vec<char>, Lex2<RankedList<TextPair>, Vec<char>>>;

/// The lower-case name of a confidence band.
pub open spec fn confidence_name(c: ConfidenceBand) -> Seq<char> {
    match c {
        ConfidenceBand::High => "high"@,
        ConfidenceBand::Low => "low"@,
        ConfidenceBand::NoConfidence => "none"@,
    }
}

/// The lower-case name of an export kind.
pub open spec fn export_kind_name(k: ExportKind) -> Seq<char> {
    match k {
        ExportKind::Function => "function"@,
        ExportKind::Class => "class"@,
        ExportKind::Const => "const"@,
        ExportKind::Let => "let"@,
        ExportKind::Var => "var"@,
        ExportKind::Type => "type"@,
        ExportKind::Interface => "interface"@,
        ExportKind::Enum => "enum"@,
    }
}

/// The lower-case name of an import kind.
pub open spec fn import_kind_name(k: ImportKind) -> Seq<char> {
    match k {
        ImportKind::Named => "named"@,
        ImportKind::Default => "default"@,
        ImportKind::Namespace => "namespace"@,
    }
}

/// The lower-case name of a side-effect kind.
pub open spec fn side_effect_kind_name(k: SideEffectKind) -> Seq<char> {
    match k {
        SideEffectKind::Io => "io"@,
        SideEffectKind::Network => "network"@,
        SideEffectKind::Storage => "storage"@,
        SideEffectKind::Log => "log"@,
    }
}

/// The name of a confidence band.
pub fn confidence_to_string(band: &ConfidenceBand) -> (s: String)
    ensures
        s@ == confidence_name(*band),
{
    match band {
        ConfidenceBand::High => String::from_str("high"),
        ConfidenceBand::Low => String::from_str("low"),
        ConfidenceBand::NoConfidence => String::from_str("none"),
    }
}

/// The name of an export kind.
pub fn export_kind_to_string(kind: &ExportKind) -> (s: String)
    ensures
        s@ == export_kind_name(*kind),
{
    match kind {
        ExportKind::Function => String::from_str("function"),
        ExportKind::Class => String::from_str("class"),
        ExportKind::Const => String::from_str("const"),
        ExportKind::Let => String::from_str("let"),
        ExportKind::Var => String::from_str("var"),
        ExportKind::Type => String::from_str("type"),
        ExportKind::Interface => String::from_str("interface"),
        ExportKind::Enum => String::from_str("enum"),
    }
}

/// The name of an import kind.
pub fn import_kind_to_string(kind: &ImportKind) -> (s: String)
    ensures
        s@ == import_kind_name(*kind),
{
    match kind {
        ImportKind::Named => String::from_str("named"),
        ImportKind::Default => String::from_str("default"),
        ImportKind::Namespace => String::from_str("namespace"),
    }
}

/// The name of a side-effect kind.
pub fn side_effect_kind_to_string(kind: &SideEffectKind) -> (s: String)
    ensures
        s@ == side_effect_kind_name(*kind),
{
    match kind {
        SideEffectKind::Io => String::from_str("io"),
        SideEffectKind::Network => String::from_str("network"),
        SideEffectKind::Storage => String::from_str("storage"),
        SideEffectKind::Log => String::from_str("log"),
    }
}

/// An export without its line: (kind, name).
pub open spec fn export_item(e: ExportedSymbol) -> (Seq<char>, Seq<char>) {
    (export_kind_name(e.kind), e.name@)
}

/// An import with sorted symbols: (kind, (source, symbols)).
pub open spec fn import_item(d: DependencyEdge) -> (Seq<char>, (Seq<char>, Seq<Seq<char>>)) {
    (import_kind_name(d.kind), (d.source@, sorted_rank::<Vec<char>>(views(d.symbols@))))
}

/// A side effect without its line: (kind, target).
pub open spec fn side_item(s: SideEffect) -> (Seq<char>, Seq<char>) {
    (side_effect_kind_name(s.kind), s.target@)
}

/// A parameter: (name, type annotation).
pub open spec fn param_item(p: Parameter) -> (Seq<char>, Seq<char>) {
    (p.name@, p.type_annotation@)
}

/// A signature with sorted parameters: (name, (parameters, return type)).
pub open spec fn sig_item(s: FunctionSignature) -> (Seq<char>, (Seq<(Seq<char>, Seq<char>)>, Seq<char>)) {
    (s.name@, (sorted_rank::<TextPair>(s.parameters@.map_values(|p: Parameter| param_item(p))), s.return_type@))
}

/// The canonical exports: sorted by kind, then name.
pub open spec fn canon_exports(fr: FileResult) -> Seq<(Seq<char>, Seq<char>)> {
    sorted_rank::<TextPair>(fr.exports@.map_values(|e: ExportedSymbol| export_item(e)))
}

/// The canonical imports: sorted by kind, source, then symbols.
pub open spec fn canon_imports(fr: FileResult) -> Seq<(Seq<char>, (Seq<char>, Seq<Seq<char>>))> {
    sorted_rank::<CanonImport>(fr.imports@.map_values(|d: DependencyEdge| import_item(d)))
}

/// The canonical side effects: sorted by kind, then target.
pub open spec fn canon_side_effects(fr: FileResult) -> Seq<(Seq<char>, Seq<char>)> {
    sorted_rank::<TextPair>(fr.side_effects@.map_values(|s: SideEffect| side_item(s)))
}

/// The canonical signatures: sorted by name, parameters, then return type.
pub open spec fn canon_signatures(fr: FileResult) -> Seq<(Seq<char>, (Seq<(Seq<char>, Seq<char>)>, Seq<char>))> {
    sorted_rank::<CanonSig>(fr.signatures@.map_values(|s: FunctionSignature| sig_item(s)))
}

/// `{"kind":..,"name":..}`.
pub open spec fn export_json(x: (Seq<char>, Seq<char>)) -> Seq<char> {
    "{\"kind\":"@ + json_str(x.0) + ",\"name\":"@ + json_str(x.1) + "}"@
}

/// `{"kind":..,"source":..,"symbols":[..]}`.
pub open spec fn import_json(x: (Seq<char>, (Seq<char>, Seq<Seq<char>>))) -> Seq<char> {
    "{\"kind\":"@ + json_str(x.0) + ",\"source\":"@ + json_str(x.1.0) + ",\"symbols\":["@
        + join_with(x.1.1.map_values(|s: Seq<char>| json_str(s)), ","@) + "]}"@
}

/// `{"kind":..,"target":..}`.
pub open spec fn side_json(x: (Seq<char>, Seq<char>)) -> Seq<char> {
    "{\"kind\":"@ + json_str(x.0) + ",\"target\":"@ + json_str(x.1) + "}"@
}

/// `{"name":..,"type_annotation":..}`.
pub open spec fn param_json(x: (Seq<char>, Seq<char>)) -> Seq<char> {
    "{\"name\":"@ + json_str(x.0) + ",\"type_annotation\":"@ + json_str(x.1) + "}"@
}

/// `{"name":..,"parameters":[..],"return_type":..}`.
pub open spec fn sig_json(x: (Seq<char>, (Seq<(Seq<char>, Seq<char>)>, Seq<char>))) -> Seq<char> {
    "{\"name\":"@ + json_str(x.0) + ",\"parameters\":["@
        + join_with(x.1.0.map_values(|p: (Seq<char>, Seq<char>)| param_json(p)), ","@)
        + "],\"return_type\":"@ + json_str(x.1.1) + "}"@
}

/// The canonical JSON text of a parse result: confidence, exports, imports,
/// side effects and signatures, each collection sorted, no line numbers.
pub open spec fn canonical_json(fr: FileResult) -> Seq<char> {
    "{\"confidence\":"@ + json_str(confidence_name(fr.confidence))
        + ",\"exports\":["@ + join_with(canon_exports(fr).map_values(|x: (Seq<char>, Seq<char>)| export_json(x)), ","@)
        + "],\"imports\":["@ + join_with(canon_imports(fr).map_values(|x: (Seq<char>, (Seq<char>, Seq<Seq<char>>))| import_json(x)), ","@)
        + "],\"side_effects\":["@ + join_with(canon_side_effects(fr).map_values(|x: (Seq<char>, Seq<char>)| side_json(x)), ","@)
        + "],\"signatures\":["@ + join_with(canon_signatures(fr).map_values(|x: (Seq<char>, (Seq<(Seq<char>, Seq<char>)>, Seq<char>))| sig_json(x)), ","@)
        + "]}"@
}

/// The semantic fingerprint of a parse result: the digest of its canonical JSON text.
pub open spec fn semantic_fingerprint(fr: FileResult) -> Seq<char> {
    digest_text(vstd::utf8::encode_utf8(canonical_json(fr)))
}

/// The canonical JSON text of a parse result that has no exports, imports,
/// side effects or signatures.
pub open spec fn empty_result_json(c: ConfidenceBand) -> Seq<char> {
    "{\"confidence\":"@ + json_str(confidence_name(c))
        + ",\"exports\":[],\"imports\":[],\"side_effects\":[],\"signatures\":[]}"@
}

/// A parse result without exports, imports, side effects or signatures has
/// the canonical JSON text [`empty_result_json`] of its confidence.
pub proof fn lemma_empty_result_json(fr: FileResult)
    requires
        fr.exports@.len() == 0,
        fr.imports@.len() == 0,
        fr.side_effects@.len() == 0,
        fr.signatures@.len() == 0,
    ensures
        canonical_json(fr) == empty_result_json(fr.confidence),
{
    lemma_sorted_empty::<TextPair>(fr.exports@.map_values(|e: ExportedSymbol| export_item(e)));
    lemma_sorted_empty::<CanonImport>(fr.imports@.map_values(|d: DependencyEdge| import_item(d)));
    lemma_sorted_empty::<TextPair>(fr.side_effects@.map_values(|s: SideEffect| side_item(s)));
    lemma_sorted_empty::<CanonSig>(fr.signatures@.map_values(|s: FunctionSignature| sig_item(s)));
    assert(canon_exports(fr).map_values(|x: (Seq<char>, Seq<char>)| export_json(x)).len() == 0);
    assert(canon_imports(fr).map_values(|x: (Seq<char>, (Seq<char>, Seq<Seq<char>>))| import_json(x)).len() == 0);
    assert(canon_side_effects(fr).map_values(|x: (Seq<char>, Seq<char>)| side_json(x)).len() == 0);
    assert(canon_signatures(fr).map_values(|x: (Seq<char>, (Seq<(Seq<char>, Seq<char>)>, Seq<char>))| sig_json(x)).len() == 0);
    assert(join_with(Seq::<Seq<char>>::empty(), ","@) =~= Seq::<char>::empty());
    reveal_strlit(",\"exports\":[");
    reveal_strlit("],\"imports\":[");
    reveal_strlit("],\"side_effects\":[");
    reveal_strlit("],\"signatures\":[");
    reveal_strlit("]}");
    reveal_strlit(",\"exports\":[],\"imports\":[],\"side_effects\":[],\"signatures\":[]}");
    assert(canonical_json(fr) =~= empty_result_json(fr.confidence));
}

fn copy_chars(s: &str) -> (v: Vec<char>)
    ensures
        v@ == s@,
{
    chars_of(s)
}

fn text_pair(a: Vec<char>, b: Vec<char>) -> (p: TextPair)
    ensures
        p@ == (a@, b@),
{
    Lex2 { first: a, second: b }
}

fn sorted_symbols(symbols: &Vec<String>) -> (r: RankedList<Vec<char>>)
    ensures
        r@ == sorted_rank::<Vec<char>>(views(symbols@)),
{
    let mut v: Vec<Vec<char>> = Vec::new();
    let mut i: usize = 0;
    while i < symbols.len()
        invariant
            i <= symbols.len(),
            view_seq(v@) == views(symbols@).take(i as int),
        decreases symbols.len() - i,
    {
        let c = copy_chars(symbols[i].as_str());
        let ghost old_v = v@;
        v.push(c);
        proof { lemma_view_seq_push(old_v, v@.last()); }
        i = i + 1;
        assert(view_seq(v@) =~= views(symbols@).take(i as int));
    }
    assert(views(symbols@).take(symbols.len() as int) =~= views(symbols@));
    let sorted = sort_ranked(v);
    RankedList { items: sorted }
}

fn sorted_params(params: &Vec<Parameter>) -> (r: RankedList<TextPair>)
    ensures
        r@ == sorted_rank::<TextPair>(params@.map_values(|p: Parameter| param_item(p))),
{
    let ghost items = params@.map_values(|p: Parameter| param_item(p));
    let mut v: Vec<TextPair> = Vec::new();
    let mut i: usize = 0;
    while i < params.len()
        invariant
            i <= params.len(),
            items == params@.map_values(|p: Parameter| param_item(p)),
            view_seq(v@) == items.take(i as int),
        decreases params.len() - i,
    {
        let p = text_pair(copy_chars(params[i].name.as_str()), copy_chars(params[i].type_annotation.as_str()));
        let ghost old_v = v@;
        v.push(p);
        proof { lemma_view_seq_push(old_v, v@.last()); }
        i = i + 1;
        assert(view_seq(v@) =~= items.take(i as int));
    }
    assert(items.take(params.len() as int) =~= items);
    RankedList { items: sort_ranked(v) }
}

fn render_export(x: &TextPair) -> (out: Vec<char>)
    ensures
        out@ == export_json(x@),
{
    let mut out: Vec<char> = Vec::new();
    append_str(&mut out, "{\"kind\":");
    append_json_str(&mut out, &x.first);
    append_str(&mut out, ",\"name\":");
    append_json_str(&mut out, &x.second);
    append_str(&mut out, "}");
    out
}

fn render_side(x: &TextPair) -> (out: Vec<char>)
    ensures
        out@ == side_json(x@),
{
    let mut out: Vec<char> = Vec::new();
    append_str(&mut out, "{\"kind\":");
    append_json_str(&mut out, &x.first);
    append_str(&mut out, ",\"target\":");
    append_json_str(&mut out, &x.second);
    append_str(&mut out, "}");
    out
}

fn render_param(x: &TextPair) -> (out: Vec<char>)
    ensures
        out@ == param_json(x@),
{
    let mut out: Vec<char> = Vec::new();
    append_str(&mut out, "{\"name\":");
    append_json_str(&mut out, &x.first);
    append_str(&mut out, ",\"type_annotation\":");
    append_json_str(&mut out, &x.second);
    append_str(&mut out, "}");
    out
}

fn render_import(x: &CanonImport) -> (out: Vec<char>)
    ensures
        out@ == import_json(x@),
{
    let mut out: Vec<char> = Vec::new();
    append_str(&mut out, "{\"kind\":");
    append_json_str(&mut out, &x.first);
    append_str(&mut out, ",\"source\":");
    append_json_str(&mut out, &x.second.first);
    append_str(&mut out, ",\"symbols\":[");
    let syms = &x.second.second.items;
    let ghost want = view_seq(syms@).map_values(|s: Seq<char>| json_str(s));
    let mut rendered: Vec<Vec<char>> = Vec::new();
    let mut i: usize = 0;
    while i < syms.len()
        invariant
            i <= syms.len(),
            want == view_seq(syms@).map_values(|s: Seq<char>| json_str(s)),
            view_seq(rendered@) == want.take(i as int),
        decreases syms.len() - i,
    {
        let mut one: Vec<char> = Vec::new();
        append_json_str(&mut one, &syms[i]);
        let ghost old_rendered = rendered@;
        rendered.push(one);
        proof { lemma_view_seq_push(old_rendered, rendered@.last()); }
        i = i + 1;
        assert(view_seq(rendered@) =~= want.take(i as int));
    }
    assert(want.take(syms.len() as int) =~= want);
    let joined = join_rendered(&rendered);
    append(&mut out, &joined);
    append_str(&mut out, "]}");
    out
}

fn render_sig(x: &CanonSig) -> (out: Vec<char>)
    ensures
        out@ == sig_json(x@),
{
    let mut out: Vec<char> = Vec::new();
    append_str(&mut out, "{\"name\":");
    append_json_str(&mut out, &x.first);
    append_str(&mut out, ",\"parameters\":[");
    let params = &x.second.first.items;
    let ghost want = view_seq(params@).map_values(|p: (Seq<char>, Seq<char>)| param_json(p));
    let mut rendered: Vec<Vec<char>> = Vec::new();
    let mut i: usize = 0;
    while i < params.len()
        invariant
            i <= params.len(),
            want == view_seq(params@).map_values(|p: (Seq<char>, Seq<char>)| param_json(p)),
            view_seq(rendered@) == want.take(i as int),
        decreases params.len() - i,
    {
        let one = render_param(&params[i]);
        let ghost old_rendered = rendered@;
        rendered.push(one);
        proof { lemma_view_seq_push(old_rendered, rendered@.last()); }
        i = i + 1;
        assert(view_seq(rendered@) =~= want.take(i as int));
    }
    assert(want.take(params.len() as int) =~= want);
    let joined = join_rendered(&rendered);
    append(&mut out, &joined);
    append_str(&mut out, "],\"return_type\":");
    append_json_str(&mut out, &x.second.second);
    append_str(&mut out, "}");
    out
}

fn canonical_exports(fr: &FileResult) -> (r: Vec<char>)
    ensures
        r@ == join_with(canon_exports(*fr).map_values(|x: (Seq<char>, Seq<char>)| export_json(x)), ","@),
{
    let ghost items = fr.exports@.map_values(|e: ExportedSymbol| export_item(e));
    let mut v: Vec<TextPair> = Vec::new();
    let mut i: usize = 0;
    while i < fr.exports.len()
        invariant
            i <= fr.exports.len(),
            items == fr.exports@.map_values(|e: ExportedSymbol| export_item(e)),
            view_seq(v@) == items.take(i as int),
        decreases fr.exports.len() - i,
    {
        let k = export_kind_to_string(&fr.exports[i].kind);
        let p = text_pair(copy_chars(k.as_str()), copy_chars(fr.exports[i].name.as_str()));
        let ghost old_v = v@;
        v.push(p);
        proof { lemma_view_seq_push(old_v, v@.last()); }
        i = i + 1;
        assert(view_seq(v@) =~= items.take(i as int));
    }
    assert(items.take(fr.exports.len() as int) =~= items);
    let sorted = sort_ranked(v);
    let ghost want = view_seq(sorted@).map_values(|x: (Seq<char>, Seq<char>)| export_json(x));
    let mut rendered: Vec<Vec<char>> = Vec::new();
    let mut j: usize = 0;
    while j < sorted.len()
        invariant
            j <= sorted.len(),
            want == view_seq(sorted@).map_values(|x: (Seq<char>, Seq<char>)| export_json(x)),
            view_seq(rendered@) == want.take(j as int),
        decreases sorted.len() - j,
    {
        let one = render_export(&sorted[j]);
        let ghost old_rendered = rendered@;
        rendered.push(one);
        proof { lemma_view_seq_push(old_rendered, rendered@.last()); }
        j = j + 1;
        assert(view_seq(rendered@) =~= want.take(j as int));
    }
    assert(want.take(sorted.len() as int) =~= want);
    join_rendered(&rendered)
}

fn canonical_side_effects(fr: &FileResult) -> (r: Vec<char>)
    ensures
        r@ == join_with(canon_side_effects(*fr).map_values(|x: (Seq<char>, Seq<char>)| side_json(x)), ","@),
{
    let ghost items = fr.side_effects@.map_values(|s: SideEffect| side_item(s));
    let mut v: Vec<TextPair> = Vec::new();
    let mut i: usize = 0;
    while i < fr.side_effects.len()
        invariant
            i <= fr.side_effects.len(),
            items == fr.side_effects@.map_values(|s: SideEffect| side_item(s)),
            view_seq(v@) == items.take(i as int),
        decreases fr.side_effects.len() - i,
    {
        let k = side_effect_kind_to_string(&fr.side_effects[i].kind);
        let p = text_pair(copy_chars(k.as_str()), copy_chars(fr.side_effects[i].target.as_str()));
        let ghost old_v = v@;
        v.push(p);
        proof { lemma_view_seq_push(old_v, v@.last()); }
        i = i + 1;
        assert(view_seq(v@) =~= items.take(i as int));
    }
    assert(items.take(fr.side_effects.len() as int) =~= items);
    let sorted = sort_ranked(v);
    let ghost want = view_seq(sorted@).map_values(|x: (Seq<char>, Seq<char>)| side_json(x));
    let mut rendered: Vec<Vec<char>> = Vec::new();
    let mut j: usize = 0;
    while j < sorted.len()
        invariant
            j <= sorted.len(),
            want == view_seq(sorted@).map_values(|x: (Seq<char>, Seq<char>)| side_json(x)),
            view_seq(rendered@) == want.take(j as int),
        decreases sorted.len() - j,
    {
        let one = render_side(&sorted[j]);
        let ghost old_rendered = rendered@;
        rendered.push(one);
        proof { lemma_view_seq_push(old_rendered, rendered@.last()); }
        j = j + 1;
        assert(view_seq(rendered@) =~= want.take(j as int));
    }
    assert(want.take(sorted.len() as int) =~= want);
    join_rendered(&rendered)
}

fn canonical_imports(fr: &FileResult) -> (r: Vec<char>)
    ensures
        r@ == join_with(canon_imports(*fr).map_values(|x: (Seq<char>, (Seq<char>, Seq<Seq<char>>))| import_json(x)), ","@),
{
    let ghost items = fr.imports@.map_values(|d: DependencyEdge| import_item(d));
    let mut v: Vec<CanonImport> = Vec::new();
    let mut i: usize = 0;
    while i < fr.imports.len()
        invariant
            i <= fr.imports.len(),
            items == fr.imports@.map_values(|d: DependencyEdge| import_item(d)),
            view_seq(v@) == items.take(i as int),
        decreases fr.imports.len() - i,
    {
        let d = &fr.imports[i];
        let k = import_kind_to_string(&d.kind);
        let item: CanonImport = Lex2 {
            first: copy_chars(k.as_str()),
            second: Lex2 { first: copy_chars(d.source.as_str()), second: sorted_symbols(&d.symbols) },
        };
        let ghost old_v = v@;
        v.push(item);
        proof { lemma_view_seq_push(old_v, v@.last()); }
        i = i + 1;
        assert(view_seq(v@) =~= items.take(i as int));
    }
    assert(items.take(fr.imports.len() as int) =~= items);
    let sorted = sort_ranked(v);
    let ghost want = view_seq(sorted@).map_values(|x: (Seq<char>, (Seq<char>, Seq<Seq<char>>))| import_json(x));
    let mut rendered: Vec<Vec<char>> = Vec::new();
    let mut j: usize = 0;
    while j < sorted.len()
        invariant
            j <= sorted.len(),
            want == view_seq(sorted@).map_values(|x: (Seq<char>, (Seq<char>, Seq<Seq<char>>))| import_json(x)),
            view_seq(rendered@) == want.take(j as int),
        decreases sorted.len() - j,
    {
        let one = render_import(&sorted[j]);
        let ghost old_rendered = rendered@;
        rendered.push(one);
        proof { lemma_view_seq_push(old_rendered, rendered@.last()); }
        j = j + 1;
        assert(view_seq(rendered@) =~= want.take(j as int));
    }
    assert(want.take(sorted.len() as int) =~= want);
    join_rendered(&rendered)
}

fn canonical_signatures(fr: &FileResult) -> (r: Vec<char>)
    ensures
        r@ == join_with(canon_signatures(*fr).map_values(|x: (Seq<char>, (Seq<(Seq<char>, Seq<char>)>, Seq<char>))| sig_json(x)), ","@),
{
    let ghost items = fr.signatures@.map_values(|s: FunctionSignature| sig_item(s));
    let mut v: Vec<CanonSig> = Vec::new();
    let mut i: usize = 0;
    while i < fr.signatures.len()
        invariant
            i <= fr.signatures.len(),
            items == fr.signatures@.map_values(|s: FunctionSignature| sig_item(s)),
            view_seq(v@) == items.take(i as int),
        decreases fr.signatures.len() - i,
    {
        let s = &fr.signatures[i];
        let item: CanonSig = Lex2 {
            first: copy_chars(s.name.as_str()),
            second: Lex2 { first: sorted_params(&s.parameters), second: copy_chars(s.return_type.as_str()) },
        };
        let ghost old_v = v@;
        v.push(item);
        proof { lemma_view_seq_push(old_v, v@.last()); }
        i = i + 1;
        assert(view_seq(v@) =~= items.take(i as int));
    }
    assert(items.take(fr.signatures.len() as int) =~= items);
    let sorted = sort_ranked(v);
    let ghost want = view_seq(sorted@).map_values(|x: (Seq<char>, (Seq<(Seq<char>, Seq<char>)>, Seq<char>))| sig_json(x));
    let mut rendered: Vec<Vec<char>> = Vec::new();
    let mut j: usize = 0;
    while j < sorted.len()
        invariant
            j <= sorted.len(),
            want == view_seq(sorted@).map_values(|x: (Seq<char>, (Seq<(Seq<char>, Seq<char>)>, Seq<char>))| sig_json(x)),
            view_seq(rendered@) == want.take(j as int),
        decreases sorted.len() - j,
    {
        let one = render_sig(&sorted[j]);
        let ghost old_rendered = rendered@;
        rendered.push(one);
        proof { lemma_view_seq_push(old_rendered, rendered@.last()); }
        j = j + 1;
        assert(view_seq(rendered@) =~= want.take(j as int));
    }
    assert(want.take(sorted.len() as int) =~= want);
    join_rendered(&rendered)
}

/// The canonical JSON text of a parse result.
pub fn canonical_json_text(fr: &FileResult) -> (s: String)
    ensures
        s@ == canonical_json(*fr),
{
    let mut out: Vec<char> = Vec::new();
    append_str(&mut out, "{\"confidence\":");
    let c = confidence_to_string(&fr.confidence);
    let cv = copy_chars(c.as_str());
    append_json_str(&mut out, &cv);
    append_str(&mut out, ",\"exports\":[");
    let e = canonical_exports(fr);
    append(&mut out, &e);
    append_str(&mut out, "],\"imports\":[");
    let i = canonical_imports(fr);
    append(&mut out, &i);
    append_str(&mut out, "],\"side_effects\":[");
    let se = canonical_side_effects(fr);
    append(&mut out, &se);
    append_str(&mut out, "],\"signatures\":[");
    let sg = canonical_signatures(fr);
    append(&mut out, &sg);
    append_str(&mut out, "]}");
    string_of(&out)
}

/// Semantic fingerprint: the digest of the canonical JSON text.
pub fn compute_semantic_fingerprint(result: &FileResult) -> (fp: String)
    ensures
        fp@ == semantic_fingerprint(*result),
        fp@.len() == 71,
        fp@.take(7) == "sha256:"@,
{
    let text = canonical_json_text(result);
    let bytes = text.as_str().as_bytes();
    digest_string(bytes)
}

/// Both fingerprints of a file, with fingerprint version `1`.
pub fn compute_fingerprints(source: &str, result: &FileResult) -> (fp: FingerprintResult)
    ensures
        fp.source@ == source_fingerprint(source@),
        fp.semantic@ == semantic_fingerprint(*result),
        fp.fp_version@ == "1"@,
{
    FingerprintResult {
        source: compute_source_fingerprint(source),
        semantic: compute_semantic_fingerprint(result),
        fp_version: String::from_str("1"),
    }
}

// ─── Laws ───────────────────────────────────────────────────────────────────

/// The semantic fingerprint does not depend on the order of exports,
/// imports, side effects or signatures, nor on line numbers: two parse
/// results with the same confidence and the same canonical items (counted
/// with multiplicity) have the same semantic fingerprint.
pub proof fn law_semantic_fingerprint_ignores_order(fr1: FileResult, fr2: FileResult)
    requires
        fr1.confidence == fr2.confidence,
        fr1.exports@.map_values(|e: ExportedSymbol| export_item(e)).to_multiset()
            =~= fr2.exports@.map_values(|e: ExportedSymbol| export_item(e)).to_multiset(),
        fr1.imports@.map_values(|d: DependencyEdge| import_item(d)).to_multiset()
            =~= fr2.imports@.map_values(|d: DependencyEdge| import_item(d)).to_multiset(),
        fr1.side_effects@.map_values(|s: SideEffect| side_item(s)).to_multiset()
            =~= fr2.side_effects@.map_values(|s: SideEffect| side_item(s)).to_multiset(),
        fr1.signatures@.map_values(|s: FunctionSignature| sig_item(s)).to_multiset()
            =~= fr2.signatures@.map_values(|s: FunctionSignature| sig_item(s)).to_multiset(),
    ensures
        semantic_fingerprint(fr1) == semantic_fingerprint(fr2),
{
    lemma_sorted_rank_perm::<TextPair>(
        fr1.exports@.map_values(|e: ExportedSymbol| export_item(e)),
        fr2.exports@.map_values(|e: ExportedSymbol| export_item(e)),
    );
    lemma_sorted_rank_perm::<CanonImport>(
        fr1.imports@.map_values(|d: DependencyEdge| import_item(d)),
        fr2.imports@.map_values(|d: DependencyEdge| import_item(d)),
    );
    lemma_sorted_rank_perm::<TextPair>(
        fr1.side_effects@.map_values(|s: SideEffect| side_item(s)),
        fr2.side_effects@.map_values(|s: SideEffect| side_item(s)),
    );
    lemma_sorted_rank_perm::<CanonSig>(
        fr1.signatures@.map_values(|s: FunctionSignature| sig_item(s)),
        fr2.signatures@.map_values(|s: FunctionSignature| sig_item(s)),
    );
    assert(canonical_json(fr1) == canonical_json(fr2));
}

/// The order of an import's symbols does not matter: imports that differ
/// only in the order of their symbols have the same canonical item.
pub proof fn law_import_symbol_order_ignored(d1: DependencyEdge, d2: DependencyEdge)
    requires
        d1.kind == d2.kind,
        d1.source@ == d2.source@,
        views(d1.symbols@).to_multiset() =~= views(d2.symbols@).to_multiset(),
    ensures
        import_item(d1) == import_item(d2),
{
    lemma_sorted_rank_perm::<Vec<char>>(views(d1.symbols@), views(d2.symbols@));
}

} // verus!
