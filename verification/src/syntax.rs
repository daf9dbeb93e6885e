//! Syntax trees as the language adapters read them.
//!
//! A tree is held as the list of its nodes in pre-order (a node, then the
//! subtrees of its children from first to last), each with its depth below
//! the root.  The children of node `i` are the later nodes one level deeper
//! that come before the next node at `i`'s depth or above.  Parsing itself is
//! done by tree-sitter: each grammar has a trusted wrapper whose result is
//! given a name.
use crate::modules::as_positions;
use crate::text::{owned, str_eq};
use crate::types::{
    ConfidenceBand, DependencyEdge, ExportKind, ExportedSymbol, FileResult, FunctionSignature,
    ImportKind, Parameter, SideEffect, SideEffectKind,
};
use vstd::prelude::*;

verus! {

/// One node of a syntax tree.
#[derive(Debug, Clone)]
pub struct SyntaxNode {
    /// The grammar's name for the node (`function_declaration`, `(`, ...).
    pub kind: String,
    /// The field under which the node hangs from its parent, if any.
    pub field: Option<String>,
    /// The source text the node spans (absent when the span is not UTF-8).
    pub text: Option<String>,
    /// The zero-based row on which the node starts.
    pub row: usize,
    /// The number of ancestors of the node.
    pub depth: usize,
}

/// A parsed file: its nodes in pre-order and whether the parser recovered
/// from errors anywhere in it.
#[derive(Debug, Clone)]
pub struct SyntaxTree {
    pub nodes: Vec<SyntaxNode>,
    pub has_error: bool,
}

/// A node seen as plain values.
pub struct NodeView {
    pub kind: Seq<char>,
    pub field: Option<Seq<char>>,
    pub text: Option<Seq<char>>,
    pub row: nat,
    pub depth: nat,
}

/// A tree seen as plain values.
pub struct TreeView {
    pub nodes: Seq<NodeView>,
    pub has_error: bool,
}

/// The text of an optional string.
pub open spec fn opt_text(o: Option<String>) -> Option<Seq<char>> {
    match o {
        Some(s) => Some(s@),
        None => None,
    }
}

impl View for SyntaxNode {
    type V = NodeView;

    open spec fn view(&self) -> NodeView {
        NodeView {
            kind: self.kind@,
            field: opt_text(self.field),
            text: opt_text(self.text),
            row: self.row as nat,
            depth: self.depth as nat,
        }
    }
}

impl View for SyntaxTree {
    type V = TreeView;

    open spec fn view(&self) -> TreeView {
        TreeView { nodes: self.nodes@.map_values(|n: SyntaxNode| n@), has_error: self.has_error }
    }
}

/// The view of an optional tree.
pub open spec fn opt_tree(t: Option<SyntaxTree>) -> Option<TreeView> {
    match t {
        Some(x) => Some(x@),
        None => None,
    }
}

// ─── Parsing (tree-sitter) ──────────────────────────────────────────────────

/// The tree tree-sitter's Python grammar gives for a source text.
pub uninterp spec fn python_syntax(source: Seq<char>) -> Option<TreeView>;

/// The tree tree-sitter's TypeScript grammar gives for a source text.
pub uninterp spec fn typescript_syntax(source: Seq<char>) -> Option<TreeView>;

/// The tree tree-sitter's JavaScript grammar gives for a source text.
pub uninterp spec fn javascript_syntax(source: Seq<char>) -> Option<TreeView>;

/// The tree tree-sitter's Go grammar gives for a source text.
pub uninterp spec fn go_syntax(source: Seq<char>) -> Option<TreeView>;

/// The tree tree-sitter's C grammar gives for a source text.
pub uninterp spec fn c_syntax(source: Seq<char>) -> Option<TreeView>;

/// The tree tree-sitter's C++ grammar gives for a source text.
pub uninterp spec fn cpp_syntax(source: Seq<char>) -> Option<TreeView>;

/// The tree tree-sitter's C# grammar gives for a source text.
pub uninterp spec fn csharp_syntax(source: Seq<char>) -> Option<TreeView>;

/// The tree tree-sitter's Dart grammar gives for a source text.
pub uninterp spec fn dart_syntax(source: Seq<char>) -> Option<TreeView>;

/// The tree tree-sitter's Rust grammar gives for a source text.
pub uninterp spec fn rust_syntax(source: Seq<char>) -> Option<TreeView>;

/// The tree tree-sitter's Swift grammar gives for a source text.
pub uninterp spec fn swift_syntax(source: Seq<char>) -> Option<TreeView>;

/// The tree tree-sitter's Zig grammar gives for a source text.
pub uninterp spec fn zig_syntax(source: Seq<char>) -> Option<TreeView>;

/// Trusted: parses with `tree_sitter::Parser` and the `tree_sitter_python`
/// grammar, then lists every node of the tree (`descendant_count`,
/// `goto_descendant`) with its kind, field name, text, start row and depth.
/// The result is the named `python_syntax` of the source.
#[verifier::external_body]
pub(crate) fn parse_python(source: &str) -> (r: Option<SyntaxTree>)
    ensures
        opt_tree(r) == python_syntax(source@),
{
    let mut parser = tree_sitter::Parser::new();
    parser.set_language(&tree_sitter_python::LANGUAGE.into()).ok()?;
    let tree = parser.parse(source, None)?;
    let mut c = tree.walk();
    let mut nodes = Vec::new();
    for i in 0..tree.root_node().descendant_count() {
        c.goto_descendant(i);
        let n = c.node();
        nodes.push(SyntaxNode { kind: n.kind().to_string(), field: c.field_name().map(String::from), text: n.utf8_text(source.as_bytes()).ok().map(String::from), row: n.start_position().row, depth: c.depth() as usize });
    }
    Some(SyntaxTree { nodes, has_error: tree.root_node().has_error() })
}

/// Trusted: as [`parse_python`], with the `tree_sitter_typescript`
/// TypeScript grammar; the result is the named `typescript_syntax`.
#[verifier::external_body]
pub(crate) fn parse_typescript(source: &str) -> (r: Option<SyntaxTree>)
    ensures
        opt_tree(r) == typescript_syntax(source@),
{
    let mut parser = tree_sitter::Parser::new();
    parser.set_language(&tree_sitter_typescript::LANGUAGE_TYPESCRIPT.into()).ok()?;
    let tree = parser.parse(source, None)?;
    let mut c = tree.walk();
    let mut nodes = Vec::new();
    for i in 0..tree.root_node().descendant_count() {
        c.goto_descendant(i);
        let n = c.node();
        nodes.push(SyntaxNode { kind: n.kind().to_string(), field: c.field_name().map(String::from), text: n.utf8_text(source.as_bytes()).ok().map(String::from), row: n.start_position().row, depth: c.depth() as usize });
    }
    Some(SyntaxTree { nodes, has_error: tree.root_node().has_error() })
}

/// Trusted: as [`parse_python`], with the `tree_sitter_javascript` grammar;
/// the result is the named `javascript_syntax`.
#[verifier::external_body]
pub(crate) fn parse_javascript(source: &str) -> (r: Option<SyntaxTree>)
    ensures
        opt_tree(r) == javascript_syntax(source@),
{
    let mut parser = tree_sitter::Parser::new();
    parser.set_language(&tree_sitter_javascript::LANGUAGE.into()).ok()?;
    let tree = parser.parse(source, None)?;
    let mut c = tree.walk();
    let mut nodes = Vec::new();
    for i in 0..tree.root_node().descendant_count() {
        c.goto_descendant(i);
        let n = c.node();
        nodes.push(SyntaxNode { kind: n.kind().to_string(), field: c.field_name().map(String::from), text: n.utf8_text(source.as_bytes()).ok().map(String::from), row: n.start_position().row, depth: c.depth() as usize });
    }
    Some(SyntaxTree { nodes, has_error: tree.root_node().has_error() })
}

/// Trusted: as [`parse_python`], with the `tree_sitter_go` grammar; the
/// result is the named `go_syntax`.
#[verifier::external_body]
pub(crate) fn parse_go(source: &str) -> (r: Option<SyntaxTree>)
    ensures
        opt_tree(r) == go_syntax(source@),
{
    let mut parser = tree_sitter::Parser::new();
    parser.set_language(&tree_sitter_go::LANGUAGE.into()).ok()?;
    let tree = parser.parse(source, None)?;
    let mut c = tree.walk();
    let mut nodes = Vec::new();
    for i in 0..tree.root_node().descendant_count() {
        c.goto_descendant(i);
        let n = c.node();
        nodes.push(SyntaxNode { kind: n.kind().to_string(), field: c.field_name().map(String::from), text: n.utf8_text(source.as_bytes()).ok().map(String::from), row: n.start_position().row, depth: c.depth() as usize });
    }
    Some(SyntaxTree { nodes, has_error: tree.root_node().has_error() })
}

/// Trusted: as [`parse_python`], with the `tree_sitter_c` grammar;
/// the result is the named `c_syntax`.
#[verifier::external_body]
pub(crate) fn parse_c(source: &str) -> (r: Option<SyntaxTree>)
    ensures
        opt_tree(r) == c_syntax(source@),
{
    let mut parser = tree_sitter::Parser::new();
    parser.set_language(&tree_sitter_c::LANGUAGE.into()).ok()?;
    let tree = parser.parse(source, None)?;
    let mut c = tree.walk();
    let mut nodes = Vec::new();
    for i in 0..tree.root_node().descendant_count() {
        c.goto_descendant(i);
        let n = c.node();
        nodes.push(SyntaxNode { kind: n.kind().to_string(), field: c.field_name().map(String::from), text: n.utf8_text(source.as_bytes()).ok().map(String::from), row: n.start_position().row, depth: c.depth() as usize });
    }
    Some(SyntaxTree { nodes, has_error: tree.root_node().has_error() })
}

/// Trusted: as [`parse_python`], with the `tree_sitter_cpp` grammar;
/// the result is the named `cpp_syntax`.
#[verifier::external_body]
pub(crate) fn parse_cpp(source: &str) -> (r: Option<SyntaxTree>)
    ensures
        opt_tree(r) == cpp_syntax(source@),
{
    let mut parser = tree_sitter::Parser::new();
    parser.set_language(&tree_sitter_cpp::LANGUAGE.into()).ok()?;
    let tree = parser.parse(source, None)?;
    let mut c = tree.walk();
    let mut nodes = Vec::new();
    for i in 0..tree.root_node().descendant_count() {
        c.goto_descendant(i);
        let n = c.node();
        nodes.push(SyntaxNode { kind: n.kind().to_string(), field: c.field_name().map(String::from), text: n.utf8_text(source.as_bytes()).ok().map(String::from), row: n.start_position().row, depth: c.depth() as usize });
    }
    Some(SyntaxTree { nodes, has_error: tree.root_node().has_error() })
}

/// Trusted: as [`parse_python`], with the `tree_sitter_c_sharp` grammar;
/// the result is the named `csharp_syntax`.
#[verifier::external_body]
pub(crate) fn parse_csharp(source: &str) -> (r: Option<SyntaxTree>)
    ensures
        opt_tree(r) == csharp_syntax(source@),
{
    let mut parser = tree_sitter::Parser::new();
    parser.set_language(&tree_sitter_c_sharp::LANGUAGE.into()).ok()?;
    let tree = parser.parse(source, None)?;
    let mut c = tree.walk();
    let mut nodes = Vec::new();
    for i in 0..tree.root_node().descendant_count() {
        c.goto_descendant(i);
        let n = c.node();
        nodes.push(SyntaxNode { kind: n.kind().to_string(), field: c.field_name().map(String::from), text: n.utf8_text(source.as_bytes()).ok().map(String::from), row: n.start_position().row, depth: c.depth() as usize });
    }
    Some(SyntaxTree { nodes, has_error: tree.root_node().has_error() })
}

/// Trusted: as [`parse_python`], with the `tree_sitter_dart` grammar;
/// the result is the named `dart_syntax`.
#[verifier::external_body]
pub(crate) fn parse_dart(source: &str) -> (r: Option<SyntaxTree>)
    ensures
        opt_tree(r) == dart_syntax(source@),
{
    let mut parser = tree_sitter::Parser::new();
    parser.set_language(&tree_sitter_dart::LANGUAGE.into()).ok()?;
    let tree = parser.parse(source, None)?;
    let mut c = tree.walk();
    let mut nodes = Vec::new();
    for i in 0..tree.root_node().descendant_count() {
        c.goto_descendant(i);
        let n = c.node();
        nodes.push(SyntaxNode { kind: n.kind().to_string(), field: c.field_name().map(String::from), text: n.utf8_text(source.as_bytes()).ok().map(String::from), row: n.start_position().row, depth: c.depth() as usize });
    }
    Some(SyntaxTree { nodes, has_error: tree.root_node().has_error() })
}

/// Trusted: as [`parse_python`], with the `tree_sitter_rust` grammar;
/// the result is the named `rust_syntax`.
#[verifier::external_body]
pub(crate) fn parse_rust(source: &str) -> (r: Option<SyntaxTree>)
    ensures
        opt_tree(r) == rust_syntax(source@),
{
    let mut parser = tree_sitter::Parser::new();
    parser.set_language(&tree_sitter_rust::LANGUAGE.into()).ok()?;
    let tree = parser.parse(source, None)?;
    let mut c = tree.walk();
    let mut nodes = Vec::new();
    for i in 0..tree.root_node().descendant_count() {
        c.goto_descendant(i);
        let n = c.node();
        nodes.push(SyntaxNode { kind: n.kind().to_string(), field: c.field_name().map(String::from), text: n.utf8_text(source.as_bytes()).ok().map(String::from), row: n.start_position().row, depth: c.depth() as usize });
    }
    Some(SyntaxTree { nodes, has_error: tree.root_node().has_error() })
}

/// Trusted: as [`parse_python`], with the `tree_sitter_swift` grammar;
/// the result is the named `swift_syntax`.
#[verifier::external_body]
pub(crate) fn parse_swift(source: &str) -> (r: Option<SyntaxTree>)
    ensures
        opt_tree(r) == swift_syntax(source@),
{
    let mut parser = tree_sitter::Parser::new();
    parser.set_language(&tree_sitter_swift::LANGUAGE.into()).ok()?;
    let tree = parser.parse(source, None)?;
    let mut c = tree.walk();
    let mut nodes = Vec::new();
    for i in 0..tree.root_node().descendant_count() {
        c.goto_descendant(i);
        let n = c.node();
        nodes.push(SyntaxNode { kind: n.kind().to_string(), field: c.field_name().map(String::from), text: n.utf8_text(source.as_bytes()).ok().map(String::from), row: n.start_position().row, depth: c.depth() as usize });
    }
    Some(SyntaxTree { nodes, has_error: tree.root_node().has_error() })
}

/// Trusted: as [`parse_python`], with the `tree_sitter_zig` grammar;
/// the result is the named `zig_syntax`.
#[verifier::external_body]
pub(crate) fn parse_zig(source: &str) -> (r: Option<SyntaxTree>)
    ensures
        opt_tree(r) == zig_syntax(source@),
{
    let mut parser = tree_sitter::Parser::new();
    parser.set_language(&tree_sitter_zig::LANGUAGE.into()).ok()?;
    let tree = parser.parse(source, None)?;
    let mut c = tree.walk();
    let mut nodes = Vec::new();
    for i in 0..tree.root_node().descendant_count() {
        c.goto_descendant(i);
        let n = c.node();
        nodes.push(SyntaxNode { kind: n.kind().to_string(), field: c.field_name().map(String::from), text: n.utf8_text(source.as_bytes()).ok().map(String::from), row: n.start_position().row, depth: c.depth() as usize });
    }
    Some(SyntaxTree { nodes, has_error: tree.root_node().has_error() })
}

// ─── Timing ─────────────────────────────────────────────────────────────────

/// The standard library's monotonic clock reading.
#[verifier::external_type_specification]
#[verifier::external_body]
pub struct ExInstant(std::time::Instant);

/// Trusted: `Instant::now`; nothing is stated of the reading.
#[verifier::external_body]
pub(crate) fn start_timer() -> std::time::Instant {
    std::time::Instant::now()
}

/// Trusted: `Instant::elapsed` in whole milliseconds; the value depends on
/// the clock, so nothing is stated of it.
#[verifier::external_body]
pub(crate) fn elapsed_ms(start: &std::time::Instant) -> u64 {
    start.elapsed().as_millis() as u64
}

// ─── Tree structure ─────────────────────────────────────────────────────────

/// The children of node `i` among the nodes from `j` on.
pub open spec fn kids_from(t: Seq<NodeView>, i: int, j: int) -> Seq<int>
    decreases t.len() - j,
{
    if j < 0 || j >= t.len() || t[j].depth <= t[i].depth {
        Seq::<int>::empty()
    } else if t[j].depth == t[i].depth + 1 {
        seq![j] + kids_from(t, i, j + 1)
    } else {
        kids_from(t, i, j + 1)
    }
}

/// The children of node `i`, in order.
pub open spec fn children(t: Seq<NodeView>, i: int) -> Seq<int> {
    kids_from(t, i, i + 1)
}

/// The first of the nodes `ks` that satisfies `p`.
pub open spec fn first_where(t: Seq<NodeView>, ks: Seq<int>, p: spec_fn(NodeView) -> bool) -> Option<int>
    decreases ks.len(),
{
    if ks.len() == 0 {
        None
    } else if p(t[ks[0]]) {
        Some(ks[0])
    } else {
        first_where(t, ks.drop_first(), p)
    }
}

/// Whether a node hangs under field `f`.
pub open spec fn under_field(f: Seq<char>) -> spec_fn(NodeView) -> bool {
    |n: NodeView| n.field == Some(f)
}

/// Whether a node has kind `k`.
pub open spec fn of_kind(k: Seq<char>) -> spec_fn(NodeView) -> bool {
    |n: NodeView| n.kind == k
}

/// The first child of `i` under field `f` (what `child_by_field_name` finds).
pub open spec fn field_child(t: Seq<NodeView>, i: int, f: Seq<char>) -> Option<int> {
    first_where(t, children(t, i), under_field(f))
}

/// The first child of `i` of kind `k`.
pub open spec fn kind_child(t: Seq<NodeView>, i: int, k: Seq<char>) -> Option<int> {
    first_where(t, children(t, i), of_kind(k))
}

/// The parent of node `j`: the last earlier node that is shallower.
pub open spec fn parent(t: Seq<NodeView>, j: int) -> Option<int> {
    if exists|i: int| 0 <= i < j && #[trigger] t[i].depth < t[j].depth {
        Some(choose|i: int| 0 <= i < j && t[i].depth < t[j].depth
            && forall|k: int| i < k < j ==> t[k].depth >= t[j].depth)
    } else {
        None
    }
}

/// The text of a node, or `d` when it has none.
pub open spec fn text_or(n: NodeView, d: Seq<char>) -> Seq<char> {
    match n.text {
        Some(x) => x,
        None => d,
    }
}

/// The text of an optional node, or `d` when there is no node or no text.
pub open spec fn opt_text_or(t: Seq<NodeView>, j: Option<int>, d: Seq<char>) -> Seq<char> {
    match j {
        Some(k) => text_or(t[k], d),
        None => d,
    }
}

/// The one-based line of a zero-based row (rows past `u32` saturate).
pub open spec fn line_of(row: nat) -> nat {
    if row < u32::MAX {
        row + 1
    } else {
        u32::MAX as nat
    }
}

/// A position as an integer.
pub open spec fn opt_pos(o: Option<usize>) -> Option<int> {
    match o {
        Some(x) => Some(x as int),
        None => None,
    }
}

/// The one-based line number of a row.
pub fn line_number(row: usize) -> (l: u32)
    ensures
        l as nat == line_of(row as nat),
{
    if row < 4294967295usize {
        (row + 1) as u32
    } else {
        u32::MAX
    }
}

/// The positions of the children of node `i`.
pub fn children_of(t: &SyntaxTree, i: usize) -> (r: Vec<usize>)
    requires
        i < t.nodes.len(),
    ensures
        as_positions(r@) == children(t@.nodes, i as int),
        forall|k: int| 0 <= k < r@.len() ==> i < #[trigger] r@[k] < t.nodes.len(),
{
    let ghost v = t@.nodes;
    let mut r: Vec<usize> = Vec::new();
    let mut j: usize = i + 1;
    while j < t.nodes.len() && t.nodes[j].depth > t.nodes[i].depth
        invariant
            i < j <= t.nodes.len(),
            v == t@.nodes,
            v.len() == t.nodes.len(),
            as_positions(r@) + kids_from(v, i as int, j as int) == children(v, i as int),
            forall|k: int| 0 <= k < r@.len() ==> i < #[trigger] r@[k] < j,
        decreases t.nodes.len() - j,
    {
        assert(v[j as int] == t.nodes@[j as int]@);
        assert(v[i as int] == t.nodes@[i as int]@);
        if t.nodes[j].depth == t.nodes[i].depth + 1 {
            let ghost before = r@;
            r.push(j);
            proof {
                assert(as_positions(r@) =~= as_positions(before).push(j as int));
                assert(as_positions(before).push(j as int) + kids_from(v, i as int, j + 1)
                    =~= as_positions(before) + (seq![j as int] + kids_from(v, i as int, j + 1)));
            }
        }
        j = j + 1;
    }
    proof {
        if j < t.nodes.len() {
            assert(v[j as int] == t.nodes@[j as int]@);
            assert(v[i as int] == t.nodes@[i as int]@);
        }
        assert(kids_from(v, i as int, j as int) =~= Seq::<int>::empty());
        assert(as_positions(r@) + Seq::<int>::empty() =~= as_positions(r@));
    }
    r
}

pub(crate) proof fn lemma_first_where_skip(t: Seq<NodeView>, ks: Seq<int>, k: int, p: spec_fn(NodeView) -> bool)
    requires
        0 <= k < ks.len(),
        !p(t[ks[k]]),
    ensures
        first_where(t, ks.skip(k), p) == first_where(t, ks.skip(k + 1), p),
{
    assert(ks.skip(k).drop_first() =~= ks.skip(k + 1));
}

/// The first child of node `i` under field `f`.
pub fn child_by_field(t: &SyntaxTree, i: usize, f: &str) -> (r: Option<usize>)
    requires
        i < t.nodes.len(),
    ensures
        opt_pos(r) == field_child(t@.nodes, i as int, f@),
        r matches Some(k) ==> i < k < t.nodes.len(),
{
    let ghost v = t@.nodes;
    let ghost p = under_field(f@);
    let ks = children_of(t, i);
    let ghost kv = as_positions(ks@);
    assert(kv.skip(0) =~= kv);
    let mut k: usize = 0;
    while k < ks.len()
        invariant
            k <= ks.len(),
            v == t@.nodes,
            kv == as_positions(ks@),
            kv == children(v, i as int),
            kv.len() == ks@.len(),
            forall|m: int| 0 <= m < ks@.len() ==> i < #[trigger] ks@[m] < t.nodes.len(),
            first_where(v, kv, p) == first_where(v, kv.skip(k as int), p),
            p == under_field(f@),
        decreases ks.len() - k,
    {
        let j = ks[k];
        assert(kv[k as int] == j as int);
        assert(v[j as int] == t.nodes@[j as int]@);
        let hit = match &t.nodes[j].field {
            Some(name) => str_eq(name.as_str(), f),
            None => false,
        };
        assert(p(v[j as int]) == hit);
        if hit {
            assert(kv.skip(k as int)[0] == j as int);
            return Some(j);
        }
        proof {
            lemma_first_where_skip(v, kv, k as int, p);
        }
        k = k + 1;
    }
    assert(kv.skip(k as int) =~= Seq::<int>::empty());
    None
}

/// The first child of node `i` of kind `kind`.
pub fn child_by_kind(t: &SyntaxTree, i: usize, kind: &str) -> (r: Option<usize>)
    requires
        i < t.nodes.len(),
    ensures
        opt_pos(r) == kind_child(t@.nodes, i as int, kind@),
        r matches Some(k) ==> i < k < t.nodes.len(),
{
    let ghost v = t@.nodes;
    let ghost p = of_kind(kind@);
    let ks = children_of(t, i);
    let ghost kv = as_positions(ks@);
    assert(kv.skip(0) =~= kv);
    let mut k: usize = 0;
    while k < ks.len()
        invariant
            k <= ks.len(),
            v == t@.nodes,
            kv == as_positions(ks@),
            kv == children(v, i as int),
            kv.len() == ks@.len(),
            forall|m: int| 0 <= m < ks@.len() ==> i < #[trigger] ks@[m] < t.nodes.len(),
            first_where(v, kv, p) == first_where(v, kv.skip(k as int), p),
            p == of_kind(kind@),
        decreases ks.len() - k,
    {
        let j = ks[k];
        assert(kv[k as int] == j as int);
        assert(v[j as int] == t.nodes@[j as int]@);
        let hit = str_eq(t.nodes[j].kind.as_str(), kind);
        assert(p(v[j as int]) == hit);
        if hit {
            assert(kv.skip(k as int)[0] == j as int);
            return Some(j);
        }
        proof {
            lemma_first_where_skip(v, kv, k as int, p);
        }
        k = k + 1;
    }
    assert(kv.skip(k as int) =~= Seq::<int>::empty());
    None
}

/// The parent of node `j`, if it has one.
pub fn parent_of(t: &SyntaxTree, j: usize) -> (r: Option<usize>)
    requires
        j < t.nodes.len(),
    ensures
        opt_pos(r) == parent(t@.nodes, j as int),
        r matches Some(p) ==> p < j,
{
    let ghost v = t@.nodes;
    let mut i: usize = j;
    while i > 0
        invariant
            i <= j < t.nodes.len(),
            v == t@.nodes,
            v.len() == t.nodes.len(),
            forall|k: int| i <= k < j ==> v[k].depth >= v[j as int].depth,
        decreases i,
    {
        assert(v[i - 1] == t.nodes@[i - 1]@);
        assert(v[j as int] == t.nodes@[j as int]@);
        if t.nodes[i - 1].depth < t.nodes[j].depth {
            proof {
                let w = (i - 1) as int;
                assert(0 <= w < j && v[w].depth < v[j as int].depth);
                let c = choose|c: int| 0 <= c < j && v[c].depth < v[j as int].depth
                    && forall|k: int| c < k < j ==> v[k].depth >= v[j as int].depth;
                if c < w {
                    assert(v[w].depth >= v[j as int].depth);
                }
                if c > w {
                    assert(v[c].depth >= v[j as int].depth);
                }
            }
            return Some(i - 1);
        }
        i = i - 1;
    }
    None
}

/// Whether node `j` has kind `kind`.
pub fn kind_is(t: &SyntaxTree, j: usize, kind: &str) -> (r: bool)
    requires
        j < t.nodes.len(),
    ensures
        r == (t@.nodes[j as int].kind == kind@),
{
    assert(t@.nodes[j as int] == t.nodes@[j as int]@);
    str_eq(t.nodes[j].kind.as_str(), kind)
}

/// The text of node `j`, or `d` when it has none.
pub fn text_or_default(t: &SyntaxTree, j: usize, d: &str) -> (r: String)
    requires
        j < t.nodes.len(),
    ensures
        r@ == text_or(t@.nodes[j as int], d@),
{
    assert(t@.nodes[j as int] == t.nodes@[j as int]@);
    match &t.nodes[j].text {
        Some(s) => owned(s.as_str()),
        None => owned(d),
    }
}

/// The text of an optional node, or `d`.
pub fn opt_text_or_default(t: &SyntaxTree, j: Option<usize>, d: &str) -> (r: String)
    requires
        j matches Some(k) ==> k < t.nodes.len(),
    ensures
        r@ == opt_text_or(t@.nodes, opt_pos(j), d@),
{
    match j {
        Some(k) => text_or_default(t, k, d),
        None => owned(d),
    }
}

/// The line on which node `j` starts.
pub fn node_line(t: &SyntaxTree, j: usize) -> (l: u32)
    requires
        j < t.nodes.len(),
    ensures
        l as nat == line_of(t@.nodes[j as int].row),
{
    assert(t@.nodes[j as int] == t.nodes@[j as int]@);
    line_number(t.nodes[j].row)
}

// ─── What adapters produce ──────────────────────────────────────────────────

/// An exported symbol as plain values.
pub type ExportView = (Seq<char>, ExportKind, nat, bool, ConfidenceBand);

/// An import as plain values: source, symbols, kind.
pub type ImportView = (Seq<char>, Seq<Seq<char>>, ImportKind);

/// A parameter as plain values: name and type annotation.
pub type ParamView = (Seq<char>, Seq<char>);

/// A signature as plain values: name, parameters, return type.
pub type SigView = (Seq<char>, Seq<ParamView>, Seq<char>);

/// A side effect as plain values: kind, target, line.
pub type EffectView = (SideEffectKind, Seq<char>, nat);

impl View for ExportedSymbol {
    type V = ExportView;

    open spec fn view(&self) -> ExportView {
        (self.name@, self.kind, self.line as nat, self.is_generated, self.confidence)
    }
}

impl View for DependencyEdge {
    type V = ImportView;

    open spec fn view(&self) -> ImportView {
        (self.source@, self.symbols@.map_values(|s: String| s@), self.kind)
    }
}

impl View for Parameter {
    type V = ParamView;

    open spec fn view(&self) -> ParamView {
        (self.name@, self.type_annotation@)
    }
}

impl View for FunctionSignature {
    type V = SigView;

    open spec fn view(&self) -> SigView {
        (self.name@, self.parameters@.map_values(|p: Parameter| p@), self.return_type@)
    }
}

impl View for SideEffect {
    type V = EffectView;

    open spec fn view(&self) -> EffectView {
        (self.kind, self.target@, self.line as nat)
    }
}

/// The views of a list.
pub open spec fn seq_view<T: View>(s: Seq<T>) -> Seq<T::V> {
    s.map_values(|x: T| x@)
}

/// An export as the adapters record it: not generated, high confidence.
pub open spec fn plain_export(name: Seq<char>, kind: ExportKind, line: nat) -> ExportView {
    (name, kind, line, false, ConfidenceBand::High)
}

/// The concatenation of `f(0)`, ..., `f(n - 1)`.
pub open spec fn collect<A>(n: nat, f: spec_fn(int) -> Seq<A>) -> Seq<A>
    decreases n,
{
    if n == 0 {
        Seq::<A>::empty()
    } else {
        collect((n - 1) as nat, f) + f(n - 1)
    }
}

/// Appends `more` to `out`.
pub fn append_all<T: View>(out: &mut Vec<T>, more: Vec<T>)
    ensures
        seq_view(final(out)@) == seq_view(old(out)@) + seq_view(more@),
{
    let ghost a = out@;
    let mut m = more;
    out.append(&mut m);
    assert(seq_view(out@) =~= seq_view(a) + seq_view(more@));
}

/// An export record that is not generated and has high confidence.
pub fn plain_export_of(name: String, kind: ExportKind, line: u32) -> (e: ExportedSymbol)
    ensures
        e@ == plain_export(name@, kind, line as nat),
{
    ExportedSymbol { name, kind, line, is_generated: false, confidence: ConfidenceBand::High }
}


// ─── Assembling a file's result ─────────────────────────────────────────────

/// The confidence a parse earns: high without errors; low when the parser
/// recovered but the root still has children; none otherwise.
pub open spec fn tree_confidence(t: TreeView) -> ConfidenceBand {
    if t.has_error {
        if children(t.nodes, 0).len() > 0 {
            ConfidenceBand::Low
        } else {
            ConfidenceBand::NoConfidence
        }
    } else {
        ConfidenceBand::High
    }
}

/// The error message of a parse: present exactly when the parser recovered from errors.
pub open spec fn tree_error(t: TreeView) -> Option<Seq<char>> {
    if t.has_error {
        Some("Parse errors detected \u{2014} partial extraction"@)
    } else {
        None
    }
}

/// `r` is the result for `path` of a parse with tree `t` and the given extractions.
pub open spec fn is_parsed_result(
    r: FileResult,
    path: Seq<char>,
    t: TreeView,
    exports: Seq<ExportView>,
    imports: Seq<ImportView>,
    signatures: Seq<SigView>,
    effects: Seq<EffectView>,
) -> bool {
    &&& r.file_path@ == path
    &&& r.confidence == tree_confidence(t)
    &&& seq_view(r.exports@) == exports
    &&& seq_view(r.imports@) == imports
    &&& seq_view(r.signatures@) == signatures
    &&& seq_view(r.side_effects@) == effects
    &&& opt_text(r.error_message) == tree_error(t)
}

/// `r` is the result for `path` when the parser gave no tree.
pub open spec fn is_treeless_result(r: FileResult, path: Seq<char>) -> bool {
    &&& r.file_path@ == path
    &&& r.confidence == ConfidenceBand::NoConfidence
    &&& r.exports@.len() == 0
    &&& r.imports@.len() == 0
    &&& r.signatures@.len() == 0
    &&& r.side_effects@.len() == 0
    &&& opt_text(r.error_message) == Some("Parser returned no tree"@)
}

/// The result for `path` when the parser gave no tree.
pub fn treeless_result(path: &str) -> (r: FileResult)
    ensures
        is_treeless_result(r, path@),
        r.parse_time_ms == 0,
{
    FileResult {
        file_path: owned(path),
        confidence: ConfidenceBand::NoConfidence,
        exports: Vec::new(),
        imports: Vec::new(),
        signatures: Vec::new(),
        side_effects: Vec::new(),
        parse_time_ms: 0,
        error_message: Some(owned("Parser returned no tree")),
    }
}

/// The result for `path` of a parse with tree `t` and the given extractions.
pub fn parsed_result(
    path: &str,
    t: &SyntaxTree,
    exports: Vec<ExportedSymbol>,
    imports: Vec<DependencyEdge>,
    signatures: Vec<FunctionSignature>,
    side_effects: Vec<SideEffect>,
) -> (r: FileResult)
    ensures
        is_parsed_result(r, path@, t@, seq_view(exports@), seq_view(imports@), seq_view(signatures@), seq_view(side_effects@)),
        r.parse_time_ms == 0,
{
    let confidence = if t.has_error {
        let has_children = if t.nodes.len() > 0 {
            children_of(t, 0).len() > 0
        } else {
            false
        };
        if has_children {
            ConfidenceBand::Low
        } else {
            ConfidenceBand::NoConfidence
        }
    } else {
        ConfidenceBand::High
    };
    proof {
        if t.nodes.len() == 0 {
            assert(children(t@.nodes, 0) =~= Seq::<int>::empty());
        }
    }
    let error_message = if t.has_error {
        Some(owned("Parse errors detected \u{2014} partial extraction"))
    } else {
        None
    };
    FileResult {
        file_path: owned(path),
        confidence,
        exports,
        imports,
        signatures,
        side_effects,
        parse_time_ms: 0,
        error_message,
    }
}

} // verus!
