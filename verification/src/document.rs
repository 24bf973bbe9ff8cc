//! The flat node document.
//!
//! A document is an ordered, flat sequence of nodes encoding a tree through
//! explicit open and close markers, so that a node's identity is its array
//! index.  It carries the owning file's token stream and the out-of-line
//! character pool for string literals.

use vstd::prelude::*;
use crate::ids::{LiveModuleId, LivePtr, LiveTokenId};
use crate::token::TokenWithSpan;

verus! {

/// Where a node came from: the token it was parsed at and the index the
/// node was given in its file's expanded document.  The pair is the join
/// key of patch propagation.
#[derive(Clone, Copy, Debug, PartialEq, Eq, Structural)]
pub struct LiveNodeOrigin {
    pub token_id: Option<LiveTokenId>,
    pub node_index: Option<usize>,
}

impl LiveNodeOrigin {
    pub fn none() -> (r: LiveNodeOrigin)
        ensures
            r.token_id is None,
            r.node_index is None,
    {
        LiveNodeOrigin { token_id: None, node_index: None }
    }

    pub fn from_token_id(token_id: LiveTokenId) -> (r: LiveNodeOrigin)
        ensures
            r.token_id == Some(token_id),
            r.node_index is None,
    {
        LiveNodeOrigin { token_id: Some(token_id), node_index: None }
    }
}

/// A node's value.  `Object`, `Array`, `Clone` and `Class` open a scope that
/// a later `Close` ends; `Clone` names a parent to inherit from and only
/// appears in parsed documents, expansion replaces it by a `Class` whose
/// `class_parent` points at the resolved parent node.
#[derive(Clone, Copy, Debug, PartialEq)]
pub enum LiveValue {
    Object,
    Array,
    /// An open node inheriting from the named scope item; unexpanded form.
    Clone(u64),
    /// An open node backed by a native type, optionally with the resolved
    /// parent it was cloned from.
    Class { live_type: u64, class_parent: Option<LivePtr> },
    /// A `use` import: a named item or, when the node's id is the empty
    /// identifier, a glob import of the whole target module.
    Use { module_id: LiveModuleId },
    Bool(bool),
    Int(i64),
    Float(u64),
    Color(u32),
    Str { index: usize, len: usize },
    Close,
}

impl LiveValue {
    pub open spec fn spec_is_open(self) -> bool {
        match self {
            LiveValue::Object => true,
            LiveValue::Array => true,
            LiveValue::Clone(_) => true,
            LiveValue::Class { .. } => true,
            _ => false,
        }
    }

    pub fn is_open(&self) -> (r: bool)
        ensures
            r == self.spec_is_open(),
    {
        match self {
            LiveValue::Object => true,
            LiveValue::Array => true,
            LiveValue::Clone(_) => true,
            LiveValue::Class { .. } => true,
            _ => false,
        }
    }

    pub open spec fn spec_is_close(self) -> bool {
        self is Close
    }

    pub fn is_close(&self) -> (r: bool)
        ensures
            r == self.spec_is_close(),
    {
        match self {
            LiveValue::Close => true,
            _ => false,
        }
    }

    /// A scalar leaf whose value a value-only patch may overwrite.
    pub open spec fn spec_is_scalar(self) -> bool {
        match self {
            LiveValue::Bool(_) => true,
            LiveValue::Int(_) => true,
            LiveValue::Float(_) => true,
            LiveValue::Color(_) => true,
            LiveValue::Str { .. } => true,
            _ => false,
        }
    }

    pub fn is_scalar(&self) -> (r: bool)
        ensures
            r == self.spec_is_scalar(),
    {
        match self {
            LiveValue::Bool(_) => true,
            LiveValue::Int(_) => true,
            LiveValue::Float(_) => true,
            LiveValue::Color(_) => true,
            LiveValue::Str { .. } => true,
            _ => false,
        }
    }
}

/// One node: an identifier (the empty identifier for anonymous entries), an
/// origin, and a value.
#[derive(Clone, Copy, Debug, PartialEq)]
pub struct LiveNode {
    pub id: u64,
    pub origin: LiveNodeOrigin,
    pub value: LiveValue,
}

/// How a node changes the nesting depth of the scan that walks the flat
/// array.
pub open spec fn node_delta(n: LiveNode) -> int {
    if n.value.spec_is_open() {
        1
    } else if n.value.spec_is_close() {
        -1
    } else {
        0
    }
}

/// The nesting depth in front of index `i`: opens minus closes among the
/// first `i` nodes.
pub open spec fn depth_to(nodes: Seq<LiveNode>, i: int) -> int
    decreases i,
{
    if i <= 0 {
        0
    } else {
        depth_to(nodes, i - 1) + node_delta(nodes[i - 1])
    }
}

/// A non-empty document's nodes form one balanced tree: a single root open
/// node at index 0 whose matching close is the last node, with the depth
/// staying positive strictly inside.
pub open spec fn nodes_rooted(nodes: Seq<LiveNode>) -> bool {
    &&& nodes.len() >= 2
    &&& nodes[0].value.spec_is_open()
    &&& nodes[nodes.len() - 1].value.spec_is_close()
    &&& depth_to(nodes, nodes.len() as int) == 0
    &&& forall|i: int| 0 < i < nodes.len() ==> #[trigger] depth_to(nodes, i) >= 1
}

/// An ordered flat document with its token stream and string pool.  The
/// `recompile` flag marks an expanded document that must be rebuilt by the
/// next expansion pass.
#[derive(Clone, Debug, PartialEq)]
pub struct LiveDocument {
    pub nodes: Vec<LiveNode>,
    pub tokens: Vec<TokenWithSpan>,
    pub strings: Vec<char>,
    pub recompile: bool,
}

impl LiveDocument {
    /// Balanced or still empty (an expanded document before its first
    /// expansion pass).
    pub open spec fn wf(self) -> bool {
        self.nodes@.len() == 0 || nodes_rooted(self.nodes@)
    }

    /// The empty document allocated for a file at registration, marked for
    /// expansion.
    pub fn new() -> (r: LiveDocument)
        ensures
            r.nodes@.len() == 0,
            r.tokens@.len() == 0,
            r.strings@.len() == 0,
            r.recompile == true,
            r.wf(),
    {
        LiveDocument { nodes: Vec::new(), tokens: Vec::new(), strings: Vec::new(), recompile: true }
    }
}

/// Metadata for one native type: its opaque type identity, the identifier
/// it is written as in source (`name_id`), the module that declares it, and its
/// sub-fields, each contributing the module its own type lives in.  The
/// registry uses the fields to compute dependencies implied by composition.
#[derive(Clone, Debug, PartialEq)]
pub struct LiveTypeInfo {
    pub live_type: u64,
    pub name_id: u64,
    pub module_id: LiveModuleId,
    pub fields: Vec<LiveTypeField>,
}

/// One sub-field of a native type: its identifier and the module identity
/// of the field's own native type.
#[derive(Clone, Copy, Debug, PartialEq, Eq, Structural)]
pub struct LiveTypeField {
    pub id: u64,
    pub module_id: LiveModuleId,
}

/// Prefix depths depend only on the prefix.
pub proof fn lemma_depth_to_agree(s1: Seq<LiveNode>, s2: Seq<LiveNode>, i: int)
    requires
        0 <= i <= s1.len(),
        i <= s2.len(),
        forall|j: int| 0 <= j < i ==> s1[j] == s2[j],
    ensures
        depth_to(s1, i) == depth_to(s2, i),
    decreases i,
{
    if i > 0 {
        lemma_depth_to_agree(s1, s2, i - 1);
    }
}

/// The index one past the subtree that is still open `depth` levels deep at
/// `j`: the scan runs until the matching close, and degenerates to the array
/// length when the array is not balanced.
pub open spec fn spec_scan_end(nodes: Seq<LiveNode>, j: int, depth: int) -> int
    decreases nodes.len() - j,
{
    if j < 0 || j >= nodes.len() {
        nodes.len() as int
    } else if nodes[j].value.spec_is_close() {
        if depth <= 1 {
            j + 1
        } else {
            spec_scan_end(nodes, j + 1, depth - 1)
        }
    } else if nodes[j].value.spec_is_open() {
        spec_scan_end(nodes, j + 1, depth + 1)
    } else {
        spec_scan_end(nodes, j + 1, depth)
    }
}

/// The index one past the subtree rooted at `i`: `i + 1` for a leaf, the
/// index after the matching close for an open node.
pub open spec fn spec_subtree_end(nodes: Seq<LiveNode>, i: int) -> int {
    if nodes[i].value.spec_is_open() {
        spec_scan_end(nodes, i + 1, 1)
    } else {
        i + 1
    }
}

proof fn lemma_scan_end_range(nodes: Seq<LiveNode>, j: int, depth: int)
    requires
        0 <= j <= nodes.len(),
    ensures
        j < spec_scan_end(nodes, j, depth) <= nodes.len() || (j == nodes.len()
            && spec_scan_end(nodes, j, depth) == nodes.len()),
    decreases nodes.len() - j,
{
    if j < nodes.len() {
        if nodes[j].value.spec_is_close() {
            if depth <= 1 {
            } else {
                lemma_scan_end_range(nodes, j + 1, depth - 1);
            }
        } else if nodes[j].value.spec_is_open() {
            lemma_scan_end_range(nodes, j + 1, depth + 1);
        } else {
            lemma_scan_end_range(nodes, j + 1, depth);
        }
    }
}

/// The scan never stops short of the array and never overshoots it.
pub proof fn lemma_subtree_end_range(nodes: Seq<LiveNode>, i: int)
    requires
        0 <= i < nodes.len(),
    ensures
        i < spec_subtree_end(nodes, i) <= nodes.len(),
{
    if nodes[i].value.spec_is_open() {
        lemma_scan_end_range(nodes, i + 1, 1);
    }
}

/// Walks from `j` with `depth` subtrees still open until the matching close.
fn scan_end(nodes: &Vec<LiveNode>, j: usize, depth: usize) -> (r: usize)
    requires
        j <= nodes@.len(),
        1 <= depth <= j,
    ensures
        r == spec_scan_end(nodes@, j as int, depth as int),
        j <= r <= nodes@.len(),
{
    let n = nodes.len();
    let mut k = j;
    let mut d = depth;
    while k < n
        invariant
            j <= k <= n,
            n == nodes@.len(),
            d >= 1,
            d <= depth + k - j,
            depth <= j,
            spec_scan_end(nodes@, j as int, depth as int) == spec_scan_end(
                nodes@,
                k as int,
                d as int,
            ),
        ensures
            spec_scan_end(nodes@, j as int, depth as int) == spec_scan_end(
                nodes@,
                k as int,
                d as int,
            ),
            k == n || (nodes@[k as int].value.spec_is_close() && d == 1),
            k <= n,
        decreases n - k,
    {
        if nodes[k].value.is_close() {
            if d == 1 {
                break ;
            }
            d = d - 1;
        } else if nodes[k].value.is_open() {
            d = d + 1;
        }
        k = k + 1;
    }
    if k < n {
        k + 1
    } else {
        k
    }
}

/// The index one past the subtree rooted at `i`.
pub fn subtree_end(nodes: &Vec<LiveNode>, i: usize) -> (r: usize)
    requires
        i < nodes@.len(),
    ensures
        r == spec_subtree_end(nodes@, i as int),
        i < r <= nodes@.len(),
{
    proof {
        lemma_subtree_end_range(nodes@, i as int);
    }
    let n = nodes.len();
    if nodes[i].value.is_open() {
        scan_end(nodes, i + 1, 1)
    } else {
        i + 1
    }
}

} // verus!
