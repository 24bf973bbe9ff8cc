//! The scope resolver.
//!
//! Resolves an identifier to a concrete node, given a starting node, by
//! searching, in this order and with the first match winning: the siblings
//! at the starting node's nesting level and, walking outward, each
//! enclosing scope's children; a `use` import found there, re-resolved in
//! its target module's expanded document; the enclosing class's parent
//! chain, across files; and finally the current file's glob imports, in
//! declaration order.  Absence of a match is not an error: the caller
//! decides how to report it.

use vstd::prelude::*;
use crate::document::{LiveNode, LiveValue};
use crate::ids::{LiveFileId, LiveModuleId, LivePtr};
use crate::registry::{spec_module_to_file, LiveRegistry};

verus! {

/// Resolution yields a node in the same document or one in another file's
/// expanded document.
#[derive(Clone, Copy, Debug, PartialEq, Eq, Structural)]
pub enum LiveScopeTarget {
    LocalPtr(usize),
    ForeignPtr(LivePtr),
}

/// The first direct child of the scope the scan stands in, at or after
/// `j`, whose identifier is `name`; the scan enters no nested scope and
/// stops at the scope's close.  `depth` is the nesting the scan is inside
/// relative to the children's level.
pub open spec fn spec_child_scan(nodes: Seq<LiveNode>, j: int, depth: int, name: u64) -> Option<
    int,
>
    decreases nodes.len() - j,
{
    if j < 0 || j >= nodes.len() {
        None
    } else if depth == 0 && nodes[j].value.spec_is_close() {
        None
    } else if depth == 0 && nodes[j].id == name && !nodes[j].value.spec_is_close() {
        Some(j)
    } else {
        let d2 = if nodes[j].value.spec_is_open() {
            depth + 1
        } else if nodes[j].value.spec_is_close() {
            depth - 1
        } else {
            depth
        };
        spec_child_scan(nodes, j + 1, d2, name)
    }
}

/// The index of the open node enclosing position `j`, found by scanning
/// backward; `0`, the root, when no open encloses `j`.  `depth` counts the
/// closes passed.
pub open spec fn spec_enclosing(nodes: Seq<LiveNode>, j: int, depth: int) -> int
    decreases j,
{
    if j <= 0 {
        0
    } else {
        let k = j - 1;
        if nodes[k].value.spec_is_open() {
            if depth == 0 {
                k
            } else {
                spec_enclosing(nodes, k, depth - 1)
            }
        } else if nodes[k].value.spec_is_close() {
            spec_enclosing(nodes, k, depth + 1)
        } else {
            spec_enclosing(nodes, k, depth)
        }
    }
}

pub proof fn lemma_enclosing_range(nodes: Seq<LiveNode>, j: int, depth: int)
    requires
        0 <= j,
    ensures
        0 <= spec_enclosing(nodes, j, depth) <= j,
        j > 0 ==> spec_enclosing(nodes, j, depth) < j,
    decreases j,
{
    if j > 0 {
        let k = j - 1;
        if nodes[k].value.spec_is_open() {
            if depth != 0 {
                lemma_enclosing_range(nodes, k, depth - 1);
            }
        } else if nodes[k].value.spec_is_close() {
            lemma_enclosing_range(nodes, k, depth + 1);
        } else {
            lemma_enclosing_range(nodes, k, depth);
        }
    }
}

/// The walk outward: search the children of the scope `p` opens; if
/// nothing matches and `p` is not the root, climb to the scope enclosing
/// `p` and search again.  Nearer scopes win.
pub open spec fn spec_scope_up(nodes: Seq<LiveNode>, p: int, name: u64) -> Option<int>
    decreases p,
    via spec_scope_up_decreases
{
    match spec_child_scan(nodes, p + 1, 0, name) {
        Some(i) => Some(i),
        None => {
            if p <= 0 {
                None
            } else {
                spec_scope_up(nodes, spec_enclosing(nodes, p, 0), name)
            }
        },
    }
}

#[via_fn]
proof fn spec_scope_up_decreases(nodes: Seq<LiveNode>, p: int, name: u64) {
    if p > 0 {
        lemma_enclosing_range(nodes, p, 0);
    }
}

/// The local search from a starting node: the node's siblings first, then
/// each enclosing scope outward.
pub open spec fn spec_scope_up_down(nodes: Seq<LiveNode>, s: int, name: u64) -> Option<int> {
    spec_scope_up(nodes, spec_enclosing(nodes, s, 0), name)
}

impl LiveRegistry {
    /// A named item's node among the top-level children of a module's
    /// expanded document; for the empty name, the document root itself.
    pub open spec fn spec_module_item(self, module_id: LiveModuleId, name: u64) -> Option<
        LivePtr,
    > {
        match spec_module_to_file(self.live_files@, module_id) {
            Some(k) => {
                if name == 0 {
                    Some(LivePtr { file_id: LiveFileId(k as usize), index: 0 })
                } else {
                    match spec_child_scan(self.expanded@[k].nodes@, 1, 0, name) {
                        Some(i) => Some(LivePtr { file_id: LiveFileId(k as usize), index: i as usize }),
                        None => None,
                    }
                }
            },
            None => None,
        }
    }

    /// The glob tier: scan the current document's top-level `use` nodes
    /// with the empty identifier, in declaration order, and look the name
    /// up among each glob target's top-level children; first hit wins.
    pub open spec fn spec_glob_search(
        self,
        nodes: Seq<LiveNode>,
        j: int,
        depth: int,
        name: u64,
    ) -> Option<LivePtr>
        decreases nodes.len() - j,
    {
        if j < 1 || j >= nodes.len() {
            None
        } else if depth == 0 && nodes[j].value.spec_is_close() {
            None
        } else {
            let here: Option<LivePtr> = if depth == 0 && nodes[j].id == 0 {
                match nodes[j].value {
                    LiveValue::Use { module_id } => self.spec_module_item(module_id, name),
                    _ => None,
                }
            } else {
                None
            };
            if here is Some {
                here
            } else {
                let d2 = if nodes[j].value.spec_is_open() {
                    depth + 1
                } else if nodes[j].value.spec_is_close() {
                    depth - 1
                } else {
                    depth
                };
                self.spec_glob_search(nodes, j + 1, d2, name)
            }
        }
    }

    /// The local and import tiers combined, as `find_scope_target_via_start`
    /// computes them: a sibling or outer-scope match wins outright; a `use`
    /// match is re-resolved in its target module; with no local match, and
    /// on a `use` match whose target cannot be resolved, the glob tier
    /// decides.
    pub open spec fn spec_scope_target(self, nodes: Seq<LiveNode>, s: int, name: u64) -> Option<
        LiveScopeTarget,
    > {
        match spec_scope_up_down(nodes, s, name) {
            Some(i) => {
                match nodes[i].value {
                    LiveValue::Use { module_id } => {
                        match self.spec_module_item(module_id, name) {
                            Some(ptr) => Some(LiveScopeTarget::ForeignPtr(ptr)),
                            None => match self.spec_glob_search(nodes, 1, 0, name) {
                                Some(ptr) => Some(LiveScopeTarget::ForeignPtr(ptr)),
                                None => None,
                            },
                        }
                    },
                    _ => Some(LiveScopeTarget::LocalPtr(i as usize)),
                }
            },
            None => {
                match self.spec_glob_search(nodes, 1, 0, name) {
                    Some(ptr) => Some(LiveScopeTarget::ForeignPtr(ptr)),
                    None => None,
                }
            },
        }
    }
}

/// Scans the direct children of the scope the position stands in.
fn child_scan(nodes: &Vec<LiveNode>, j: usize, name: u64) -> (r: Option<usize>)
    ensures
        r matches Some(i) ==> Some(i as int) == spec_child_scan(nodes@, j as int, 0, name) && i
            < nodes@.len(),
        r is None ==> spec_child_scan(nodes@, j as int, 0, name) is None,
{
    let n = nodes.len();
    if j >= n {
        return None;
    }
    let mut k = j;
    let mut d: usize = 0;
    while k < n
        invariant
            n == nodes@.len(),
            j <= k <= n,
            d <= k - j,
            spec_child_scan(nodes@, j as int, 0, name) == spec_child_scan(
                nodes@,
                k as int,
                d as int,
                name,
            ),
        decreases n - k,
    {
        let node = &nodes[k];
        if d == 0 && node.value.is_close() {
            return None;
        }
        if d == 0 && node.id == name && !node.value.is_close() {
            return Some(k);
        }
        if node.value.is_open() {
            d = d + 1;
        } else if node.value.is_close() {
            d = d - 1;
        }
        k = k + 1;
    }
    None
}

/// Finds the open node enclosing a position.
fn find_enclosing(nodes: &Vec<LiveNode>, s: usize) -> (r: usize)
    requires
        s <= nodes@.len(),
    ensures
        r as int == spec_enclosing(nodes@, s as int, 0),
        r <= s,
        s > 0 ==> r < s,
{
    proof {
        lemma_enclosing_range(nodes@, s as int, 0);
    }
    let mut j = s;
    let mut d: usize = 0;
    while j > 0
        invariant
            s <= nodes@.len(),
            j <= s,
            spec_enclosing(nodes@, s as int, 0) == spec_enclosing(nodes@, j as int, d as int),
            d <= s - j,
        decreases j,
    {
        let k = j - 1;
        let node = &nodes[k];
        if node.value.is_open() {
            if d == 0 {
                proof {
                    lemma_enclosing_range(nodes@, s as int, 0);
                }
                return k;
            }
            d = d - 1;
        } else if node.value.is_close() {
            d = d + 1;
        }
        j = k;
    }
    0
}

/// The local search: siblings first, then each enclosing scope outward.
pub fn scope_up_down_by_name(nodes: &Vec<LiveNode>, s: usize, name: u64) -> (r: Option<usize>)
    requires
        s <= nodes@.len(),
    ensures
        r matches Some(i) ==> Some(i as int) == spec_scope_up_down(nodes@, s as int, name) && i
            < nodes@.len(),
        r is None ==> spec_scope_up_down(nodes@, s as int, name) is None,
{
    let n = nodes.len();
    let mut p = find_enclosing(nodes, s);
    loop
        invariant
            n == nodes@.len(),
            p == 0 || p < n,
            spec_scope_up_down(nodes@, s as int, name) == spec_scope_up(nodes@, p as int, name),
        decreases p,
    {
        match child_scan(nodes, p + 1, name) {
            Some(i) => {
                return Some(i);
            },
            None => {
                if p == 0 {
                    return None;
                }
                p = find_enclosing(nodes, p);
            },
        }
    }
}

impl LiveRegistry {
    /// Looks a name up among the top-level nodes of a module's expanded
    /// document; the empty name yields the document root.
    pub fn module_id_and_name_to_doc(&self, module_id: LiveModuleId, name: u64) -> (r: Option<
        LivePtr,
    >)
        requires
            self.wf(),
        ensures
            r == self.spec_module_item(module_id, name),
            r matches Some(ptr) ==> ptr.file_id.0 < self.expanded@.len(),
    {
        match self.module_id_to_file_id(module_id) {
            Some(fid) => {
                proof {
                    crate::registry::lemma_module_to_file_range(self.live_files@, module_id);
                }
                if name == 0 {
                    Some(LivePtr { file_id: fid, index: 0 })
                } else {
                    let doc = &self.expanded[fid.0];
                    match child_scan(&doc.nodes, 1, name) {
                        Some(i) => Some(LivePtr { file_id: fid, index: i }),
                        None => None,
                    }
                }
            },
            None => None,
        }
    }

    /// The local and import tiers: resolves a name from a starting node in
    /// a node array, falling back to the file's glob imports.
    pub fn find_scope_target_via_start(&self, name: u64, s: usize, nodes: &Vec<LiveNode>) -> (r:
        Option<LiveScopeTarget>)
        requires
            self.wf(),
            s <= nodes@.len(),
        ensures
            r == self.spec_scope_target(nodes@, s as int, name),
            r matches Some(t) ==> (t matches LiveScopeTarget::LocalPtr(i) ==> i < nodes@.len())
                && (t matches LiveScopeTarget::ForeignPtr(p) ==> p.file_id.0
                < self.expanded@.len()),
    {
        match scope_up_down_by_name(nodes, s, name) {
            Some(i) => {
                let found_use = match nodes[i].value {
                    LiveValue::Use { module_id } => Some(module_id),
                    _ => None,
                };
                match found_use {
                    Some(module_id) => {
                        match self.module_id_and_name_to_doc(module_id, name) {
                            Some(ptr) => Some(LiveScopeTarget::ForeignPtr(ptr)),
                            None => {
                                match self.glob_search(nodes, name) {
                                    Some(ptr) => Some(LiveScopeTarget::ForeignPtr(ptr)),
                                    None => None,
                                }
                            },
                        }
                    },
                    None => Some(LiveScopeTarget::LocalPtr(i)),
                }
            },
            None => {
                match self.glob_search(nodes, name) {
                    Some(ptr) => Some(LiveScopeTarget::ForeignPtr(ptr)),
                    None => None,
                }
            },
        }
    }

    /// The glob tier.
    fn glob_search(&self, nodes: &Vec<LiveNode>, name: u64) -> (r: Option<LivePtr>)
        requires
            self.wf(),
        ensures
            r == self.spec_glob_search(nodes@, 1, 0, name),
            r matches Some(p) ==> p.file_id.0 < self.expanded@.len(),
    {
        let n = nodes.len();
        let mut j: usize = 1;
        let mut d: usize = 0;
        while j < n
            invariant
                n == nodes@.len(),
                1 <= j,
                d <= j - 1,
                j <= n || (n == 0 && j == 1),
                self.wf(),
                self.spec_glob_search(nodes@, 1, 0, name) == self.spec_glob_search(
                    nodes@,
                    j as int,
                    d as int,
                    name,
                ),
            decreases n - j,
        {
            let node = &nodes[j];
            if d == 0 && node.value.is_close() {
                return None;
            }
            if d == 0 && node.id == 0 {
                let use_module = match node.value {
                    LiveValue::Use { module_id } => Some(module_id),
                    _ => None,
                };
                match use_module {
                    Some(module_id) => {
                        match self.module_id_and_name_to_doc(module_id, name) {
                            Some(ptr) => {
                                return Some(ptr);
                            },
                            None => {},
                        }
                    },
                    None => {},
                }
            }
            if node.value.is_open() {
                d = d + 1;
            } else if node.value.is_close() {
                d = d - 1;
            }
            j = j + 1;
        }
        None
    }
}

/// Law (scope resolution precedence, local over the rest): whenever the
/// local walk finds a sibling or outer-scope node that is not an import,
/// resolution returns exactly that node; neither the class-parent chain
/// nor any glob import is consulted.
pub proof fn lemma_local_match_wins(
    reg: LiveRegistry,
    nodes: Seq<LiveNode>,
    s: int,
    name: u64,
    i: int,
)
    requires
        spec_scope_up_down(nodes, s, name) == Some(i),
        0 <= i < nodes.len(),
        !(nodes[i].value is Use),
    ensures
        reg.spec_scope_target(nodes, s, name) == Some(LiveScopeTarget::LocalPtr(i as usize)),
{
}

/// Law (scope resolution precedence, glob comes last): a glob import can
/// only decide resolution when the local walk found nothing, or found an
/// import whose own target cannot be resolved.
pub proof fn lemma_glob_is_last(reg: LiveRegistry, nodes: Seq<LiveNode>, s: int, name: u64)
    requires
        reg.spec_scope_target(nodes, s, name) is Some,
        reg.spec_scope_target(nodes, s, name) != (match reg.spec_glob_search(nodes, 1, 0, name) {
            Some(p) => Some(LiveScopeTarget::ForeignPtr(p)),
            None => None,
        }),
    ensures
        spec_scope_up_down(nodes, s, name) is Some,
{
}


impl LiveRegistry {
    /// The class-parent retry: starting from a class node (in its file's
    /// expanded document), search its scope; with no match, retry from the
    /// class's resolved parent when that parent lives in another file.
    /// `fuel` bounds the chain, tolerating parent cycles across files.
    pub open spec fn spec_class_parent_chain(
        self,
        ptr: LivePtr,
        name: u64,
        fuel: nat,
    ) -> Option<LivePtr>
        decreases fuel,
    {
        if !self.ptr_valid(ptr) {
            None
        } else {
            let nodes = self.expanded@[ptr.file_id.0 as int].nodes@;
            match nodes[ptr.index as int].value {
                LiveValue::Class { live_type, class_parent } => {
                    match spec_scope_up_down(nodes, ptr.index as int, name) {
                        Some(i) => {
                            match nodes[i].value {
                                LiveValue::Use { module_id } => self.spec_module_item(
                                    module_id,
                                    name,
                                ),
                                _ => Some(LivePtr { file_id: ptr.file_id, index: i as usize }),
                            }
                        },
                        None => {
                            match class_parent {
                                Some(cp) => {
                                    if cp.file_id != ptr.file_id && fuel > 0 {
                                        self.spec_class_parent_chain(cp, name, (fuel - 1) as nat)
                                    } else {
                                        None
                                    }
                                },
                                None => None,
                            }
                        },
                    }
                },
                _ => None,
            }
        }
    }

    /// Resolves a scope item starting from a class node, chaining across
    /// files through resolved parent-class pointers.
    pub fn find_scope_item_via_class_parent(&self, start_ptr: LivePtr, name: u64) -> (r: Option<
        LivePtr,
    >)
        requires
            self.wf(),
        ensures
            r == self.spec_class_parent_chain(
                start_ptr,
                name,
                self.live_files@.len() as nat,
            ),
            r matches Some(p) ==> p.file_id.0 < self.expanded@.len(),
    {
        let fuel = self.live_files.len();
        self.class_parent_chain(start_ptr, name, fuel)
    }

    fn class_parent_chain(&self, ptr: LivePtr, name: u64, fuel: usize) -> (r: Option<LivePtr>)
        requires
            self.wf(),
        ensures
            r == self.spec_class_parent_chain(ptr, name, fuel as nat),
            r matches Some(p) ==> p.file_id.0 < self.expanded@.len(),
        decreases fuel,
    {
        if !self.ptr_alive(ptr) {
            return None;
        }
        let doc = &self.expanded[ptr.file_id.0];
        let (is_class, class_parent) = match doc.nodes[ptr.index].value {
            LiveValue::Class { live_type, class_parent } => (true, class_parent),
            _ => (false, None),
        };
        if !is_class {
            return None;
        }
        match scope_up_down_by_name(&doc.nodes, ptr.index, name) {
            Some(i) => {
                match doc.nodes[i].value {
                    LiveValue::Use { module_id } => self.module_id_and_name_to_doc(
                        module_id,
                        name,
                    ),
                    _ => Some(LivePtr { file_id: ptr.file_id, index: i }),
                }
            },
            None => {
                match class_parent {
                    Some(cp) => {
                        if !(cp.file_id.0 == ptr.file_id.0) && fuel > 0 {
                            self.class_parent_chain(cp, name, fuel - 1)
                        } else {
                            None
                        }
                    },
                    None => None,
                }
            },
        }
    }

    /// The full resolution order of expansion: the local walk with its
    /// import indirection; then, with no local match, the enclosing
    /// class's parent chain; and last the file's glob imports.
    pub open spec fn spec_expand_resolve(
        self,
        own_file: LiveFileId,
        nodes: Seq<LiveNode>,
        s: int,
        name: u64,
    ) -> Option<LiveScopeTarget> {
        match spec_scope_up_down(nodes, s, name) {
            Some(i) => {
                match nodes[i].value {
                    LiveValue::Use { module_id } => {
                        match self.spec_module_item(module_id, name) {
                            Some(ptr) => Some(LiveScopeTarget::ForeignPtr(ptr)),
                            None => match self.spec_glob_search(nodes, 1, 0, name) {
                                Some(ptr) => Some(LiveScopeTarget::ForeignPtr(ptr)),
                                None => None,
                            },
                        }
                    },
                    _ => Some(LiveScopeTarget::LocalPtr(i as usize)),
                }
            },
            None => {
                let p = spec_enclosing(nodes, s, 0);
                let via_parent: Option<LivePtr> = if 0 <= p < nodes.len() {
                    match nodes[p].value {
                        LiveValue::Class { live_type, class_parent } => {
                            match class_parent {
                                Some(cp) => {
                                    if cp.file_id != own_file {
                                        self.spec_class_parent_chain(
                                            cp,
                                            name,
                                            self.live_files@.len() as nat,
                                        )
                                    } else {
                                        None
                                    }
                                },
                                None => None,
                            }
                        },
                        _ => None,
                    }
                } else {
                    None
                };
                match via_parent {
                    Some(ptr) => Some(LiveScopeTarget::ForeignPtr(ptr)),
                    None => match self.spec_glob_search(nodes, 1, 0, name) {
                        Some(ptr) => Some(LiveScopeTarget::ForeignPtr(ptr)),
                        None => None,
                    },
                }
            },
        }
    }

    /// Resolves a name for expansion, from the position a node is about to
    /// be emitted at, against the partially built document.
    pub fn expand_resolve(
        &self,
        own_file: LiveFileId,
        nodes: &Vec<LiveNode>,
        s: usize,
        name: u64,
    ) -> (r: Option<LiveScopeTarget>)
        requires
            self.wf(),
            s <= nodes@.len(),
        ensures
            r == self.spec_expand_resolve(own_file, nodes@, s as int, name),
            r matches Some(t) ==> (t matches LiveScopeTarget::LocalPtr(i) ==> i < nodes@.len())
                && (t matches LiveScopeTarget::ForeignPtr(p) ==> p.file_id.0
                < self.expanded@.len()),
    {
        match scope_up_down_by_name(nodes, s, name) {
            Some(i) => {
                let found_use = match nodes[i].value {
                    LiveValue::Use { module_id } => Some(module_id),
                    _ => None,
                };
                match found_use {
                    Some(module_id) => {
                        match self.module_id_and_name_to_doc(module_id, name) {
                            Some(ptr) => Some(LiveScopeTarget::ForeignPtr(ptr)),
                            None => {
                                match self.glob_search(nodes, name) {
                                    Some(ptr) => Some(LiveScopeTarget::ForeignPtr(ptr)),
                                    None => None,
                                }
                            },
                        }
                    },
                    None => Some(LiveScopeTarget::LocalPtr(i)),
                }
            },
            None => {
                let p = find_enclosing(nodes, s);
                let parent_cp = if p < nodes.len() {
                    match nodes[p].value {
                        LiveValue::Class { live_type, class_parent } => class_parent,
                        _ => None,
                    }
                } else {
                    None
                };
                proof {
                    if p >= nodes@.len() {
                        assert(s == 0 && p == 0 && nodes@.len() == 0);
                    }
                }
                let via_parent = match parent_cp {
                    Some(cp) => {
                        if !(cp.file_id.0 == own_file.0) {
                            self.find_scope_item_via_class_parent(cp, name)
                        } else {
                            None
                        }
                    },
                    None => None,
                };
                match via_parent {
                    Some(ptr) => Some(LiveScopeTarget::ForeignPtr(ptr)),
                    None => {
                        match self.glob_search(nodes, name) {
                            Some(ptr) => Some(LiveScopeTarget::ForeignPtr(ptr)),
                            None => None,
                        }
                    },
                }
            },
        }
    }
}

/// Law (scope resolution precedence, parent over glob): with no local
/// match, a hit through the enclosing class's parent chain decides
/// resolution, and no glob import is consulted.
pub proof fn lemma_parent_beats_glob(
    reg: LiveRegistry,
    own_file: LiveFileId,
    nodes: Seq<LiveNode>,
    s: int,
    name: u64,
    cp: LivePtr,
    ptr: LivePtr,
)
    requires
        spec_scope_up_down(nodes, s, name) is None,
        0 <= spec_enclosing(nodes, s, 0) < nodes.len(),
        nodes[spec_enclosing(nodes, s, 0)].value matches LiveValue::Class {
            class_parent: Some(cp2),
            ..
        } && cp2 == cp,
        cp.file_id != own_file,
        reg.spec_class_parent_chain(cp, name, reg.live_files@.len() as nat) == Some(ptr),
    ensures
        reg.spec_expand_resolve(own_file, nodes, s, name) == Some(
            LiveScopeTarget::ForeignPtr(ptr),
        ),
{
}

/// Law (scope resolution precedence, local over parent and glob): a local
/// sibling or outer-scope match that is not an import always wins; the
/// parent chain and the glob imports are not consulted.
pub proof fn lemma_local_beats_parent_and_glob(
    reg: LiveRegistry,
    own_file: LiveFileId,
    nodes: Seq<LiveNode>,
    s: int,
    name: u64,
    i: int,
)
    requires
        spec_scope_up_down(nodes, s, name) == Some(i),
        0 <= i < nodes.len(),
        !(nodes[i].value is Use),
    ensures
        reg.spec_expand_resolve(own_file, nodes, s, name) == Some(
            LiveScopeTarget::LocalPtr(i as usize),
        ),
{
}


impl LiveRegistry {
    /// Resolves a name from a node's recorded origin: the search starts at
    /// the node's position in its file's expanded document, with the
    /// import and glob tiers of that file.
    pub fn find_scope_ptr_via_origin(
        &self,
        origin: crate::document::LiveNodeOrigin,
        name: u64,
    ) -> (r: Option<LivePtr>)
        requires
            self.wf(),
            origin.token_id matches Some(t) && t.file_id.0 < self.live_files@.len(),
            origin.node_index matches Some(s) && s
                <= self.expanded@[origin.token_id->Some_0.file_id.0 as int].nodes@.len(),
        ensures
            ({
                let fid = origin.token_id->Some_0.file_id;
                let s = origin.node_index->Some_0;
                r == (match self.spec_scope_target(
                    self.expanded@[fid.0 as int].nodes@,
                    s as int,
                    name,
                ) {
                    Some(LiveScopeTarget::LocalPtr(i)) => Some(LivePtr { file_id: fid, index: i }),
                    Some(LiveScopeTarget::ForeignPtr(p)) => Some(p),
                    None => None::<LivePtr>,
                })
            }),
    {
        let fid = match origin.token_id {
            Some(t) => t.file_id,
            None => {
                proof {
                    assert(false);
                }
                return None;
            },
        };
        let s = match origin.node_index {
            Some(s) => s,
            None => {
                proof {
                    assert(false);
                }
                return None;
            },
        };
        let doc = &self.expanded[fid.0];
        match self.find_scope_target_via_start(name, s, &doc.nodes) {
            Some(LiveScopeTarget::LocalPtr(i)) => Some(LivePtr { file_id: fid, index: i }),
            Some(LiveScopeTarget::ForeignPtr(p)) => Some(p),
            None => None,
        }
    }
}

} // verus!
