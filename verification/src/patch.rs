//! The patch propagator.
//!
//! Given the mutated token positions of one file, walks the reverse
//! dependency closure of that file, each file at most once, and overwrites
//! the value of every node in an already expanded document whose recorded
//! origin is the mutated property's name token.  A value whose kind
//! disagrees with the node's current value is skipped, never fatal.  Every
//! rewrite that lands in the designated main module is also recorded, keyed
//! by the node's dotted identifier path from the document root, in an
//! ordered patch list for the running instance to consume.

use vstd::prelude::*;
use crate::document::{LiveDocument, LiveNode, LiveValue};
use crate::error::LiveError;
use crate::ids::{live_id_from_str, live_id_of, LiveFileId, LiveTokenId};
use crate::registry::{LiveFile, LivePatch, LiveRegistry};
use crate::token::{LiveToken, TokenWithSpan};
use crate::update::{update_document, RelexedLine, TokenRange};

verus! {

/// The value a mutated token carries into the document, for the kinds a
/// value-only edit can produce.
pub open spec fn spec_mutation_value(t: LiveToken) -> Option<LiveValue> {
    match t {
        LiveToken::Bool(b) => Some(LiveValue::Bool(b)),
        LiveToken::Int(v) => Some(LiveValue::Int(v)),
        LiveToken::Float(v) => Some(LiveValue::Float(v)),
        LiveToken::Color(v) => Some(LiveValue::Color(v)),
        LiveToken::Str { index, len } => Some(LiveValue::Str { index, len }),
        _ => None,
    }
}

fn mutation_value(t: &LiveToken) -> (r: Option<LiveValue>)
    ensures
        r == spec_mutation_value(*t),
{
    match t {
        LiveToken::Bool(b) => Some(LiveValue::Bool(*b)),
        LiveToken::Int(v) => Some(LiveValue::Int(*v)),
        LiveToken::Float(v) => Some(LiveValue::Float(*v)),
        LiveToken::Color(v) => Some(LiveValue::Color(*v)),
        LiveToken::Str { index, len } => Some(LiveValue::Str { index: *index, len: *len }),
        _ => None,
    }
}

/// Two scalar values of the same kind.
pub open spec fn spec_kind_matches(a: LiveValue, b: LiveValue) -> bool {
    match (a, b) {
        (LiveValue::Bool(_), LiveValue::Bool(_)) => true,
        (LiveValue::Int(_), LiveValue::Int(_)) => true,
        (LiveValue::Float(_), LiveValue::Float(_)) => true,
        (LiveValue::Color(_), LiveValue::Color(_)) => true,
        (LiveValue::Str { .. }, LiveValue::Str { .. }) => true,
        _ => false,
    }
}

fn kind_matches(a: &LiveValue, b: &LiveValue) -> (r: bool)
    ensures
        r == spec_kind_matches(*a, *b),
{
    match (a, b) {
        (LiveValue::Bool(_), LiveValue::Bool(_)) => true,
        (LiveValue::Int(_), LiveValue::Int(_)) => true,
        (LiveValue::Float(_), LiveValue::Float(_)) => true,
        (LiveValue::Color(_), LiveValue::Color(_)) => true,
        (LiveValue::Str { .. }, LiveValue::Str { .. }) => true,
        _ => false,
    }
}

/// What one propagation step does to one node: a scalar leaf whose origin
/// is the mutated property's name token takes the new value when the kinds
/// agree; every other node stays.
pub open spec fn patched_node(n: LiveNode, token_id: LiveTokenId, v: LiveValue) -> LiveNode {
    if n.origin.token_id == Some(token_id) && n.value.spec_is_scalar() && spec_kind_matches(
        n.value,
        v,
    ) {
        LiveNode { id: n.id, origin: n.origin, value: v }
    } else {
        n
    }
}

/// Rewrites every matching node of one expanded document, and collects,
/// when asked, the rewritten nodes' dotted paths and new values for the
/// main module's patch list.
/// A pending patch as a plain value: its dotted path and its new value.
pub open spec fn patch_view(p: LivePatch) -> (Seq<u64>, LiveValue) {
    (p.path@, p.value)
}

pub open spec fn patches_views(ps: Seq<LivePatch>) -> Seq<(Seq<u64>, LiveValue)> {
    ps.map_values(|p: LivePatch| patch_view(p))
}

/// The first pending entry carrying a dotted path.
pub open spec fn spec_first_path_index(ps: Seq<(Seq<u64>, LiveValue)>, path: Seq<u64>) -> Option<
    int,
>
    decreases ps.len(),
{
    if ps.len() == 0 {
        None
    } else if ps[0].0 == path {
        Some(0)
    } else {
        match spec_first_path_index(ps.drop_first(), path) {
            Some(w) => Some(w + 1),
            None => None,
        }
    }
}

/// One pending entry per dotted path: a rewrite replaces the entry with
/// its path, or appends a fresh one.
pub open spec fn spec_push_or_replace(
    ps: Seq<(Seq<u64>, LiveValue)>,
    path: Seq<u64>,
    v: LiveValue,
) -> Seq<(Seq<u64>, LiveValue)> {
    match spec_first_path_index(ps, path) {
        Some(w) => ps.update(w, (path, v)),
        None => ps.push((path, v)),
    }
}

/// The pending entries one document walk contributes, starting at node `j`
/// with the dotted path of that position and the entries collected so far:
/// every rewritten node is recorded under its dotted identifier path (the
/// root open excluded), in document order, one entry per path.
pub open spec fn spec_walk_patches(
    nodes: Seq<LiveNode>,
    token_id: LiveTokenId,
    v: LiveValue,
    j: int,
    path: Seq<u64>,
    acc: Seq<(Seq<u64>, LiveValue)>,
) -> Seq<(Seq<u64>, LiveValue)>
    decreases nodes.len() - j,
{
    if j < 0 || j >= nodes.len() {
        acc
    } else {
        let n = nodes[j];
        let path2 = if n.value.spec_is_open() {
            if j == 0 {
                path
            } else {
                path.push(n.id)
            }
        } else if n.value.spec_is_close() {
            if path.len() > 0 {
                path.drop_last()
            } else {
                path
            }
        } else {
            path
        };
        let acc2 = if !n.value.spec_is_open() && !n.value.spec_is_close() && n.origin.token_id
            == Some(token_id) && n.value.spec_is_scalar() && spec_kind_matches(n.value, v) {
            spec_push_or_replace(acc, path.push(n.id), v)
        } else {
            acc
        };
        spec_walk_patches(nodes, token_id, v, j + 1, path2, acc2)
    }
}

/// Rewrites every matching node of one expanded document.  When asked, the
/// rewrites are recorded in the pending list, each under the node's dotted
/// identifier path, one entry per path with the latest value winning.
pub fn walk_patch(
    nodes: &Vec<LiveNode>,
    token_id: LiveTokenId,
    v: &LiveValue,
    collect: bool,
    patches: &mut Vec<LivePatch>,
) -> (r: Vec<LiveNode>)
    ensures
        r@.len() == nodes@.len(),
        forall|j: int|
            0 <= j < nodes@.len() ==> #[trigger] r@[j] == patched_node(nodes@[j], token_id, *v),
        !collect ==> *final(patches) == *old(patches),
        collect ==> patches_views(final(patches)@) == spec_walk_patches(
            nodes@,
            token_id,
            *v,
            0,
            Seq::empty(),
            patches_views(old(patches)@),
        ),
{
    let n = nodes.len();
    let mut out: Vec<LiveNode> = Vec::new();
    let mut path: Vec<u64> = Vec::new();
    let mut j: usize = 0;
    while j < n
        invariant
            n == nodes@.len(),
            j <= n,
            out@.len() == j,
            forall|p: int|
                0 <= p < j ==> #[trigger] out@[p] == patched_node(nodes@[p], token_id, *v),
            !collect ==> patches == old(patches),
            collect ==> spec_walk_patches(
                nodes@,
                token_id,
                *v,
                0,
                Seq::empty(),
                patches_views(old(patches)@),
            ) == spec_walk_patches(
                nodes@,
                token_id,
                *v,
                j as int,
                path@,
                patches_views(patches@),
            ),
        decreases n - j,
    {
        let node = nodes[j];
        if node.value.is_open() {
            if j > 0 {
                path.push(node.id);
            }
            out.push(node);
            proof {
                assert(!node.value.spec_is_scalar());
            }
        } else if node.value.is_close() {
            if path.len() > 0 {
                let _ = path.pop();
            }
            out.push(node);
            proof {
                assert(!node.value.spec_is_scalar());
            }
        } else {
            let matches_here = match node.origin.token_id {
                Some(t) => t.file_id.0 == token_id.file_id.0 && t.index == token_id.index,
                None => false,
            };
            if matches_here && node.value.is_scalar() && kind_matches(&node.value, v) {
                let new_node = LiveNode { id: node.id, origin: node.origin, value: *v };
                out.push(new_node);
                if collect {
                    let mut full_path: Vec<u64> = Vec::new();
                    let mut u: usize = 0;
                    let pl = path.len();
                    while u < pl
                        invariant
                            pl == path@.len(),
                            u <= pl,
                            full_path@ == path@.subrange(0, u as int),
                        decreases pl - u,
                    {
                        full_path.push(path[u]);
                        proof {
                            assert(full_path@ =~= path@.subrange(0, u + 1));
                        }
                        u = u + 1;
                    }
                    proof {
                        assert(full_path@ =~= path@);
                    }
                    full_path.push(node.id);
                    push_or_replace(patches, full_path, *v);
                }
            } else {
                out.push(node);
            }
        }
        j = j + 1;
    }
    out
}

fn paths_equal(a: &Vec<u64>, b: &Vec<u64>) -> (r: bool)
    ensures
        r == (a@ == b@),
{
    let la = a.len();
    let lb = b.len();
    if la != lb {
        proof {
            assert(a@.len() != b@.len());
        }
        return false;
    }
    let mut i: usize = 0;
    while i < la
        invariant
            la == a@.len(),
            la == b@.len(),
            i <= la,
            forall|p: int| 0 <= p < i ==> a@[p] == b@[p],
        decreases la - i,
    {
        if a[i] != b[i] {
            return false;
        }
        i = i + 1;
    }
    proof {
        assert(a@ =~= b@);
    }
    true
}

/// Replaces the patch with the same dotted path, or appends: one pending
/// entry per path.
fn push_or_replace(patches: &mut Vec<LivePatch>, path: Vec<u64>, v: LiveValue)
    ensures
        patches_views(final(patches)@) == spec_push_or_replace(
            patches_views(old(patches)@),
            path@,
            v,
        ),
{
    let n = patches.len();
    let mut q: usize = 0;
    while q < n
        invariant
            n == patches@.len(),
            patches == old(patches),
            q <= n,
            forall|w: int| 0 <= w < q ==> (#[trigger] patches@[w]).path@ != path@,
        decreases n - q,
    {
        if paths_equal(&patches[q].path, &path) {
            proof {
                lemma_first_path_at(patches_views(patches@), path@, q as int);
            }
            let ghost before = patches_views(patches@);
            patches.set(q, LivePatch { path, value: v });
            proof {
                assert(patches_views(patches@) =~= before.update(q as int, (path@, v)));
            }
            return ;
        }
        q = q + 1;
    }
    proof {
        lemma_first_path_none(patches_views(patches@), path@);
    }
    let ghost before = patches_views(patches@);
    patches.push(LivePatch { path, value: v });
    proof {
        assert(patches_views(patches@) =~= before.push((path@, v)));
    }
}

/// The scan of `push_or_replace` finds the first entry of a path.
proof fn lemma_first_path_at(ps: Seq<(Seq<u64>, LiveValue)>, path: Seq<u64>, w: int)
    requires
        0 <= w < ps.len(),
        ps[w].0 == path,
        forall|w2: int| 0 <= w2 < w ==> (#[trigger] ps[w2]).0 != path,
    ensures
        spec_first_path_index(ps, path) == Some(w),
    decreases w,
{
    if w > 0 {
        assert forall|w2: int| 0 <= w2 < w - 1 implies (#[trigger] ps.drop_first()[w2]).0
            != path by {
            assert(ps.drop_first()[w2] == ps[w2 + 1]);
        }
        assert(ps.drop_first()[w - 1] == ps[w]);
        lemma_first_path_at(ps.drop_first(), path, w - 1);
    }
}

proof fn lemma_first_path_none(ps: Seq<(Seq<u64>, LiveValue)>, path: Seq<u64>)
    requires
        forall|w2: int| 0 <= w2 < ps.len() ==> (#[trigger] ps[w2]).0 != path,
    ensures
        spec_first_path_index(ps, path) is None,
    decreases ps.len(),
{
    if ps.len() > 0 {
        assert forall|w2: int| 0 <= w2 < ps.drop_first().len() implies (
        #[trigger] ps.drop_first()[w2]).0 != path by {
            assert(ps.drop_first()[w2] == ps[w2 + 1]);
        }
        lemma_first_path_none(ps.drop_first(), path);
    }
}

/// Distinct indexes below a bound cannot outnumber it.
proof fn lemma_distinct_bounded(s: Seq<usize>, n: nat)
    requires
        forall|i: int| 0 <= i < s.len() ==> (#[trigger] s[i]) < n,
        forall|i: int, j: int| 0 <= i < j < s.len() ==> s[i] != s[j],
    ensures
        s.len() <= n,
    decreases n,
{
    if n == 0 {
        if s.len() > 0 {
            assert(s[0] < 0);
        }
    } else {
        if exists|i: int| 0 <= i < s.len() && (#[trigger] s[i]) as nat == (n - 1) as nat {
            let i = choose|i: int| 0 <= i < s.len() && (#[trigger] s[i]) as nat == (n - 1) as nat;
            let s2 = s.remove(i);
            assert forall|p: int| 0 <= p < s2.len() implies (#[trigger] s2[p]) < (n - 1) as nat by {
                if p < i {
                    assert(s2[p] == s[p]);
                    assert(s[p] != s[i]);
                } else {
                    assert(s2[p] == s[p + 1]);
                    assert(s[p + 1] != s[i]);
                }
            }
            assert forall|p: int, q: int| 0 <= p < q < s2.len() implies s2[p] != s2[q] by {
                if q < i {
                } else if p < i {
                    assert(s2[p] == s[p]);
                    assert(s2[q] == s[q + 1]);
                } else {
                    assert(s2[p] == s[p + 1]);
                    assert(s2[q] == s[q + 1]);
                }
            }
            lemma_distinct_bounded(s2, (n - 1) as nat);
        } else {
            assert forall|i: int| 0 <= i < s.len() implies (#[trigger] s[i]) < (n - 1) as nat by {
                assert(s[i] < n);
                assert(!(s[i] as nat == (n - 1) as nat));
            }
            lemma_distinct_bounded(s, (n - 1) as nat);
        }
    }
}

/// The worklist of the reverse-dependency walk: files still to visit and
/// files already visited, kept disjoint and duplicate-free so every file
/// is visited at most once, which also tolerates dependency cycles.
pub struct FileDepIter {
    pub files_todo: Vec<LiveFileId>,
    pub files_done: Vec<LiveFileId>,
}

impl FileDepIter {
    pub open spec fn wf(self, n_files: int) -> bool {
        &&& forall|i: int|
            0 <= i < self.files_todo@.len() ==> (#[trigger] self.files_todo@[i]).0 < n_files
        &&& forall|i: int|
            0 <= i < self.files_done@.len() ==> (#[trigger] self.files_done@[i]).0 < n_files
        &&& forall|i: int, j: int|
            0 <= i < j < self.files_todo@.len() ==> self.files_todo@[i] != self.files_todo@[j]
        &&& forall|i: int, j: int|
            0 <= i < j < self.files_done@.len() ==> self.files_done@[i] != self.files_done@[j]
        &&& forall|i: int, j: int|
            0 <= i < self.files_todo@.len() && 0 <= j < self.files_done@.len()
                ==> self.files_todo@[i] != self.files_done@[j]
    }

    /// Starts a walk at one file.
    pub fn new(start: LiveFileId, Ghost(n_files): Ghost<int>) -> (r: FileDepIter)
        requires
            (start.0 as int) < n_files,
        ensures
            r.wf(n_files),
            r.files_todo@.len() == 1,
            r.files_todo@[0] == start,
            r.files_done@.len() == 0,
    {
        let mut todo: Vec<LiveFileId> = Vec::new();
        todo.push(start);
        FileDepIter { files_todo: todo, files_done: Vec::new() }
    }

    /// Takes the next file to visit, marking it visited.
    pub fn pop_todo(&mut self, Ghost(n_files): Ghost<int>) -> (r: Option<LiveFileId>)
        requires
            old(self).wf(n_files),
        ensures
            final(self).wf(n_files),
            r matches Some(f) ==> (f.0 as int) < n_files && old(self).files_todo@.len() > 0 && f
                == old(self).files_todo@.last() && final(self).files_done@ == old(
                self,
            ).files_done@.push(f) && final(self).files_todo@ == old(self).files_todo@.drop_last()
                && !old(self).files_done@.contains(f),
            r is None ==> *final(self) == *old(self) && old(self).files_todo@.len() == 0,
    {
        if self.files_todo.len() == 0 {
            return None;
        }
        let popped = self.files_todo.pop();
        match popped {
            Some(fid) => {
                self.files_done.push(fid);
                proof {
                    let done0 = old(self).files_done@;
                    let todo0 = old(self).files_todo@;
                    assert(self.files_done@ == done0.push(fid));
                    assert(fid == todo0[todo0.len() - 1]);
                    assert forall|i: int, j: int|
                        0 <= i < j < self.files_done@.len() implies self.files_done@[i]
                        != self.files_done@[j] by {
                        if j == self.files_done@.len() - 1 {
                            assert(self.files_done@[i] == done0[i]);
                            assert(self.files_done@[j] == fid);
                        } else {
                            assert(self.files_done@[i] == done0[i]);
                            assert(self.files_done@[j] == done0[j]);
                        }
                    }
                    assert forall|i: int, j: int|
                        0 <= i < self.files_todo@.len() && 0 <= j
                            < self.files_done@.len() implies self.files_todo@[i]
                        != self.files_done@[j] by {
                        assert(self.files_todo@[i] == todo0[i]);
                        if j == self.files_done@.len() - 1 {
                            assert(self.files_done@[j] == fid);
                        } else {
                            assert(self.files_done@[j] == done0[j]);
                        }
                    }
                }
                Some(fid)
            },
            None => {
                proof {
                    assert(false);
                }
                None
            },
        }
    }

    /// Queues every file that depends on the module of the last visited
    /// file and has not been seen yet.
    pub fn scan_next(&mut self, live_files: &Vec<LiveFile>)
        requires
            old(self).wf(live_files@.len() as int),
            old(self).files_done@.len() > 0,
        ensures
            final(self).wf(live_files@.len() as int),
            final(self).files_done == old(self).files_done,
            final(self).files_todo@.len() >= old(self).files_todo@.len(),
            forall|i: int|
                0 <= i < old(self).files_todo@.len() ==> final(self).files_todo@[i] == old(self).files_todo@[i],
            ({
                let m = live_files@[old(self).files_done@.last().0 as int].module_id;
                &&& forall|f: int|
                    #![trigger live_files@[f].deps@.contains(m)]
                    0 <= f < live_files@.len() && live_files@[f].deps@.contains(m) && !old(self).files_done@.contains(LiveFileId(f as usize)) && !old(self).files_todo@.contains(LiveFileId(f as usize)) ==> final(self).files_todo@.contains(LiveFileId(f as usize))
                &&& forall|t: int|
                    old(self).files_todo@.len() <= t < final(self).files_todo@.len() ==> {
                        let g = #[trigger] final(self).files_todo@[t];
                        &&& (g.0 as int) < live_files@.len()
                        &&& live_files@[g.0 as int].deps@.contains(m)
                        &&& !old(self).files_done@.contains(g)
                        &&& !old(self).files_todo@.contains(g)
                    }
            }),
    {
        let last = self.files_done[self.files_done.len() - 1];
        let module_id = live_files[last.0].module_id;
        let ghost m = module_id;
        let nf = live_files.len();
        let mut f: usize = 0;
        while f < nf
            invariant
                nf == live_files@.len(),
                f <= nf,
                m == live_files@[old(self).files_done@.last().0 as int].module_id,
                m == module_id,
                self.wf(live_files@.len() as int),
                self.files_done == old(self).files_done,
                self.files_todo@.len() >= old(self).files_todo@.len(),
                forall|i: int|
                    0 <= i < old(self).files_todo@.len() ==> self.files_todo@[i] == old(self).files_todo@[i],
                forall|f2: int|
                    #![trigger live_files@[f2].deps@.contains(m)]
                    0 <= f2 < f && live_files@[f2].deps@.contains(m) && !old(self).files_done@.contains(LiveFileId(f2 as usize)) && !old(self).files_todo@.contains(LiveFileId(f2 as usize))
                        ==> self.files_todo@.contains(LiveFileId(f2 as usize)),
                forall|t: int|
                    old(self).files_todo@.len() <= t < self.files_todo@.len() ==> {
                        let g = #[trigger] self.files_todo@[t];
                        &&& (g.0 as int) < f
                        &&& live_files@[g.0 as int].deps@.contains(m)
                        &&& !old(self).files_done@.contains(g)
                        &&& !old(self).files_todo@.contains(g)
                    },
            decreases nf - f,
        {
            let dep_id = LiveFileId(f);
            let ghost todo_iter = self.files_todo@;
            if deps_contains_module(&live_files[f].deps, module_id) && !contains_fid(
                &self.files_done,
                dep_id,
            ) && !contains_fid(&self.files_todo, dep_id) {
                let ghost todo0 = self.files_todo@;
                proof {
                    assert(!old(self).files_todo@.contains(dep_id)) by {
                        if old(self).files_todo@.contains(dep_id) {
                            let w = choose|w: int|
                                0 <= w < old(self).files_todo@.len() && old(self).files_todo@[w] == dep_id;
                            assert(todo0[w] == dep_id);
                        }
                    }
                }
                self.files_todo.push(dep_id);
                proof {
                    assert(self.files_todo@[self.files_todo@.len() - 1] == dep_id);
                    assert forall|i: int, j: int|
                        0 <= i < j < self.files_todo@.len() implies self.files_todo@[i]
                        != self.files_todo@[j] by {
                        if j == self.files_todo@.len() - 1 {
                            assert(self.files_todo@[i] == todo0[i]);
                            assert(todo0.contains(todo0[i]));
                        } else {
                            assert(self.files_todo@[i] == todo0[i]);
                            assert(self.files_todo@[j] == todo0[j]);
                        }
                    }
                    assert forall|i: int, j: int|
                        0 <= i < self.files_todo@.len() && 0 <= j
                            < self.files_done@.len() implies self.files_todo@[i]
                        != self.files_done@[j] by {
                        if i == self.files_todo@.len() - 1 {
                            assert(self.files_done@.contains(self.files_done@[j]));
                        } else {
                            assert(self.files_todo@[i] == todo0[i]);
                        }
                    }
                }
            } else {
                proof {
                    if live_files@[f as int].deps@.contains(m) && !old(self).files_done@.contains(dep_id) && !old(self).files_todo@.contains(dep_id) {
                        assert(self.files_done@.contains(dep_id) || self.files_todo@.contains(
                            dep_id,
                        ));
                    }
                }
            }
            proof {
                assert forall|f2: int|
                    #![trigger live_files@[f2].deps@.contains(m)]
                    0 <= f2 < f + 1 && live_files@[f2].deps@.contains(m) && !old(self).files_done@.contains(LiveFileId(f2 as usize)) && !old(self).files_todo@.contains(LiveFileId(f2 as usize)) implies self.files_todo@.contains(
                    LiveFileId(f2 as usize),
                ) by {
                    if f2 < f {
                        assert(todo_iter.contains(LiveFileId(f2 as usize)));
                        let w = choose|w: int|
                            0 <= w < todo_iter.len() && todo_iter[w] == LiveFileId(f2 as usize);
                        assert(self.files_todo@[w] == LiveFileId(f2 as usize));
                    }
                }
            }
            f = f + 1;
        }
    }
}

fn contains_fid(v: &Vec<LiveFileId>, x: LiveFileId) -> (r: bool)
    ensures
        r == v@.contains(x),
{
    let n = v.len();
    let mut q: usize = 0;
    while q < n
        invariant
            n == v@.len(),
            q <= n,
            forall|p: int| 0 <= p < q ==> v@[p] != x,
        decreases n - q,
    {
        if v[q].0 == x.0 {
            proof {
                assert(v@[q as int] == x);
            }
            return true;
        }
        q = q + 1;
    }
    proof {
        assert(!v@.contains(x));
    }
    false
}

fn deps_contains_module(deps: &Vec<crate::ids::LiveModuleId>, m: crate::ids::LiveModuleId) -> (r:
    bool)
    ensures
        r == deps@.contains(m),
{
    let n = deps.len();
    let mut q: usize = 0;
    while q < n
        invariant
            n == deps@.len(),
            q <= n,
            forall|p: int| 0 <= p < q ==> deps@[p] != m,
        decreases n - q,
    {
        if crate::registry::module_eq(deps[q], m) {
            proof {
                assert(deps@[q as int] == m);
            }
            return true;
        }
        q = q + 1;
    }
    proof {
        assert(!deps@.contains(m));
    }
    false
}


/// The mutated token stands in a property assignment: an identifier and a
/// colon directly in front of it; the identifier token is the join key of
/// propagation.
pub open spec fn prop_assign_at(tokens: Seq<TokenWithSpan>, m: int, colon: u64) -> bool {
    &&& 2 < m < tokens.len()
    &&& tokens[m - 2].token is Ident
    &&& tokens[m - 1].token == LiveToken::Punct(colon)
}

/// How a node of an expanded document may change under a set of mutations
/// of file `file_id` with token stream `tokens`: identity and origin never
/// change; the value either stays or takes the value of a mutated property
/// token whose name token is the node's origin, with matching kinds.
pub open spec fn node_patch_rel(
    n_old: LiveNode,
    n_new: LiveNode,
    file_id: LiveFileId,
    tokens: Seq<TokenWithSpan>,
    muts: Seq<usize>,
    colon: u64,
) -> bool {
    &&& n_new.id == n_old.id
    &&& n_new.origin == n_old.origin
    &&& (n_new.value == n_old.value || (exists|q: int|
        0 <= q < muts.len() && prop_assign_at(tokens, (#[trigger] muts[q]) as int, colon)
            && n_old.origin.token_id == Some(
            LiveTokenId { file_id, index: (muts[q] - 2) as usize },
        ) && spec_mutation_value(tokens[muts[q] as int].token) == Some(n_new.value)
            && n_old.value.spec_is_scalar() && spec_kind_matches(n_old.value, n_new.value)))
}

proof fn lemma_depth_pointwise(s1: Seq<LiveNode>, s2: Seq<LiveNode>, i: int)
    requires
        s1.len() == s2.len(),
        forall|j: int|
            0 <= j < s1.len() ==> crate::document::node_delta(#[trigger] s2[j])
                == crate::document::node_delta(s1[j]),
        0 <= i <= s1.len(),
    ensures
        crate::document::depth_to(s2, i) == crate::document::depth_to(s1, i),
    decreases i,
{
    if i > 0 {
        lemma_depth_pointwise(s1, s2, i - 1);
    }
}

/// One propagation step applied to every node of a document.
pub open spec fn patched_nodes(
    nodes: Seq<LiveNode>,
    token_id: LiveTokenId,
    v: LiveValue,
) -> Seq<LiveNode> {
    Seq::new(nodes.len(), |j: int| patched_node(nodes[j], token_id, v))
}

/// A document's nodes after all of a file's mutations are propagated, in
/// order: each mutated property token rewrites the nodes whose origin is
/// its name token.
pub open spec fn apply_muts_to(
    nodes: Seq<LiveNode>,
    tokens: Seq<TokenWithSpan>,
    fid: LiveFileId,
    muts: Seq<usize>,
    colon: u64,
) -> Seq<LiveNode>
    decreases muts.len(),
{
    if muts.len() == 0 {
        nodes
    } else {
        let prev = apply_muts_to(nodes, tokens, fid, muts.drop_last(), colon);
        let m = muts.last() as int;
        if prop_assign_at(tokens, m, colon) && spec_mutation_value(tokens[m].token) is Some {
            patched_nodes(
                prev,
                LiveTokenId { file_id: fid, index: (m - 2) as usize },
                spec_mutation_value(tokens[m].token)->Some_0,
            )
        } else {
            prev
        }
    }
}

/// The pending patch list a mutation set leaves for the main module: for
/// each mutated property token, in order, the rewrites its propagation
/// walk makes in the main module's expanded document — which holds the
/// result of the earlier mutations — each keyed by its dotted identifier
/// path, one entry per path.  Empty when no main module is designated or
/// the main module lies outside the mutated file's reach.
pub open spec fn spec_main_patches(
    main: Option<LiveFileId>,
    files: Seq<LiveFile>,
    fid: LiveFileId,
    old_expanded: Seq<LiveDocument>,
    tokens: Seq<TokenWithSpan>,
    muts: Seq<usize>,
    colon: u64,
) -> Seq<(Seq<u64>, LiveValue)>
    decreases muts.len(),
{
    if muts.len() == 0 {
        Seq::empty()
    } else {
        let acc = spec_main_patches(main, files, fid, old_expanded, tokens, muts.drop_last(), colon);
        let m = muts.last() as int;
        match main {
            Some(mm) => {
                if in_rev_closure(files, fid, mm.0 as int) && prop_assign_at(tokens, m, colon)
                    && spec_mutation_value(tokens[m].token) is Some {
                    spec_walk_patches(
                        apply_muts_to(
                            old_expanded[mm.0 as int].nodes@,
                            tokens,
                            fid,
                            muts.drop_last(),
                            colon,
                        ),
                        LiveTokenId { file_id: fid, index: (m - 2) as usize },
                        spec_mutation_value(tokens[m].token)->Some_0,
                        0,
                        Seq::empty(),
                        acc,
                    )
                } else {
                    acc
                }
            },
            None => acc,
        }
    }
}

/// File `g` declares a dependency on the module file `f` carries: a value
/// change in `f` can surface in `g`'s expanded document.
pub open spec fn rev_edge(files: Seq<LiveFile>, f: int, g: int) -> bool {
    files[g].deps@.contains(files[f].module_id)
}

/// A chain of such dependencies of length `n` from `a` out to `b`.
pub open spec fn rev_reaches(files: Seq<LiveFile>, a: int, b: int, n: nat) -> bool
    decreases n,
{
    if n == 0 {
        a == b
    } else {
        exists|mid: int|
            0 <= mid < files.len() && rev_reaches(files, a, mid, (n - 1) as nat) && rev_edge(
                files,
                mid,
                b,
            )
    }
}

/// `i` lies in the reverse-dependency closure of `a`: the files whose
/// expanded documents a mutation of `a` may have to rewrite.
pub open spec fn in_rev_closure(files: Seq<LiveFile>, a: LiveFileId, i: int) -> bool {
    exists|n: nat| rev_reaches(files, a.0 as int, i, n)
}

/// Once the worklist is drained, the visited set is closed under reverse
/// dependency edges, so it holds the whole closure.
proof fn lemma_closure_visited(
    files: Seq<LiveFile>,
    a: LiveFileId,
    done: Seq<LiveFileId>,
    i: int,
    n: nat,
)
    requires
        files.len() <= usize::MAX,
        0 <= i < files.len(),
        rev_reaches(files, a.0 as int, i, n),
        done.contains(a),
        forall|w: int, g: int|
            #![trigger rev_edge(files, done[w].0 as int, g)]
            0 <= w < done.len() && 0 <= g < files.len() && rev_edge(
                files,
                done[w].0 as int,
                g,
            ) ==> done.contains(LiveFileId(g as usize)),
    ensures
        done.contains(LiveFileId(i as usize)),
    decreases n,
{
    if n == 0 {
        assert(i == a.0 as int);
        assert(LiveFileId(i as usize) == a);
    } else {
        let mid = choose|mid: int|
            0 <= mid < files.len() && rev_reaches(files, a.0 as int, mid, (n - 1) as nat)
                && rev_edge(files, mid, i);
        lemma_closure_visited(files, a, done, mid, (n - 1) as nat);
        let w = choose|w: int| 0 <= w < done.len() && done[w] == LiveFileId(mid as usize);
        assert(done[w].0 as int == mid);
        assert(done.contains(LiveFileId(i as usize)));
    }
}

impl LiveRegistry {
    /// Propagates a file's value mutations: for each mutated property
    /// token, walks the reverse dependency closure of the file, each file
    /// at most once, rewriting the matching nodes of every expanded
    /// document, and records the rewrites that land in the main module as
    /// the pending patch list.
    #[verifier::rlimit(100)]
    pub fn apply_mutations(&mut self, file_id: LiveFileId, mutations: &Vec<usize>)
        requires
            old(self).wf(),
            file_id.0 < old(self).live_files@.len(),
            forall|q: int|
                0 <= q < mutations@.len() ==> (#[trigger] mutations@[q]) < old(self).live_files@[file_id.0 as int].document.tokens@.len(),
        ensures
            final(self).wf(),
            final(self).live_files == old(self).live_files,
            final(self).live_type_infos == old(self).live_type_infos,
            final(self).main_module == old(self).main_module,
            final(self).main_apply matches Some(ma) && patches_views(ma@) == spec_main_patches(
                old(self).main_module,
                old(self).live_files@,
                file_id,
                old(self).expanded@,
                old(self).live_files@[file_id.0 as int].document.tokens@,
                mutations@,
                live_id_of(":"@),
            ),
            final(self).expanded@.len() == old(self).expanded@.len(),
            final(self).expanded@[file_id.0 as int].nodes@ == apply_muts_to(
                old(self).expanded@[file_id.0 as int].nodes@,
                old(self).live_files@[file_id.0 as int].document.tokens@,
                file_id,
                mutations@,
                live_id_of(":"@),
            ),
            forall|i: int|
                #![trigger final(self).expanded@[i]]
                0 <= i < old(self).expanded@.len() ==> {
                    &&& (in_rev_closure(old(self).live_files@, file_id, i) ==> final(self).expanded@[i].nodes@ == apply_muts_to(
                        old(self).expanded@[i].nodes@,
                        old(self).live_files@[file_id.0 as int].document.tokens@,
                        file_id,
                        mutations@,
                        live_id_of(":"@),
                    ))
                    &&& (!in_rev_closure(old(self).live_files@, file_id, i) ==> final(self).expanded@[i] == old(self).expanded@[i])
                },
            forall|i: int|
                0 <= i < old(self).expanded@.len() ==> {
                    let d_old = #[trigger] old(self).expanded@[i];
                    let d_new = final(self).expanded@[i];
                    &&& d_new.nodes@.len() == d_old.nodes@.len()
                    &&& d_new.tokens@ == d_old.tokens@
                    &&& d_new.strings@ == d_old.strings@
                    &&& d_new.recompile == d_old.recompile
                    &&& forall|j: int|
                        0 <= j < d_old.nodes@.len() ==> node_patch_rel(
                            #[trigger] d_old.nodes@[j],
                            d_new.nodes@[j],
                            file_id,
                            old(self).live_files@[file_id.0 as int].document.tokens@,
                            mutations@,
                            live_id_of(":"@),
                        )
                },
    {
        let colon = live_id_from_str(":");
        let ghost tokens0 = self.live_files@[file_id.0 as int].document.tokens@;
        let mut main_apply: Vec<LivePatch> = Vec::new();
        let nf = self.live_files.len();
        let nm = mutations.len();
        let mut q: usize = 0;
        while q < nm
            invariant
                nm == mutations@.len(),
                q <= nm,
                nf == self.live_files@.len(),
                colon == live_id_of(":"@),
                file_id.0 < nf,
                self.wf(),
                self.live_files == old(self).live_files,
                self.live_type_infos == old(self).live_type_infos,
                self.main_module == old(self).main_module,
                self.main_apply == old(self).main_apply,
                tokens0 == self.live_files@[file_id.0 as int].document.tokens@,
                forall|q2: int| 0 <= q2 < mutations@.len() ==> (#[trigger] mutations@[q2]) < tokens0.len(),
                patches_views(main_apply@) == spec_main_patches(
                    old(self).main_module,
                    old(self).live_files@,
                    file_id,
                    old(self).expanded@,
                    tokens0,
                    mutations@.subrange(0, q as int),
                    colon,
                ),
                self.expanded@.len() == old(self).expanded@.len(),
                self.expanded@[file_id.0 as int].nodes@ == apply_muts_to(
                    old(self).expanded@[file_id.0 as int].nodes@,
                    tokens0,
                    file_id,
                    mutations@.subrange(0, q as int),
                    colon,
                ),
                forall|i: int|
                    #![trigger self.expanded@[i]]
                    0 <= i < old(self).expanded@.len() ==> {
                        &&& (in_rev_closure(old(self).live_files@, file_id, i)
                            ==> self.expanded@[i].nodes@ == apply_muts_to(
                            old(self).expanded@[i].nodes@,
                            tokens0,
                            file_id,
                            mutations@.subrange(0, q as int),
                            colon,
                        ))
                        &&& (!in_rev_closure(old(self).live_files@, file_id, i)
                            ==> self.expanded@[i] == old(self).expanded@[i])
                    },
                forall|i: int|
                    0 <= i < old(self).expanded@.len() ==> {
                        let d_old = #[trigger] old(self).expanded@[i];
                        let d_new = self.expanded@[i];
                        &&& d_new.nodes@.len() == d_old.nodes@.len()
                        &&& d_new.tokens@ == d_old.tokens@
                        &&& d_new.strings@ == d_old.strings@
                        &&& d_new.recompile == d_old.recompile
                        &&& forall|j: int|
                            0 <= j < d_old.nodes@.len() ==> node_patch_rel(
                                #[trigger] d_old.nodes@[j],
                                d_new.nodes@[j],
                                file_id,
                                tokens0,
                                mutations@.subrange(0, q as int),
                                colon,
                            )
                    },
            decreases nm - q,
        {
            let m = mutations[q];
            let doc = &self.live_files[file_id.0].document;
            let is_prop = m > 2 && doc.tokens[m - 2].token.is_ident() && doc.tokens[m
                - 1].token.is_punct_id(colon);
            let mv = if is_prop {
                mutation_value(&doc.tokens[m].token)
            } else {
                None
            };
            match mv {
                Some(v) => {
                    let token_id = LiveTokenId { file_id, index: m - 2 };
                    let ghost pre_round = self.expanded@;
                    let ghost round_start = self.expanded@[file_id.0 as int].nodes@;
                    let mut iter = FileDepIter::new(file_id, Ghost(nf as int));
                    proof {
                        assert(iter.files_todo@[0] == file_id);
                        assert(rev_reaches(
                            old(self).live_files@,
                            file_id.0 as int,
                            file_id.0 as int,
                            0,
                        ));
                    }
                    loop
                        invariant
                            nf == self.live_files@.len(),
                            colon == live_id_of(":"@),
                            file_id.0 < nf,
                            q < nm,
                            nm == mutations@.len(),
                            m == mutations@[q as int],
                            is_prop,
                            prop_assign_at(tokens0, m as int, colon),
                            spec_mutation_value(tokens0[m as int].token) == Some(v),
                            token_id == (LiveTokenId { file_id, index: (m - 2) as usize }),
                            iter.wf(nf as int),
                            round_start == apply_muts_to(
                                old(self).expanded@[file_id.0 as int].nodes@,
                                tokens0,
                                file_id,
                                mutations@.subrange(0, q as int),
                                colon,
                            ),
                            patches_views(main_apply@) == (if (match old(self).main_module {
                                Some(mm) => iter.files_done@.contains(mm),
                                None => false,
                            }) {
                                spec_main_patches(
                                    old(self).main_module,
                                    old(self).live_files@,
                                    file_id,
                                    old(self).expanded@,
                                    tokens0,
                                    mutations@.subrange(0, q + 1),
                                    colon,
                                )
                            } else {
                                spec_main_patches(
                                    old(self).main_module,
                                    old(self).live_files@,
                                    file_id,
                                    old(self).expanded@,
                                    tokens0,
                                    mutations@.subrange(0, q as int),
                                    colon,
                                )
                            }),
                            iter.files_done@.contains(file_id) || iter.files_todo@.contains(
                                file_id,
                            ),
                            iter.files_done@.contains(file_id)
                                ==> self.expanded@[file_id.0 as int].nodes@ == patched_nodes(
                                round_start,
                                token_id,
                                v,
                            ),
                            !iter.files_done@.contains(file_id)
                                ==> self.expanded@[file_id.0 as int].nodes@ == round_start,
                            pre_round.len() == nf,
                            pre_round[file_id.0 as int].nodes@ == round_start,
                            forall|i: int|
                                #![trigger pre_round[i]]
                                0 <= i < nf ==> {
                                    &&& (in_rev_closure(old(self).live_files@, file_id, i)
                                        ==> pre_round[i].nodes@ == apply_muts_to(
                                        old(self).expanded@[i].nodes@,
                                        tokens0,
                                        file_id,
                                        mutations@.subrange(0, q as int),
                                        colon,
                                    ))
                                    &&& (!in_rev_closure(old(self).live_files@, file_id, i)
                                        ==> pre_round[i] == old(self).expanded@[i])
                                },
                            forall|w: int|
                                0 <= w < iter.files_done@.len() ==> in_rev_closure(
                                    old(self).live_files@,
                                    file_id,
                                    (#[trigger] iter.files_done@[w]).0 as int,
                                ),
                            forall|w: int|
                                0 <= w < iter.files_todo@.len() ==> in_rev_closure(
                                    old(self).live_files@,
                                    file_id,
                                    (#[trigger] iter.files_todo@[w]).0 as int,
                                ),
                            forall|w: int, g: int|
                                #![trigger rev_edge(old(self).live_files@, iter.files_done@[w].0 as int, g)]
                                0 <= w < iter.files_done@.len() && 0 <= g < nf && rev_edge(
                                    old(self).live_files@,
                                    iter.files_done@[w].0 as int,
                                    g,
                                ) ==> iter.files_done@.contains(LiveFileId(g as usize))
                                    || iter.files_todo@.contains(LiveFileId(g as usize)),
                            forall|i: int|
                                #![trigger self.expanded@[i]]
                                0 <= i < nf ==> {
                                    &&& (iter.files_done@.contains(LiveFileId(i as usize))
                                        ==> self.expanded@[i].nodes@ == patched_nodes(
                                        pre_round[i].nodes@,
                                        token_id,
                                        v,
                                    ))
                                    &&& (!iter.files_done@.contains(LiveFileId(i as usize))
                                        ==> self.expanded@[i] == pre_round[i])
                                },
                            self.wf(),
                            self.live_files == old(self).live_files,
                            self.live_type_infos == old(self).live_type_infos,
                            self.main_module == old(self).main_module,
                            self.main_apply == old(self).main_apply,
                            tokens0 == self.live_files@[file_id.0 as int].document.tokens@,
                            self.expanded@.len() == old(self).expanded@.len(),
                            forall|i: int|
                                0 <= i < old(self).expanded@.len() ==> {
                                    let d_old = #[trigger] old(self).expanded@[i];
                                    let d_new = self.expanded@[i];
                                    &&& d_new.nodes@.len() == d_old.nodes@.len()
                                    &&& d_new.tokens@ == d_old.tokens@
                                    &&& d_new.strings@ == d_old.strings@
                                    &&& d_new.recompile == d_old.recompile
                                    &&& forall|j: int|
                                        0 <= j < d_old.nodes@.len() ==> node_patch_rel(
                                            #[trigger] d_old.nodes@[j],
                                            d_new.nodes@[j],
                                            file_id,
                                            tokens0,
                                            mutations@.subrange(0, q + 1),
                                            colon,
                                        )
                                },
                        ensures
                            self.wf(),
                            self.live_files == old(self).live_files,
                            self.live_type_infos == old(self).live_type_infos,
                            self.main_module == old(self).main_module,
                            self.main_apply == old(self).main_apply,
                            tokens0 == self.live_files@[file_id.0 as int].document.tokens@,
                            self.expanded@.len() == old(self).expanded@.len(),
                            round_start == apply_muts_to(
                                old(self).expanded@[file_id.0 as int].nodes@,
                                tokens0,
                                file_id,
                                mutations@.subrange(0, q as int),
                                colon,
                            ),
                            patches_views(main_apply@) == spec_main_patches(
                                old(self).main_module,
                                old(self).live_files@,
                                file_id,
                                old(self).expanded@,
                                tokens0,
                                mutations@.subrange(0, q + 1),
                                colon,
                            ),
                            self.expanded@[file_id.0 as int].nodes@ == patched_nodes(
                                round_start,
                                token_id,
                                v,
                            ),
                            forall|i: int|
                                #![trigger self.expanded@[i]]
                                0 <= i < nf ==> {
                                    &&& (in_rev_closure(old(self).live_files@, file_id, i)
                                        ==> self.expanded@[i].nodes@ == patched_nodes(
                                        pre_round[i].nodes@,
                                        token_id,
                                        v,
                                    ))
                                    &&& (!in_rev_closure(old(self).live_files@, file_id, i)
                                        ==> self.expanded@[i] == pre_round[i])
                                },
                            forall|i: int|
                                0 <= i < old(self).expanded@.len() ==> {
                                    let d_old = #[trigger] old(self).expanded@[i];
                                    let d_new = self.expanded@[i];
                                    &&& d_new.nodes@.len() == d_old.nodes@.len()
                                    &&& d_new.tokens@ == d_old.tokens@
                                    &&& d_new.strings@ == d_old.strings@
                                    &&& d_new.recompile == d_old.recompile
                                    &&& forall|j: int|
                                        0 <= j < d_old.nodes@.len() ==> node_patch_rel(
                                            #[trigger] d_old.nodes@[j],
                                            d_new.nodes@[j],
                                            file_id,
                                            tokens0,
                                            mutations@.subrange(0, q + 1),
                                            colon,
                                        )
                                },
                        decreases nf - iter.files_done@.len(),
                    {
                        proof {
                            let mapped = iter.files_done@.map_values(|f: LiveFileId| f.0);
                            assert forall|i: int|
                                0 <= i < mapped.len() implies (#[trigger] mapped[i]) < nf as nat by {
                                assert(iter.files_done@[i].0 < nf);
                            }
                            assert forall|i: int, j2: int|
                                0 <= i < j2 < mapped.len() implies mapped[i] != mapped[j2] by {
                                assert(iter.files_done@[i] != iter.files_done@[j2]);
                            }
                            lemma_distinct_bounded(mapped, nf as nat);
                        }
                        let ghost todo_pre2 = iter.files_todo@;
                        let ghost done_pre2 = iter.files_done@;
                        let popped = iter.pop_todo(Ghost(nf as int));
                        let fid2 = match popped {
                            Some(f) => f,
                            None => {
                                proof {
                                    if iter.files_todo@.contains(file_id) {
                                        let w = choose|w: int|
                                            0 <= w < iter.files_todo@.len()
                                                && iter.files_todo@[w] == file_id;
                                    }
                                    let files = old(self).live_files@;
                                    let done = iter.files_done@;
                                    assert forall|w: int, g: int|
                                        #![trigger rev_edge(files, done[w].0 as int, g)]
                                        0 <= w < done.len() && 0 <= g < files.len() && rev_edge(
                                            files,
                                            done[w].0 as int,
                                            g,
                                        ) implies done.contains(LiveFileId(g as usize)) by {
                                        if iter.files_todo@.contains(LiveFileId(g as usize)) {
                                            let w2 = choose|w2: int|
                                                0 <= w2 < iter.files_todo@.len()
                                                    && iter.files_todo@[w2] == LiveFileId(
                                                    g as usize,
                                                );
                                        }
                                    }
                                    assert forall|i: int|
                                        #![trigger self.expanded@[i]]
                                        0 <= i < nf implies {
                                        &&& (in_rev_closure(files, file_id, i)
                                            ==> self.expanded@[i].nodes@ == patched_nodes(
                                            pre_round[i].nodes@,
                                            token_id,
                                            v,
                                        ))
                                        &&& (!in_rev_closure(files, file_id, i)
                                            ==> self.expanded@[i] == pre_round[i])
                                    } by {
                                        if in_rev_closure(files, file_id, i) {
                                            let n = choose|n: nat|
                                                rev_reaches(files, file_id.0 as int, i, n);
                                            lemma_closure_visited(files, file_id, done, i, n);
                                        } else {
                                            if done.contains(LiveFileId(i as usize)) {
                                                let w = choose|w: int|
                                                    0 <= w < done.len() && done[w] == LiveFileId(
                                                        i as usize,
                                                    );
                                                assert(in_rev_closure(
                                                    files,
                                                    file_id,
                                                    done[w].0 as int,
                                                ));
                                            }
                                        }
                                    }
                                    match old(self).main_module {
                                        Some(mm) => {
                                            if in_rev_closure(files, file_id, mm.0 as int) {
                                                let n = choose|n: nat|
                                                    rev_reaches(
                                                        files,
                                                        file_id.0 as int,
                                                        mm.0 as int,
                                                        n,
                                                    );
                                                lemma_closure_visited(
                                                    files,
                                                    file_id,
                                                    done,
                                                    mm.0 as int,
                                                    n,
                                                );
                                                assert(done.contains(LiveFileId(
                                                    mm.0 as usize,
                                                )));
                                                assert(LiveFileId(mm.0 as usize) == mm);
                                            } else {
                                                assert(!done.contains(mm)) by {
                                                    if done.contains(mm) {
                                                        let w = choose|w: int|
                                                            0 <= w < done.len() && done[w] == mm;
                                                        assert(in_rev_closure(
                                                            files,
                                                            file_id,
                                                            done[w].0 as int,
                                                        ));
                                                    }
                                                }
                                                assert(mutations@.subrange(0, q + 1).drop_last()
                                                    =~= mutations@.subrange(0, q as int));
                                                assert(mutations@.subrange(0, q + 1).last() == m);
                                            }
                                        },
                                        None => {
                                            assert(mutations@.subrange(0, q + 1).drop_last()
                                                =~= mutations@.subrange(0, q as int));
                                            assert(mutations@.subrange(0, q + 1).last() == m);
                                        },
                                    }
                                }
                                break ;
                            },
                        };
                        proof {
                            if done_pre2.contains(file_id) {
                                let w = choose|w: int|
                                    0 <= w < done_pre2.len() && done_pre2[w] == file_id;
                                assert(iter.files_done@[w] == file_id);
                            } else if fid2 != file_id {
                                assert(todo_pre2.contains(file_id));
                                let w = choose|w: int|
                                    0 <= w < todo_pre2.len() && todo_pre2[w] == file_id;
                                assert(w < todo_pre2.len() - 1);
                                assert(iter.files_todo@[w] == file_id);
                            }
                        }
                        let collect = match self.main_module {
                            Some(mm) => mm.0 == fid2.0,
                            None => false,
                        };
                        let ghost pre = self.expanded@;
                        let ghost self0 = *self;
                        let ghost views_before = patches_views(main_apply@);
                        let new_nodes = walk_patch(
                            &self.expanded[fid2.0].nodes,
                            token_id,
                            &v,
                            collect,
                            &mut main_apply,
                        );
                        let old_doc = &self.expanded[fid2.0];
                        let new_doc = LiveDocument {
                            nodes: new_nodes,
                            tokens: crate::expand::copy_tokens(&old_doc.tokens),
                            strings: crate::expand::copy_chars(&old_doc.strings),
                            recompile: old_doc.recompile,
                        };
                        self.expanded.set(fid2.0, new_doc);
                        proof {
                            assert forall|i2: int|
                                0 <= i2 < self.expanded@.len() implies (
                            #[trigger] self.expanded@[i2]).wf() by {
                                if i2 != fid2.0 as int {
                                    assert(self.expanded@[i2] == pre[i2]);
                                } else {
                                    let d0 = pre[i2];
                                    let d1 = self.expanded@[i2];
                                    assert forall|j: int|
                                        0 <= j < d1.nodes@.len() implies crate::document::node_delta(
                                        #[trigger] d1.nodes@[j],
                                    ) == crate::document::node_delta(d0.nodes@[j])
                                        && (d1.nodes@[j].value.spec_is_open()
                                        == d0.nodes@[j].value.spec_is_open()) && (
                                    d1.nodes@[j].value.spec_is_close()
                                        == d0.nodes@[j].value.spec_is_close()) by {
                                        assert(d1.nodes@[j] == patched_node(
                                            d0.nodes@[j],
                                            token_id,
                                            v,
                                        ));
                                    }
                                    if d0.nodes@.len() > 0 {
                                        assert forall|i3: int|
                                            0 <= i3 <= d1.nodes@.len() implies #[trigger] crate::document::depth_to(
                                            d1.nodes@,
                                            i3,
                                        ) == crate::document::depth_to(d0.nodes@, i3) by {
                                            lemma_depth_pointwise(d0.nodes@, d1.nodes@, i3);
                                        }
                                        assert(crate::document::nodes_rooted(d0.nodes@));
                                        assert(crate::document::nodes_rooted(d1.nodes@));
                                    }
                                }
                            }
                            assert forall|i2: int|
                                0 <= i2 < self.live_files@.len() implies self.file_wf(i2) by {
                                assert(self0.file_wf(i2));
                            }
                            assert forall|i: int|
                                0 <= i < old(self).expanded@.len() implies {
                                let d_old = #[trigger] old(self).expanded@[i];
                                let d_new = self.expanded@[i];
                                &&& d_new.nodes@.len() == d_old.nodes@.len()
                                &&& d_new.tokens@ == d_old.tokens@
                                &&& d_new.strings@ == d_old.strings@
                                &&& d_new.recompile == d_old.recompile
                                &&& forall|j: int|
                                    0 <= j < d_old.nodes@.len() ==> node_patch_rel(
                                        #[trigger] d_old.nodes@[j],
                                        d_new.nodes@[j],
                                        file_id,
                                        tokens0,
                                        mutations@.subrange(0, q + 1),
                                        colon,
                                    )
                            } by {
                                let d_old = old(self).expanded@[i];
                                let d_new = self.expanded@[i];
                                if i != fid2.0 as int {
                                    assert(self.expanded@[i] == pre[i]);
                                } else {
                                    assert forall|j: int|
                                        0 <= j < d_old.nodes@.len() implies node_patch_rel(
                                        #[trigger] d_old.nodes@[j],
                                        d_new.nodes@[j],
                                        file_id,
                                        tokens0,
                                        mutations@.subrange(0, q + 1),
                                        colon,
                                    ) by {
                                        let a = d_old.nodes@[j];
                                        let b = pre[i].nodes@[j];
                                        let c = d_new.nodes@[j];
                                        assert(node_patch_rel(
                                            a,
                                            b,
                                            file_id,
                                            tokens0,
                                            mutations@.subrange(0, q + 1),
                                            colon,
                                        ));
                                        assert(c == patched_node(b, token_id, v));
                                        if c != b {
                                            assert(b.origin.token_id == Some(token_id));
                                            assert(mutations@.subrange(0, q + 1)[q as int] == m);
                                            assert(spec_kind_matches(a.value, c.value)) by {
                                                if b.value != a.value {
                                                }
                                            }
                                        }
                                    }
                                }
                            }
                        }
                        proof {
                            if fid2 == file_id {
                                assert(!done_pre2.contains(file_id));
                                assert(pre[file_id.0 as int].nodes@ == round_start);
                                assert(self.expanded@[file_id.0 as int].nodes@ =~= patched_nodes(
                                    round_start,
                                    token_id,
                                    v,
                                ));
                                assert(iter.files_done@[iter.files_done@.len() - 1] == file_id);
                                assert(iter.files_done@.contains(file_id));
                            } else {
                                assert(fid2.0 != file_id.0);
                                assert(self.expanded@[file_id.0 as int] == pre[file_id.0 as int]);
                                assert(!iter.files_done@.contains(file_id)
                                    ==> !done_pre2.contains(file_id)) by {
                                    if done_pre2.contains(file_id) {
                                        let w = choose|w: int|
                                            0 <= w < done_pre2.len() && done_pre2[w] == file_id;
                                        assert(iter.files_done@[w] == file_id);
                                    }
                                }
                            }
                        }
                        proof {
                            let mainm = old(self).main_module;
                            match mainm {
                                Some(mm) => {
                                    if mm.0 == fid2.0 {
                                        assert(mm == fid2);
                                        assert(collect);
                                        assert(!done_pre2.contains(mm));
                                        assert(views_before == spec_main_patches(
                                            mainm,
                                            old(self).live_files@,
                                            file_id,
                                            old(self).expanded@,
                                            tokens0,
                                            mutations@.subrange(0, q as int),
                                            colon,
                                        ));
                                        assert(pre[mm.0 as int].nodes@ == pre_round[mm.0 as int].nodes@);
                                        assert(in_rev_closure(
                                            old(self).live_files@,
                                            file_id,
                                            mm.0 as int,
                                        ));
                                        assert(pre_round[mm.0 as int].nodes@ == apply_muts_to(
                                            old(self).expanded@[mm.0 as int].nodes@,
                                            tokens0,
                                            file_id,
                                            mutations@.subrange(0, q as int),
                                            colon,
                                        ));
                                        assert(mutations@.subrange(0, q + 1).drop_last()
                                            =~= mutations@.subrange(0, q as int));
                                        assert(mutations@.subrange(0, q + 1).last() == m);
                                        assert(patches_views(main_apply@) == spec_main_patches(
                                            mainm,
                                            old(self).live_files@,
                                            file_id,
                                            old(self).expanded@,
                                            tokens0,
                                            mutations@.subrange(0, q + 1),
                                            colon,
                                        ));
                                        assert(iter.files_done@[iter.files_done@.len() - 1] == mm);
                                        assert(iter.files_done@.contains(mm));
                                    } else {
                                        assert(!collect);
                                        assert(iter.files_done@.contains(mm) <==> done_pre2.contains(
                                            mm,
                                        )) by {
                                            if iter.files_done@.contains(mm) {
                                                let w = choose|w: int|
                                                    0 <= w < iter.files_done@.len()
                                                        && iter.files_done@[w] == mm;
                                                if w < done_pre2.len() {
                                                    assert(done_pre2[w] == mm);
                                                } else {
                                                    assert(iter.files_done@[w] == fid2);
                                                }
                                            } else {
                                                if done_pre2.contains(mm) {
                                                    let w = choose|w: int|
                                                        0 <= w < done_pre2.len() && done_pre2[w]
                                                            == mm;
                                                    assert(iter.files_done@[w] == mm);
                                                }
                                            }
                                        }
                                    }
                                },
                                None => {
                                    assert(!collect);
                                },
                            }
                        }
                        let ghost todo_before_scan = iter.files_todo@;
                        iter.scan_next(&self.live_files);
                        proof {
                            if todo_before_scan.contains(file_id) {
                                let w = choose|w: int|
                                    0 <= w < todo_before_scan.len() && todo_before_scan[w]
                                        == file_id;
                                assert(iter.files_todo@[w] == file_id);
                            }
                            let mapped2 = iter.files_done@.map_values(|f: LiveFileId| f.0);
                            assert forall|i: int|
                                0 <= i < mapped2.len() implies (#[trigger] mapped2[i])
                                < nf as nat by {
                                assert(iter.files_done@[i].0 < nf);
                            }
                            assert forall|i: int, j2: int|
                                0 <= i < j2 < mapped2.len() implies mapped2[i] != mapped2[j2] by {
                                assert(iter.files_done@[i] != iter.files_done@[j2]);
                            }
                            lemma_distinct_bounded(mapped2, nf as nat);
                            assert(iter.files_done@.len() <= nf);
                        }
                        proof {
                            let files = old(self).live_files@;
                            let done_now = iter.files_done@;
                            let todo_now = iter.files_todo@;
                            assert(done_now =~= done_pre2.push(fid2));
                            assert(done_now[done_now.len() - 1] == fid2);
                            assert(done_now.contains(fid2));
                            // the popped file lies in the closure
                            assert(in_rev_closure(files, file_id, fid2.0 as int)) by {
                                assert(todo_pre2.len() > 0);
                                assert(todo_pre2[todo_pre2.len() - 1] == fid2);
                                assert(in_rev_closure(
                                    files,
                                    file_id,
                                    todo_pre2[todo_pre2.len() - 1].0 as int,
                                ));
                            }
                            // every visited or queued file lies in the closure
                            assert forall|w: int|
                                0 <= w < done_now.len() implies in_rev_closure(
                                files,
                                file_id,
                                (#[trigger] done_now[w]).0 as int,
                            ) by {
                                if w < done_pre2.len() {
                                    assert(done_now[w] == done_pre2[w]);
                                }
                            }
                            assert forall|w: int|
                                0 <= w < todo_now.len() implies in_rev_closure(
                                files,
                                file_id,
                                (#[trigger] todo_now[w]).0 as int,
                            ) by {
                                if w < todo_before_scan.len() {
                                    assert(todo_now[w] == todo_before_scan[w]);
                                    assert(todo_before_scan[w] == todo_pre2[w]);
                                    assert(todo_pre2.contains(todo_pre2[w]));
                                } else {
                                    let g = todo_now[w];
                                    assert((g.0 as int) < nf
                                        && files[g.0 as int].deps@.contains(
                                        files[fid2.0 as int].module_id,
                                    ));
                                    assert(rev_edge(files, fid2.0 as int, g.0 as int));
                                    let n = choose|n: nat|
                                        rev_reaches(files, file_id.0 as int, fid2.0 as int, n);
                                    assert(rev_reaches(files, file_id.0 as int, g.0 as int, n + 1));
                                }
                            }
                            // the visited set stays closed up to the queue
                            assert forall|w: int, g: int|
                                #![trigger rev_edge(files, done_now[w].0 as int, g)]
                                0 <= w < done_now.len() && 0 <= g < nf && rev_edge(
                                    files,
                                    done_now[w].0 as int,
                                    g,
                                ) implies done_now.contains(LiveFileId(g as usize))
                                || todo_now.contains(LiveFileId(g as usize)) by {
                                let gid = LiveFileId(g as usize);
                                if w < done_pre2.len() {
                                    assert(done_now[w] == done_pre2[w]);
                                    assert(rev_edge(files, done_pre2[w].0 as int, g));
                                    if done_pre2.contains(gid) {
                                        let w2 = choose|w2: int|
                                            0 <= w2 < done_pre2.len() && done_pre2[w2] == gid;
                                        assert(done_now[w2] == gid);
                                    } else {
                                        assert(todo_pre2.contains(gid));
                                        let w2 = choose|w2: int|
                                            0 <= w2 < todo_pre2.len() && todo_pre2[w2] == gid;
                                        if w2 == todo_pre2.len() - 1 {
                                            assert(gid == fid2);
                                            assert(done_now[done_now.len() - 1] == gid);
                                        } else {
                                            assert(todo_before_scan[w2] == gid);
                                            assert(todo_now[w2] == gid);
                                        }
                                    }
                                } else {
                                    assert(done_now[w] == fid2);
                                    assert(files[g].deps@.contains(files[fid2.0 as int].module_id));
                                    assert(done_now[done_now.len() - 1].0 == fid2.0);
                                    assert(files[g].deps@.contains(
                                        files[done_now[done_now.len() - 1].0 as int].module_id,
                                    ));
                                    if done_now.contains(gid) {
                                    } else if todo_before_scan.contains(gid) {
                                        let w2 = choose|w2: int|
                                            0 <= w2 < todo_before_scan.len()
                                                && todo_before_scan[w2] == gid;
                                        assert(todo_now[w2] == gid);
                                    } else {
                                        let m2 = self.live_files@[done_now.last().0 as int].module_id;
                                        assert(done_now.last() == fid2);
                                        assert(m2 == files[fid2.0 as int].module_id);
                                        assert(self.live_files@[g].deps@.contains(m2));
                                        assert(todo_now.contains(gid));
                                    }
                                }
                            }
                            // every document matches its visitation state
                            assert forall|i: int|
                                #![trigger self.expanded@[i]]
                                0 <= i < nf implies {
                                &&& (done_now.contains(LiveFileId(i as usize))
                                    ==> self.expanded@[i].nodes@ == patched_nodes(
                                    pre_round[i].nodes@,
                                    token_id,
                                    v,
                                ))
                                &&& (!done_now.contains(LiveFileId(i as usize))
                                    ==> self.expanded@[i] == pre_round[i])
                            } by {
                                let iid = LiveFileId(i as usize);
                                if i == fid2.0 as int {
                                    assert(iid == fid2);
                                    assert(done_now.contains(iid));
                                    assert(!done_pre2.contains(fid2));
                                    assert(pre[i] == pre_round[i]);
                                    assert(self.expanded@[i].nodes@ =~= patched_nodes(
                                        pre_round[i].nodes@,
                                        token_id,
                                        v,
                                    ));
                                } else {
                                    assert(self.expanded@[i] == pre[i]);
                                    if done_now.contains(iid) {
                                        let w = choose|w: int|
                                            0 <= w < done_now.len() && done_now[w] == iid;
                                        assert(w < done_pre2.len());
                                        assert(done_pre2[w] == iid);
                                        assert(done_pre2.contains(iid));
                                    } else {
                                        if done_pre2.contains(iid) {
                                            let w = choose|w: int|
                                                0 <= w < done_pre2.len() && done_pre2[w] == iid;
                                            assert(done_now[w] == iid);
                                        }
                                    }
                                }
                            }
                        }
                    }
                    proof {
                        assert(mutations@.subrange(0, q + 1).drop_last() =~= mutations@.subrange(
                            0,
                            q as int,
                        ));
                        assert(mutations@.subrange(0, q + 1).last() == m);
                        assert(prop_assign_at(tokens0, m as int, colon));
                        assert(spec_mutation_value(tokens0[m as int].token) == Some(v));
                        assert(self.expanded@[file_id.0 as int].nodes@ == apply_muts_to(
                            old(self).expanded@[file_id.0 as int].nodes@,
                            tokens0,
                            file_id,
                            mutations@.subrange(0, q + 1),
                            colon,
                        ));
                        assert forall|i: int|
                            #![trigger self.expanded@[i]]
                            0 <= i < old(self).expanded@.len() implies {
                            &&& (in_rev_closure(old(self).live_files@, file_id, i)
                                ==> self.expanded@[i].nodes@ == apply_muts_to(
                                old(self).expanded@[i].nodes@,
                                tokens0,
                                file_id,
                                mutations@.subrange(0, q + 1),
                                colon,
                            ))
                            &&& (!in_rev_closure(old(self).live_files@, file_id, i)
                                ==> self.expanded@[i] == old(self).expanded@[i])
                        } by {
                            let pr = pre_round[i];
                            if in_rev_closure(old(self).live_files@, file_id, i) {
                                assert(self.expanded@[i].nodes@ == patched_nodes(
                                    pre_round[i].nodes@,
                                    token_id,
                                    v,
                                ));
                                assert(pre_round[i].nodes@ == apply_muts_to(
                                    old(self).expanded@[i].nodes@,
                                    tokens0,
                                    file_id,
                                    mutations@.subrange(0, q as int),
                                    colon,
                                ));
                            } else {
                                assert(self.expanded@[i] == pre_round[i]);
                            }
                        }
                    }
                },
                None => {},
            }
            proof {
                if mv is None {
                    assert(mutations@.subrange(0, q + 1).drop_last() =~= mutations@.subrange(
                        0,
                        q as int,
                    ));
                    assert(mutations@.subrange(0, q + 1).last() == m);
                    if is_prop {
                        assert(spec_mutation_value(tokens0[m as int].token) is None);
                    } else {
                        assert(!prop_assign_at(tokens0, m as int, colon));
                    }
                    assert(patches_views(main_apply@) == spec_main_patches(
                        old(self).main_module,
                        old(self).live_files@,
                        file_id,
                        old(self).expanded@,
                        tokens0,
                        mutations@.subrange(0, q + 1),
                        colon,
                    ));
                    assert forall|i: int|
                        #![trigger self.expanded@[i]]
                        0 <= i < old(self).expanded@.len() implies {
                        &&& (in_rev_closure(old(self).live_files@, file_id, i)
                            ==> self.expanded@[i].nodes@ == apply_muts_to(
                            old(self).expanded@[i].nodes@,
                            tokens0,
                            file_id,
                            mutations@.subrange(0, q + 1),
                            colon,
                        ))
                        &&& (!in_rev_closure(old(self).live_files@, file_id, i)
                            ==> self.expanded@[i] == old(self).expanded@[i])
                    } by {
                        if in_rev_closure(old(self).live_files@, file_id, i) {
                            assert(self.expanded@[i].nodes@ == apply_muts_to(
                                old(self).expanded@[i].nodes@,
                                tokens0,
                                file_id,
                                mutations@.subrange(0, q as int),
                                colon,
                            ));
                        }
                    }
                    assert(self.expanded@[file_id.0 as int].nodes@ == apply_muts_to(
                        old(self).expanded@[file_id.0 as int].nodes@,
                        tokens0,
                        file_id,
                        mutations@.subrange(0, q + 1),
                        colon,
                    ));
                }
                if mv is None {
                    assert forall|i: int|
                        0 <= i < old(self).expanded@.len() implies {
                        let d_old = #[trigger] old(self).expanded@[i];
                        let d_new = self.expanded@[i];
                        &&& d_new.nodes@.len() == d_old.nodes@.len()
                        &&& d_new.tokens@ == d_old.tokens@
                        &&& d_new.strings@ == d_old.strings@
                        &&& d_new.recompile == d_old.recompile
                        &&& forall|j: int|
                            0 <= j < d_old.nodes@.len() ==> node_patch_rel(
                                #[trigger] d_old.nodes@[j],
                                d_new.nodes@[j],
                                file_id,
                                tokens0,
                                mutations@.subrange(0, q + 1),
                                colon,
                            )
                    } by {
                        let d_old = old(self).expanded@[i];
                        let d_new = self.expanded@[i];
                        assert forall|j: int|
                            0 <= j < d_old.nodes@.len() implies node_patch_rel(
                            #[trigger] d_old.nodes@[j],
                            d_new.nodes@[j],
                            file_id,
                            tokens0,
                            mutations@.subrange(0, q + 1),
                            colon,
                        ) by {
                            assert(node_patch_rel(
                                d_old.nodes@[j],
                                d_new.nodes@[j],
                                file_id,
                                tokens0,
                                mutations@.subrange(0, q as int),
                                colon,
                            ));
                            lemma_patch_rel_widen(
                                d_old.nodes@[j],
                                d_new.nodes@[j],
                                file_id,
                                tokens0,
                                mutations@,
                                q as int,
                                colon,
                            );
                        }
                    }
                }
            }
            q = q + 1;
        }
        proof {
            assert(mutations@.subrange(0, nm as int) =~= mutations@);
        }
        let ghost selfq = *self;
        self.main_apply = Some(main_apply);
        proof {
            assert forall|i2: int| 0 <= i2 < self.live_files@.len() implies self.file_wf(i2) by {
                assert(selfq.file_wf(i2));
            }
            assert(self.wf());
        }
    }
}

/// A node relation under a mutation prefix still holds under a longer one.
proof fn lemma_patch_rel_widen(
    a: LiveNode,
    b: LiveNode,
    file_id: LiveFileId,
    tokens: Seq<TokenWithSpan>,
    muts: Seq<usize>,
    q: int,
    colon: u64,
)
    requires
        0 <= q < muts.len(),
        node_patch_rel(a, b, file_id, tokens, muts.subrange(0, q), colon),
    ensures
        node_patch_rel(a, b, file_id, tokens, muts.subrange(0, q + 1), colon),
{
    if b.value != a.value {
        let w = choose|w: int|
            0 <= w < muts.subrange(0, q).len() && prop_assign_at(
                tokens,
                (#[trigger] muts.subrange(0, q)[w]) as int,
                colon,
            ) && a.origin.token_id == Some(
                LiveTokenId { file_id, index: (muts.subrange(0, q)[w] - 2) as usize },
            ) && spec_mutation_value(tokens[muts.subrange(0, q)[w] as int].token) == Some(b.value)
                && a.value.spec_is_scalar() && spec_kind_matches(a.value, b.value);
        assert(muts.subrange(0, q + 1)[w] == muts.subrange(0, q)[w]);
    }
}


/// The first registered file carrying a name.
pub open spec fn spec_path_file(files: Seq<LiveFile>, name: Seq<char>) -> Option<int>
    decreases files.len(),
{
    if files.len() == 0 {
        None
    } else if files[0].file_name@ == name {
        Some(0)
    } else {
        match spec_path_file(files.drop_first(), name) {
            Some(i) => Some(i + 1),
            None => None,
        }
    }
}

proof fn lemma_path_file_at(files: Seq<LiveFile>, name: Seq<char>, i: int)
    requires
        0 <= i < files.len(),
        files[i].file_name@ == name,
        forall|j: int| 0 <= j < i ==> (#[trigger] files[j]).file_name@ != name,
    ensures
        spec_path_file(files, name) == Some(i),
    decreases i,
{
    if i > 0 {
        assert forall|j: int|
            0 <= j < i - 1 implies (#[trigger] files.drop_first()[j]).file_name@ != name by {
            assert(files.drop_first()[j] == files[j + 1]);
        }
        assert(files.drop_first()[i - 1] == files[i]);
        lemma_path_file_at(files.drop_first(), name, i - 1);
    }
}

fn copy_nodes(v: &Vec<LiveNode>) -> (r: Vec<LiveNode>)
    ensures
        r@ == v@,
{
    let n = v.len();
    let mut out: Vec<LiveNode> = Vec::new();
    let mut k: usize = 0;
    while k < n
        invariant
            n == v@.len(),
            k <= n,
            out@ == v@.subrange(0, k as int),
        decreases n - k,
    {
        out.push(v[k]);
        proof {
            assert(out@ =~= v@.subrange(0, k + 1));
        }
        k = k + 1;
    }
    proof {
        assert(out@ =~= v@);
    }
    out
}

fn copy_deps(v: &Vec<crate::ids::LiveModuleId>) -> (r: Vec<crate::ids::LiveModuleId>)
    ensures
        r@ == v@,
{
    let n = v.len();
    let mut out: Vec<crate::ids::LiveModuleId> = Vec::new();
    let mut k: usize = 0;
    while k < n
        invariant
            n == v@.len(),
            k <= n,
            out@ == v@.subrange(0, k as int),
        decreases n - k,
    {
        out.push(v[k]);
        proof {
            assert(out@ =~= v@.subrange(0, k + 1));
        }
        k = k + 1;
    }
    proof {
        assert(out@ =~= v@);
    }
    out
}

fn clone_document(d: &LiveDocument) -> (r: LiveDocument)
    ensures
        r.nodes@ == d.nodes@,
        r.tokens@ == d.tokens@,
        r.strings@ == d.strings@,
        r.recompile == d.recompile,
{
    LiveDocument {
        nodes: copy_nodes(&d.nodes),
        tokens: crate::expand::copy_tokens(&d.tokens),
        strings: crate::expand::copy_chars(&d.strings),
        recompile: d.recompile,
    }
}

/// How the registry changes when a value-only edit's mutations are
/// propagated: the other files keep their documents; every expanded
/// document keeps its shape and relates node by node to its previous
/// contents through the mutated property tokens.
pub open spec fn update_apply_rel(
    reg_old: LiveRegistry,
    reg_new: LiveRegistry,
    fi: int,
    old_tokens: Seq<TokenWithSpan>,
    old_strings: Seq<char>,
    new_stream: Seq<TokenWithSpan>,
    new_pool: Seq<char>,
    muts: Seq<usize>,
) -> bool {
    &&& forall|q: int|
        0 <= q < muts.len() ==> 0 <= (#[trigger] muts[q]) < new_stream.len() && crate::update::mutation_at(
            old_tokens,
            old_strings,
            new_stream,
            new_pool,
            muts[q] as int,
        )
    &&& forall|j: int|
        0 <= j < new_stream.len() && crate::update::mutation_at(
            old_tokens,
            old_strings,
            new_stream,
            new_pool,
            j,
        ) ==> muts.contains(j as usize)
    &&& (muts.len() > 0 ==> reg_new.live_files@[fi].document.strings@ == new_pool && (
    reg_new.main_apply matches Some(ma) && patches_views(ma@) == spec_main_patches(
        reg_old.main_module,
        reg_new.live_files@,
        LiveFileId(fi as usize),
        reg_old.expanded@,
        reg_new.live_files@[fi].document.tokens@,
        muts,
        live_id_of(":"@),
    )))
    &&& (muts.len() == 0 ==> reg_new.live_files@[fi].document.strings@ == old_strings
        && reg_new.main_apply == reg_old.main_apply && reg_new.expanded == reg_old.expanded)
    &&& reg_new.expanded@.len() == reg_old.expanded@.len()
    &&& reg_new.expanded@[fi].nodes@ == apply_muts_to(
        reg_old.expanded@[fi].nodes@,
        reg_new.live_files@[fi].document.tokens@,
        LiveFileId(fi as usize),
        muts,
        live_id_of(":"@),
    )
    &&& forall|i: int|
        #![trigger reg_new.expanded@[i]]
        0 <= i < reg_old.expanded@.len() ==> {
            &&& (in_rev_closure(reg_new.live_files@, LiveFileId(fi as usize), i)
                ==> reg_new.expanded@[i].nodes@ == apply_muts_to(
                reg_old.expanded@[i].nodes@,
                reg_new.live_files@[fi].document.tokens@,
                LiveFileId(fi as usize),
                muts,
                live_id_of(":"@),
            ))
            &&& (!in_rev_closure(reg_new.live_files@, LiveFileId(fi as usize), i)
                ==> reg_new.expanded@[i] == reg_old.expanded@[i])
        }
    &&& forall|i: int|
        0 <= i < reg_old.expanded@.len() ==> {
            let d_old = #[trigger] reg_old.expanded@[i];
            let d_new = reg_new.expanded@[i];
            &&& d_new.nodes@.len() == d_old.nodes@.len()
            &&& d_new.tokens@ == d_old.tokens@
            &&& d_new.strings@ == d_old.strings@
            &&& d_new.recompile == d_old.recompile
            &&& forall|j: int|
                0 <= j < d_old.nodes@.len() ==> node_patch_rel(
                    #[trigger] d_old.nodes@[j],
                    d_new.nodes@[j],
                    LiveFileId(fi as usize),
                    reg_new.live_files@[fi].document.tokens@,
                    muts,
                    live_id_of(":"@),
                )
        }
}

impl LiveRegistry {
    /// Applies an incremental edit to a registered file.  The freshly lexed
    /// lines rebuild the edited token range; a change to the parse shape
    /// returns `true` — the caller must reparse — and leaves the registry
    /// untouched.  A value-only change merges the rebuilt stream into the
    /// file's tokens, replaces its string pool when any value moved, and
    /// propagates the mutated values through the expanded documents,
    /// filling the main module's pending patch list; `false` is returned,
    /// no reparse is needed.
    #[verifier::rlimit(100)]
    pub fn update_live_file(
        &mut self,
        file_name: &str,
        range: TokenRange,
        relex: &Vec<RelexedLine>,
    ) -> (r: Result<bool, LiveError>)
        requires
            old(self).wf(),
            old(self).spec_file_registered(file_name@),
            forall|l: int| 0 <= l < relex@.len() ==> (#[trigger] relex@[l]).wf(),
            range.start.line + relex@.len() <= usize::MAX,
        ensures
            final(self).wf(),
            spec_path_file(old(self).live_files@, file_name@) is Some,
            r is Err ==> *final(self) == *old(self),
            r matches Err(e) ==> e.span.file_id == LiveFileId(
                spec_path_file(old(self).live_files@, file_name@)->Some_0 as usize,
            ),
            r is Err <==> crate::update::spec_flatten(
                relex@,
                range,
                LiveFileId(spec_path_file(old(self).live_files@, file_name@)->Some_0 as usize),
                0,
                Seq::empty(),
                Seq::empty(),
            ) is None,
            r matches Ok(b) ==> ({
                let fio = spec_path_file(old(self).live_files@, file_name@);
                &&& fio is Some
                &&& ({
                    let fi = fio->Some_0;
                    let old_doc = old(self).live_files@[fi].document;
                    let flat = crate::update::spec_flatten(
                        relex@,
                        range,
                        LiveFileId(fi as usize),
                        0,
                        Seq::empty(),
                        Seq::empty(),
                    );
                    &&& flat is Some
                    &&& b == crate::update::spec_structural(old_doc.tokens@, flat->Some_0.0)
                    &&& (b ==> *final(self) == *old(self))
                    &&& (!b ==> ({
                        let ns = flat->Some_0;
                        let new_doc = final(self).live_files@[fi].document;
                        &&& final(self).live_files@.len() == old(self).live_files@.len()
                        &&& forall|i2: int|
                            0 <= i2 < old(self).live_files@.len() && i2 != fi ==> final(self).live_files@[i2] == old(self).live_files@[i2]
                        &&& new_doc.nodes@ == old_doc.nodes@
                        &&& new_doc.tokens@.len() == old_doc.tokens@.len()
                        &&& (forall|j: int|
                            0 <= j < ns.0.len() ==> #[trigger] new_doc.tokens@[j]
                                == crate::update::merged_token_at(old_doc.tokens@, ns.0, j))
                        &&& new_doc.tokens@[new_doc.tokens@.len() - 1] == old_doc.tokens@[old_doc.tokens@.len() - 1]
                        &&& final(self).main_module == old(self).main_module
                        &&& exists|muts: Seq<usize>|
                            update_apply_rel(
                                *old(self),
                                *final(self),
                                fi,
                                old_doc.tokens@,
                                old_doc.strings@,
                                ns.0,
                                ns.1,
                                muts,
                            )
                    }))
                })
            }),
    {
        let fid = match self.path_str_to_file_id(file_name) {
            Some(f) => f,
            None => {
                proof {
                    assert(false);
                }
                return Err(
                    LiveError::new(
                        crate::span::Span::empty(LiveFileId(0)),
                        "file is not registered",
                    ),
                );
            },
        };
        proof {
            assert(self.live_files@[fid.0 as int].file_name@ == file_name@);
            lemma_path_file_first(*old(self), file_name@, fid.0 as int);
        }
        let ghost fi0 = fid.0 as int;
        let mut doc = clone_document(&self.live_files[fid.0].document);
        proof {
            assert(self.file_wf(fi0));
        }
        let res = update_document(&mut doc, fid, range, relex);
        let (b, muts) = match res {
            Ok(ok) => ok,
            Err(e) => {
                return Err(e);
            },
        };
        if b {
            return Ok(true);
        }
        let ghost self1 = *self;
        let old_file = &self.live_files[fid.0];
        let new_file = LiveFile {
            module_id: old_file.module_id,
            start_pos: old_file.start_pos,
            file_name: old_file.file_name.clone(),
            source: old_file.source.clone(),
            deps: copy_deps(&old_file.deps),
            document: doc,
        };
        let ghost files_pre = self.live_files@;
        self.live_files.set(fid.0, new_file);
        proof {
            assert forall|i2: int| 0 <= i2 < self.live_files@.len() implies self.file_wf(i2) by {
                if i2 != fi0 {
                    assert(self.live_files@[i2] == files_pre[i2]);
                    assert(self1.file_wf(i2));
                    assert forall|j2: int|
                        0 <= j2 < self.live_files@[i2].document.nodes@.len() implies crate::registry::stored_node_wf(
                        #[trigger] self.live_files@[i2].document.nodes@[j2],
                        LiveFileId(i2 as usize),
                        self.live_files@[i2].document.tokens@.len() as int,
                        self.live_type_infos@,
                    ) by {
                        assert(crate::registry::stored_node_wf(
                            self1.live_files@[i2].document.nodes@[j2],
                            LiveFileId(i2 as usize),
                            self1.live_files@[i2].document.tokens@.len() as int,
                            self1.live_type_infos@,
                        ));
                    }
                } else {
                    assert(self1.file_wf(i2));
                    assert(crate::parser::parse_input_wf(
                        self.live_files@[i2].document.tokens@,
                        self.live_files@[i2].document.strings@.len() as int,
                    )) by {
                        let toks = self.live_files@[i2].document.tokens@;
                        let old_toks = self1.live_files@[i2].document.tokens@;
                        assert(toks.len() == old_toks.len());
                        assert(toks[toks.len() - 1] == old_toks[old_toks.len() - 1]);
                        assert forall|k: int|
                            0 <= k < toks.len() - 1 implies !((#[trigger] toks[k].token)
                            is Eof) by {
                            assert(toks[k] == crate::update::merged_token_at(
                                old_toks,
                                spec_flatten_of(relex@, range, fid),
                                k,
                            ));
                        }
                        assert(crate::update::tokens_pool_wf(
                            toks,
                            self.live_files@[i2].document.strings@,
                        ));
                    }
                    assert forall|j2: int|
                        0 <= j2 < self.live_files@[i2].document.nodes@.len() implies crate::registry::stored_node_wf(
                        #[trigger] self.live_files@[i2].document.nodes@[j2],
                        LiveFileId(i2 as usize),
                        self.live_files@[i2].document.tokens@.len() as int,
                        self.live_type_infos@,
                    ) by {
                        assert(crate::registry::stored_node_wf(
                            self1.live_files@[i2].document.nodes@[j2],
                            LiveFileId(i2 as usize),
                            self1.live_files@[i2].document.tokens@.len() as int,
                            self1.live_type_infos@,
                        ));
                    }
                }
            }
            assert(self.wf());
        }
        let ghost self2 = *self;
        if muts.len() > 0 {
            self.apply_mutations(fid, &muts);
        }
        proof {
            if muts@.len() == 0 {
                assert forall|i: int|
                    0 <= i < old(self).expanded@.len() implies {
                    let d_old = #[trigger] old(self).expanded@[i];
                    let d_new = self.expanded@[i];
                    &&& d_new.nodes@.len() == d_old.nodes@.len()
                    &&& d_new.tokens@ == d_old.tokens@
                    &&& d_new.strings@ == d_old.strings@
                    &&& d_new.recompile == d_old.recompile
                    &&& forall|j: int|
                        0 <= j < d_old.nodes@.len() ==> node_patch_rel(
                            #[trigger] d_old.nodes@[j],
                            d_new.nodes@[j],
                            LiveFileId(fi0 as usize),
                            self.live_files@[fi0].document.tokens@,
                            muts@,
                            live_id_of(":"@),
                        )
                } by {
                    assert(self.expanded@[i] == old(self).expanded@[i]);
                }
            }
            assert(LiveFileId(fi0 as usize) == fid);
            assert(update_apply_rel(
                *old(self),
                *self,
                fi0,
                old(self).live_files@[fi0].document.tokens@,
                old(self).live_files@[fi0].document.strings@,
                spec_flatten_of(relex@, range, fid),
                spec_flatten_pool_of(relex@, range, fid),
                muts@,
            ));
        }
        Ok(false)
    }
}

/// The rebuilt token stream of an edit, named for proofs.
pub open spec fn spec_flatten_of(
    relex: Seq<RelexedLine>,
    range: TokenRange,
    fid: LiveFileId,
) -> Seq<TokenWithSpan> {
    match crate::update::spec_flatten(relex, range, fid, 0, Seq::empty(), Seq::empty()) {
        Some(ns) => ns.0,
        None => Seq::empty(),
    }
}

/// The rebuilt string pool of an edit, named for proofs.
pub open spec fn spec_flatten_pool_of(
    relex: Seq<RelexedLine>,
    range: TokenRange,
    fid: LiveFileId,
) -> Seq<char> {
    match crate::update::spec_flatten(relex, range, fid, 0, Seq::empty(), Seq::empty()) {
        Some(ns) => ns.1,
        None => Seq::empty(),
    }
}

/// The scan of `path_str_to_file_id` finds the first file of a name.
proof fn lemma_path_file_first(reg: LiveRegistry, name: Seq<char>, fi: int)
    requires
        0 <= fi < reg.live_files@.len(),
        reg.live_files@[fi].file_name@ == name,
        forall|j: int| 0 <= j < fi ==> (#[trigger] reg.live_files@[j]).file_name@ != name,
    ensures
        spec_path_file(reg.live_files@, name) == Some(fi),
{
    lemma_path_file_at(reg.live_files@, name, fi);
}

} // verus!
