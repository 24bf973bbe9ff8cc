//! The expander: an unexpanded document to its fully resolved form.
//!
//! Inheritance is flattened: an open node cloning a named parent becomes a
//! class node whose `class_parent` points at the resolved parent, and the
//! parent's children are copied in front of the clone's own, keeping their
//! origins, so that value patches propagate across files by token identity.
//! A child of the clone's body whose identifier collides with an inherited
//! child replaces it: the inherited subtree is not copied.  A parent that
//! cannot be resolved is reported as an error with the clone's source span,
//! and the node degrades to a plain object so expansion can continue.
//! `use` imports and everything else are copied unchanged, with each node's
//! expanded index recorded in its origin.

use vstd::prelude::*;
use crate::dep_order::{compute_dep_order, dep_order_post};
use crate::document::{depth_to, node_delta, nodes_rooted, LiveDocument, LiveNode, LiveNodeOrigin,
    LiveValue, subtree_end};
use crate::error::LiveError;
use crate::ids::{LiveFileId, LivePtr};
use crate::registry::{LiveRegistry};
use crate::scope::LiveScopeTarget;
use crate::span::Span;
use crate::token::TokenWithSpan;

verus! {

/// What a node becomes in a plain (inheritance-free) expansion: the same
/// node with its expanded index recorded.
pub open spec fn plain_node(n: LiveNode, p: int) -> LiveNode {
    LiveNode {
        id: n.id,
        origin: LiveNodeOrigin { token_id: n.origin.token_id, node_index: Some(p as usize) },
        value: n.value,
    }
}

/// The expansion of a document with no clone nodes: every node kept, with
/// its expanded index recorded.
pub open spec fn spec_plain_expand(s: Seq<LiveNode>) -> Seq<LiveNode> {
    Seq::new(s.len(), |p: int| plain_node(s[p], p))
}

pub open spec fn has_no_clone(s: Seq<LiveNode>) -> bool {
    forall|p: int| 0 <= p < s.len() ==> !((#[trigger] s[p]).value is Clone)
}

/// A balanced segment: never dips below its starting depth and returns to
/// it at the end.
pub open spec fn segment_balanced(s: Seq<LiveNode>) -> bool {
    &&& depth_to(s, s.len() as int) == 0
    &&& forall|m: int| 0 <= m <= s.len() ==> #[trigger] depth_to(s, m) >= 0
}

/// Appends one node, with depth bookkeeping.
fn epush(out: &mut Vec<LiveNode>, n: LiveNode)
    ensures
        final(out)@.len() == old(out)@.len() + 1,
        forall|j: int| 0 <= j < old(out)@.len() ==> final(out)@[j] == old(out)@[j],
        final(out)@[old(out)@.len() as int] == n,
        forall|i: int|
            0 <= i <= old(out)@.len() ==> #[trigger] depth_to(final(out)@, i) == depth_to(
                old(out)@,
                i,
            ),
        depth_to(final(out)@, final(out)@.len() as int) == depth_to(
            old(out)@,
            old(out)@.len() as int,
        ) + node_delta(n),
{
    let ghost before = out@;
    out.push(n);
    proof {
        assert forall|i: int| 0 <= i <= before.len() implies #[trigger] depth_to(out@, i)
            == depth_to(before, i) by {
            crate::document::lemma_depth_to_agree(out@, before, i);
        }
        assert(out@[before.len() as int] == n);
        assert(depth_to(out@, before.len() as int + 1) == depth_to(out@, before.len() as int)
            + node_delta(out@[before.len() as int]));
    }
}

fn ids_contain(ids: &Vec<u64>, x: u64) -> (r: bool)
    ensures
        r == ids@.contains(x),
{
    let n = ids.len();
    let mut q: usize = 0;
    while q < n
        invariant
            n == ids@.len(),
            q <= n,
            forall|p: int| 0 <= p < q ==> ids@[p] != x,
        decreases n - q,
    {
        if ids[q] == x {
            proof {
                assert(ids@[q as int] == x);
            }
            return true;
        }
        q = q + 1;
    }
    proof {
        assert(!ids@.contains(x));
    }
    false
}

/// The identifiers of the direct children of the open node at `t`.
fn direct_child_ids(src: &Vec<LiveNode>, t: usize) -> (r: Vec<u64>)
    requires
        t < src@.len(),
{
    let n = src.len();
    let mut ids: Vec<u64> = Vec::new();
    let mut j = t + 1;
    let mut cd: usize = 1;
    while j < n
        invariant
            n == src@.len(),
            t + 1 <= j,
            1 <= cd <= j - t,
        decreases n - j,
    {
        let node = &src[j];
        if node.value.is_close() {
            if cd == 1 {
                break ;
            }
            cd = cd - 1;
        } else {
            if cd == 1 {
                ids.push(node.id);
            }
            if node.value.is_open() {
                cd = cd + 1;
            }
        }
        j = j + 1;
    }
    ids
}

/// Copies the children of the open node at `t`, skipping direct children
/// whose identifier the clone's own body overrides, and repairing any
/// imbalance of the source so the result is a balanced segment.
fn collect_children_filtered(src: &Vec<LiveNode>, t: usize, skip: &Vec<u64>) -> (r: Vec<LiveNode>)
    requires
        t < src@.len(),
    ensures
        segment_balanced(r@),
{
    let n = src.len();
    let mut seg: Vec<LiveNode> = Vec::new();
    let mut j = t + 1;
    let mut cd: usize = 1;
    while j < n
        invariant
            n == src@.len(),
            t + 1 <= j,
            1 <= cd <= j - t,
            depth_to(seg@, seg@.len() as int) == cd - 1,
            forall|m: int| 0 <= m <= seg@.len() ==> #[trigger] depth_to(seg@, m) >= 0,
        decreases n - j,
    {
        let node = src[j];
        if node.value.is_close() {
            if cd == 1 {
                break ;
            }
            cd = cd - 1;
            epush(&mut seg, node);
            j = j + 1;
        } else if cd == 1 && ids_contain(skip, node.id) {
            j = subtree_end(src, j);
        } else {
            if node.value.is_open() {
                cd = cd + 1;
            }
            epush(&mut seg, node);
            j = j + 1;
        }
    }
    while cd > 1
        invariant
            1 <= cd,
            depth_to(seg@, seg@.len() as int) == cd - 1,
            forall|m: int| 0 <= m <= seg@.len() ==> #[trigger] depth_to(seg@, m) >= 0,
        decreases cd,
    {
        epush(
            &mut seg,
            LiveNode {
                id: 0,
                origin: LiveNodeOrigin { token_id: None, node_index: None },
                value: LiveValue::Close,
            },
        );
        cd = cd - 1;
    }
    seg
}

/// Appends a balanced segment to the output.
fn append_segment(out: &mut Vec<LiveNode>, seg: Vec<LiveNode>)
    requires
        segment_balanced(seg@),
    ensures
        final(out)@.len() == old(out)@.len() + seg@.len(),
        forall|j: int| 0 <= j < old(out)@.len() ==> final(out)@[j] == old(out)@[j],
        depth_to(final(out)@, final(out)@.len() as int) == depth_to(
            old(out)@,
            old(out)@.len() as int,
        ),
        forall|i: int|
            0 <= i <= old(out)@.len() ==> #[trigger] depth_to(final(out)@, i) == depth_to(
                old(out)@,
                i,
            ),
        forall|i: int|
            old(out)@.len() < i <= final(out)@.len() ==> #[trigger] depth_to(final(out)@, i)
                >= depth_to(old(out)@, old(out)@.len() as int),
{
    let ns = seg.len();
    let mut k: usize = 0;
    while k < ns
        invariant
            ns == seg@.len(),
            k <= ns,
            segment_balanced(seg@),
            out@.len() == old(out)@.len() + k,
            forall|j: int| 0 <= j < old(out)@.len() ==> out@[j] == old(out)@[j],
            depth_to(out@, out@.len() as int) == depth_to(old(out)@, old(out)@.len() as int)
                + depth_to(seg@, k as int),
            forall|i: int|
                0 <= i <= old(out)@.len() ==> #[trigger] depth_to(out@, i) == depth_to(
                    old(out)@,
                    i,
                ),
            forall|i: int|
                old(out)@.len() < i <= out@.len() ==> #[trigger] depth_to(out@, i) >= depth_to(
                    old(out)@,
                    old(out)@.len() as int,
                ),
        decreases ns - k,
    {
        let node = seg[k];
        epush(out, node);
        proof {
            assert(depth_to(seg@, k + 1) == depth_to(seg@, k as int) + node_delta(
                seg@[k as int],
            ));
        }
        k = k + 1;
    }
}


pub(crate) fn copy_tokens(v: &Vec<TokenWithSpan>) -> (r: Vec<TokenWithSpan>)
    ensures
        r@ == v@,
{
    let n = v.len();
    let mut out: Vec<TokenWithSpan> = Vec::new();
    let mut k: usize = 0;
    while k < n
        invariant
            n == v@.len(),
            k <= n,
            out@ == v@.subrange(0, k as int),
        decreases n - k,
    {
        out.push(v[k]);
        proof {
            assert(out@ =~= v@.subrange(0, k + 1));
        }
        k = k + 1;
    }
    proof {
        assert(out@ =~= v@);
    }
    out
}

pub(crate) fn copy_chars(v: &Vec<char>) -> (r: Vec<char>)
    ensures
        r@ == v@,
{
    let n = v.len();
    let mut out: Vec<char> = Vec::new();
    let mut k: usize = 0;
    while k < n
        invariant
            n == v@.len(),
            k <= n,
            out@ == v@.subrange(0, k as int),
        decreases n - k,
    {
        out.push(v[k]);
        proof {
            assert(out@ =~= v@.subrange(0, k + 1));
        }
        k = k + 1;
    }
    proof {
        assert(out@ =~= v@);
    }
    out
}

/// Expands one document against the registry: inheritance flattened, every
/// node's expanded index recorded, origins preserved on inherited nodes.
/// For a document with no clone nodes the result is pinned exactly: the
/// parsed nodes with their expanded indexes recorded, and the token stream
/// and string pool carried over unchanged.
#[verifier::rlimit(100)]
pub fn expand_document(
    reg: &LiveRegistry,
    own_file: LiveFileId,
    in_doc: &LiveDocument,
    errors: &mut Vec<LiveError>,
) -> (r: LiveDocument)
    requires
        reg.wf(),
        nodes_rooted(in_doc.nodes@),
        forall|j: int|
            0 <= j < in_doc.nodes@.len() ==> ((#[trigger] in_doc.nodes@[j]).origin.token_id
                matches Some(t) ==> t.index < in_doc.tokens@.len()),
    ensures
        r.wf(),
        r.nodes@.len() >= 2,
        r.recompile == false,
        r.tokens@ == in_doc.tokens@,
        r.strings@ == in_doc.strings@,
        has_no_clone(in_doc.nodes@) ==> r.nodes@ == spec_plain_expand(in_doc.nodes@),
        final(errors)@.len() >= old(errors)@.len(),
        forall|e: int| 0 <= e < old(errors)@.len() ==> final(errors)@[e] == old(errors)@[e],
        has_no_clone(in_doc.nodes@) ==> *final(errors) == *old(errors),
{
    let n = in_doc.nodes.len();
    let mut out: Vec<LiveNode> = Vec::new();
    let mut i: usize = 0;
    while i < n
        invariant
            reg.wf(),
            nodes_rooted(in_doc.nodes@),
            forall|j: int|
                0 <= j < in_doc.nodes@.len() ==> ((#[trigger] in_doc.nodes@[j]).origin.token_id
                    matches Some(t) ==> t.index < in_doc.tokens@.len()),
            n == in_doc.nodes@.len(),
            i <= n,
            out@.len() >= i,
            depth_to(out@, out@.len() as int) == depth_to(in_doc.nodes@, i as int),
            forall|m: int| 0 < m < out@.len() ==> #[trigger] depth_to(out@, m) >= 1,
            i >= 1 ==> out@.len() >= 1 && out@[0].value.spec_is_open(),
            (i >= 1 && in_doc.nodes@[i - 1].value is Close) ==> out@[out@.len() - 1].value
                is Close,
            (forall|p: int| 0 <= p < i ==> !((#[trigger] in_doc.nodes@[p]).value is Clone))
                ==> out@.len() == i && (forall|p: int|
                0 <= p < i ==> #[trigger] out@[p] == plain_node(in_doc.nodes@[p], p)),
            errors@.len() >= old(errors)@.len(),
            forall|e: int| 0 <= e < old(errors)@.len() ==> errors@[e] == old(errors)@[e],
            has_no_clone(in_doc.nodes@) ==> *errors == *old(errors),
        decreases n - i,
    {
        let node = in_doc.nodes[i];
        let ghost out0 = out@;
        let is_clone_name = match node.value {
            LiveValue::Clone(target_name) => Some(target_name),
            _ => None,
        };
        match is_clone_name {
            Some(target_name) => {
                let s = out.len();
                let target = reg.expand_resolve(own_file, &out, s, target_name);
                let resolved: Option<(LivePtr, u64, bool)> = match target {
                    Some(LiveScopeTarget::LocalPtr(t)) => {
                        if t < out.len() && out[t].value.is_open() {
                            let lt = match out[t].value {
                                LiveValue::Class { live_type, .. } => live_type,
                                _ => 0,
                            };
                            Some((LivePtr { file_id: own_file, index: t }, lt, true))
                        } else {
                            None
                        }
                    },
                    Some(LiveScopeTarget::ForeignPtr(p)) => {
                        if p.file_id.0 < reg.expanded.len() && p.index
                            < reg.expanded[p.file_id.0].nodes.len() && reg.expanded[p.file_id.0].nodes[p.index].value.is_open() {
                            let lt = match reg.expanded[p.file_id.0].nodes[p.index].value {
                                LiveValue::Class { live_type, .. } => live_type,
                                _ => 0,
                            };
                            Some((p, lt, false))
                        } else {
                            None
                        }
                    },
                    None => None,
                };
                match resolved {
                    Some((cp, lt, is_local)) => {
                        epush(
                            &mut out,
                            LiveNode {
                                id: node.id,
                                origin: LiveNodeOrigin {
                                    token_id: node.origin.token_id,
                                    node_index: Some(s),
                                },
                                value: LiveValue::Class { live_type: lt, class_parent: Some(cp) },
                            },
                        );
                        let skip_ids = direct_child_ids(&in_doc.nodes, i);
                        let seg = if is_local {
                            collect_children_filtered(&out, cp.index, &skip_ids)
                        } else {
                            collect_children_filtered(
                                &reg.expanded[cp.file_id.0].nodes,
                                cp.index,
                                &skip_ids,
                            )
                        };
                        append_segment(&mut out, seg);
                    },
                    None => {
                        let span = match node.origin.token_id {
                            Some(t) => in_doc.tokens[t.index].span,
                            None => Span::empty(own_file),
                        };
                        errors.push(LiveError::new(span, "cannot resolve the clone parent"));
                        epush(
                            &mut out,
                            LiveNode {
                                id: node.id,
                                origin: LiveNodeOrigin {
                                    token_id: node.origin.token_id,
                                    node_index: Some(s),
                                },
                                value: LiveValue::Object,
                            },
                        );
                    },
                }
                proof {
                    assert(depth_to(in_doc.nodes@, i + 1) == depth_to(in_doc.nodes@, i as int)
                        + 1);
                }
            },
            None => {
                proof {
                    if i == 0 {
                        assert(in_doc.nodes@[0].value.spec_is_open());
                    }
                    if node.value.spec_is_close() && i > 0 {
                        assert(depth_to(in_doc.nodes@, i + 1) >= 0);
                        assert(depth_to(in_doc.nodes@, i as int) >= 1);
                    }
                }
                let s = out.len();
                epush(
                    &mut out,
                    LiveNode {
                        id: node.id,
                        origin: LiveNodeOrigin {
                            token_id: node.origin.token_id,
                            node_index: Some(s),
                        },
                        value: node.value,
                    },
                );
                proof {
                    if i + 1 < n && node.value.spec_is_close() {
                        assert(depth_to(in_doc.nodes@, i + 1) >= 1);
                    }
                }
            },
        }
        i = i + 1;
    }
    proof {
        assert(out@.len() >= 2);
        assert(in_doc.nodes@[n - 1].value is Close);
        assert(out@[out@.len() - 1].value is Close);
        assert(depth_to(out@, out@.len() as int) == 0);
        assert(nodes_rooted(out@));
        if forall|p: int| 0 <= p < in_doc.nodes@.len() ==> !((#[trigger] in_doc.nodes@[p]).value
            is Clone) {
            assert(out@ =~= spec_plain_expand(in_doc.nodes@));
        }
    }
    LiveDocument {
        nodes: out,
        tokens: copy_tokens(&in_doc.tokens),
        strings: copy_chars(&in_doc.strings),
        recompile: false,
    }
}

impl LiveRegistry {
    /// Expands every document still marked for expansion, in dependency
    /// order, appending any resolution errors: the error list only ever
    /// grows, and a file with no clone nodes contributes none.  A pass over
    /// a registry with nothing marked leaves every expanded document
    /// untouched and appends no errors, so a second pass right after a
    /// first is the identity: expansion is idempotent.
    pub fn expand_all_documents(&mut self, errors: &mut Vec<LiveError>)
        requires
            old(self).wf(),
        ensures
            final(self).wf(),
            final(errors)@.len() >= old(errors)@.len(),
            forall|e: int| 0 <= e < old(errors)@.len() ==> final(errors)@[e] == old(errors)@[e],
            (forall|i: int|
                0 <= i < old(self).expanded@.len() ==> !(#[trigger] old(self).expanded@[i]).recompile)
                ==> *final(errors) == *old(errors),
            (forall|i: int|
                0 <= i < old(self).live_files@.len() && (#[trigger] old(self).expanded@[i]).recompile
                    ==> has_no_clone(old(self).live_files@[i].document.nodes@)) ==> *final(errors)
                == *old(errors),
            final(self).live_files == old(self).live_files,
            final(self).live_type_infos == old(self).live_type_infos,
            final(self).main_module == old(self).main_module,
            final(self).main_apply == old(self).main_apply,
            final(self).expanded@.len() == old(self).expanded@.len(),
            forall|i: int|
                0 <= i < old(self).expanded@.len() && !(#[trigger] old(self).expanded@[i]).recompile ==> final(self).expanded@[i] == old(self).expanded@[i],
            forall|i: int|
                0 <= i < final(self).expanded@.len() ==> (#[trigger] final(self).expanded@[i]).recompile == false,
            (forall|i: int|
                0 <= i < old(self).expanded@.len() ==> !(#[trigger] old(self).expanded@[i]).recompile) ==> final(self).expanded@ == old(self).expanded@,
            forall|i: int|
                0 <= i < old(self).expanded@.len() && (#[trigger] old(self).expanded@[i]).recompile && has_no_clone(
                    old(self).live_files@[i].document.nodes@,
                ) ==> {
                    &&& final(self).expanded@[i].nodes@ == spec_plain_expand(
                        old(self).live_files@[i].document.nodes@,
                    )
                    &&& final(self).expanded@[i].tokens@ == old(self).live_files@[i].document.tokens@
                    &&& final(self).expanded@[i].strings@ == old(self).live_files@[i].document.strings@
                },
    {
        let order = compute_dep_order(&self.live_files);
        let no = order.len();
        let mut t: usize = 0;
        while t < no
            invariant
                no == order@.len(),
                t <= no,
                dep_order_post(self.live_files@, order@),
                self.wf(),
                self.live_files == old(self).live_files,
                self.live_type_infos == old(self).live_type_infos,
                self.main_module == old(self).main_module,
                self.main_apply == old(self).main_apply,
                self.expanded@.len() == old(self).expanded@.len(),
                errors@.len() >= old(errors)@.len(),
                forall|e: int| 0 <= e < old(errors)@.len() ==> errors@[e] == old(errors)@[e],
                (forall|i: int|
                    0 <= i < old(self).expanded@.len() ==> !(#[trigger] old(
                        self,
                    ).expanded@[i]).recompile) ==> *errors == *old(errors),
                (forall|i: int|
                    0 <= i < old(self).live_files@.len() && (#[trigger] old(
                        self,
                    ).expanded@[i]).recompile ==> has_no_clone(
                        old(self).live_files@[i].document.nodes@,
                    )) ==> *errors == *old(errors),
                forall|i: int|
                    0 <= i < old(self).expanded@.len() && !(#[trigger] old(self).expanded@[i]).recompile ==> self.expanded@[i] == old(self).expanded@[i],
                forall|i: int|
                    0 <= i < old(self).expanded@.len() ==> #[trigger] self.expanded@[i] == old(self).expanded@[i] || (old(self).expanded@[i].recompile
                        && self.expanded@[i].recompile == false && (has_no_clone(
                        old(self).live_files@[i].document.nodes@,
                    ) ==> self.expanded@[i].nodes@ == spec_plain_expand(
                        old(self).live_files@[i].document.nodes@,
                    ) && self.expanded@[i].tokens@ == old(self).live_files@[i].document.tokens@
                        && self.expanded@[i].strings@ == old(self).live_files@[i].document.strings@)),
                forall|t2: int|
                    0 <= t2 < t ==> (#[trigger] self.expanded@[order@[t2] as int]).recompile
                        == false,
            decreases no - t,
        {
            let fi = order[t];
            let dirty = self.expanded[fi].recompile;
            if dirty {
                proof {
                    assert(self.expanded@[fi as int] == old(self).expanded@[fi as int]);
                    assert(old(self).expanded@[fi as int].recompile);
                }
                let ghost self0 = *self;
                let ghost pre = self.expanded@;
                self.expanded.set(fi, LiveDocument::new());
                proof {
                    assert forall|i2: int|
                        0 <= i2 < self.expanded@.len() implies (
                    #[trigger] self.expanded@[i2]).wf() by {
                        if i2 != fi as int {
                            assert(self.expanded@[i2] == pre[i2]);
                        }
                    }
                    assert forall|i2: int| 0 <= i2 < self.live_files@.len() implies self.file_wf(
                        i2,
                    ) by {
                        assert(self0.file_wf(i2));
                    }
                    assert(self.wf());
                    assert(self.file_wf(fi as int));
                }
                let new_doc = expand_document(
                    self,
                    LiveFileId(fi),
                    &self.live_files[fi].document,
                    errors,
                );
                let ghost mid = self.expanded@;
                self.expanded.set(fi, new_doc);
                proof {
                    assert forall|i2: int|
                        0 <= i2 < self.expanded@.len() implies (
                    #[trigger] self.expanded@[i2]).wf() by {
                        if i2 != fi as int {
                            assert(self.expanded@[i2] == mid[i2]);
                            assert(mid[i2] == pre[i2]);
                        }
                    }
                    assert forall|i2: int| 0 <= i2 < self.live_files@.len() implies self.file_wf(
                        i2,
                    ) by {
                        assert(self0.file_wf(i2));
                    }
                    assert forall|i: int|
                        0 <= i < old(self).expanded@.len() implies #[trigger] self.expanded@[i]
                        == old(self).expanded@[i] || (old(self).expanded@[i].recompile
                        && self.expanded@[i].recompile == false && (has_no_clone(
                        old(self).live_files@[i].document.nodes@,
                    ) ==> self.expanded@[i].nodes@ == spec_plain_expand(
                        old(self).live_files@[i].document.nodes@,
                    ) && self.expanded@[i].tokens@ == old(self).live_files@[i].document.tokens@
                        && self.expanded@[i].strings@ == old(self).live_files@[i].document.strings@)) by {
                        if i != fi as int {
                            assert(self.expanded@[i] == pre[i]);
                        } else {
                            assert(pre[i] == old(self).expanded@[i] || old(self).expanded@[i].recompile);
                            assert(pre[i].recompile ==> old(self).expanded@[i].recompile);
                        }
                    }
                }
            }
            proof {
                assert forall|t2: int|
                    0 <= t2 < t + 1 implies (#[trigger] self.expanded@[order@[t2] as int]).recompile
                    == false by {
                    if t2 < t {
                        assert(order@[t2] != order@[t as int]);
                    } else {
                        assert(order@[t2] == fi);
                    }
                }
            }
            t = t + 1;
        }
        let ne = self.expanded.len();
        proof {
            assert forall|i: int|
                0 <= i < self.expanded@.len() implies (#[trigger] self.expanded@[i]).recompile
                == false by {
                assert(i < ne);
                assert(order@.contains(i as usize));
                let t2 = choose|t2: int| 0 <= t2 < order@.len() && order@[t2] == i as usize;
                assert(self.expanded@[order@[t2] as int].recompile == false);
            }
            if forall|i: int|
                0 <= i < old(self).expanded@.len() ==> !(#[trigger] old(self).expanded@[i]).recompile {
                assert(self.expanded@ =~= old(self).expanded@);
            }
        }
    }
}

} // verus!
