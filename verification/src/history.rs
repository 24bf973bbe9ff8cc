//! An undo/redo history of grouped text edits.
//!
//! Edits arrive as groups of changes; consecutive edits of the same kind
//! from the same session extend the open group, so one undo takes them all
//! back.  Undoing pops a group, applies the inverse of each change in
//! reverse order, and moves the group to the redo stack; redoing replays a
//! group and moves it back.  Any fresh edit clears the redo stack.

use vstd::prelude::*;

verus! {

/// The session an edit originated from.
#[derive(Clone, Copy, Debug, PartialEq, Eq, Structural)]
pub struct SessionId(pub u64);

/// The kind of an edit; only edits of equal kind join one group.
#[derive(Clone, Copy, Debug, PartialEq, Eq, Structural)]
pub enum EditKind {
    Insert,
    Delete,
    Indent,
    Outdent,
}

/// A selection at the time a group was opened, restored by undo.
#[derive(Clone, Copy, Debug, PartialEq, Eq, Structural)]
pub struct Selection {
    pub anchor: usize,
    pub cursor: usize,
}

/// A text as a flat sequence of characters.
pub struct Text {
    pub chars: Vec<char>,
}

/// One atomic change: an insertion of characters at a position, or a
/// deletion of a run of characters at a position.  A deletion records the
/// characters it removed, so it can always be taken back.
pub enum Change {
    Insert { at: usize, text: Vec<char> },
    Delete { at: usize, text: Vec<char> },
}

/// The mathematical form of a change.
pub enum ChangeSpec {
    Ins { at: int, text: Seq<char> },
    Del { at: int, text: Seq<char> },
}

impl Change {
    pub open spec fn view_spec(self) -> ChangeSpec {
        match self {
            Change::Insert { at, text } => ChangeSpec::Ins { at: at as int, text: text@ },
            Change::Delete { at, text } => ChangeSpec::Del { at: at as int, text: text@ },
        }
    }
}

/// Whether a change fits the text it is applied to.
pub open spec fn change_applicable(t: Seq<char>, c: ChangeSpec) -> bool {
    match c {
        ChangeSpec::Ins { at, text } => 0 <= at <= t.len() && t.len() + text.len() <= usize::MAX,
        ChangeSpec::Del { at, text } => 0 <= at && at + text.len() <= t.len(),
    }
}

/// A change truthful about the text it is applied to: a deletion removes
/// exactly the characters it records.
pub open spec fn change_faithful(t: Seq<char>, c: ChangeSpec) -> bool {
    match c {
        ChangeSpec::Ins { at, text } => true,
        ChangeSpec::Del { at, text } => t.subrange(at, at + text.len()) == text,
    }
}

/// What a change does to a text.
pub open spec fn apply_change_spec(t: Seq<char>, c: ChangeSpec) -> Seq<char> {
    match c {
        ChangeSpec::Ins { at, text } => t.subrange(0, at) + text + t.subrange(at, t.len() as int),
        ChangeSpec::Del { at, text } => t.subrange(0, at) + t.subrange(
            at + text.len(),
            t.len() as int,
        ),
    }
}

/// The change that takes an applied change back.
pub open spec fn invert_spec(c: ChangeSpec) -> ChangeSpec {
    match c {
        ChangeSpec::Ins { at, text } => ChangeSpec::Del { at, text },
        ChangeSpec::Del { at, text } => ChangeSpec::Ins { at, text },
    }
}

/// Law: applying a faithful change and then its inverse restores the text.
pub proof fn lemma_invert_restores(t: Seq<char>, c: ChangeSpec)
    requires
        t.len() <= usize::MAX,
        change_applicable(t, c),
        change_faithful(t, c),
    ensures
        change_applicable(apply_change_spec(t, c), invert_spec(c)),
        apply_change_spec(apply_change_spec(t, c), invert_spec(c)) == t,
{
    let t2 = apply_change_spec(t, c);
    match c {
        ChangeSpec::Ins { at, text } => {
            assert(t2.len() == t.len() + text.len());
            assert(t2.subrange(0, at) =~= t.subrange(0, at));
            assert(t2.subrange(at + text.len(), t2.len() as int) =~= t.subrange(
                at,
                t.len() as int,
            ));
            assert(apply_change_spec(t2, invert_spec(c)) =~= t);
        },
        ChangeSpec::Del { at, text } => {
            assert(t2.len() == t.len() - text.len());
            assert(t2.subrange(0, at) =~= t.subrange(0, at));
            assert(apply_change_spec(t2, invert_spec(c)) =~= t);
        },
    }
}

impl Text {
    pub fn new() -> (r: Text)
        ensures
            r.chars@.len() == 0,
    {
        Text { chars: Vec::new() }
    }

    pub fn text_len(&self) -> (r: usize)
        ensures
            r == self.chars@.len(),
    {
        self.chars.len()
    }

    /// Applies one change in place.
    pub fn apply_change(&mut self, change: &Change)
        requires
            change_applicable(old(self).chars@, change.view_spec()),
        ensures
            final(self).chars@ == apply_change_spec(old(self).chars@, change.view_spec()),
    {
        match change {
            Change::Insert { at, text } => {
                let n = self.chars.len();
                let tn = text.len();
                let mut out: Vec<char> = Vec::new();
                let mut k: usize = 0;
                while k < *at
                    invariant
                        k <= *at,
                        *at <= n,
                        n == self.chars@.len(),
                        out@ == self.chars@.subrange(0, k as int),
                    decreases *at - k,
                {
                    out.push(self.chars[k]);
                    proof {
                        assert(out@ =~= self.chars@.subrange(0, k + 1));
                    }
                    k = k + 1;
                }
                let mut u: usize = 0;
                while u < tn
                    invariant
                        u <= tn,
                        tn == text@.len(),
                        *at <= n,
                        n == self.chars@.len(),
                        out@ == self.chars@.subrange(0, *at as int) + text@.subrange(0, u as int),
                    decreases tn - u,
                {
                    out.push(text[u]);
                    proof {
                        assert(out@ =~= self.chars@.subrange(0, *at as int) + text@.subrange(
                            0,
                            u + 1,
                        ));
                    }
                    u = u + 1;
                }
                let mut k2: usize = *at;
                while k2 < n
                    invariant
                        *at <= k2 <= n,
                        tn == text@.len(),
                        n == self.chars@.len(),
                        out@ == self.chars@.subrange(0, *at as int) + text@ + self.chars@.subrange(
                            *at as int,
                            k2 as int,
                        ),
                    decreases n - k2,
                {
                    out.push(self.chars[k2]);
                    proof {
                        assert(out@ =~= self.chars@.subrange(0, *at as int) + text@
                            + self.chars@.subrange(*at as int, k2 + 1));
                    }
                    k2 = k2 + 1;
                }
                proof {
                    assert(text@.subrange(0, tn as int) =~= text@);
                }
                self.chars = out;
            },
            Change::Delete { at, text } => {
                let dl = text.len();
                let n = self.chars.len();
                let mut out: Vec<char> = Vec::new();
                let mut k: usize = 0;
                while k < *at
                    invariant
                        k <= *at,
                        *at + dl <= n,
                        n == self.chars@.len(),
                        out@ == self.chars@.subrange(0, k as int),
                    decreases *at - k,
                {
                    out.push(self.chars[k]);
                    proof {
                        assert(out@ =~= self.chars@.subrange(0, k + 1));
                    }
                    k = k + 1;
                }
                let mut k2: usize = *at + dl;
                while k2 < n
                    invariant
                        *at + dl <= k2 <= n,
                        dl == text@.len(),
                        n == self.chars@.len(),
                        out@ == self.chars@.subrange(0, *at as int) + self.chars@.subrange(
                            *at + dl,
                            k2 as int,
                        ),
                    decreases n - k2,
                {
                    out.push(self.chars[k2]);
                    proof {
                        assert(out@ =~= self.chars@.subrange(0, *at as int)
                            + self.chars@.subrange(*at + dl, k2 + 1));
                    }
                    k2 = k2 + 1;
                }
                proof {
                    if *at == 0 {
                        assert(out@ =~= self.chars@.subrange(0, 0) + self.chars@.subrange(
                            *at + dl,
                            n as int,
                        ));
                    }
                }
                self.chars = out;
            },
        }
    }
}

impl Change {
    /// The change that takes this one back.
    pub fn invert(&self) -> (r: Change)
        ensures
            r.view_spec() == invert_spec(self.view_spec()),
    {
        match self {
            Change::Insert { at, text } => Change::Delete { at: *at, text: copy_text(text) },
            Change::Delete { at, text } => Change::Insert { at: *at, text: copy_text(text) },
        }
    }
}

fn copy_text(v: &Vec<char>) -> (r: Vec<char>)
    ensures
        r@ == v@,
{
    let n = v.len();
    let mut out: Vec<char> = Vec::new();
    let mut k: usize = 0;
    while k < n
        invariant
            n == v@.len(),
            k <= n,
            out@ == v@.subrange(0, k as int),
        decreases n - k,
    {
        out.push(v[k]);
        proof {
            assert(out@ =~= v@.subrange(0, k + 1));
        }
        k = k + 1;
    }
    proof {
        assert(out@ =~= v@);
    }
    out
}

/// A group of changes taken back by one undo, with the selections to
/// restore.
pub struct EditGroup {
    pub selections: Vec<Selection>,
    pub changes: Vec<Change>,
}

/// The change views of a group, in recording order.
pub open spec fn changes_views(cs: Seq<Change>) -> Seq<ChangeSpec> {
    cs.map_values(|c: Change| c.view_spec())
}

/// Whether a group can be undone against a text: each change's inverse, in
/// reverse recording order, fits the text it meets.
pub open spec fn undo_ok(cs: Seq<ChangeSpec>, t: Seq<char>) -> bool
    decreases cs.len(),
{
    if cs.len() == 0 {
        true
    } else {
        let c = cs.last();
        &&& change_applicable(t, invert_spec(c))
        &&& undo_ok(cs.drop_last(), apply_change_spec(t, invert_spec(c)))
    }
}

/// The text after a group is undone.
pub open spec fn undo_result(cs: Seq<ChangeSpec>, t: Seq<char>) -> Seq<char>
    decreases cs.len(),
{
    if cs.len() == 0 {
        t
    } else {
        undo_result(cs.drop_last(), apply_change_spec(t, invert_spec(cs.last())))
    }
}

/// Whether a group can be replayed against a text, change by change in
/// recording order.
pub open spec fn redo_ok(cs: Seq<ChangeSpec>, t: Seq<char>) -> bool
    decreases cs.len(),
{
    if cs.len() == 0 {
        true
    } else {
        &&& change_applicable(t, cs.first())
        &&& redo_ok(cs.drop_first(), apply_change_spec(t, cs.first()))
    }
}

/// A group can be undone against a text and every inverse it applies is
/// truthful about the text it meets: what each step re-inserts is exactly
/// what stands deleted there.  This holds of any history whose changes
/// were recorded as they were applied.
pub open spec fn undo_exact(cs: Seq<ChangeSpec>, t: Seq<char>) -> bool
    decreases cs.len(),
{
    if cs.len() == 0 {
        true
    } else {
        let c = cs.last();
        &&& change_applicable(t, invert_spec(c))
        &&& change_faithful(t, invert_spec(c))
        &&& undo_exact(cs.drop_last(), apply_change_spec(t, invert_spec(c)))
    }
}

pub proof fn lemma_undo_exact_ok(cs: Seq<ChangeSpec>, t: Seq<char>)
    requires
        undo_exact(cs, t),
    ensures
        undo_ok(cs, t),
    decreases cs.len(),
{
    if cs.len() > 0 {
        lemma_undo_exact_ok(cs.drop_last(), apply_change_spec(t, invert_spec(cs.last())));
    }
}

/// Splitting a replay at its last change.
proof fn lemma_redo_snoc(cs: Seq<ChangeSpec>, c: ChangeSpec, t: Seq<char>)
    requires
        redo_ok(cs, t),
        change_applicable(redo_result(cs, t), c),
    ensures
        redo_ok(cs.push(c), t),
        redo_result(cs.push(c), t) == apply_change_spec(redo_result(cs, t), c),
    decreases cs.len(),
{
    let one = cs.push(c);
    if cs.len() == 0 {
        assert(one.len() == 1);
        assert(one.first() == c);
        assert(one.drop_first() =~= Seq::<ChangeSpec>::empty());
        assert(redo_result(cs, t) == t);
        assert(redo_ok(Seq::<ChangeSpec>::empty(), apply_change_spec(t, c)));
        assert(redo_result(Seq::<ChangeSpec>::empty(), apply_change_spec(t, c))
            == apply_change_spec(t, c));
        assert(redo_ok(one, t));
        assert(redo_result(one, t) == apply_change_spec(t, c));
    } else {
        let t2 = apply_change_spec(t, cs.first());
        assert(change_applicable(t, cs.first()));
        assert(redo_ok(cs.drop_first(), t2));
        assert(redo_result(cs, t) == redo_result(cs.drop_first(), t2));
        lemma_redo_snoc(cs.drop_first(), c, t2);
        assert(one.first() == cs.first());
        assert(one.drop_first() =~= cs.drop_first().push(c));
        assert(redo_ok(one.drop_first(), t2));
        assert(redo_ok(one, t));
        assert(redo_result(one, t) == redo_result(one.drop_first(), t2));
    }
}

/// Law: redo inverts undo.  Undoing a faithfully recorded group and then
/// replaying its changes in recording order is possible and restores the
/// text exactly; this discharges `redo`'s precondition right after a
/// successful `undo`.
pub proof fn lemma_undo_then_redo_restores(cs: Seq<ChangeSpec>, t: Seq<char>)
    requires
        t.len() <= usize::MAX,
        undo_exact(cs, t),
    ensures
        undo_ok(cs, t),
        redo_ok(cs, undo_result(cs, t)),
        redo_result(cs, undo_result(cs, t)) == t,
    decreases cs.len(),
{
    lemma_undo_exact_ok(cs, t);
    if cs.len() > 0 {
        let c = cs.last();
        let t1 = apply_change_spec(t, invert_spec(c));
        assert(t1.len() <= usize::MAX) by {
            match invert_spec(c) {
                ChangeSpec::Ins { at, text } => {},
                ChangeSpec::Del { at, text } => {},
            }
        }
        lemma_undo_then_redo_restores(cs.drop_last(), t1);
        let t0 = undo_result(cs.drop_last(), t1);
        assert(t0 == undo_result(cs, t));
        lemma_invert_restores(t, invert_spec(c));
        assert(invert_spec(invert_spec(c)) == c);
        assert(apply_change_spec(t1, c) == t);
        lemma_redo_snoc(cs.drop_last(), c, t0);
        assert(cs.drop_last().push(c) =~= cs);
    }
}

/// The text after a group is replayed.
pub open spec fn redo_result(cs: Seq<ChangeSpec>, t: Seq<char>) -> Seq<char>
    decreases cs.len(),
{
    if cs.len() == 0 {
        t
    } else {
        redo_result(cs.drop_first(), apply_change_spec(t, cs.first()))
    }
}

/// The undo/redo history.
pub struct History {
    current_edit: Option<(SessionId, EditKind)>,
    undos: Vec<EditGroup>,
    redos: Vec<EditGroup>,
}

impl History {
    pub closed spec fn wf(self) -> bool {
        self.current_edit is Some ==> self.undos@.len() >= 1
    }

    pub closed spec fn spec_undos(self) -> Seq<EditGroup> {
        self.undos@
    }

    pub closed spec fn spec_redos(self) -> Seq<EditGroup> {
        self.redos@
    }

    pub closed spec fn spec_current_edit(self) -> Option<(SessionId, EditKind)> {
        self.current_edit
    }

    pub fn new() -> (r: History)
        ensures
            r.wf(),
            r.spec_undos().len() == 0,
            r.spec_redos().len() == 0,
            r.spec_current_edit() is None,
    {
        History { current_edit: None, undos: Vec::new(), redos: Vec::new() }
    }

    /// Closes the open edit group: the next edit starts a fresh one.
    pub fn force_new_edit_group(&mut self)
        requires
            old(self).wf(),
        ensures
            final(self).wf(),
            final(self).spec_current_edit() is None,
            final(self).spec_undos() == old(self).spec_undos(),
            final(self).spec_redos() == old(self).spec_redos(),
    {
        self.current_edit = None;
    }

    /// Records an edit: extends the open group when session and kind both
    /// match, otherwise opens a new group with the given selections.  Any
    /// edit clears the redo stack.
    pub fn edit(
        &mut self,
        origin_id: SessionId,
        kind: EditKind,
        selections: &Vec<Selection>,
        changes: Vec<Change>,
    )
        requires
            old(self).wf(),
            old(self).spec_undos().len() < usize::MAX,
        ensures
            final(self).wf(),
            final(self).spec_redos().len() == 0,
            final(self).spec_current_edit() == Some((origin_id, kind)),
            old(self).spec_current_edit() == Some((origin_id, kind)) ==> {
                &&& final(self).spec_undos().len() == old(self).spec_undos().len()
                &&& forall|i: int|
                    0 <= i < old(self).spec_undos().len() - 1 ==> #[trigger] final(self).spec_undos()[i] == old(self).spec_undos()[i]
                &&& final(self).spec_undos().last().selections
                    == old(self).spec_undos().last().selections
                &&& final(self).spec_undos().last().changes@ == old(self).spec_undos().last().changes@ + changes@
            },
            old(self).spec_current_edit() != Some((origin_id, kind)) ==> {
                &&& final(self).spec_undos().len() == old(self).spec_undos().len() + 1
                &&& forall|i: int|
                    0 <= i < old(self).spec_undos().len() ==> #[trigger] final(self).spec_undos()[i] == old(self).spec_undos()[i]
                &&& final(self).spec_undos().last().selections@ == selections@
                &&& final(self).spec_undos().last().changes@ == changes@
            },
    {
        let same = match self.current_edit {
            Some((sid, k)) => sid.0 == origin_id.0 && kind_eq(k, kind),
            None => false,
        };
        if same {
            let group = match self.undos.pop() {
                Some(g) => g,
                None => {
                    proof {
                        assert(false);
                    }
                    EditGroup { selections: Vec::new(), changes: Vec::new() }
                },
            };
            let mut group = group;
            let mut rest = changes;
            while rest.len() > 0
                invariant
                    group.changes@ + rest@ == old(self).spec_undos().last().changes@ + changes@,
                    group.selections == old(self).spec_undos().last().selections,
                decreases rest@.len(),
            {
                let c = rest.remove(0);
                group.changes.push(c);
                proof {
                    assert(group.changes@ + rest@ =~= old(self).spec_undos().last().changes@
                        + changes@);
                }
            }
            proof {
                assert(group.changes@ =~= group.changes@ + rest@);
            }
            self.undos.push(group);
        } else {
            self.current_edit = Some((origin_id, kind));
            let mut sels: Vec<Selection> = Vec::new();
            let ns = selections.len();
            let mut k: usize = 0;
            while k < ns
                invariant
                    ns == selections@.len(),
                    k <= ns,
                    sels@ == selections@.subrange(0, k as int),
                decreases ns - k,
            {
                sels.push(selections[k]);
                proof {
                    assert(sels@ =~= selections@.subrange(0, k + 1));
                }
                k = k + 1;
            }
            proof {
                assert(sels@ =~= selections@);
            }
            self.undos.push(EditGroup { selections: sels, changes });
        }
        self.redos.clear();
        proof {
            if same {
                assert(old(self).spec_current_edit() == Some((origin_id, kind)));
            }
        }
    }

    /// Takes the latest group back: applies the inverse of each change in
    /// reverse order to the text, moves the group to the redo stack, and
    /// returns the selections to restore with the inverted changes in the
    /// order they were applied.  For a faithfully recorded group
    /// (`undo_exact`), `lemma_undo_then_redo_restores` discharges `redo`'s
    /// precondition on the resulting text and shows the replay restores it.
    pub fn undo(&mut self, text: &mut Text) -> (r: Option<(Vec<Selection>, Vec<Change>)>)
        requires
            old(self).wf(),
            old(self).spec_undos().len() > 0 ==> undo_ok(
                changes_views(old(self).spec_undos().last().changes@),
                old(text).chars@,
            ),
        ensures
            final(self).wf(),
            old(self).spec_undos().len() == 0 ==> r is None && *final(self) == *old(self)
                && *final(text) == *old(text),
            old(self).spec_undos().len() > 0 ==> (r matches Some(rr) && {
                let group = old(self).spec_undos().last();
                &&& final(text).chars@ == undo_result(
                    changes_views(group.changes@),
                    old(text).chars@,
                )
                &&& final(self).spec_current_edit() is None
                &&& final(self).spec_undos() == old(self).spec_undos().drop_last()
                &&& final(self).spec_redos().len() == old(self).spec_redos().len() + 1
                &&& forall|i: int|
                    0 <= i < old(self).spec_redos().len() ==> #[trigger] final(self).spec_redos()[i] == old(self).spec_redos()[i]
                &&& final(self).spec_redos().last().selections@ == group.selections@
                &&& final(self).spec_redos().last().changes@ == group.changes@
                &&& rr.0@ == group.selections@
            }),
    {
        if self.undos.len() == 0 {
            return None;
        }
        let popped = self.undos.pop();
        match popped {
            Some(group) => {
                self.current_edit = None;
                let mut inverted: Vec<Change> = Vec::new();
                let nc = group.changes.len();
                proof {
                    assert(group.changes@.subrange(0, nc as int) =~= group.changes@);
                }
                let mut k: usize = nc;
                while k > 0
                    invariant
                        k <= nc,
                        nc == group.changes@.len(),
                        undo_ok(
                            changes_views(group.changes@.subrange(0, k as int)),
                            text.chars@,
                        ),
                        undo_result(changes_views(group.changes@), old(text).chars@)
                            == undo_result(
                            changes_views(group.changes@.subrange(0, k as int)),
                            text.chars@,
                        ),
                    decreases k,
                {
                    proof {
                        let pre = changes_views(group.changes@.subrange(0, k as int));
                        assert(pre.len() == k);
                        assert(pre.last() == group.changes@[k - 1].view_spec());
                        assert(pre.drop_last() =~= changes_views(
                            group.changes@.subrange(0, k - 1),
                        ));
                        assert(change_applicable(
                            text.chars@,
                            invert_spec(group.changes@[k - 1].view_spec()),
                        ));
                    }
                    let c = &group.changes[k - 1];
                    let inv = c.invert();
                    text.apply_change(&inv);
                    inverted.push(inv);
                    k = k - 1;
                }
                proof {
                    assert(changes_views(group.changes@.subrange(0, 0)) =~= Seq::<
                        ChangeSpec,
                    >::empty());
                    assert(changes_views(group.changes@.subrange(0, nc as int))
                        =~= changes_views(group.changes@));
                }
                let mut sels_copy: Vec<Selection> = Vec::new();
                let ns = group.selections.len();
                let mut q: usize = 0;
                while q < ns
                    invariant
                        ns == group.selections@.len(),
                        q <= ns,
                        sels_copy@ == group.selections@.subrange(0, q as int),
                    decreases ns - q,
                {
                    sels_copy.push(group.selections[q]);
                    proof {
                        assert(sels_copy@ =~= group.selections@.subrange(0, q + 1));
                    }
                    q = q + 1;
                }
                proof {
                    assert(sels_copy@ =~= group.selections@);
                }
                self.redos.push(group);
                Some((sels_copy, inverted))
            },
            None => None,
        }
    }

    /// Replays the latest undone group: applies its changes in recording
    /// order and moves the group back to the undo stack.
    pub fn redo(&mut self, text: &mut Text) -> (r: Option<(Vec<Selection>, Vec<Change>)>)
        requires
            old(self).wf(),
            old(self).spec_redos().len() > 0 ==> redo_ok(
                changes_views(old(self).spec_redos().last().changes@),
                old(text).chars@,
            ),
        ensures
            final(self).wf(),
            old(self).spec_redos().len() == 0 ==> r is None && *final(self) == *old(self)
                && *final(text) == *old(text),
            old(self).spec_redos().len() > 0 ==> (r matches Some(rr) && {
                let group = old(self).spec_redos().last();
                &&& final(text).chars@ == redo_result(
                    changes_views(group.changes@),
                    old(text).chars@,
                )
                &&& final(self).spec_current_edit() is None
                &&& final(self).spec_redos() == old(self).spec_redos().drop_last()
                &&& final(self).spec_undos().len() == old(self).spec_undos().len() + 1
                &&& forall|i: int|
                    0 <= i < old(self).spec_undos().len() ==> #[trigger] final(self).spec_undos()[i] == old(self).spec_undos()[i]
                &&& final(self).spec_undos().last().selections@ == group.selections@
                &&& final(self).spec_undos().last().changes@ == group.changes@
                &&& rr.0@ == group.selections@
                &&& changes_views(rr.1@) == changes_views(group.changes@)
            }),
    {
        if self.redos.len() == 0 {
            return None;
        }
        let popped = self.redos.pop();
        match popped {
            Some(group) => {
                self.current_edit = None;
                let nc = group.changes.len();
                proof {
                    assert(group.changes@.subrange(0, nc as int) =~= group.changes@);
                    assert(changes_views(group.changes@.subrange(0, nc as int)) =~= changes_views(
                        group.changes@,
                    ));
                }
                let mut k: usize = 0;
                while k < nc
                    invariant
                        k <= nc,
                        nc == group.changes@.len(),
                        redo_ok(
                            changes_views(group.changes@.subrange(k as int, nc as int)),
                            text.chars@,
                        ),
                        redo_result(changes_views(group.changes@), old(text).chars@)
                            == redo_result(
                            changes_views(group.changes@.subrange(k as int, nc as int)),
                            text.chars@,
                        ),
                    decreases nc - k,
                {
                    proof {
                        let pre = changes_views(group.changes@.subrange(k as int, nc as int));
                        assert(pre.len() == nc - k);
                        assert(pre.first() == group.changes@[k as int].view_spec());
                        assert(pre.drop_first() =~= changes_views(
                            group.changes@.subrange(k + 1, nc as int),
                        ));
                    }
                    let c = &group.changes[k];
                    text.apply_change(c);
                    k = k + 1;
                }
                proof {
                    assert(changes_views(group.changes@.subrange(nc as int, nc as int)) =~= Seq::<
                        ChangeSpec,
                    >::empty());
                    assert(changes_views(group.changes@.subrange(0, nc as int))
                        =~= changes_views(group.changes@));
                    assert(group.changes@.subrange(0, nc as int) =~= group.changes@);
                }
                let mut sels_copy: Vec<Selection> = Vec::new();
                let mut changes_copy: Vec<Change> = Vec::new();
                let ns = group.selections.len();
                let mut q: usize = 0;
                while q < ns
                    invariant
                        ns == group.selections@.len(),
                        q <= ns,
                        sels_copy@ == group.selections@.subrange(0, q as int),
                    decreases ns - q,
                {
                    sels_copy.push(group.selections[q]);
                    proof {
                        assert(sels_copy@ =~= group.selections@.subrange(0, q + 1));
                    }
                    q = q + 1;
                }
                proof {
                    assert(sels_copy@ =~= group.selections@);
                }
                let mut u: usize = 0;
                while u < nc
                    invariant
                        u <= nc,
                        nc == group.changes@.len(),
                        changes_copy@.len() == u,
                        forall|i: int|
                            0 <= i < u ==> (#[trigger] changes_copy@[i]).view_spec()
                                == group.changes@[i].view_spec(),
                    decreases nc - u,
                {
                    let cc = match &group.changes[u] {
                        Change::Insert { at, text: t } => {
                            let mut tc: Vec<char> = Vec::new();
                            let tl = t.len();
                            let mut w: usize = 0;
                            while w < tl
                                invariant
                                    tl == t@.len(),
                                    w <= tl,
                                    tc@ == t@.subrange(0, w as int),
                                decreases tl - w,
                            {
                                tc.push(t[w]);
                                proof {
                                    assert(tc@ =~= t@.subrange(0, w + 1));
                                }
                                w = w + 1;
                            }
                            proof {
                                assert(tc@ =~= t@);
                            }
                            Change::Insert { at: *at, text: tc }
                        },
                        Change::Delete { at, text: dt } => Change::Delete {
                            at: *at,
                            text: copy_text(dt),
                        },
                    };
                    changes_copy.push(cc);
                    u = u + 1;
                }
                self.undos.push(group);
                proof {
                    assert(changes_views(changes_copy@) =~= changes_views(
                        old(self).spec_redos().last().changes@,
                    ));
                }
                Some((sels_copy, changes_copy))
            },
            None => None,
        }
    }
}

fn kind_eq(a: EditKind, b: EditKind) -> (r: bool)
    ensures
        r == (a == b),
{
    match (a, b) {
        (EditKind::Insert, EditKind::Insert) => true,
        (EditKind::Delete, EditKind::Delete) => true,
        (EditKind::Indent, EditKind::Indent) => true,
        (EditKind::Outdent, EditKind::Outdent) => true,
        _ => false,
    }
}

} // verus!
