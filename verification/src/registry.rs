//! The file registry: the set of registered source files, their token
//! streams and parsed documents, the native type metadata, and the expanded
//! documents, one per file, at matching indexes.
//!
//! A file's identity is its index in the file list, assigned append-only at
//! registration and stable for the life of the registry.  Files are never
//! removed.

use vstd::prelude::*;
use crate::document::{depth_to, node_delta, nodes_rooted, LiveDocument, LiveNode, LiveTypeInfo,
    LiveValue};
use crate::error::{LiveError, LiveFileError};
use crate::ids::{live_id_from_str, LiveFileId, LiveModuleId, LiveTokenId};
use crate::parser::{parse_document, parse_input_wf, parsed_node_wf};
use crate::span::{Span, TextPos};
use crate::token::LiveToken;
use crate::tokenizer::{tokenize_from_str, tokenize_post};

verus! {

/// One registered file.
pub struct LiveFile {
    pub module_id: LiveModuleId,
    pub start_pos: TextPos,
    pub file_name: String,
    pub source: String,
    pub deps: Vec<LiveModuleId>,
    pub document: LiveDocument,
}

/// One pending patch for the main module: the dotted identifier path from
/// the document root to a node, and the node's new value.
pub struct LivePatch {
    pub path: Vec<u64>,
    pub value: LiveValue,
}

/// The registry.
pub struct LiveRegistry {
    pub live_files: Vec<LiveFile>,
    pub live_type_infos: Vec<LiveTypeInfo>,
    pub expanded: Vec<LiveDocument>,
    pub main_module: Option<LiveFileId>,
    pub main_apply: Option<Vec<LivePatch>>,
}

/// Compares two string slices by characters.
pub fn str_eq(a: &str, b: &str) -> (r: bool)
    ensures
        r == (a@ == b@),
{
    let la = a.unicode_len();
    let lb = b.unicode_len();
    if la != lb {
        proof {
            assert(a@.len() != b@.len());
        }
        return false;
    }
    let mut i: usize = 0;
    while i < la
        invariant
            la == a@.len(),
            la == b@.len(),
            i <= la,
            forall|j: int| 0 <= j < i ==> a@[j] == b@[j],
        decreases la - i,
    {
        if a.get_char(i) != b.get_char(i) {
            return false;
        }
        i = i + 1;
    }
    proof {
        assert(a@ =~= b@);
    }
    true
}

/// The latest registered file carrying a module identity, if any: a later
/// registration of the same module identity shadows an earlier one.
pub open spec fn spec_module_to_file(files: Seq<LiveFile>, mid: LiveModuleId) -> Option<int>
    decreases files.len(),
{
    if files.len() == 0 {
        None
    } else if files[files.len() - 1].module_id == mid {
        Some(files.len() - 1)
    } else {
        spec_module_to_file(files.drop_last(), mid)
    }
}

pub proof fn lemma_module_to_file_range(files: Seq<LiveFile>, mid: LiveModuleId)
    ensures
        spec_module_to_file(files, mid) matches Some(i) ==> 0 <= i < files.len()
            && files[i].module_id == mid,
        spec_module_to_file(files, mid) is None ==> forall|i: int|
            0 <= i < files.len() ==> (#[trigger] files[i]).module_id != mid,
    decreases files.len(),
{
    if files.len() > 0 {
        lemma_module_to_file_range(files.drop_last(), mid);
        if files[files.len() - 1].module_id != mid {
            assert forall|i: int|
                0 <= i < files.len() && spec_module_to_file(files, mid) is None implies (
            #[trigger] files[i]).module_id != mid by {
                if i < files.len() - 1 {
                    assert(files.drop_last()[i] == files[i]);
                }
            }
        }
    }
}

/// What stays true of a stored parsed node for the life of its file: it
/// points at a token of its own file, carries no expanded index, and names
/// only known native types.  A node's string value is not tied to the pool
/// here: a value-only edit replaces the pool wholesale and the parsed
/// nodes are only refreshed by a reparse.
pub open spec fn stored_node_wf(
    n: LiveNode,
    file_id: LiveFileId,
    n_tokens: int,
    infos: Seq<LiveTypeInfo>,
) -> bool {
    &&& (n.origin.token_id matches Some(t) ==> t.file_id == file_id && t.index < n_tokens)
    &&& n.origin.node_index is None
    &&& (n.value matches LiveValue::Class { live_type, class_parent } ==> class_parent is None
        && exists|q: int| 0 <= q < infos.len() && (#[trigger] infos[q]).live_type == live_type)
}

impl LiveRegistry {
    /// Every node of a parsed document points at a token of its own file,
    /// carries no expanded index, and names only known native types.
    pub open spec fn file_wf(self, i: int) -> bool {
        let f = self.live_files@[i];
        &&& parse_input_wf(f.document.tokens@, f.document.strings@.len() as int)
        &&& nodes_rooted(f.document.nodes@)
        &&& forall|j: int|
            0 <= j < f.document.nodes@.len() ==> stored_node_wf(
                #[trigger] f.document.nodes@[j],
                LiveFileId(i as usize),
                f.document.tokens@.len() as int,
                self.live_type_infos@,
            )
    }

    /// The registry's invariant: one expanded document per file, every
    /// parsed document well formed, every expanded document balanced or
    /// still empty, and the designated main module, if any, a real file.
    pub open spec fn wf(self) -> bool {
        &&& self.live_files@.len() == self.expanded@.len()
        &&& forall|i: int| 0 <= i < self.live_files@.len() ==> self.file_wf(i)
        &&& forall|i: int|
            0 <= i < self.expanded@.len() ==> (#[trigger] self.expanded@[i]).wf()
        &&& infos_unique(self.live_type_infos@)
        &&& self.main_module matches Some(m) ==> m.0 < self.live_files@.len()
    }

    /// The empty registry.
    pub fn new() -> (r: LiveRegistry)
        ensures
            r.wf(),
            r.live_files@.len() == 0,
            r.live_type_infos@.len() == 0,
            r.main_module is None,
            r.main_apply is None,
    {
        LiveRegistry {
            live_files: Vec::new(),
            live_type_infos: Vec::new(),
            expanded: Vec::new(),
            main_module: None,
            main_apply: None,
        }
    }

    pub open spec fn spec_file_registered(self, name: Seq<char>) -> bool {
        exists|i: int|
            0 <= i < self.live_files@.len() && (#[trigger] self.live_files@[i]).file_name@ == name
    }

    /// Whether a file of this name was registered before.  Registering the
    /// same name twice is a programmer error, so callers test first.
    pub fn is_file_registered(&self, name: &str) -> (r: bool)
        ensures
            r == self.spec_file_registered(name@),
    {
        let n = self.live_files.len();
        let mut i: usize = 0;
        while i < n
            invariant
                n == self.live_files@.len(),
                i <= n,
                forall|j: int| 0 <= j < i ==> (#[trigger] self.live_files@[j]).file_name@ != name@,
            decreases n - i,
        {
            if str_eq(self.live_files[i].file_name.as_str(), name) {
                return true;
            }
            i = i + 1;
        }
        false
    }

    /// The file identity a file name maps to, scanning in registration
    /// order.
    pub fn path_str_to_file_id(&self, path: &str) -> (r: Option<LiveFileId>)
        ensures
            r matches Some(f) ==> f.0 < self.live_files@.len()
                && self.live_files@[f.0 as int].file_name@ == path@ && (forall|j: int|
                0 <= j < f.0 ==> (#[trigger] self.live_files@[j]).file_name@ != path@),
            r is None ==> !self.spec_file_registered(path@),
    {
        let n = self.live_files.len();
        let mut i: usize = 0;
        while i < n
            invariant
                n == self.live_files@.len(),
                i <= n,
                forall|j: int| 0 <= j < i ==> (#[trigger] self.live_files@[j]).file_name@ != path@,
            decreases n - i,
        {
            if str_eq(self.live_files[i].file_name.as_str(), path) {
                return Some(LiveFileId(i));
            }
            i = i + 1;
        }
        None
    }

    /// The file a module identity resolves to; a later registration of the
    /// same module identity shadows an earlier one.
    pub fn module_id_to_file_id(&self, module_id: LiveModuleId) -> (r: Option<LiveFileId>)
        ensures
            r matches Some(f) ==> spec_module_to_file(self.live_files@, module_id) == Some(
                f.0 as int,
            ) && f.0 < self.live_files@.len(),
            r is None ==> spec_module_to_file(self.live_files@, module_id) is None,
    {
        let n = self.live_files.len();
        proof {
            assert(self.live_files@.subrange(0, n as int) =~= self.live_files@);
        }
        let mut i: usize = n;
        while i > 0
            invariant
                n == self.live_files@.len(),
                i <= n,
                spec_module_to_file(self.live_files@, module_id) == spec_module_to_file(
                    self.live_files@.subrange(0, i as int),
                    module_id,
                ),
            decreases i,
        {
            let ghost pre = self.live_files@.subrange(0, i as int);
            if module_eq(self.live_files[i - 1].module_id, module_id) {
                proof {
                    assert(pre[pre.len() - 1].module_id == module_id);
                }
                return Some(LiveFileId(i - 1));
            }
            proof {
                assert(pre[pre.len() - 1].module_id != module_id);
                assert(pre.drop_last() =~= self.live_files@.subrange(0, i - 1));
            }
            i = i - 1;
        }
        proof {
            assert(self.live_files@.subrange(0, 0) =~= Seq::<LiveFile>::empty());
        }
        None
    }

    /// The expanded document of a file.
    pub fn file_id_to_doc(&self, file_id: LiveFileId) -> (r: &LiveDocument)
        requires
            self.wf(),
            file_id.0 < self.live_files@.len(),
        ensures
            r == self.expanded@[file_id.0 as int],
    {
        &self.expanded[file_id.0]
    }

    /// The parsed (origin) document of the file a token belongs to.
    pub fn token_id_to_origin_doc(&self, token_id: LiveTokenId) -> (r: &LiveDocument)
        requires
            self.wf(),
            token_id.file_id.0 < self.live_files@.len(),
        ensures
            r == self.live_files@[token_id.file_id.0 as int].document,
    {
        &self.live_files[token_id.file_id.0].document
    }

    /// The expanded document of the file a token belongs to.
    pub fn token_id_to_expanded_doc(&self, token_id: LiveTokenId) -> (r: &LiveDocument)
        requires
            self.wf(),
            token_id.file_id.0 < self.live_files@.len(),
        ensures
            r == self.expanded@[token_id.file_id.0 as int],
    {
        &self.expanded[token_id.file_id.0]
    }

    /// The name of a registered file.
    pub fn file_id_to_file_name(&self, file_id: LiveFileId) -> (r: &str)
        requires
            file_id.0 < self.live_files@.len(),
        ensures
            r@ == self.live_files@[file_id.0 as int].file_name@,
    {
        self.live_files[file_id.0].file_name.as_str()
    }

    /// The source span a token was read from.
    pub fn token_id_to_span(&self, token_id: LiveTokenId) -> (r: Span)
        requires
            self.wf(),
            token_id.file_id.0 < self.live_files@.len(),
            token_id.index < self.live_files@[token_id.file_id.0 as int].document.tokens@.len(),
        ensures
            r == self.live_files@[token_id.file_id.0 as int].document.tokens@[token_id.index as int].span,
    {
        self.live_files[token_id.file_id.0].document.tokens[token_id.index].span
    }

    /// A cross-file pointer is alive when its file exists and its index
    /// lies inside that file's current expanded document.
    pub open spec fn ptr_valid(self, ptr: crate::ids::LivePtr) -> bool {
        &&& ptr.file_id.0 < self.expanded@.len()
        &&& ptr.index < self.expanded@[ptr.file_id.0 as int].nodes@.len()
    }

    /// Whether a pointer can currently be dereferenced; expansion swaps
    /// documents wholesale, so pointers are revalidated on every use.
    pub fn ptr_alive(&self, ptr: crate::ids::LivePtr) -> (r: bool)
        ensures
            r == self.ptr_valid(ptr),
    {
        ptr.file_id.0 < self.expanded.len() && ptr.index < self.expanded[ptr.file_id.0].nodes.len()
    }

    /// The node a live pointer designates, in its file's expanded document.
    pub fn ptr_to_node(&self, ptr: crate::ids::LivePtr) -> (r: &LiveNode)
        requires
            self.ptr_valid(ptr),
        ensures
            r == self.expanded@[ptr.file_id.0 as int].nodes@[ptr.index as int],
    {
        &self.expanded[ptr.file_id.0].nodes[ptr.index]
    }

    /// The expanded document a pointer lives in, together with its node.
    pub fn ptr_to_doc_node(&self, ptr: crate::ids::LivePtr) -> (r: (&LiveDocument, &LiveNode))
        requires
            self.ptr_valid(ptr),
        ensures
            r.0 == self.expanded@[ptr.file_id.0 as int],
            r.1 == self.expanded@[ptr.file_id.0 as int].nodes@[ptr.index as int],
    {
        let doc = &self.expanded[ptr.file_id.0];
        (doc, &doc.nodes[ptr.index])
    }

    /// The expanded document a pointer lives in.
    pub fn ptr_to_doc(&self, ptr: crate::ids::LivePtr) -> (r: &LiveDocument)
        requires
            ptr.file_id.0 < self.expanded@.len(),
        ensures
            r == self.expanded@[ptr.file_id.0 as int],
    {
        &self.expanded[ptr.file_id.0]
    }

    /// The expanded document a pointer lives in and the pointer's index in
    /// its node array.
    pub fn ptr_to_nodes_index(&self, ptr: crate::ids::LivePtr) -> (r: (&LiveDocument, usize))
        requires
            self.ptr_valid(ptr),
        ensures
            r.0 == self.expanded@[ptr.file_id.0 as int],
            r.1 == ptr.index,
    {
        (&self.expanded[ptr.file_id.0], ptr.index)
    }

    /// Attaches the failing file's name to an error.
    pub fn live_error_to_live_file_error(&self, live_error: LiveError) -> (r: LiveFileError)
        requires
            live_error.span.file_id.0 < self.live_files@.len(),
        ensures
            r.file_name@ == self.live_files@[live_error.span.file_id.0 as int].file_name@,
            r.span == live_error.span,
            r.message == live_error.message,
    {
        let name = self.live_files[live_error.span.file_id.0].file_name.as_str();
        live_error.to_live_file_error(name)
    }

    /// Designates the main module: the single file whose patches are also
    /// mirrored into the pending patch list for a running instance.
    pub fn set_main_module(&mut self, m: Option<LiveFileId>)
        requires
            old(self).wf(),
            m matches Some(f) ==> f.0 < old(self).live_files@.len(),
        ensures
            final(self).wf(),
            final(self).main_module == m,
            final(self).live_files == old(self).live_files,
            final(self).live_type_infos == old(self).live_type_infos,
            final(self).expanded == old(self).expanded,
            final(self).main_apply == old(self).main_apply,
    {
        let ghost self0 = *self;
        self.main_module = m;
        proof {
            assert forall|i2: int| 0 <= i2 < self.live_files@.len() implies self.file_wf(i2) by {
                assert(self0.file_wf(i2));
            }
        }
    }

    /// Hands the pending patch list for the main module to the caller,
    /// leaving none behind.
    pub fn take_main_apply(&mut self) -> (r: Option<Vec<LivePatch>>)
        ensures
            final(self).main_apply is None,
            r == old(self).main_apply,
            final(self).live_files == old(self).live_files,
            final(self).live_type_infos == old(self).live_type_infos,
            final(self).expanded == old(self).expanded,
            final(self).main_module == old(self).main_module,
    {
        self.main_apply.take()
    }
}

impl LiveRegistry {
    /// Whether new type metadata can be registered: one native type
    /// identity never names two modules, neither against what the registry
    /// already holds nor within the new list itself.  Registering
    /// conflicting metadata is a programmer error, so callers test first.
    pub fn type_infos_compatible(&self, infos: &Vec<LiveTypeInfo>) -> (r: bool)
        ensures
            r == (infos_consistent(infos@, self.live_type_infos@) && infos_consistent(
                infos@,
                infos@,
            )),
    {
        let n = infos.len();
        let m = self.live_type_infos.len();
        let mut a: usize = 0;
        while a < n
            invariant
                n == infos@.len(),
                m == self.live_type_infos@.len(),
                a <= n,
                forall|a2: int, b2: int|
                    0 <= a2 < a && 0 <= b2 < m && (#[trigger] infos@[a2]).live_type == (
                    #[trigger] self.live_type_infos@[b2]).live_type ==> infos@[a2].module_id
                        == self.live_type_infos@[b2].module_id,
                forall|a2: int, b2: int|
                    0 <= a2 < a && 0 <= b2 < n && (#[trigger] infos@[a2]).live_type == (
                    #[trigger] infos@[b2]).live_type ==> infos@[a2].module_id
                        == infos@[b2].module_id,
            decreases n - a,
        {
            let mut b: usize = 0;
            while b < m
                invariant
                    n == infos@.len(),
                    m == self.live_type_infos@.len(),
                    a < n,
                    b <= m,
                    forall|b2: int|
                        0 <= b2 < b && infos@[a as int].live_type == (
                        #[trigger] self.live_type_infos@[b2]).live_type ==> infos@[a as int].module_id
                            == self.live_type_infos@[b2].module_id,
                decreases m - b,
            {
                if infos[a].live_type == self.live_type_infos[b].live_type && !module_eq(
                    infos[a].module_id,
                    self.live_type_infos[b].module_id,
                ) {
                    return false;
                }
                b = b + 1;
            }
            let mut c: usize = 0;
            while c < n
                invariant
                    n == infos@.len(),
                    a < n,
                    c <= n,
                    forall|c2: int|
                        0 <= c2 < c && infos@[a as int].live_type == (
                        #[trigger] infos@[c2]).live_type ==> infos@[a as int].module_id
                            == infos@[c2].module_id,
                decreases n - c,
            {
                if infos[a].live_type == infos[c].live_type && !module_eq(
                    infos[a].module_id,
                    infos[c].module_id,
                ) {
                    return false;
                }
                c = c + 1;
            }
            a = a + 1;
        }
        proof {
            assert(infos_consistent(infos@, self.live_type_infos@));
            assert forall|a2: int, b2: int|
                0 <= a2 < infos@.len() && 0 <= b2 < infos@.len() && (
            #[trigger] infos@[a2]).live_type == (#[trigger] infos@[b2]).live_type implies infos@[a2].module_id
                == infos@[b2].module_id by {
            }
        }
        true
    }
}

impl Default for LiveRegistry {
    /// The empty registry.
    fn default() -> (r: LiveRegistry)
        ensures
            r.wf(),
            r.live_files@.len() == 0,
            r.live_type_infos@.len() == 0,
            r.main_module is None,
            r.main_apply is None,
    {
        LiveRegistry::new()
    }
}

pub fn module_eq(a: LiveModuleId, b: LiveModuleId) -> (r: bool)
    ensures
        r == (a == b),
{
    a.0 == b.0 && a.1 == b.1
}


/// New type metadata must agree with what a list already holds: one native
/// type identity never names two modules.
pub open spec fn infos_consistent(new: Seq<LiveTypeInfo>, stored: Seq<LiveTypeInfo>) -> bool {
    forall|a: int, b: int|
        0 <= a < new.len() && 0 <= b < stored.len() && (#[trigger] new[a]).live_type == (
        #[trigger] stored[b]).live_type ==> new[a].module_id == stored[b].module_id
}

/// No two entries for one native type identity.
pub open spec fn infos_unique(infos: Seq<LiveTypeInfo>) -> bool {
    forall|q1: int, q2: int|
        0 <= q1 < q2 < infos.len() ==> (#[trigger] infos[q1]).live_type != (
        #[trigger] infos[q2]).live_type
}

fn find_info_index(infos: &Vec<LiveTypeInfo>, lt: u64) -> (r: Option<usize>)
    ensures
        r matches Some(i) ==> i < infos@.len() && infos@[i as int].live_type == lt,
        r is None ==> forall|q: int|
            0 <= q < infos@.len() ==> (#[trigger] infos@[q]).live_type != lt,
{
    let n = infos.len();
    let mut q: usize = 0;
    while q < n
        invariant
            n == infos@.len(),
            q <= n,
            forall|p: int| 0 <= p < q ==> (#[trigger] infos@[p]).live_type != lt,
        decreases n - q,
    {
        if infos[q].live_type == lt {
            return Some(q);
        }
        q = q + 1;
    }
    None
}

/// Some entry carries this native type identity.
pub open spec fn has_live_type(infos: Seq<LiveTypeInfo>, lt: u64) -> bool {
    exists|q2: int| 0 <= q2 < infos.len() && (#[trigger] infos[q2]).live_type == lt
}

/// Replaces the entry with the same native type identity, or appends.
fn merge_type_infos(stored: &mut Vec<LiveTypeInfo>, args: Vec<LiveTypeInfo>)
    requires
        infos_unique(old(stored)@),
    ensures
        infos_unique(final(stored)@),
        forall|q: int|
            0 <= q < old(stored)@.len() ==> has_live_type(
                final(stored)@,
                (#[trigger] old(stored)@[q]).live_type,
            ),
        forall|a: int|
            0 <= a < args@.len() ==> has_live_type(
                final(stored)@,
                (#[trigger] args@[a]).live_type,
            ),
{
    let mut rest = args;
    let ghost args0 = rest@;
    let na = rest.len();
    proof {
        assert forall|q: int| 0 <= q < old(stored)@.len() implies has_live_type(
            stored@,
            (#[trigger] old(stored)@[q]).live_type,
        ) by {
            assert(stored@[q].live_type == old(stored)@[q].live_type);
        }
    }
    let mut done: usize = 0;
    while rest.len() > 0
        invariant
            infos_unique(stored@),
            na == args0.len(),
            done + rest@.len() == na,
            rest@ == args0.subrange(done as int, args0.len() as int),
            forall|q: int|
                0 <= q < old(stored)@.len() ==> has_live_type(
                    stored@,
                    (#[trigger] old(stored)@[q]).live_type,
                ),
            forall|a: int|
                0 <= a < done ==> has_live_type(stored@, (#[trigger] args0[a]).live_type),
        decreases rest@.len(),
    {
        let info = rest.remove(0);
        proof {
            assert(info == args0[done as int]);
            assert(rest@ =~= args0.subrange(done + 1, args0.len() as int));
        }
        let ghost stored_before = stored@;
        let lt = info.live_type;
        match find_info_index(stored, lt) {
            Some(i) => {
                stored.set(i, info);
                proof {
                    merge_step_facts(stored_before, stored@, lt, i as int);
                }
            },
            None => {
                stored.push(info);
                proof {
                    merge_push_facts(stored_before, stored@, lt);
                }
            },
        }
        proof {
            assert forall|a: int| 0 <= a < done + 1 implies has_live_type(
                stored@,
                (#[trigger] args0[a]).live_type,
            ) by {
                if a < done {
                    lemma_has_live_type_preserved(stored_before, stored@, args0[a].live_type);
                }
            }
            assert forall|q: int| 0 <= q < old(stored)@.len() implies has_live_type(
                stored@,
                (#[trigger] old(stored)@[q]).live_type,
            ) by {
                lemma_has_live_type_preserved(stored_before, stored@, old(stored)@[q].live_type);
            }
        }
        done = done + 1;
    }
}

/// A merge step never loses a native type identity.
proof fn lemma_has_live_type_preserved(before: Seq<LiveTypeInfo>, after: Seq<LiveTypeInfo>, lt: u64)
    requires
        after.len() >= before.len(),
        forall|q: int|
            0 <= q < before.len() ==> (#[trigger] after[q]).live_type == before[q].live_type || (
            exists|w: int| 0 <= w < after.len() && (#[trigger] after[w]).live_type
                == before[q].live_type),
        has_live_type(before, lt),
    ensures
        has_live_type(after, lt),
{
    let q = choose|q: int| 0 <= q < before.len() && (#[trigger] before[q]).live_type == lt;
    if after[q].live_type == before[q].live_type {
        assert(after[q].live_type == lt);
    }
}

/// Replacing at `i` keeps uniqueness and identities: the new entry carries
/// the same identity the old one did.
proof fn merge_step_facts(before: Seq<LiveTypeInfo>, after: Seq<LiveTypeInfo>, lt: u64, i: int)
    requires
        0 <= i < before.len(),
        after.len() == before.len(),
        before[i].live_type == lt,
        after[i].live_type == lt,
        forall|q: int| 0 <= q < before.len() && q != i ==> after[q] == before[q],
        infos_unique(before),
    ensures
        infos_unique(after),
        has_live_type(after, lt),
        forall|q: int|
            0 <= q < before.len() ==> (#[trigger] after[q]).live_type == before[q].live_type || (
            exists|w: int| 0 <= w < after.len() && (#[trigger] after[w]).live_type
                == before[q].live_type),
{
    assert forall|q1: int, q2: int| 0 <= q1 < q2 < after.len() implies (
    #[trigger] after[q1]).live_type != (#[trigger] after[q2]).live_type by {
        if q1 != i && q2 != i {
            assert(after[q1] == before[q1]);
            assert(after[q2] == before[q2]);
        } else if q1 == i {
            assert(after[q2] == before[q2]);
        } else {
            assert(after[q1] == before[q1]);
        }
    }
    assert forall|q: int| 0 <= q < before.len() implies (#[trigger] after[q]).live_type
        == before[q].live_type || (exists|w: int|
        0 <= w < after.len() && (#[trigger] after[w]).live_type == before[q].live_type) by {
        if q != i {
            assert(after[q] == before[q]);
        }
    }
}

/// Appending an entry with a fresh identity keeps uniqueness.
proof fn merge_push_facts(before: Seq<LiveTypeInfo>, after: Seq<LiveTypeInfo>, lt: u64)
    requires
        after.len() == before.len() + 1,
        forall|q: int| 0 <= q < before.len() ==> after[q] == before[q],
        after[after.len() - 1].live_type == lt,
        forall|q: int| 0 <= q < before.len() ==> (#[trigger] before[q]).live_type != lt,
        infos_unique(before),
    ensures
        infos_unique(after),
        has_live_type(after, lt),
        forall|q: int|
            0 <= q < before.len() ==> (#[trigger] after[q]).live_type == before[q].live_type || (
            exists|w: int| 0 <= w < after.len() && (#[trigger] after[w]).live_type
                == before[q].live_type),
{
    assert forall|q1: int, q2: int| 0 <= q1 < q2 < after.len() implies (
    #[trigger] after[q1]).live_type != (#[trigger] after[q2]).live_type by {
        if q2 < before.len() {
            assert(after[q1] == before[q1]);
            assert(after[q2] == before[q2]);
        } else {
            assert(after[q1] == before[q1]);
        }
    }
    assert(after[after.len() - 1].live_type == lt);
}

fn deps_contains(deps: &Vec<LiveModuleId>, m: LiveModuleId) -> (r: bool)
    ensures
        r == deps@.contains(m),
{
    let n = deps.len();
    let mut q: usize = 0;
    while q < n
        invariant
            n == deps@.len(),
            q <= n,
            forall|p: int| 0 <= p < q ==> deps@[p] != m,
        decreases n - q,
    {
        if module_eq(deps[q], m) {
            proof {
                assert(deps@[q as int] == m);
            }
            return true;
        }
        q = q + 1;
    }
    proof {
        assert(!deps@.contains(m));
    }
    false
}

fn dep_insert(deps: &mut Vec<LiveModuleId>, m: LiveModuleId)
    ensures
        final(deps)@.contains(m),
        forall|x: LiveModuleId| old(deps)@.contains(x) ==> final(deps)@.contains(x),
        forall|x: LiveModuleId|
            final(deps)@.contains(x) ==> old(deps)@.contains(x) || x == m,
{
    if !deps_contains(deps, m) {
        let ghost before = deps@;
        deps.push(m);
        proof {
            assert(deps@[deps@.len() - 1] == m);
            assert forall|x: LiveModuleId| before.contains(x) implies deps@.contains(x) by {
                let w = choose|w: int| 0 <= w < before.len() && before[w] == x;
                assert(deps@[w] == x);
            }
            assert forall|x: LiveModuleId| deps@.contains(x) implies before.contains(x) || x
                == m by {
                let w = choose|w: int| 0 <= w < deps@.len() && deps@[w] == x;
                if w < before.len() {
                    assert(before[w] == x);
                }
            }
        }
    }
}


/// What a node of the registered document becomes: a `use` of the literal
/// crate key is rewritten to the registering file's own crate identity;
/// everything else is kept as parsed.
pub open spec fn rewritten_node(a: LiveNode, own_crate: u64, crate_key: u64) -> LiveNode {
    match a.value {
        LiveValue::Use { module_id } => {
            if module_id.0 == crate_key {
                LiveNode {
                    id: a.id,
                    origin: a.origin,
                    value: LiveValue::Use { module_id: LiveModuleId(own_crate, module_id.1) },
                }
            } else {
                a
            }
        },
        _ => a,
    }
}

/// Every `use` node's target module is a declared dependency.
pub open spec fn use_deps_covered(nodes: Seq<LiveNode>, deps: Seq<LiveModuleId>) -> bool {
    forall|p: int|
        0 <= p < nodes.len() ==> ((#[trigger] nodes[p]).value matches LiveValue::Use {
            module_id,
        } ==> deps.contains(module_id))
}

/// Every module contributed by a sub-field of an instantiated native type,
/// other than the file's own, is a declared dependency.
pub open spec fn class_deps_covered(
    nodes: Seq<LiveNode>,
    infos: Seq<LiveTypeInfo>,
    own: LiveModuleId,
    deps: Seq<LiveModuleId>,
) -> bool {
    forall|p: int, q: int, t: int|
        0 <= p < nodes.len() && 0 <= q < infos.len() && 0 <= t < infos[q].fields@.len() && ((
        #[trigger] nodes[p]).value matches LiveValue::Class { live_type, .. } && live_type
            == infos[q].live_type) && (#[trigger] infos[q].fields@[t]).module_id != own
            ==> deps.contains(infos[q].fields@[t].module_id)
}

/// A declared dependency is owed to a `use` node or to a native type's
/// sub-field: the dependency list holds nothing else.
pub open spec fn dep_justified(
    d: LiveModuleId,
    nodes: Seq<LiveNode>,
    infos: Seq<LiveTypeInfo>,
    own: LiveModuleId,
) -> bool {
    ||| exists|p: int|
        0 <= p < nodes.len() && ((#[trigger] nodes[p]).value matches LiveValue::Use { module_id }
            && module_id == d)
    ||| exists|p: int, q: int, t: int|
        0 <= p < nodes.len() && 0 <= q < infos.len() && 0 <= t < infos[q].fields@.len() && ((
        #[trigger] nodes[p]).value matches LiveValue::Class { live_type, .. } && live_type
            == infos[q].live_type) && (#[trigger] infos[q].fields@[t]).module_id == d && d != own
}

/// A successful tokenization is fit for parsing.
pub proof fn lemma_tokenize_gives_parse_input(
    source: Seq<char>,
    start_pos: TextPos,
    file_id: LiveFileId,
    tokens: Seq<crate::token::TokenWithSpan>,
    strings: Seq<char>,
)
    requires
        tokenize_post(source, start_pos, file_id, tokens, strings),
    ensures
        parse_input_wf(tokens, strings.len() as int),
{
    assert forall|k: int| 0 <= k < tokens.len() - 1 implies !((#[trigger] tokens[k].token)
        is Eof) by {
        assert(crate::tokenizer::line_token_post(
            tokens[k],
            file_id,
            tokens[k].span.start.line as int,
            if tokens[k].span.start.line - start_pos.line == 0 {
                start_pos.column as int
            } else {
                0
            },
            crate::tokenizer::spec_split_lines(source)[tokens[k].span.start.line
                - start_pos.line],
            strings,
        ));
    }
    assert forall|k: int|
        0 <= k < tokens.len() implies ((#[trigger] tokens[k].token) matches LiveToken::Str {
        index,
        len,
    } ==> index + len <= strings.len()) by {
        if k < tokens.len() - 1 {
            assert(crate::tokenizer::line_token_post(
                tokens[k],
                file_id,
                tokens[k].span.start.line as int,
                if tokens[k].span.start.line - start_pos.line == 0 {
                    start_pos.column as int
                } else {
                    0
                },
                crate::tokenizer::spec_split_lines(source)[tokens[k].span.start.line
                    - start_pos.line],
                strings,
            ));
        }
    }
}

impl LiveRegistry {
    /// Registers a source file: tokenizes it, parses it, records the native
    /// type metadata, computes the file's dependency set from its `use`
    /// declarations (a `use` of the literal crate key is first rewritten to
    /// the file's own crate identity) and from the sub-fields of every
    /// native type it instantiates, and appends the file together with an
    /// empty expanded document marked for expansion.  A tokenize or parse
    /// failure leaves the registry untouched and aborts only this file's
    /// registration.
    #[verifier::rlimit(100)]
    pub fn register_live_file(
        &mut self,
        file_name: &str,
        own_module_id: LiveModuleId,
        source: &str,
        live_type_infos: Vec<LiveTypeInfo>,
        start_pos: TextPos,
    ) -> (r: Result<LiveFileId, LiveFileError>)
        requires
            old(self).wf(),
            !old(self).spec_file_registered(file_name@),
            infos_consistent(live_type_infos@, old(self).live_type_infos@),
            infos_consistent(live_type_infos@, live_type_infos@),
            start_pos.column + source@.len() <= usize::MAX,
            start_pos.line + source@.len() < usize::MAX,
        ensures
            final(self).wf(),
            r is Err ==> *final(self) == *old(self),
            r matches Err(e) ==> e.file_name@ == file_name@,
            crate::tokenizer::spec_has_nul(source@) ==> r is Err,
            r matches Ok(fid) ==> ({
                let f = final(self).live_files@[fid.0 as int];
                &&& fid.0 == old(self).live_files@.len()
                &&& final(self).live_files@.len() == old(self).live_files@.len() + 1
                &&& forall|i: int|
                    0 <= i < old(self).live_files@.len() ==> final(self).live_files@[i] == old(
                        self,
                    ).live_files@[i]
                &&& forall|i: int|
                    0 <= i < old(self).expanded@.len() ==> final(self).expanded@[i] == old(
                        self,
                    ).expanded@[i]
                &&& f.module_id == own_module_id
                &&& f.file_name@ == file_name@
                &&& f.source@ == source@
                &&& f.start_pos == start_pos
                &&& tokenize_post(source@, start_pos, fid, f.document.tokens@, f.document.strings@)
                &&& nodes_rooted(f.document.nodes@)
                &&& use_deps_covered(f.document.nodes@, f.deps@)
                &&& class_deps_covered(
                    f.document.nodes@,
                    final(self).live_type_infos@,
                    own_module_id,
                    f.deps@,
                )
                &&& forall|q: int|
                    0 <= q < f.deps@.len() ==> dep_justified(
                        #[trigger] f.deps@[q],
                        f.document.nodes@,
                        final(self).live_type_infos@,
                        own_module_id,
                    )
                &&& final(self).expanded@[fid.0 as int].nodes@.len() == 0
                &&& final(self).expanded@[fid.0 as int].recompile == true
                &&& final(self).main_module == old(self).main_module
                &&& final(self).main_apply == old(self).main_apply
                &&& forall|a: int|
                    0 <= a < live_type_infos@.len() ==> has_live_type(
                        final(self).live_type_infos@,
                        (#[trigger] live_type_infos@[a]).live_type,
                    )
            }),
    {
        let fid = LiveFileId(self.live_files.len());
        let (tokens, strings) = match tokenize_from_str(source, start_pos, fid) {
            Ok(ok) => ok,
            Err(e) => {
                return Err(e.to_live_file_error(file_name));
            },
        };
        proof {
            lemma_tokenize_gives_parse_input(source@, start_pos, fid, tokens@, strings@);
        }
        let pool_len = strings.len();
        let nodes = match parse_document(&tokens, &live_type_infos, fid, pool_len) {
            Ok(nodes) => nodes,
            Err(e) => {
                return Err(e.to_live_file_error(file_name));
            },
        };
        let ghost args0 = live_type_infos@;
        merge_type_infos(&mut self.live_type_infos, live_type_infos);
        let ghost merged = self.live_type_infos@;
        proof {
            assert forall|j: int| 0 <= j < nodes@.len() implies parsed_node_wf(
                #[trigger] nodes@[j],
                fid,
                tokens@.len() as int,
                pool_len as int,
                merged,
            ) by {
                assert(parsed_node_wf(nodes@[j], fid, tokens@.len() as int, pool_len as int, args0));
                match nodes@[j].value {
                    LiveValue::Class { live_type, class_parent } => {
                        let q = choose|q: int|
                            0 <= q < args0.len() && (#[trigger] args0[q]).live_type == live_type;
                        assert(has_live_type(merged, live_type));
                    },
                    _ => {},
                }
            }
        }
        let crate_key = live_id_from_str("crate");
        let nn = nodes.len();
        let mut new_nodes: Vec<LiveNode> = Vec::new();
        let mut deps: Vec<LiveModuleId> = Vec::new();
        let mut j: usize = 0;
        while j < nn
            invariant
                nn == nodes@.len(),
                j <= nn,
                new_nodes@.len() == j,
                merged == self.live_type_infos@,
                infos_unique(merged),
                forall|p: int|
                    0 <= p < j ==> #[trigger] new_nodes@[p] == rewritten_node(
                        nodes@[p],
                        own_module_id.0,
                        crate_key,
                    ),
                forall|i: int|
                    0 <= i <= j ==> #[trigger] depth_to(new_nodes@, i) == depth_to(nodes@, i),
                forall|p: int|
                    0 <= p < j ==> parsed_node_wf(
                        #[trigger] new_nodes@[p],
                        fid,
                        tokens@.len() as int,
                        pool_len as int,
                        merged,
                    ),
                forall|p: int|
                    0 <= p < nodes@.len() ==> parsed_node_wf(
                        #[trigger] nodes@[p],
                        fid,
                        tokens@.len() as int,
                        pool_len as int,
                        merged,
                    ),
                use_deps_covered(new_nodes@, deps@),
                class_deps_covered(new_nodes@, merged, own_module_id, deps@),
                forall|q: int|
                    0 <= q < deps@.len() ==> dep_justified(
                        #[trigger] deps@[q],
                        new_nodes@,
                        merged,
                        own_module_id,
                    ),
            decreases nn - j,
        {
            let node = nodes[j];
            let ghost nodes_before = new_nodes@;
            let ghost deps_before = deps@;
            match node.value {
                LiveValue::Use { module_id } => {
                    let m2 = if module_id.0 == crate_key {
                        LiveModuleId(own_module_id.0, module_id.1)
                    } else {
                        module_id
                    };
                    let node2 = LiveNode {
                        id: node.id,
                        origin: node.origin,
                        value: LiveValue::Use { module_id: m2 },
                    };
                    new_nodes.push(node2);
                    dep_insert(&mut deps, m2);
                    proof {
                        register_step_depth(nodes_before, new_nodes@, nodes@, j as int);
                        assert(new_nodes@[j as int].value matches LiveValue::Use { module_id: m }
                            && m == m2);
                        assert forall|q: int| 0 <= q < deps@.len() implies dep_justified(
                            #[trigger] deps@[q],
                            new_nodes@,
                            merged,
                            own_module_id,
                        ) by {
                            if deps_before.contains(deps@[q]) {
                                lemma_dep_justified_extend(
                                    deps@[q],
                                    nodes_before,
                                    new_nodes@,
                                    merged,
                                    own_module_id,
                                );
                            } else {
                                assert(deps@[q] == m2);
                            }
                        }
                    }
                },
                LiveValue::Class { live_type, class_parent } => {
                    new_nodes.push(node);
                    proof {
                        register_step_depth(nodes_before, new_nodes@, nodes@, j as int);
                        assert(parsed_node_wf(
                            nodes@[j as int],
                            fid,
                            tokens@.len() as int,
                            pool_len as int,
                            merged,
                        ));
                        assert forall|q: int| 0 <= q < deps@.len() implies dep_justified(
                            #[trigger] deps@[q],
                            new_nodes@,
                            merged,
                            own_module_id,
                        ) by {
                            lemma_dep_justified_extend(
                                deps@[q],
                                nodes_before,
                                new_nodes@,
                                merged,
                                own_module_id,
                            );
                        }
                    }
                    let ii = match find_info_index(&self.live_type_infos, live_type) {
                        Some(ii) => ii,
                        None => {
                            proof {
                                assert(false);
                            }
                            return Err(
                                LiveError::new(Span::empty(fid), "unknown native type")
                                    .to_live_file_error(file_name),
                            );
                        },
                    };
                    let nf = self.live_type_infos[ii].fields.len();
                    let mut t: usize = 0;
                    while t < nf
                        invariant
                            merged == self.live_type_infos@,
                            ii < merged.len(),
                            merged[ii as int].live_type == live_type,
                            nf == merged[ii as int].fields@.len(),
                            t <= nf,
                            new_nodes@ == nodes_before.push(nodes@[j as int]),
                            nodes_before.len() == j,
                            j < nodes@.len(),
                            nodes@[j as int].value matches LiveValue::Class { live_type: lt2, .. }
                                && lt2 == live_type,
                            use_deps_covered(new_nodes@, deps@),
                            forall|x: LiveModuleId|
                                deps_before.contains(x) ==> deps@.contains(x),
                            class_deps_covered(nodes_before, merged, own_module_id, deps@),
                            forall|t2: int|
                                0 <= t2 < t && merged[ii as int].fields@[t2].module_id
                                    != own_module_id ==> deps@.contains(
                                    (#[trigger] merged[ii as int].fields@[t2]).module_id,
                                ),
                            forall|q: int|
                                0 <= q < deps@.len() ==> dep_justified(
                                    #[trigger] deps@[q],
                                    new_nodes@,
                                    merged,
                                    own_module_id,
                                ),
                        decreases nf - t,
                    {
                        let fm = self.live_type_infos[ii].fields[t].module_id;
                        let ghost deps_mid = deps@;
                        if !module_eq(fm, own_module_id) {
                            dep_insert(&mut deps, fm);
                            proof {
                                assert forall|q: int| 0 <= q < deps@.len() implies dep_justified(
                                    #[trigger] deps@[q],
                                    new_nodes@,
                                    merged,
                                    own_module_id,
                                ) by {
                                    if !deps_mid.contains(deps@[q]) {
                                        assert(deps@[q] == fm);
                                        assert(new_nodes@[j as int] == nodes@[j as int]);
                                        assert((new_nodes@[j as int].value
                                            matches LiveValue::Class { live_type: l3, .. } && l3
                                            == live_type));
                                        assert(0 <= ii < merged.len() && merged[ii as int].live_type
                                            == live_type);
                                        assert(merged[ii as int].fields@[t as int].module_id == fm);
                                    }
                                }
                            }
                        }
                        t = t + 1;
                    }
                    proof {
                        assert forall|p: int, q: int, t2: int|
                            0 <= p < new_nodes@.len() && 0 <= q < merged.len() && 0 <= t2
                                < merged[q].fields@.len() && ((#[trigger] new_nodes@[p]).value
                                matches LiveValue::Class { live_type: l4, .. } && l4
                                == merged[q].live_type) && (#[trigger] merged[q].fields@[t2]).module_id
                                != own_module_id implies deps@.contains(
                            merged[q].fields@[t2].module_id,
                        ) by {
                            if p < nodes_before.len() {
                                assert(new_nodes@[p] == nodes_before[p]);
                            } else {
                                assert(new_nodes@[p] == nodes@[j as int]);
                                assert(merged[q].live_type == live_type);
                                assert(q == ii as int);
                            }
                        }
                    }
                },
                _ => {
                    new_nodes.push(node);
                    proof {
                        register_step_depth(nodes_before, new_nodes@, nodes@, j as int);
                        assert forall|q: int| 0 <= q < deps@.len() implies dep_justified(
                            #[trigger] deps@[q],
                            new_nodes@,
                            merged,
                            own_module_id,
                        ) by {
                            lemma_dep_justified_extend(
                                deps@[q],
                                nodes_before,
                                new_nodes@,
                                merged,
                                own_module_id,
                            );
                        }
                    }
                },
            }
            j = j + 1;
        }
        proof {
            assert(nodes_rooted(new_nodes@)) by {
                assert(new_nodes@.len() == nodes@.len());
                assert(new_nodes@[0] == rewritten_node(nodes@[0], own_module_id.0, crate_key));
                assert(new_nodes@[new_nodes@.len() - 1] == rewritten_node(
                    nodes@[nodes@.len() - 1],
                    own_module_id.0,
                    crate_key,
                ));
            }
        }
        let document = LiveDocument { nodes: new_nodes, tokens, strings, recompile: false };
        let file = LiveFile {
            module_id: own_module_id,
            start_pos,
            file_name: file_name.to_owned(),
            source: source.to_owned(),
            deps,
            document,
        };
        let ghost files_before = self.live_files@;
        let ghost expanded_before = self.expanded@;
        self.live_files.push(file);
        self.expanded.push(LiveDocument::new());
        proof {
            assert forall|i: int| 0 <= i < self.live_files@.len() implies self.file_wf(i) by {
                if i < files_before.len() {
                    assert(self.live_files@[i] == files_before[i]);
                    assert(old(self).file_wf(i));
                    assert forall|j2: int|
                        0 <= j2 < self.live_files@[i].document.nodes@.len() implies stored_node_wf(
                        #[trigger] self.live_files@[i].document.nodes@[j2],
                        LiveFileId(i as usize),
                        self.live_files@[i].document.tokens@.len() as int,
                        merged,
                    ) by {
                        let n2 = self.live_files@[i].document.nodes@[j2];
                        assert(stored_node_wf(
                            n2,
                            LiveFileId(i as usize),
                            self.live_files@[i].document.tokens@.len() as int,
                            old(self).live_type_infos@,
                        ));
                        match n2.value {
                            LiveValue::Class { live_type, class_parent } => {
                                let q = choose|q: int|
                                    0 <= q < old(self).live_type_infos@.len() && (#[trigger] old(
                                        self,
                                    ).live_type_infos@[q]).live_type == live_type;
                                assert(has_live_type(merged, live_type));
                            },
                            _ => {},
                        }
                    }
                } else {
                    assert(self.live_files@[i] == file);
                }
            }
        }
        Ok(fid)
    }
}

/// Appending a node preserves a dependency's justification.
proof fn lemma_dep_justified_extend(
    d: LiveModuleId,
    before: Seq<LiveNode>,
    after: Seq<LiveNode>,
    infos: Seq<LiveTypeInfo>,
    own: LiveModuleId,
)
    requires
        after.len() == before.len() + 1,
        forall|p: int| 0 <= p < before.len() ==> after[p] == before[p],
        dep_justified(d, before, infos, own),
    ensures
        dep_justified(d, after, infos, own),
{
    if exists|p: int|
        0 <= p < before.len() && ((#[trigger] before[p]).value matches LiveValue::Use { module_id }
            && module_id == d) {
        let p = choose|p: int|
            0 <= p < before.len() && ((#[trigger] before[p]).value matches LiveValue::Use {
                module_id,
            } && module_id == d);
        assert(after[p] == before[p]);
    } else {
        let (p, q, t) = choose|p: int, q: int, t: int|
            0 <= p < before.len() && 0 <= q < infos.len() && 0 <= t < infos[q].fields@.len() && ((
            #[trigger] before[p]).value matches LiveValue::Class { live_type, .. } && live_type
                == infos[q].live_type) && (#[trigger] infos[q].fields@[t]).module_id == d && d
                != own;
        assert(after[p] == before[p]);
    }
}

/// One register step keeps the depth profile: the rewritten node opens and
/// closes exactly as the parsed one does.
proof fn register_step_depth(
    before: Seq<LiveNode>,
    after: Seq<LiveNode>,
    orig: Seq<LiveNode>,
    j: int,
)
    requires
        0 <= j < orig.len(),
        before.len() == j,
        after.len() == j + 1,
        forall|p: int| 0 <= p < j ==> after[p] == before[p],
        node_delta(after[j]) == node_delta(orig[j]),
        forall|i: int| 0 <= i <= j ==> #[trigger] depth_to(before, i) == depth_to(orig, i),
    ensures
        forall|i: int| 0 <= i <= j + 1 ==> #[trigger] depth_to(after, i) == depth_to(orig, i),
{
    assert forall|i: int| 0 <= i <= j + 1 implies #[trigger] depth_to(after, i) == depth_to(
        orig,
        i,
    ) by {
        if i <= j {
            crate::document::lemma_depth_to_agree(after, before, i);
        } else {
            crate::document::lemma_depth_to_agree(after, before, j);
            assert(depth_to(after, j + 1) == depth_to(after, j) + node_delta(after[j]));
            assert(depth_to(orig, j + 1) == depth_to(orig, j) + node_delta(orig[j]));
        }
    }
}

} // verus!
