//! Identifier and pointer values used throughout the registry.
//!
//! Identifiers are 64-bit hashes produced by the lexer of the
//! `makepad_live_tokenizer` crate; this crate never inspects them beyond
//! equality, and `0` is reserved for the empty identifier (used by glob
//! imports).

use vstd::prelude::*;
use makepad_live_tokenizer::LiveId;

verus! {

/// The hash that `makepad_live_id::LiveId::from_str` assigns to a string.
/// It depends on the characters alone.
pub uninterp spec fn live_id_of(s: Seq<char>) -> u64;

/// Relies on `makepad_live_id::LiveId::from_str`: a seeded hash of the
/// string's bytes, with the high bit always set, so it is never zero.
#[verifier::external_body]
pub(crate) fn live_id_from_str(s: &str) -> (r: u64)
    ensures
        r == live_id_of(s@),
        r != 0,
{
    LiveId::from_str(s).0
}

/// The identifier value reserved for "no identifier": glob imports carry it,
/// and no hashed identifier ever equals it.
pub open spec fn empty_id() -> u64 {
    0
}

/// Stable identity of a registered file: its index in the registry's file
/// list, assigned append-only at registration.
#[derive(Clone, Copy, Debug, PartialEq, Eq, Structural)]
pub struct LiveFileId(pub usize);

/// Logical cross-file reference key, distinct from a file's storage identity:
/// a (crate, module) pair of identifier hashes.
#[derive(Clone, Copy, Debug, PartialEq, Eq, Structural)]
pub struct LiveModuleId(pub u64, pub u64);

/// A weak locator for a node in another file's expanded document.
#[derive(Clone, Copy, Debug, PartialEq, Eq, Structural)]
pub struct LivePtr {
    pub file_id: LiveFileId,
    pub index: usize,
}

/// The identity of a token: its file and its position in that file's token
/// stream.  Patch propagation joins nodes to tokens through this value.
#[derive(Clone, Copy, Debug, PartialEq, Eq, Structural)]
pub struct LiveTokenId {
    pub file_id: LiveFileId,
    pub index: usize,
}

} // verus!
