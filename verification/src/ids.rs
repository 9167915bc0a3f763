//! Plain-value handles identifying functions and call expressions.
//!
//! A `DefId` is a process-wide stable handle for a function definition,
//! usable across compilation units; a `HirId` is an in-unit handle, valid
//! only within the unit currently being analyzed. Both are opaque tokens
//! to this crate: the graph only ever compares them for equality.

use vstd::prelude::*;

verus! {

/// Process-wide stable handle for a function definition.
#[derive(Clone, Copy, PartialEq, Eq, Structural, Debug, Hash)]
pub struct DefId {
    pub krate: u32,
    pub index: u32,
}

/// In-unit handle for a node of the analyzed unit's definition tree;
/// identifies a function or a call expression within one unit.
#[derive(Clone, Copy, PartialEq, Eq, Structural, Debug, Hash)]
pub struct HirId {
    pub owner: u32,
    pub local_id: u32,
}

} // verus!
