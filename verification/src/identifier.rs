//! Identifiers attached to authored text fragments.
//!
//! An [`ErrId`] tags one logical fragment of authored text (one material
//! body, one object's intersection routine, one library entry).  The
//! reserved value `ErrId(0)` means "no specific entity" and collects
//! diagnostics that cannot be attributed to any fragment.
//!
//! Identifiers are derived deterministically from an entity's category and
//! its ordinal position within its collection: each category owns a base
//! value and the entity at position `pos` gets `base + pos`.  As long as no
//! category holds more entities than the gap between bases, identifiers are
//! unique within one generation pass.

use vstd::prelude::*;

verus! {

/// Opaque, totally-ordered key tagging one authored text fragment.
#[derive(Clone, Copy, Debug, Eq, PartialEq, Ord, PartialOrd, Hash, Structural)]
pub struct ErrId(pub usize);

impl Default for ErrId {
    /// The reserved identifier for unattributed diagnostics.
    fn default() -> (r: Self)
        ensures
            r == (ErrId(0usize)),
    {
        ErrId(0)
    }
}

/// Assigns provenance identifiers to the entities of one category.
///
/// `identifier(pos)` is the identifier of the entity standing at ordinal
/// position `pos` within its collection; distinct positions of one category
/// always get distinct identifiers.
pub trait ErrorId {
    /// The base value that this entity's category owns.
    spec fn id_base(&self) -> usize;

    /// The identifier of this entity at ordinal position `pos`.
    fn identifier(&self, pos: usize) -> (r: ErrId)
        requires
            self.id_base() + pos <= usize::MAX,
        ensures
            r.0 == self.id_base() + pos,
    ;
}

} // verus!
