//! Generation-checked handles into arenas.
//!
//! A `Handle<T>` names a slot of an arena holding values of type `T`: an
//! index plus the generation the slot had when the handle was issued.  The
//! arena bumps a slot's generation every time the slot is freed, so a handle
//! kept across a free no longer matches and is rejected instead of reaching a
//! recycled value.  An `ErasedHandle` carries the same pair without the type
//! tag, for storage places that hold references across entity kinds.

use core::marker::PhantomData;
use vstd::prelude::*;

verus! {

/// Index of the distinguished "none" handle.  No arena ever owns a slot at
/// this index: arenas refuse to grow this far.
pub const NONE_INDEX: u32 = 0xFFFF_FFFF;

/// A typed, copyable reference to an arena slot: an index and the generation
/// the slot had when the handle was issued.  The type parameter only records
/// which kind of entity the handle targets; it has no runtime payload.
#[derive(Debug)]
pub struct Handle<T> {
    pub index: u32,
    pub generation: u32,
    pub entity_kind: PhantomData<T>,
}

impl<T> Handle<T> {
    /// Builds the handle with the given index and generation.
    pub fn make(index: u32, generation: u32) -> (h: Handle<T>)
        ensures
            h.index == index,
            h.generation == generation,
    {
        Handle { index, generation, entity_kind: PhantomData }
    }

    /// The distinguished handle that refers to nothing.
    pub fn none() -> (h: Handle<T>)
        ensures
            h.index == NONE_INDEX,
            h.generation == 0,
            h.spec_is_none(),
    {
        Handle { index: NONE_INDEX, generation: 0, entity_kind: PhantomData }
    }

    /// Whether this is the "none" handle.
    pub open spec fn spec_is_none(&self) -> bool {
        self.index == NONE_INDEX
    }

    #[verifier::when_used_as_spec(spec_is_none)]
    pub fn is_none(&self) -> (b: bool)
        ensures
            b == self.spec_is_none(),
    {
        self.index == NONE_INDEX
    }

    /// Whether this handle refers to some slot (it may still be stale).
    pub open spec fn spec_is_some(&self) -> bool {
        self.index != NONE_INDEX
    }

    #[verifier::when_used_as_spec(spec_is_some)]
    pub fn is_some(&self) -> (b: bool)
        ensures
            b == self.spec_is_some(),
    {
        self.index != NONE_INDEX
    }

    /// Drops the type tag, keeping index and generation.
    pub fn erase(&self) -> (e: ErasedHandle)
        ensures
            e.index == self.index,
            e.generation == self.generation,
    {
        ErasedHandle { index: self.index, generation: self.generation }
    }

    /// Re-types an erased handle.  The caller is responsible for picking the
    /// right target kind; the arena validates the pair itself on every use.
    pub fn from_erased(e: ErasedHandle) -> (h: Handle<T>)
        ensures
            h.index == e.index,
            h.generation == e.generation,
    {
        Handle { index: e.index, generation: e.generation, entity_kind: PhantomData }
    }
}

impl<T> Clone for Handle<T> {
    fn clone(&self) -> (h: Self)
        ensures
            h == *self,
    {
        Handle { index: self.index, generation: self.generation, entity_kind: PhantomData }
    }
}

impl<T> Copy for Handle<T> {

}

impl<T> PartialEq for Handle<T> {
    fn eq(&self, other: &Self) -> (b: bool)
        ensures
            b == (self.index == other.index && self.generation == other.generation),
    {
        self.index == other.index && self.generation == other.generation
    }
}

impl<T> vstd::std_specs::cmp::PartialEqSpecImpl for Handle<T> {
    open spec fn obeys_eq_spec() -> bool {
        true
    }

    open spec fn eq_spec(&self, other: &Self) -> bool {
        self.index == other.index && self.generation == other.generation
    }
}

/// A handle without its compile-time type tag, comparable and copyable, for
/// back-references whose target kind varies by context.
#[derive(Clone, Copy, PartialEq, Eq, Structural, Debug)]
pub struct ErasedHandle {
    pub index: u32,
    pub generation: u32,
}

impl ErasedHandle {
    /// The distinguished erased handle that refers to nothing.
    pub fn none() -> (e: ErasedHandle)
        ensures
            e.index == NONE_INDEX,
            e.generation == 0,
    {
        ErasedHandle { index: NONE_INDEX, generation: 0 }
    }

    /// Whether this is the "none" handle.
    pub open spec fn spec_is_none(&self) -> bool {
        self.index == NONE_INDEX
    }

    #[verifier::when_used_as_spec(spec_is_none)]
    pub fn is_none(&self) -> (b: bool)
        ensures
            b == self.spec_is_none(),
    {
        self.index == NONE_INDEX
    }
}

} // verus!
