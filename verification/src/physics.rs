//! The physics world as the storage layer sees it: an arena of rigid
//! bodies addressed by handle.  The simulation step itself is an external
//! collaborator; what matters here is body lifetime, since scene nodes
//! hold weak links into this arena.

use vstd::prelude::*;

use crate::handle::Handle;
use crate::pool::{Pool, PoolModel};

verus! {

/// A rigid body slot.  The simulation state it carries is outside this
/// storage core; the arena only manages its lifetime and identity.
#[derive(Clone, Copy, Debug)]
pub struct RigidBody {

}

/// An arena of rigid bodies.
pub struct Physics {
    bodies: Pool<RigidBody>,
}

impl View for Physics {
    type V = PoolModel<RigidBody>;

    closed spec fn view(&self) -> PoolModel<RigidBody> {
        self.bodies@
    }
}

impl Physics {
    /// Well-formedness of the underlying arena.
    pub open spec fn wf(self) -> bool {
        self@.wf()
    }

    /// Creates an empty physics world.
    pub fn new() -> (p: Physics)
        ensures
            p@ == PoolModel::<RigidBody>::empty(),
            p.wf(),
    {
        Physics { bodies: Pool::new() }
    }

    /// Adds a body and returns the handle that names it.
    pub fn add_body(&mut self, body: RigidBody) -> (h: Handle<RigidBody>)
        requires
            old(self).wf(),
            old(self)@.can_spawn(),
        ensures
            final(self)@ == old(self)@.spawn_m(body),
            h == old(self)@.spawn_handle(),
            final(self).wf(),
            final(self)@.valid(h),
    {
        self.bodies.spawn(body)
    }

    /// Frees the body named by `h`; a stale or out-of-range handle changes
    /// nothing.
    pub fn remove_body(&mut self, h: Handle<RigidBody>)
        requires
            old(self).wf(),
        ensures
            final(self)@ == old(self)@.free_m(h),
            final(self).wf(),
    {
        self.bodies.free(h);
    }

    /// The handle that currently names slot `index`.
    pub fn handle_from_index(&self, index: u32) -> (h: Handle<RigidBody>)
        requires
            0 <= index < self@.num_slots(),
        ensures
            h == self@.handle_at(index as int),
    {
        self.bodies.handle_from_index(index)
    }

    /// The number of slots the world's arena owns.
    pub fn get_capacity(&self) -> (n: usize)
        ensures
            n == self@.num_slots(),
    {
        self.bodies.get_capacity()
    }

    /// Whether `h` names a live body.
    pub fn is_valid_body_handle(&self, h: Handle<RigidBody>) -> (b: bool)
        ensures
            b == self@.valid(h),
    {
        self.bodies.is_valid(h)
    }

    /// Rebuilds a world from persisted occupancy: bodies keep their
    /// indices, generations start over at zero, the free stack is rebuilt
    /// from the gaps.
    pub fn restore_from(entries: Vec<Option<RigidBody>>) -> (p: Physics)
        requires
            entries@.len() <= crate::handle::NONE_INDEX as int,
        ensures
            p@ == PoolModel::restored(entries@),
            p.wf(),
    {
        Physics { bodies: Pool::restore_from(entries) }
    }

    /// An exact copy of the world: same slots, same generations.  Body
    /// handles recorded elsewhere stay suitable for the copy.
    pub fn duplicate(&self) -> (p: Physics)
        ensures
            p@ == self@,
    {
        Physics { bodies: self.bodies.duplicate() }
    }
}

} // verus!
