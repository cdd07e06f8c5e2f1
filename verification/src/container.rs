//! The container that owns every scene, itself an arena, so scenes too
//! are addressed by generation-checked handle.

use vstd::prelude::*;

use crate::handle::Handle;
use crate::pool::{Pool, PoolModel};
use crate::scene::Scene;

verus! {

/// An arena of scenes.
pub struct SceneContainer {
    pool: Pool<Scene>,
}

impl View for SceneContainer {
    type V = PoolModel<Scene>;

    closed spec fn view(&self) -> PoolModel<Scene> {
        self.pool@
    }
}

impl SceneContainer {
    /// Well-formedness of the underlying arena.
    pub open spec fn wf(self) -> bool {
        self@.wf()
    }

    /// Creates an empty container.
    pub fn new() -> (c: SceneContainer)
        ensures
            c@ == PoolModel::<Scene>::empty(),
            c.wf(),
    {
        SceneContainer { pool: Pool::new() }
    }

    /// The held scenes, in slot order; empty slots are skipped.  A fresh
    /// call re-scans the container.
    pub fn iter(&self) -> (r: Vec<&Scene>)
        ensures
            r@.len() == self@.live_seq().len(),
            forall|j: int| 0 <= j < r@.len() ==> *r@[j] == self@.live_seq()[j],
    {
        self.pool.iter()
    }

    /// The handles of the held scenes, in slot order, each valid until
    /// its scene is removed; mutate one scene at a time through
    /// `borrow_mut`.
    pub fn iter_mut(&mut self) -> (r: Vec<Handle<Scene>>)
        requires
            old(self).wf(),
        ensures
            final(self)@ == old(self)@,
            forall|j: int| 0 <= j < r@.len() ==> old(self)@.valid(#[trigger] r@[j]),
            forall|i: int|
                0 <= i < old(self)@.num_slots() && old(self)@.occupied(i) ==> exists|j: int|
                    0 <= j < r@.len() && (#[trigger] r@[j]).index == i,
    {
        self.pool.live_handles()
    }

    /// Adds a scene and returns the handle that names it.
    pub fn add(&mut self, scene: Scene) -> (h: Handle<Scene>)
        requires
            old(self).wf(),
            old(self)@.can_spawn(),
        ensures
            final(self)@ == old(self)@.spawn_m(scene),
            h == old(self)@.spawn_handle(),
            final(self).wf(),
            final(self)@.valid(h),
    {
        self.pool.spawn(scene)
    }

    /// Handle-validated read of a scene.
    pub fn borrow(&self, handle: Handle<Scene>) -> (r: Option<&Scene>)
        ensures
            r.is_some() == self@.valid(handle),
            r.is_some() ==> Some(*r.unwrap()) == self@.borrow_m(handle),
    {
        self.pool.borrow(handle)
    }

    /// Handle-validated mutable read of a scene.
    pub fn borrow_mut(&mut self, handle: Handle<Scene>) -> (r: Option<&mut Scene>)
        ensures
            r.is_some() == old(self)@.valid(handle),
            !old(self)@.valid(handle) ==> final(self)@ == old(self)@,
            old(self)@.valid(handle) ==> *r.unwrap() == old(self)@.slots[handle.index as int].payload.unwrap()
                && final(self)@.slots == old(self)@.slots.update(
                handle.index as int,
                crate::pool::Slot {
                    payload: Some(*final(r.unwrap())),
                    generation: handle.generation,
                },
            ) && final(self)@.free == old(self)@.free,
    {
        self.pool.borrow_mut(handle)
    }

    /// The handle that currently names slot `index`.
    pub fn handle_from_index(&self, index: u32) -> (h: Handle<Scene>)
        requires
            0 <= index < self@.num_slots(),
        ensures
            h == self@.handle_at(index as int),
    {
        self.pool.handle_from_index(index)
    }

    /// The number of slots the container's arena owns.
    pub fn get_capacity(&self) -> (n: usize)
        ensures
            n == self@.num_slots(),
    {
        self.pool.get_capacity()
    }

    /// Rebuilds a container from persisted occupancy: scene `i` returns
    /// to slot `i`, generations start over at zero, the free stack is
    /// rebuilt from the gaps.
    pub fn restore_from(entries: Vec<Option<Scene>>) -> (c: SceneContainer)
        requires
            entries@.len() <= crate::handle::NONE_INDEX as int,
        ensures
            c@ == PoolModel::restored(entries@),
            c.wf(),
    {
        SceneContainer { pool: Pool::restore_from(entries) }
    }

    /// Drops every scene and every issued handle's claim at once.
    pub fn clear(&mut self)
        ensures
            final(self)@ == PoolModel::<Scene>::empty(),
            final(self).wf(),
    {
        self.pool.clear();
    }

    /// Frees the scene named by `handle`; a stale or out-of-range handle
    /// removes nothing.
    pub fn remove(&mut self, handle: Handle<Scene>)
        requires
            old(self).wf(),
        ensures
            final(self)@ == old(self)@.free_m(handle),
            final(self).wf(),
    {
        self.pool.free(handle);
    }
}

} // verus!
