//! The generational slot arena.
//!
//! A `Pool<T>` owns values of one type in slots addressed by index.  Each
//! slot carries a generation counter that is bumped every time the slot is
//! freed, so a handle issued for an earlier occupancy of the slot no longer
//! matches and is rejected.  Freed slots are kept on a free stack and reused
//! by later insertions.
//!
//! The pool's behaviour is specified against `PoolModel`, a mathematical
//! view holding the slot sequence and the free stack; every operation's
//! contract states exactly which model the pool moves to.

use core::marker::PhantomData;
use vstd::prelude::*;

use crate::handle::{Handle, NONE_INDEX};

verus! {

/// A slot's generation is retired at this bound: a slot whose counter would
/// reach it on free is withdrawn from reuse instead of wrapping around.
pub const MAX_GENERATION: u32 = 0xFFFF_FFFF;

/// One arena slot: the payload, if the slot is occupied, and the slot's
/// current generation.
pub struct Slot<T> {
    pub payload: Option<T>,
    pub generation: u32,
}

/// The mathematical state of a pool: its slot sequence and its free stack
/// (indices of reusable slots; the last element is reused first).
#[verifier::ext_equal]
pub struct PoolModel<T> {
    pub slots: Seq<Slot<T>>,
    pub free: Seq<u32>,
}

impl<T> PoolModel<T> {
    /// The model of a freshly created pool.
    pub open spec fn empty() -> PoolModel<T> {
        PoolModel { slots: Seq::empty(), free: Seq::empty() }
    }

    /// How many slots the pool owns, occupied or not.
    pub open spec fn num_slots(self) -> int {
        self.slots.len() as int
    }

    /// Whether slot `i` exists and holds a value.
    pub open spec fn occupied(self, i: int) -> bool {
        0 <= i < self.num_slots() && self.slots[i].payload is Some
    }

    /// Whether `h` currently names a live value: its index is in range, the
    /// slot is occupied, and the generations agree.
    pub open spec fn valid(self, h: Handle<T>) -> bool {
        &&& 0 <= h.index < self.num_slots()
        &&& self.slots[h.index as int].generation == h.generation
        &&& self.slots[h.index as int].payload is Some
    }

    /// Whether the slot `h` points into has moved past the handle: the
    /// handle can never become valid again (generations only grow).
    pub open spec fn outlived(self, h: Handle<T>) -> bool {
        &&& 0 <= h.index < self.num_slots()
        &&& self.slots[h.index as int].generation > h.generation
    }

    /// Whether `h` is a handle this pool could ever have issued for its
    /// slot: the slot's counter has reached the handle's generation.
    pub open spec fn issued(self, h: Handle<T>) -> bool {
        &&& 0 <= h.index < self.num_slots()
        &&& h.generation <= self.slots[h.index as int].generation
    }

    /// What a handle-validated lookup yields.
    pub open spec fn borrow_m(self, h: Handle<T>) -> Option<T> {
        if self.valid(h) {
            self.slots[h.index as int].payload
        } else {
            None
        }
    }

    /// The handle that currently names slot `i`.
    pub open spec fn handle_at(self, i: int) -> Handle<T> {
        Handle { index: i as u32, generation: self.slots[i].generation, entity_kind: PhantomData }
    }

    /// Whether an insertion can proceed: either a slot is reusable or the
    /// index space has room to grow.
    pub open spec fn can_spawn(self) -> bool {
        self.free.len() > 0 || self.num_slots() < NONE_INDEX as int
    }

    /// The index an insertion will fill: the top of the free stack, or a
    /// fresh slot appended at the end.
    pub open spec fn spawn_index(self) -> int {
        if self.free.len() > 0 {
            self.free.last() as int
        } else {
            self.num_slots()
        }
    }

    /// The handle an insertion will return.
    pub open spec fn spawn_handle(self) -> Handle<T> {
        if self.free.len() > 0 {
            Handle {
                index: self.free.last(),
                generation: self.slots[self.free.last() as int].generation,
                entity_kind: PhantomData,
            }
        } else {
            Handle { index: self.num_slots() as u32, generation: 0, entity_kind: PhantomData }
        }
    }

    /// The model after inserting `value`.  A reused slot keeps its current
    /// generation (the bump happened at free time); a fresh slot starts at
    /// generation zero.
    pub open spec fn spawn_m(self, value: T) -> PoolModel<T> {
        if self.free.len() > 0 {
            let i = self.free.last() as int;
            PoolModel {
                slots: self.slots.update(
                    i,
                    Slot { payload: Some(value), generation: self.slots[i].generation },
                ),
                free: self.free.drop_last(),
            }
        } else {
            PoolModel {
                slots: self.slots.push(Slot { payload: Some(value), generation: 0 }),
                free: self.free,
            }
        }
    }

    /// The model after freeing `h`.  An invalid handle changes nothing.  A
    /// valid one clears the payload and bumps the generation; the slot
    /// returns to the free stack unless its counter just retired.
    pub open spec fn free_m(self, h: Handle<T>) -> PoolModel<T> {
        if self.valid(h) {
            let i = h.index as int;
            let bumped = (self.slots[i].generation + 1) as u32;
            let slots1 = self.slots.update(i, Slot { payload: None, generation: bumped });
            if bumped < MAX_GENERATION {
                PoolModel { slots: slots1, free: self.free.push(h.index) }
            } else {
                PoolModel { slots: slots1, free: self.free }
            }
        } else {
            self
        }
    }

    /// Well-formedness: the free stack lists exactly the reusable slots
    /// (empty, not retired), without duplicates; occupied slots have room
    /// left on their counter; the index space respects the handle sentinel.
    pub open spec fn wf(self) -> bool {
        &&& self.slots.len() <= NONE_INDEX as int
        &&& forall|k: int|
            0 <= k < self.free.len() ==> 0 <= #[trigger] self.free[k] < self.slots.len()
        &&& forall|k: int|
            0 <= k < self.free.len() ==> self.slots[#[trigger] self.free[k] as int].payload is None
        &&& forall|k: int|
            0 <= k < self.free.len() ==> self.slots[#[trigger] self.free[k] as int].generation
                < MAX_GENERATION
        &&& forall|k1: int, k2: int|
            0 <= k1 < k2 < self.free.len() ==> #[trigger] self.free[k1] != #[trigger] self.free[k2]
        &&& forall|i: int|
            0 <= i < self.slots.len() && self.slots[i].payload is None
                && #[trigger] self.slots[i].generation < MAX_GENERATION ==> self.free.contains(
                i as u32,
            )
        &&& forall|i: int|
            0 <= i < self.slots.len() && #[trigger] self.slots[i].payload is Some
                ==> self.slots[i].generation < MAX_GENERATION
    }
}

/// A generational slot arena owning values of type `T`.
pub struct Pool<T> {
    slots: Vec<Slot<T>>,
    free: Vec<u32>,
}

impl<T> View for Pool<T> {
    type V = PoolModel<T>;

    closed spec fn view(&self) -> PoolModel<T> {
        PoolModel { slots: self.slots@, free: self.free@ }
    }
}

impl<T> Pool<T> {
    /// Well-formedness of the pool, stated on its model.
    pub open spec fn wf(self) -> bool {
        self@.wf()
    }

    /// Creates an empty pool.
    pub fn new() -> (p: Pool<T>)
        ensures
            p@ == PoolModel::<T>::empty(),
            p.wf(),
    {
        let p = Pool { slots: Vec::new(), free: Vec::new() };
        proof {
            assert(p@.slots =~= Seq::<Slot<T>>::empty());
            assert(p@.free =~= Seq::<u32>::empty());
        }
        p
    }

    /// Inserts `value`, reusing the most recently freed slot if one exists,
    /// and returns the handle that names it.
    pub fn spawn(&mut self, value: T) -> (h: Handle<T>)
        requires
            old(self).wf(),
            old(self)@.can_spawn(),
        ensures
            final(self)@ == old(self)@.spawn_m(value),
            h == old(self)@.spawn_handle(),
            final(self).wf(),
            final(self)@.valid(h),
    {
        proof {
            lemma_spawn_wf(old(self)@, value);
        }
        match self.free.pop() {
            Some(index) => {
                let iu = index as usize;
                let s = &mut self.slots[iu];
                s.payload = Some(value);
                let generation = s.generation;
                Handle::make(index, generation)
            },
            None => {
                let index = self.slots.len() as u32;
                self.slots.push(Slot { payload: Some(value), generation: 0 });
                Handle::make(index, 0)
            },
        }
    }

    /// Frees the slot named by `h` if the handle is valid: clears the
    /// payload, bumps the generation and stacks the index for reuse.  A
    /// stale or out-of-range handle changes nothing.
    pub fn free(&mut self, h: Handle<T>)
        requires
            old(self).wf(),
        ensures
            final(self)@ == old(self)@.free_m(h),
            final(self).wf(),
    {
        proof {
            lemma_free_wf(old(self)@, h);
        }
        let iu = h.index as usize;
        if iu < self.slots.len() {
            let occupied = self.slots[iu].payload.is_some();
            let generation = self.slots[iu].generation;
            if occupied && generation == h.generation {
                let s = &mut self.slots[iu];
                s.payload = None;
                s.generation = generation + 1;
                if generation + 1 < MAX_GENERATION {
                    self.free.push(h.index);
                }
            }
        }
    }

    /// Handle-validated lookup: yields the payload iff `h` is valid.
    pub fn borrow(&self, h: Handle<T>) -> (r: Option<&T>)
        ensures
            r.is_some() == self@.valid(h),
            r.is_some() ==> Some(*r.unwrap()) == self@.borrow_m(h),
    {
        let iu = h.index as usize;
        if iu < self.slots.len() {
            let s = &self.slots[iu];
            if s.generation == h.generation {
                s.payload.as_ref()
            } else {
                None
            }
        } else {
            None
        }
    }

    /// Handle-validated mutable lookup: yields the payload iff `h` is
    /// valid.  Writing through the result replaces the slot's payload; the
    /// generation and the free stack are untouched.
    pub fn borrow_mut(&mut self, h: Handle<T>) -> (r: Option<&mut T>)
        ensures
            r.is_some() == old(self)@.valid(h),
            !old(self)@.valid(h) ==> final(self)@ == old(self)@,
            old(self)@.valid(h) ==> *r.unwrap() == old(self)@.slots[h.index as int].payload.unwrap()
                && final(self)@.slots == old(self)@.slots.update(
                h.index as int,
                Slot { payload: Some(*final(r.unwrap())), generation: h.generation },
            ) && final(self)@.free == old(self)@.free,
    {
        let iu = h.index as usize;
        if iu < self.slots.len() && self.slots[iu].generation == h.generation
            && self.slots[iu].payload.is_some() {
            let s = &mut self.slots[iu];
            s.payload.as_mut()
        } else {
            None
        }
    }

    /// Direct occupancy-respecting read of slot `index`; the generation is
    /// not consulted.  Out-of-range and empty slots both yield nothing.
    pub fn at(&self, index: u32) -> (r: Option<&T>)
        ensures
            r.is_some() == self@.occupied(index as int),
            r.is_some() ==> Some(*r.unwrap()) == self@.slots[index as int].payload,
    {
        let iu = index as usize;
        if iu < self.slots.len() {
            self.slots[iu].payload.as_ref()
        } else {
            None
        }
    }

    /// Direct occupancy-respecting mutable read of slot `index`.  Writing
    /// through the result replaces the payload of an occupied slot.
    pub fn at_mut(&mut self, index: u32) -> (r: Option<&mut T>)
        ensures
            r.is_some() == old(self)@.occupied(index as int),
            !old(self)@.occupied(index as int) ==> final(self)@ == old(self)@,
            old(self)@.occupied(index as int) ==> *r.unwrap() == old(self)@.slots[index as int].payload.unwrap()
                && final(self)@.slots == old(self)@.slots.update(
                index as int,
                Slot {
                    payload: Some(*final(r.unwrap())),
                    generation: old(self)@.slots[index as int].generation,
                },
            ) && final(self)@.free == old(self)@.free,
    {
        let iu = index as usize;
        if iu < self.slots.len() && self.slots[iu].payload.is_some() {
            let s = &mut self.slots[iu];
            s.payload.as_mut()
        } else {
            None
        }
    }

    /// The handle that currently names slot `index`: pairs the index with
    /// the slot's present generation.
    pub fn handle_from_index(&self, index: u32) -> (h: Handle<T>)
        requires
            0 <= index < self@.num_slots(),
        ensures
            h == self@.handle_at(index as int),
    {
        let generation = self.slots[index as usize].generation;
        Handle::make(index, generation)
    }

    /// Pure validity test for `h`; no side effects.
    pub fn is_valid(&self, h: Handle<T>) -> (b: bool)
        ensures
            b == self@.valid(h),
    {
        let iu = h.index as usize;
        iu < self.slots.len() && self.slots[iu].generation == h.generation
            && self.slots[iu].payload.is_some()
    }

    /// The number of slots the pool owns, occupied or not.
    pub fn get_capacity(&self) -> (n: usize)
        ensures
            n == self@.num_slots(),
    {
        self.slots.len()
    }

    /// The payloads of all occupied slots, in index order; empty slots are
    /// skipped.  A fresh call re-scans the pool.
    pub fn iter(&self) -> (r: Vec<&T>)
        ensures
            r@.len() == self@.live_seq().len(),
            forall|j: int| 0 <= j < r@.len() ==> *r@[j] == self@.live_seq()[j],
    {
        let mut out: Vec<&T> = Vec::new();
        let n = self.slots.len();
        let mut i: usize = 0;
        while i < n
            invariant
                n == self@.num_slots(),
                0 <= i <= n,
                out@.len() == self@.live_prefix(i as int).len(),
                forall|j: int|
                    0 <= j < out@.len() ==> *out@[j] == self@.live_prefix(i as int)[j],
            decreases n - i,
        {
            match self.slots[i].payload.as_ref() {
                Some(v) => out.push(v),
                None => (),
            }
            i += 1;
        }
        out
    }

    /// The handles of all occupied slots, in index order; empty slots are
    /// skipped.  Each returned handle is valid until its slot is freed.
    pub fn live_handles(&self) -> (r: Vec<Handle<T>>)
        requires
            self.wf(),
        ensures
            forall|j: int| 0 <= j < r@.len() ==> self@.valid(#[trigger] r@[j]),
            forall|j: int|
                0 <= j < r@.len() ==> #[trigger] r@[j] == self@.handle_at(r@[j].index as int),
            forall|i: int|
                0 <= i < self@.num_slots() && self@.occupied(i) ==> exists|j: int|
                    0 <= j < r@.len() && (#[trigger] r@[j]).index == i,
    {
        let mut out: Vec<Handle<T>> = Vec::new();
        let n = self.slots.len();
        let mut i: usize = 0;
        while i < n
            invariant
                self.wf(),
                n == self@.num_slots(),
                0 <= i <= n,
                forall|j: int| 0 <= j < out@.len() ==> self@.valid(#[trigger] out@[j]),
                forall|j: int|
                    0 <= j < out@.len() ==> #[trigger] out@[j] == self@.handle_at(
                        out@[j].index as int,
                    ),
                forall|k: int|
                    0 <= k < i && self@.occupied(k) ==> exists|j: int|
                        0 <= j < out@.len() && (#[trigger] out@[j]).index == k,
            decreases n - i,
        {
            let ghost before = out@;
            if self.slots[i].payload.is_some() {
                let generation = self.slots[i].generation;
                out.push(Handle::make(i as u32, generation));
            }
            proof {
                assert forall|k: int| 0 <= k < i + 1 && self@.occupied(k) implies exists|j: int|
                    0 <= j < out@.len() && (#[trigger] out@[j]).index == k by {
                    if k == i as int {
                        assert(out@[out@.len() - 1].index == k);
                    } else {
                        let j0 = choose|j: int|
                            0 <= j < before.len() && (#[trigger] before[j]).index == k;
                        assert(out@[j0].index == k);
                    }
                }
            }
            i += 1;
        }
        out
    }

    /// Rebuilds a pool from persisted occupancy, as read back by the
    /// serialization layer: entry `i` becomes slot `i` (`None` marks a
    /// gap), every generation starts over at zero, and the free stack is
    /// rebuilt from the gaps in ascending index order.
    pub fn restore_from(entries: Vec<Option<T>>) -> (p: Pool<T>)
        requires
            entries@.len() <= NONE_INDEX as int,
        ensures
            p@ == PoolModel::restored(entries@),
            p.wf(),
    {
        let ghost entries0 = entries@;
        let mut entries = entries;
        let n = entries.len();
        let mut slots: Vec<Slot<T>> = Vec::new();
        let mut free: Vec<u32> = Vec::new();
        let mut i: usize = 0;
        while i < n
            invariant
                n == entries0.len(),
                n <= NONE_INDEX as int,
                entries@.len() == n,
                0 <= i <= n,
                forall|j: int| i <= j < n ==> entries@[j] == entries0[j],
                slots@.len() == i,
                forall|j: int|
                    0 <= j < i ==> slots@[j] == (Slot {
                        payload: entries0[j],
                        generation: 0u32,
                    }),
                free@ == PoolModel::<T>::gaps_prefix(entries0, i as int),
            decreases n - i,
        {
            let e = entries[i].take();
            let gap = e.is_none();
            slots.push(Slot { payload: e, generation: 0 });
            if gap {
                free.push(i as u32);
            }
            i += 1;
        }
        let p = Pool { slots, free };
        proof {
            lemma_gaps_prefix_props(entries0, n as int);
            assert(p@.slots =~= PoolModel::restored(entries0).slots);
            assert(p@ =~= PoolModel::restored(entries0));
        }
        p
    }

    /// Drops every slot and every issued handle's claim at once.
    pub fn clear(&mut self)
        ensures
            final(self)@ == PoolModel::<T>::empty(),
            final(self).wf(),
    {
        self.slots.clear();
        self.free.clear();
        proof {
            assert(final(self)@.slots =~= Seq::<Slot<T>>::empty());
            assert(final(self)@.free =~= Seq::<u32>::empty());
        }
    }
}

impl<T: Copy> Pool<T> {
    /// An exact copy of the pool: same slots, same generations, same free
    /// stack.  Handles valid for the original are valid for the copy.
    pub fn duplicate(&self) -> (p: Pool<T>)
        ensures
            p@ == self@,
    {
        let n = self.slots.len();
        let mut slots: Vec<Slot<T>> = Vec::new();
        let mut i: usize = 0;
        while i < n
            invariant
                n == self@.num_slots(),
                0 <= i <= n,
                slots@.len() == i,
                forall|j: int| 0 <= j < i ==> slots@[j] == self@.slots[j],
            decreases n - i,
        {
            let s = &self.slots[i];
            slots.push(Slot { payload: s.payload, generation: s.generation });
            i += 1;
        }
        let nf = self.free.len();
        let mut free: Vec<u32> = Vec::new();
        let mut k: usize = 0;
        while k < nf
            invariant
                nf == self@.free.len(),
                0 <= k <= nf,
                free@.len() == k,
                forall|j: int| 0 <= j < k ==> free@[j] == self@.free[j],
            decreases nf - k,
        {
            free.push(self.free[k]);
            k += 1;
        }
        let p = Pool { slots, free };
        proof {
            assert(p@.slots =~= self@.slots);
            assert(p@.free =~= self@.free);
            assert(p@ =~= self@);
        }
        p
    }
}

impl<T> PoolModel<T> {
    /// The model after inserting the values of `vs`, one after another.
    pub open spec fn spawn_many(self, vs: Seq<T>) -> PoolModel<T>
        decreases vs.len(),
    {
        if vs.len() == 0 {
            self
        } else {
            self.spawn_m(vs[0]).spawn_many(vs.drop_first())
        }
    }

    /// The payloads of the occupied slots among the first `n`, in index
    /// order.
    pub open spec fn live_prefix(self, n: int) -> Seq<T>
        decreases n,
    {
        if n <= 0 {
            Seq::empty()
        } else {
            let rest = self.live_prefix(n - 1);
            match self.slots[n - 1].payload {
                Some(v) => rest.push(v),
                None => rest,
            }
        }
    }

    /// The payloads of all occupied slots, in index order.
    pub open spec fn live_seq(self) -> Seq<T> {
        self.live_prefix(self.num_slots())
    }

    /// Every free-stack entry names an existing slot.  Weaker than `wf`;
    /// it survives any sequence of insertions.
    pub open spec fn free_in_range(self) -> bool {
        forall|k: int| 0 <= k < self.free.len() ==> 0 <= #[trigger] self.free[k] < self.slots.len()
    }

    /// The indices among the first `n` entries whose slot is a gap (no
    /// payload), in ascending order.
    pub open spec fn gaps_prefix(entries: Seq<Option<T>>, n: int) -> Seq<u32>
        decreases n,
    {
        if n <= 0 {
            Seq::empty()
        } else {
            let rest = PoolModel::<T>::gaps_prefix(entries, n - 1);
            if entries[n - 1] is None {
                rest.push((n - 1) as u32)
            } else {
                rest
            }
        }
    }

    /// The model rebuilt from persisted occupancy: each restored slot keeps
    /// its index and payload, every generation starts over at zero, and the
    /// free stack is derived from the gaps.
    pub open spec fn restored(entries: Seq<Option<T>>) -> PoolModel<T> {
        PoolModel {
            slots: Seq::new(entries.len(), |i: int| Slot { payload: entries[i], generation: 0u32 }),
            free: PoolModel::<T>::gaps_prefix(entries, entries.len() as int),
        }
    }
}

/// The gap indices of a prefix are in range, ascending (hence without
/// duplicates), name exactly the entries without payload, and only those.
pub proof fn lemma_gaps_prefix_props<T>(entries: Seq<Option<T>>, n: int)
    requires
        n <= entries.len(),
        entries.len() <= NONE_INDEX as int,
    ensures
        ({
            let gaps = PoolModel::<T>::gaps_prefix(entries, n);
            &&& forall|k: int| 0 <= k < gaps.len() ==> 0 <= #[trigger] gaps[k] < n
            &&& forall|k: int| 0 <= k < gaps.len() ==> entries[#[trigger] gaps[k] as int] is None
            &&& forall|k1: int, k2: int|
                0 <= k1 < k2 < gaps.len() ==> #[trigger] gaps[k1] < #[trigger] gaps[k2]
            &&& forall|i: int| 0 <= i < n && entries[i] is None ==> gaps.contains(i as u32)
        }),
    decreases n,
{
    if n > 0 {
        lemma_gaps_prefix_props(entries, n - 1);
        let prev = PoolModel::<T>::gaps_prefix(entries, n - 1);
        let gaps = PoolModel::<T>::gaps_prefix(entries, n);
        assert forall|i: int| 0 <= i < n && entries[i] is None implies gaps.contains(i as u32) by {
            if i < n - 1 {
                let k = choose|k: int| 0 <= k < prev.len() && prev[k] == i as u32;
                assert(gaps[k] == i as u32);
            } else {
                assert(gaps.last() == i as u32);
            }
        }
    }
}

/// Freeing preserves well-formedness and moves the pool to `free_m`.
pub proof fn lemma_free_wf<T>(m: PoolModel<T>, h: Handle<T>)
    requires
        m.wf(),
    ensures
        m.free_m(h).wf(),
        m.valid(h) ==> m.free_m(h).outlived(h),
{
    if m.valid(h) {
        let i = h.index as int;
        let m1 = m.free_m(h);
        let bumped = (m.slots[i].generation + 1) as u32;
        assert forall|k: int| 0 <= k < m.free.len() implies m.free[k] != h.index by {
            assert(m.slots[m.free[k] as int].payload is None);
        }
        if bumped < MAX_GENERATION {
            assert forall|j: int|
                0 <= j < m1.slots.len() && m1.slots[j].payload is None && m1.slots[j].generation
                    < MAX_GENERATION implies m1.free.contains(j as u32) by {
                if j == i {
                    assert(m1.free.last() == h.index);
                    assert(m1.free[m1.free.len() - 1] == j as u32);
                } else {
                    assert(m.free.contains(j as u32));
                    let k = choose|k: int| 0 <= k < m.free.len() && m.free[k] == j as u32;
                    assert(m1.free[k] == j as u32);
                }
            }
        } else {
            assert forall|j: int|
                0 <= j < m1.slots.len() && m1.slots[j].payload is None && m1.slots[j].generation
                    < MAX_GENERATION implies m1.free.contains(j as u32) by {
                assert(j != i);
                assert(m.free.contains(j as u32));
            }
        }
    }
}

/// Spawning from a well-formed pool with room preserves well-formedness,
/// fills the spawn index, and leaves every other slot untouched.
pub proof fn lemma_spawn_wf<T>(m: PoolModel<T>, value: T)
    requires
        m.wf(),
        m.can_spawn(),
    ensures
        m.spawn_m(value).wf(),
        m.spawn_m(value).valid(m.spawn_handle()),
        m.spawn_m(value).num_slots() == if m.free.len() > 0 {
            m.num_slots()
        } else {
            m.num_slots() + 1
        },
        forall|j: int|
            0 <= j < m.num_slots() && j != m.spawn_index() ==> m.spawn_m(value).slots[j]
                == m.slots[j],
{
    let m1 = m.spawn_m(value);
    if m.free.len() > 0 {
        let i = m.free.last() as int;
        assert(0 <= i < m.slots.len());
        assert forall|j: int|
            0 <= j < m1.slots.len() && m1.slots[j].payload is None && m1.slots[j].generation
                < MAX_GENERATION implies m1.free.contains(j as u32) by {
            assert(j != i);
            assert(m.free.contains(j as u32));
            let k = choose|k: int| 0 <= k < m.free.len() && m.free[k] == j as u32;
            assert(k != m.free.len() - 1);
            assert(m1.free[k] == j as u32);
        }
    } else {
        assert forall|j: int|
            0 <= j < m1.slots.len() && m1.slots[j].payload is None && m1.slots[j].generation
                < MAX_GENERATION implies m1.free.contains(j as u32) by {
            assert(j < m.slots.len());
            assert(m.free.contains(j as u32));
        }
    }
}

/// An insertion never resurrects an outlived handle: the slot it fills
/// keeps its generation, every other slot is untouched.
pub proof fn lemma_spawn_preserves_outlived<T>(m: PoolModel<T>, h: Handle<T>, value: T)
    requires
        m.outlived(h),
        m.free_in_range(),
    ensures
        m.spawn_m(value).outlived(h),
        m.spawn_m(value).free_in_range(),
{
}

/// No sequence of insertions resurrects an outlived handle.
pub proof fn lemma_spawn_many_preserves_outlived<T>(m: PoolModel<T>, h: Handle<T>, vs: Seq<T>)
    requires
        m.outlived(h),
        m.free_in_range(),
    ensures
        m.spawn_many(vs).outlived(h),
        m.spawn_many(vs).free_in_range(),
    decreases vs.len(),
{
    if vs.len() > 0 {
        lemma_spawn_preserves_outlived(m, h, vs[0]);
        lemma_spawn_many_preserves_outlived(m.spawn_m(vs[0]), h, vs.drop_first());
    }
}

/// Generation soundness: once a handle obtained from `spawn` is freed, a
/// handle-validated lookup stays empty after any number of further
/// insertions, even if a new value occupies the handle's index by then.
pub proof fn lemma_generation_soundness<T>(m: PoolModel<T>, h: Handle<T>, vs: Seq<T>)
    requires
        m.wf(),
        m.valid(h),
    ensures
        !m.free_m(h).spawn_many(vs).valid(h),
        m.free_m(h).spawn_many(vs).borrow_m(h) is None,
{
    lemma_free_wf(m, h);
    lemma_spawn_many_preserves_outlived(m.free_m(h), h, vs);
}

/// Within one arena, an insertion followed by a lookup through the
/// returned handle yields the inserted value, and keeps doing so across
/// frees of other handles; only freeing the handle itself ends that.
pub proof fn lemma_spawn_borrow_until_free<T>(m: PoolModel<T>, value: T, other: Handle<T>)
    requires
        m.wf(),
        m.can_spawn(),
    ensures
        ({
            let m1 = m.spawn_m(value);
            let h = m.spawn_handle();
            &&& m1.borrow_m(h) == Some(value)
            &&& other != h ==> m1.free_m(other).borrow_m(h) == Some(value)
        }),
{
    lemma_spawn_wf(m, value);
    let m1 = m.spawn_m(value);
    let h = m.spawn_handle();
    if other != h && m1.valid(other) {
        if other.index == h.index {
            assert(other.generation == m1.slots[h.index as int].generation);
            assert(other == h);
        }
    }
}

/// Reuse correctness: freeing a live slot and then inserting reuses that
/// slot (as long as its counter has room), and the handle issued for the
/// new value has a strictly greater generation than every handle ever
/// issued for that index before the free.
pub proof fn lemma_reuse_strictly_newer<T>(
    m: PoolModel<T>,
    h: Handle<T>,
    prior: Handle<T>,
    value: T,
)
    requires
        m.wf(),
        m.valid(h),
        prior.index == h.index,
        m.issued(prior),
        h.generation + 1 < MAX_GENERATION,
    ensures
        ({
            let h2 = m.free_m(h).spawn_handle();
            &&& h2.index == h.index
            &&& h2.generation > prior.generation
            &&& h2.generation > h.generation
        }),
{
    let m1 = m.free_m(h);
    assert(m1.free.last() == h.index);
}

} // verus!
