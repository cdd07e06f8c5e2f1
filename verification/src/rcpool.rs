//! The reference-counted generational arena.
//!
//! An `RcPool<T>` is a slot arena whose entries additionally carry a
//! reference count, for values owned by several places at once (textures,
//! models, shared geometry).  A value enters with count one, `share_handle`
//! increments the count, `release` decrements it, and the slot is freed —
//! exactly as in the plain arena, generation bump included — when the count
//! goes from one to zero.  A count of zero and an empty slot coincide.

use core::marker::PhantomData;
use vstd::prelude::*;

use crate::handle::{Handle, NONE_INDEX};
use crate::pool::MAX_GENERATION;

verus! {

/// One reference-counted slot: payload, generation, and how many holders
/// share the value.
pub struct RcSlot<T> {
    pub payload: Option<T>,
    pub generation: u32,
    pub ref_count: u32,
}

/// The mathematical state of a reference-counted pool.
#[verifier::ext_equal]
pub struct RcPoolModel<T> {
    pub slots: Seq<RcSlot<T>>,
    pub free: Seq<u32>,
}

impl<T> RcPoolModel<T> {
    /// The model of a freshly created pool.
    pub open spec fn empty() -> RcPoolModel<T> {
        RcPoolModel { slots: Seq::empty(), free: Seq::empty() }
    }

    /// How many slots the pool owns, occupied or not.
    pub open spec fn num_slots(self) -> int {
        self.slots.len() as int
    }

    /// Whether slot `i` exists and holds a value.
    pub open spec fn occupied(self, i: int) -> bool {
        0 <= i < self.num_slots() && self.slots[i].payload is Some
    }

    /// The reference count of slot `i`.
    pub open spec fn rc_of(self, i: int) -> u32 {
        self.slots[i].ref_count
    }

    /// Whether `h` currently names a live value.
    pub open spec fn valid(self, h: Handle<T>) -> bool {
        &&& 0 <= h.index < self.num_slots()
        &&& self.slots[h.index as int].generation == h.generation
        &&& self.slots[h.index as int].payload is Some
    }

    /// Whether the slot `h` points into has moved past the handle.
    pub open spec fn outlived(self, h: Handle<T>) -> bool {
        &&& 0 <= h.index < self.num_slots()
        &&& self.slots[h.index as int].generation > h.generation
    }

    /// What a handle-validated lookup yields.
    pub open spec fn borrow_m(self, h: Handle<T>) -> Option<T> {
        if self.valid(h) {
            self.slots[h.index as int].payload
        } else {
            None
        }
    }

    /// The handle that currently names slot `i`.
    pub open spec fn handle_at(self, i: int) -> Handle<T> {
        Handle { index: i as u32, generation: self.slots[i].generation, entity_kind: PhantomData }
    }

    /// Whether an insertion can proceed.
    pub open spec fn can_spawn(self) -> bool {
        self.free.len() > 0 || self.num_slots() < NONE_INDEX as int
    }

    /// The index an insertion will fill.
    pub open spec fn spawn_index(self) -> int {
        if self.free.len() > 0 {
            self.free.last() as int
        } else {
            self.num_slots()
        }
    }

    /// The handle an insertion will return.
    pub open spec fn spawn_handle(self) -> Handle<T> {
        if self.free.len() > 0 {
            Handle {
                index: self.free.last(),
                generation: self.slots[self.free.last() as int].generation,
                entity_kind: PhantomData,
            }
        } else {
            Handle { index: self.num_slots() as u32, generation: 0, entity_kind: PhantomData }
        }
    }

    /// The model after inserting `value` with a reference count of one.
    pub open spec fn spawn_m(self, value: T) -> RcPoolModel<T> {
        if self.free.len() > 0 {
            let i = self.free.last() as int;
            RcPoolModel {
                slots: self.slots.update(
                    i,
                    RcSlot {
                        payload: Some(value),
                        generation: self.slots[i].generation,
                        ref_count: 1u32,
                    },
                ),
                free: self.free.drop_last(),
            }
        } else {
            RcPoolModel {
                slots: self.slots.push(
                    RcSlot { payload: Some(value), generation: 0, ref_count: 1u32 },
                ),
                free: self.free,
            }
        }
    }

    /// The model after sharing `h`: a valid handle's count grows by one; an
    /// invalid handle changes nothing.
    pub open spec fn share_m(self, h: Handle<T>) -> RcPoolModel<T> {
        if self.valid(h) {
            let i = h.index as int;
            let s = self.slots[i];
            RcPoolModel {
                slots: self.slots.update(
                    i,
                    RcSlot {
                        payload: s.payload,
                        generation: s.generation,
                        ref_count: (s.ref_count + 1) as u32,
                    },
                ),
                free: self.free,
            }
        } else {
            self
        }
    }

    /// The model after releasing `h`: a valid handle's count shrinks by
    /// one, and at zero the slot is freed exactly as in the plain arena,
    /// generation bump included.  An invalid handle changes nothing.
    pub open spec fn release_m(self, h: Handle<T>) -> RcPoolModel<T> {
        if self.valid(h) {
            let i = h.index as int;
            let s = self.slots[i];
            if s.ref_count > 1 {
                RcPoolModel {
                    slots: self.slots.update(
                        i,
                        RcSlot {
                            payload: s.payload,
                            generation: s.generation,
                            ref_count: (s.ref_count - 1) as u32,
                        },
                    ),
                    free: self.free,
                }
            } else {
                let bumped = (s.generation + 1) as u32;
                let slots1 = self.slots.update(
                    i,
                    RcSlot { payload: None, generation: bumped, ref_count: 0u32 },
                );
                if bumped < MAX_GENERATION {
                    RcPoolModel { slots: slots1, free: self.free.push(h.index) }
                } else {
                    RcPoolModel { slots: slots1, free: self.free }
                }
            }
        } else {
            self
        }
    }

    /// The model after `n` consecutive shares of `h`.
    pub open spec fn share_n(self, h: Handle<T>, n: nat) -> RcPoolModel<T>
        decreases n,
    {
        if n == 0 {
            self
        } else {
            self.share_m(h).share_n(h, (n - 1) as nat)
        }
    }

    /// The model after `n` consecutive releases of `h`.
    pub open spec fn release_n(self, h: Handle<T>, n: nat) -> RcPoolModel<T>
        decreases n,
    {
        if n == 0 {
            self
        } else {
            self.release_m(h).release_n(h, (n - 1) as nat)
        }
    }

    /// Well-formedness: as for the plain arena, and additionally a slot is
    /// empty exactly when its reference count is zero.
    pub open spec fn wf(self) -> bool {
        &&& self.slots.len() <= NONE_INDEX as int
        &&& forall|k: int|
            0 <= k < self.free.len() ==> 0 <= #[trigger] self.free[k] < self.slots.len()
        &&& forall|k: int|
            0 <= k < self.free.len() ==> self.slots[#[trigger] self.free[k] as int].payload is None
        &&& forall|k: int|
            0 <= k < self.free.len() ==> self.slots[#[trigger] self.free[k] as int].generation
                < MAX_GENERATION
        &&& forall|k1: int, k2: int|
            0 <= k1 < k2 < self.free.len() ==> #[trigger] self.free[k1] != #[trigger] self.free[k2]
        &&& forall|i: int|
            0 <= i < self.slots.len() && self.slots[i].payload is None
                && #[trigger] self.slots[i].generation < MAX_GENERATION ==> self.free.contains(
                i as u32,
            )
        &&& forall|i: int|
            0 <= i < self.slots.len() && #[trigger] self.slots[i].payload is Some
                ==> self.slots[i].generation < MAX_GENERATION
        &&& forall|i: int|
            0 <= i < self.slots.len() ==> ((#[trigger] self.slots[i].payload is Some)
                <==> self.slots[i].ref_count >= 1)
    }
}

/// A reference-counted generational slot arena owning values of type `T`.
pub struct RcPool<T> {
    slots: Vec<RcSlot<T>>,
    free: Vec<u32>,
}

impl<T> View for RcPool<T> {
    type V = RcPoolModel<T>;

    closed spec fn view(&self) -> RcPoolModel<T> {
        RcPoolModel { slots: self.slots@, free: self.free@ }
    }
}

impl<T> RcPool<T> {
    /// Well-formedness of the pool, stated on its model.
    pub open spec fn wf(self) -> bool {
        self@.wf()
    }

    /// Creates an empty pool.
    pub fn new() -> (p: RcPool<T>)
        ensures
            p@ == RcPoolModel::<T>::empty(),
            p.wf(),
    {
        let p = RcPool { slots: Vec::new(), free: Vec::new() };
        proof {
            assert(p@.slots =~= Seq::<RcSlot<T>>::empty());
            assert(p@.free =~= Seq::<u32>::empty());
        }
        p
    }

    /// Inserts `value` with a reference count of one and returns the
    /// handle that names it.
    pub fn spawn(&mut self, value: T) -> (h: Handle<T>)
        requires
            old(self).wf(),
            old(self)@.can_spawn(),
        ensures
            final(self)@ == old(self)@.spawn_m(value),
            h == old(self)@.spawn_handle(),
            final(self).wf(),
            final(self)@.valid(h),
            final(self)@.rc_of(h.index as int) == 1,
    {
        proof {
            lemma_rc_spawn_wf(old(self)@, value);
        }
        match self.free.pop() {
            Some(index) => {
                let iu = index as usize;
                let s = &mut self.slots[iu];
                s.payload = Some(value);
                s.ref_count = 1;
                let generation = s.generation;
                Handle::make(index, generation)
            },
            None => {
                let index = self.slots.len() as u32;
                self.slots.push(RcSlot { payload: Some(value), generation: 0, ref_count: 1 });
                Handle::make(index, 0)
            },
        }
    }

    /// Shares a live value: increments its reference count and returns an
    /// equal handle.  On an invalid handle nothing observable happens and
    /// the "none" handle comes back.
    pub fn share_handle(&mut self, h: &Handle<T>) -> (r: Handle<T>)
        requires
            old(self).wf(),
            old(self)@.valid(*h) ==> old(self)@.rc_of(h.index as int) < 0xFFFF_FFFF,
        ensures
            final(self)@ == old(self)@.share_m(*h),
            final(self).wf(),
            old(self)@.valid(*h) ==> r == *h,
            !old(self)@.valid(*h) ==> r.spec_is_none() && final(self)@ == old(self)@,
    {
        proof {
            lemma_rc_share_wf(old(self)@, *h);
        }
        let iu = h.index as usize;
        if iu < self.slots.len() && self.slots[iu].generation == h.generation
            && self.slots[iu].payload.is_some() {
            let s = &mut self.slots[iu];
            s.ref_count = s.ref_count + 1;
            Handle::make(h.index, h.generation)
        } else {
            Handle::none()
        }
    }

    /// Releases one holder's claim on a live value: decrements the count
    /// and, when it reaches zero, frees the slot — payload dropped,
    /// generation bumped, index stacked for reuse.  Releasing an invalid
    /// (already freed, stale, or none) handle is a no-op.
    pub fn release(&mut self, h: &Handle<T>)
        requires
            old(self).wf(),
        ensures
            final(self)@ == old(self)@.release_m(*h),
            final(self).wf(),
    {
        proof {
            lemma_rc_release_wf(old(self)@, *h);
        }
        let iu = h.index as usize;
        if iu < self.slots.len() && self.slots[iu].generation == h.generation
            && self.slots[iu].payload.is_some() {
            let count = self.slots[iu].ref_count;
            let generation = self.slots[iu].generation;
            if count > 1 {
                let s = &mut self.slots[iu];
                s.ref_count = count - 1;
            } else {
                let s = &mut self.slots[iu];
                s.payload = None;
                s.ref_count = 0;
                s.generation = generation + 1;
                if generation + 1 < MAX_GENERATION {
                    self.free.push(h.index);
                }
            }
        }
    }

    /// Handle-validated lookup: yields the payload iff `h` is valid.
    pub fn borrow(&self, h: &Handle<T>) -> (r: Option<&T>)
        ensures
            r.is_some() == self@.valid(*h),
            r.is_some() ==> Some(*r.unwrap()) == self@.borrow_m(*h),
    {
        let iu = h.index as usize;
        if iu < self.slots.len() {
            let s = &self.slots[iu];
            if s.generation == h.generation {
                s.payload.as_ref()
            } else {
                None
            }
        } else {
            None
        }
    }

    /// Handle-validated mutable lookup: yields the payload iff `h` is
    /// valid.  Writing through the result replaces the payload; generation,
    /// reference count and free stack are untouched.
    pub fn borrow_mut(&mut self, h: &Handle<T>) -> (r: Option<&mut T>)
        ensures
            r.is_some() == old(self)@.valid(*h),
            !old(self)@.valid(*h) ==> final(self)@ == old(self)@,
            old(self)@.valid(*h) ==> *r.unwrap() == old(self)@.slots[h.index as int].payload.unwrap()
                && final(self)@.slots == old(self)@.slots.update(
                h.index as int,
                RcSlot {
                    payload: Some(*final(r.unwrap())),
                    generation: h.generation,
                    ref_count: old(self)@.slots[h.index as int].ref_count,
                },
            ) && final(self)@.free == old(self)@.free,
    {
        let iu = h.index as usize;
        if iu < self.slots.len() && self.slots[iu].generation == h.generation
            && self.slots[iu].payload.is_some() {
            let s = &mut self.slots[iu];
            s.payload.as_mut()
        } else {
            None
        }
    }

    /// Direct occupancy-respecting read of slot `index`; the generation is
    /// not consulted.
    pub fn at(&self, index: u32) -> (r: Option<&T>)
        ensures
            r.is_some() == self@.occupied(index as int),
            r.is_some() ==> Some(*r.unwrap()) == self@.slots[index as int].payload,
    {
        let iu = index as usize;
        if iu < self.slots.len() {
            self.slots[iu].payload.as_ref()
        } else {
            None
        }
    }

    /// Direct occupancy-respecting mutable read of slot `index`.
    pub fn at_mut(&mut self, index: u32) -> (r: Option<&mut T>)
        ensures
            r.is_some() == old(self)@.occupied(index as int),
            !old(self)@.occupied(index as int) ==> final(self)@ == old(self)@,
            old(self)@.occupied(index as int) ==> *r.unwrap() == old(self)@.slots[index as int].payload.unwrap()
                && final(self)@.slots == old(self)@.slots.update(
                index as int,
                RcSlot {
                    payload: Some(*final(r.unwrap())),
                    generation: old(self)@.slots[index as int].generation,
                    ref_count: old(self)@.slots[index as int].ref_count,
                },
            ) && final(self)@.free == old(self)@.free,
    {
        let iu = index as usize;
        if iu < self.slots.len() && self.slots[iu].payload.is_some() {
            let s = &mut self.slots[iu];
            s.payload.as_mut()
        } else {
            None
        }
    }

    /// The handle that currently names slot `index`.
    pub fn handle_from_index(&self, index: u32) -> (h: Handle<T>)
        requires
            0 <= index < self@.num_slots(),
        ensures
            h == self@.handle_at(index as int),
    {
        let generation = self.slots[index as usize].generation;
        Handle::make(index, generation)
    }

    /// Pure validity test for `h`; no side effects.
    pub fn is_valid(&self, h: &Handle<T>) -> (b: bool)
        ensures
            b == self@.valid(*h),
    {
        let iu = h.index as usize;
        iu < self.slots.len() && self.slots[iu].generation == h.generation
            && self.slots[iu].payload.is_some()
    }

    /// The reference count behind `h`: zero for an invalid handle.
    pub fn ref_count(&self, h: &Handle<T>) -> (n: u32)
        ensures
            self@.valid(*h) ==> n == self@.rc_of(h.index as int),
            !self@.valid(*h) ==> n == 0,
    {
        let iu = h.index as usize;
        if iu < self.slots.len() && self.slots[iu].generation == h.generation
            && self.slots[iu].payload.is_some() {
            proof {
                assert(self@.valid(*h));
            }
            self.slots[iu].ref_count
        } else {
            0
        }
    }

    /// The number of slots the pool owns, occupied or not.
    pub fn get_capacity(&self) -> (n: usize)
        ensures
            n == self@.num_slots(),
    {
        self.slots.len()
    }

    /// Rebuilds a pool from persisted occupancy: entry `i` becomes slot
    /// `i`, every generation starts over at zero, every restored value
    /// starts at a reference count of one, and the free stack is rebuilt
    /// from the gaps in ascending index order.
    pub fn restore_from(entries: Vec<Option<T>>) -> (p: RcPool<T>)
        requires
            entries@.len() <= NONE_INDEX as int,
        ensures
            p@ == RcPoolModel::restored(entries@),
            p.wf(),
    {
        let ghost entries0 = entries@;
        let mut entries = entries;
        let n = entries.len();
        let mut slots: Vec<RcSlot<T>> = Vec::new();
        let mut free: Vec<u32> = Vec::new();
        let mut i: usize = 0;
        while i < n
            invariant
                n == entries0.len(),
                n <= NONE_INDEX as int,
                entries@.len() == n,
                0 <= i <= n,
                forall|j: int| i <= j < n ==> entries@[j] == entries0[j],
                slots@.len() == i,
                forall|j: int|
                    0 <= j < i ==> slots@[j] == (RcSlot {
                        payload: entries0[j],
                        generation: 0u32,
                        ref_count: if entries0[j] is Some {
                            1u32
                        } else {
                            0u32
                        },
                    }),
                free@ == RcPoolModel::<T>::gaps_prefix(entries0, i as int),
            decreases n - i,
        {
            let e = entries[i].take();
            let gap = e.is_none();
            let count: u32 = if gap {
                0
            } else {
                1
            };
            slots.push(RcSlot { payload: e, generation: 0, ref_count: count });
            if gap {
                free.push(i as u32);
            }
            i += 1;
        }
        let p = RcPool { slots, free };
        proof {
            lemma_rc_gaps_prefix_props(entries0, n as int);
            assert(p@.slots =~= RcPoolModel::restored(entries0).slots);
            assert(p@ =~= RcPoolModel::restored(entries0));
        }
        p
    }
}

impl<T> RcPoolModel<T> {
    /// The indices among the first `n` entries whose slot is a gap, in
    /// ascending order.
    pub open spec fn gaps_prefix(entries: Seq<Option<T>>, n: int) -> Seq<u32>
        decreases n,
    {
        if n <= 0 {
            Seq::empty()
        } else {
            let rest = RcPoolModel::<T>::gaps_prefix(entries, n - 1);
            if entries[n - 1] is None {
                rest.push((n - 1) as u32)
            } else {
                rest
            }
        }
    }

    /// The model rebuilt from persisted occupancy: indices and payloads
    /// kept, generations zeroed, each restored value at count one.
    pub open spec fn restored(entries: Seq<Option<T>>) -> RcPoolModel<T> {
        RcPoolModel {
            slots: Seq::new(
                entries.len(),
                |i: int|
                    RcSlot {
                        payload: entries[i],
                        generation: 0u32,
                        ref_count: if entries[i] is Some {
                            1u32
                        } else {
                            0u32
                        },
                    },
            ),
            free: RcPoolModel::<T>::gaps_prefix(entries, entries.len() as int),
        }
    }
}

/// The gap indices of a prefix are in range, ascending, and name exactly
/// the entries without payload.
pub proof fn lemma_rc_gaps_prefix_props<T>(entries: Seq<Option<T>>, n: int)
    requires
        n <= entries.len(),
        entries.len() <= NONE_INDEX as int,
    ensures
        ({
            let gaps = RcPoolModel::<T>::gaps_prefix(entries, n);
            &&& forall|k: int| 0 <= k < gaps.len() ==> 0 <= #[trigger] gaps[k] < n
            &&& forall|k: int| 0 <= k < gaps.len() ==> entries[#[trigger] gaps[k] as int] is None
            &&& forall|k1: int, k2: int|
                0 <= k1 < k2 < gaps.len() ==> #[trigger] gaps[k1] < #[trigger] gaps[k2]
            &&& forall|i: int| 0 <= i < n && entries[i] is None ==> gaps.contains(i as u32)
        }),
    decreases n,
{
    if n > 0 {
        lemma_rc_gaps_prefix_props(entries, n - 1);
        let prev = RcPoolModel::<T>::gaps_prefix(entries, n - 1);
        let gaps = RcPoolModel::<T>::gaps_prefix(entries, n);
        assert forall|i: int| 0 <= i < n && entries[i] is None implies gaps.contains(i as u32) by {
            if i < n - 1 {
                let k = choose|k: int| 0 <= k < prev.len() && prev[k] == i as u32;
                assert(gaps[k] == i as u32);
            } else {
                assert(gaps.last() == i as u32);
            }
        }
    }
}

/// Spawning from a well-formed pool with room preserves well-formedness.
pub proof fn lemma_rc_spawn_wf<T>(m: RcPoolModel<T>, value: T)
    requires
        m.wf(),
        m.can_spawn(),
    ensures
        m.spawn_m(value).wf(),
        m.spawn_m(value).valid(m.spawn_handle()),
        forall|j: int|
            0 <= j < m.num_slots() && j != m.spawn_index() ==> m.spawn_m(value).slots[j]
                == m.slots[j],
{
    let m1 = m.spawn_m(value);
    if m.free.len() > 0 {
        let i = m.free.last() as int;
        assert(0 <= i < m.slots.len());
        assert forall|j: int|
            0 <= j < m1.slots.len() && m1.slots[j].payload is None && m1.slots[j].generation
                < MAX_GENERATION implies m1.free.contains(j as u32) by {
            assert(j != i);
            assert(m.free.contains(j as u32));
            let k = choose|k: int| 0 <= k < m.free.len() && m.free[k] == j as u32;
            assert(k != m.free.len() - 1);
            assert(m1.free[k] == j as u32);
        }
    } else {
        assert forall|j: int|
            0 <= j < m1.slots.len() && m1.slots[j].payload is None && m1.slots[j].generation
                < MAX_GENERATION implies m1.free.contains(j as u32) by {
            assert(j < m.slots.len());
            assert(m.free.contains(j as u32));
        }
    }
}

/// Sharing preserves well-formedness.
pub proof fn lemma_rc_share_wf<T>(m: RcPoolModel<T>, h: Handle<T>)
    requires
        m.wf(),
        m.valid(h) ==> m.rc_of(h.index as int) < 0xFFFF_FFFF,
    ensures
        m.share_m(h).wf(),
{
    if m.valid(h) {
        let m1 = m.share_m(h);
        assert forall|j: int|
            0 <= j < m1.slots.len() && m1.slots[j].payload is None && m1.slots[j].generation
                < MAX_GENERATION implies m1.free.contains(j as u32) by {
            assert(m.free.contains(j as u32));
        }
    }
}

/// Releasing preserves well-formedness; releasing the last claim outlives
/// the handle.
pub proof fn lemma_rc_release_wf<T>(m: RcPoolModel<T>, h: Handle<T>)
    requires
        m.wf(),
    ensures
        m.release_m(h).wf(),
        m.valid(h) && m.rc_of(h.index as int) == 1 ==> m.release_m(h).outlived(h)
            && !m.release_m(h).valid(h),
{
    if m.valid(h) {
        let i = h.index as int;
        let m1 = m.release_m(h);
        if m.slots[i].ref_count > 1 {
            assert forall|j: int|
                0 <= j < m1.slots.len() && m1.slots[j].payload is None && m1.slots[j].generation
                    < MAX_GENERATION implies m1.free.contains(j as u32) by {
                assert(m.free.contains(j as u32));
            }
        } else {
            let bumped = (m.slots[i].generation + 1) as u32;
            assert forall|k: int| 0 <= k < m.free.len() implies m.free[k] != h.index by {
                assert(m.slots[m.free[k] as int].payload is None);
            }
            if bumped < MAX_GENERATION {
                assert forall|j: int|
                    0 <= j < m1.slots.len() && m1.slots[j].payload is None && m1.slots[j].generation
                        < MAX_GENERATION implies m1.free.contains(j as u32) by {
                    if j == i {
                        assert(m1.free[m1.free.len() - 1] == j as u32);
                    } else {
                        assert(m.free.contains(j as u32));
                        let k = choose|k: int| 0 <= k < m.free.len() && m.free[k] == j as u32;
                        assert(m1.free[k] == j as u32);
                    }
                }
            } else {
                assert forall|j: int|
                    0 <= j < m1.slots.len() && m1.slots[j].payload is None && m1.slots[j].generation
                        < MAX_GENERATION implies m1.free.contains(j as u32) by {
                    assert(j != i);
                    assert(m.free.contains(j as u32));
                }
            }
        }
    }
}

/// `n` shares of a live handle add `n` to its count and change nothing
/// else.
pub proof fn lemma_share_n_adds<T>(m: RcPoolModel<T>, h: Handle<T>, n: nat)
    requires
        m.valid(h),
        m.rc_of(h.index as int) + n <= 0xFFFF_FFFF,
    ensures
        ({
            let i = h.index as int;
            let s = m.slots[i];
            m.share_n(h, n) == (RcPoolModel {
                slots: m.slots.update(
                    i,
                    RcSlot {
                        payload: s.payload,
                        generation: s.generation,
                        ref_count: (s.ref_count + n) as u32,
                    },
                ),
                free: m.free,
            })
        }),
    decreases n,
{
    let i = h.index as int;
    let s = m.slots[i];
    if n == 0 {
        assert(m.share_n(h, n) == m);
        assert(m.slots.update(i, RcSlot { payload: s.payload, generation: s.generation, ref_count: (s.ref_count + 0) as u32 }) =~= m.slots);
        assert(m.share_n(h, n) =~= (RcPoolModel {
            slots: m.slots.update(i, RcSlot { payload: s.payload, generation: s.generation, ref_count: (s.ref_count + 0) as u32 }),
            free: m.free,
        }));
    } else {
        let m1 = m.share_m(h);
        assert(m1.valid(h));
        lemma_share_n_adds(m1, h, (n - 1) as nat);
        assert(m1.slots.update(
            i,
            RcSlot {
                payload: s.payload,
                generation: s.generation,
                ref_count: (s.ref_count + n) as u32,
            },
        ) =~= m.slots.update(
            i,
            RcSlot {
                payload: s.payload,
                generation: s.generation,
                ref_count: (s.ref_count + n) as u32,
            },
        ));
    }
}

/// `n` releases of a live handle whose count exceeds `n` subtract `n` from
/// its count and change nothing else.
pub proof fn lemma_release_n_subtracts<T>(m: RcPoolModel<T>, h: Handle<T>, n: nat)
    requires
        m.valid(h),
        m.rc_of(h.index as int) > n,
    ensures
        ({
            let i = h.index as int;
            let s = m.slots[i];
            m.release_n(h, n) == (RcPoolModel {
                slots: m.slots.update(
                    i,
                    RcSlot {
                        payload: s.payload,
                        generation: s.generation,
                        ref_count: (s.ref_count - n) as u32,
                    },
                ),
                free: m.free,
            })
        }),
    decreases n,
{
    let i = h.index as int;
    let s = m.slots[i];
    if n == 0 {
        assert(m.slots.update(i, RcSlot { payload: s.payload, generation: s.generation, ref_count: (s.ref_count - 0) as u32 }) =~= m.slots);
        assert(m.release_n(h, n) =~= (RcPoolModel {
            slots: m.slots.update(i, RcSlot { payload: s.payload, generation: s.generation, ref_count: (s.ref_count - 0) as u32 }),
            free: m.free,
        }));
    } else {
        let m1 = m.release_m(h);
        assert(m1.valid(h));
        lemma_release_n_subtracts(m1, h, (n - 1) as nat);
        assert(m1.slots.update(
            i,
            RcSlot {
                payload: s.payload,
                generation: s.generation,
                ref_count: (s.ref_count - n) as u32,
            },
        ) =~= m.slots.update(
            i,
            RcSlot {
                payload: s.payload,
                generation: s.generation,
                ref_count: (s.ref_count - n) as u32,
            },
        ));
    }
}

/// Reference-count balance: starting from a fresh value (count one), `n`
/// shares followed by `n + 1` releases free the slot — the payload is
/// dropped, the generation bumped, the handle dead — and any release
/// beyond that changes nothing at all.
pub proof fn lemma_refcount_balance<T>(m: RcPoolModel<T>, h: Handle<T>, n: nat)
    requires
        m.wf(),
        m.valid(h),
        m.rc_of(h.index as int) == 1,
        n < 0xFFFF_FFFF,
    ensures
        ({
            let freed = m.share_n(h, n).release_n(h, n + 1);
            &&& !freed.valid(h)
            &&& freed.outlived(h)
            &&& freed.slots[h.index as int].payload is None
            &&& freed.slots[h.index as int].ref_count == 0
            &&& freed.release_m(h) == freed
        }),
{
    let i = h.index as int;
    lemma_share_n_adds(m, h, n);
    let m1 = m.share_n(h, n);
    assert(m1.valid(h));
    assert(m1.rc_of(i) == 1 + n);
    lemma_release_n_subtracts(m1, h, n);
    let m2 = m1.release_n(h, n);
    assert(m2.valid(h));
    assert(m2.rc_of(i) == 1);
    lemma_release_n_split(m1, h, n, 1);
    let freed = m2.release_m(h);
    assert(m1.release_n(h, n + 1) == m2.release_n(h, 1));
    assert(m2.release_n(h, 1) == m2.release_m(h).release_n(h, 0));
    assert(!freed.valid(h));
}

/// Releasing `a + b` times is releasing `a` times, then `b` times.
pub proof fn lemma_release_n_split<T>(m: RcPoolModel<T>, h: Handle<T>, a: nat, b: nat)
    ensures
        m.release_n(h, a + b) == m.release_n(h, a).release_n(h, b),
    decreases a,
{
    if a > 0 {
        lemma_release_n_split(m.release_m(h), h, (a - 1) as nat, b);
    }
}

} // verus!
