//! The path-keyed resource cache.
//!
//! A `ResourceManager` stores resources in a reference-counted arena and
//! deduplicates load requests by exact equality on the stored, normalized
//! path: a request for a path already cached returns the existing entry's
//! handle instead of loading again.  A failed load caches nothing, so the
//! next request for the same path tries again.  Relative and absolute
//! spellings of the same file are not canonicalized against each other;
//! dedup sees only the stored path text.

use vstd::prelude::*;
use vstd::string::StringExecFns;

use crate::handle::{Handle, NONE_INDEX};
use crate::rcpool::{RcPool, RcPoolModel};
use crate::resource::{class_of_path, Resource, ResourceClass, ResourceKind, Texture};

verus! {

/// Why a load request yielded no resource.
#[derive(Debug)]
pub enum LoadError {
    /// The loader for the path's kind failed; nothing was cached, a later
    /// request for the same path will try again.
    LoadFailed { path: String, cause: String },
    /// The path's extension selects no known loader.
    UnknownResourceKind { path: String },
}

/// Whether any occupied slot of `m` stores a resource under `path`.
pub open spec fn has_path(m: RcPoolModel<Resource>, path: Seq<char>) -> bool {
    exists|i: int| 0 <= i < m.num_slots() && m.occupied(i) && m.slots[i].payload.unwrap().path@ == path
}

/// The first slot index at or after `i` storing a resource under `path`,
/// or `-1` when there is none.
pub open spec fn first_match_from(m: RcPoolModel<Resource>, path: Seq<char>, i: int) -> int
    decreases m.num_slots() - i,
{
    if i < 0 || i >= m.num_slots() {
        -1
    } else if m.occupied(i) && m.slots[i].payload.unwrap().path@ == path {
        i
    } else {
        first_match_from(m, path, i + 1)
    }
}

/// What a path lookup returns: the handle of the first matching slot, or
/// the "none" handle when no slot matches.
pub open spec fn find_m(m: RcPoolModel<Resource>, path: Seq<char>) -> Handle<Resource> {
    let i = first_match_from(m, path, 0);
    if i >= 0 {
        m.handle_at(i)
    } else {
        Handle {
            index: NONE_INDEX,
            generation: 0,
            entity_kind: core::marker::PhantomData,
        }
    }
}

/// No two occupied slots store the same path.
pub open spec fn paths_unique(m: RcPoolModel<Resource>) -> bool {
    forall|i: int, j: int|
        0 <= i < j < m.num_slots() && #[trigger] m.occupied(i) && #[trigger] m.occupied(j)
            ==> m.slots[i].payload.unwrap().path@ != m.slots[j].payload.unwrap().path@
}

/// A path-deduplicating cache of shared resources.
pub struct ResourceManager {
    resources: RcPool<Resource>,
    textures_path: String,
}

impl View for ResourceManager {
    type V = RcPoolModel<Resource>;

    closed spec fn view(&self) -> RcPoolModel<Resource> {
        self.resources@
    }
}

impl ResourceManager {
    /// The directory texture paths are resolved against.
    pub closed spec fn spec_textures_path(&self) -> Seq<char> {
        self.textures_path@
    }

    /// Well-formedness: the arena is well-formed and no path is cached
    /// twice.
    pub open spec fn wf(self) -> bool {
        &&& self@.wf()
        &&& paths_unique(self@)
    }

    /// Creates an empty cache.  Textures are resolved against the default
    /// data directory.
    pub fn new() -> (m: ResourceManager)
        ensures
            m@ == RcPoolModel::<Resource>::empty(),
            m.wf(),
    {
        ResourceManager {
            resources: RcPool::new(),
            textures_path: String::from_str("data/textures/"),
        }
    }

    /// Searches the cache for a resource stored under exactly `path` and
    /// returns the first match's handle, or the "none" handle when the
    /// path is absent.  The reference count is not touched; a caller that
    /// retains the handle shares it explicitly.
    pub fn find_resource(&self, path: &String) -> (h: Handle<Resource>)
        requires
            self@.wf(),
        ensures
            h == find_m(self@, path@),
            has_path(self@, path@) ==> self@.valid(h) && self@.borrow_m(h).unwrap().path@
                == path@,
            !has_path(self@, path@) ==> h.spec_is_none(),
    {
        let n = self.resources.get_capacity();
        let mut i: usize = 0;
        while i < n
            invariant
                self@.wf(),
                n == self@.num_slots(),
                0 <= i <= n,
                first_match_from(self@, path@, 0) == first_match_from(self@, path@, i as int),
            decreases n - i,
        {
            match self.resources.at(i as u32) {
                Some(resource) => {
                    if resource.path == *path {
                        proof {
                            assert(first_match_from(self@, path@, i as int) == i as int);
                            lemma_first_match_found(self@, path@, i as int);
                        }
                        return self.resources.handle_from_index(i as u32);
                    }
                },
                None => (),
            }
            i += 1;
        }
        proof {
            lemma_no_match(self@, path@);
        }
        Handle::none()
    }

    /// Stores a freshly loaded resource under a path not yet cached and
    /// returns its handle; the entry starts shared once.
    pub fn add_resource(&mut self, resource: Resource) -> (h: Handle<Resource>)
        requires
            old(self).wf(),
            old(self)@.can_spawn(),
            !has_path(old(self)@, resource.path@),
        ensures
            final(self)@ == old(self)@.spawn_m(resource),
            h == old(self)@.spawn_handle(),
            final(self).wf(),
            final(self)@.valid(h),
            final(self).spec_textures_path() == old(self).spec_textures_path(),
    {
        proof {
            lemma_spawn_keeps_unique(old(self)@, resource);
        }
        self.resources.spawn(resource)
    }

    /// Returns the cached handle for `path`, or caches what the loader
    /// produced.  On a hit nothing is loaded or counted; on a miss with a
    /// known extension the loader's value is stored (count one) or its
    /// failure reported without caching anything; an unknown extension is
    /// reported as its own error.  `loaded` is what the loader selected by
    /// `classify_path` produced for this path; it is consulted only on a
    /// miss with a known extension.
    pub fn load_or_get(&mut self, path: &String, loaded: Result<ResourceKind, String>) -> (r:
        Result<Handle<Resource>, LoadError>)
        requires
            old(self).wf(),
            old(self)@.can_spawn(),
        ensures
            final(self).wf(),
            final(self).spec_textures_path() == old(self).spec_textures_path(),
            has_path(old(self)@, path@) ==> final(self)@ == old(self)@ && r == Ok::<
                Handle<Resource>,
                LoadError,
            >(find_m(old(self)@, path@)),
            !has_path(old(self)@, path@) && class_of_path(path@) == ResourceClass::UnknownFile
                ==> final(self)@ == old(self)@ && (r matches Err(
                LoadError::UnknownResourceKind { path: p },
            ) && p@ == path@),
            !has_path(old(self)@, path@) && class_of_path(path@) != ResourceClass::UnknownFile
                && loaded is Err ==> final(self)@ == old(self)@ && (r matches Err(
                LoadError::LoadFailed { path: p, cause: c },
            ) && p@ == path@ && c == loaded->Err_0),
            !has_path(old(self)@, path@) && class_of_path(path@) != ResourceClass::UnknownFile
                && loaded is Ok ==> final(self)@ == old(self)@.spawn_m(
                Resource { path: *path, kind: loaded->Ok_0 },
            ) && r == Ok::<Handle<Resource>, LoadError>(old(self)@.spawn_handle()),
    {
        let existing = self.find_resource(path);
        if existing.is_some() {
            proof {
                lemma_find_some_means_match(old(self)@, path@);
            }
            return Ok(existing);
        }
        proof {
            lemma_find_none_means_no_match(old(self)@, path@);
        }
        match crate::resource::classify_path(path) {
            ResourceClass::UnknownFile => Err(
                LoadError::UnknownResourceKind { path: path.clone() },
            ),
            _ => match loaded {
                Ok(kind) => {
                    let resource = Resource::new(path.clone(), kind);
                    Ok(self.add_resource(resource))
                },
                Err(cause) => Err(LoadError::LoadFailed { path: path.clone(), cause }),
            },
        }
    }

    /// Handle-validated read of a cached resource.
    pub fn borrow_resource(&self, resource_handle: &Handle<Resource>) -> (r: Option<&Resource>)
        ensures
            r.is_some() == self@.valid(*resource_handle),
            r.is_some() ==> Some(*r.unwrap()) == self@.borrow_m(*resource_handle),
    {
        self.resources.borrow(resource_handle)
    }

    /// Handle-validated mutable read of a cached resource.  The resource's
    /// path must be kept as it is; contracts of the writer state it.
    pub fn borrow_resource_mut(&mut self, resource_handle: &Handle<Resource>) -> (r: Option<
        &mut Resource,
    >)
        ensures
            r.is_some() == old(self)@.valid(*resource_handle),
            !old(self)@.valid(*resource_handle) ==> final(self)@ == old(self)@,
            old(self)@.valid(*resource_handle) ==> *r.unwrap() == old(self)@.slots[resource_handle.index as int].payload.unwrap()
                && final(self)@.slots == old(self)@.slots.update(
                resource_handle.index as int,
                crate::rcpool::RcSlot {
                    payload: Some(*final(r.unwrap())),
                    generation: resource_handle.generation,
                    ref_count: old(self)@.slots[resource_handle.index as int].ref_count,
                },
            ) && final(self)@.free == old(self)@.free,
            final(self).spec_textures_path() == old(self).spec_textures_path(),
    {
        self.resources.borrow_mut(resource_handle)
    }

    /// Shares a cached resource: one more holder, same handle back.  An
    /// invalid handle is left alone and the "none" handle returned.
    pub fn share_resource_handle(&mut self, resource_handle: &Handle<Resource>) -> (r: Handle<
        Resource,
    >)
        requires
            old(self).wf(),
            old(self)@.valid(*resource_handle) ==> old(self)@.rc_of(
                resource_handle.index as int,
            ) < 0xFFFF_FFFF,
        ensures
            final(self)@ == old(self)@.share_m(*resource_handle),
            final(self).wf(),
            old(self)@.valid(*resource_handle) ==> r == *resource_handle,
            !old(self)@.valid(*resource_handle) ==> r.spec_is_none() && final(self)@ == old(
                self,
            )@,
            final(self).spec_textures_path() == old(self).spec_textures_path(),
    {
        proof {
            lemma_share_keeps_unique(old(self)@, *resource_handle);
        }
        self.resources.share_handle(resource_handle)
    }

    /// Releases one holder's claim on a cached resource; the slot is freed
    /// when the last claim goes.
    pub fn release_resource(&mut self, resource_handle: &Handle<Resource>)
        requires
            old(self).wf(),
        ensures
            final(self)@ == old(self)@.release_m(*resource_handle),
            final(self).wf(),
            final(self).spec_textures_path() == old(self).spec_textures_path(),
    {
        proof {
            lemma_release_keeps_unique(old(self)@, *resource_handle);
        }
        self.resources.release(resource_handle)
    }

    /// The reference count behind a handle; zero for an invalid one.
    pub fn resource_ref_count(&self, resource_handle: &Handle<Resource>) -> (n: u32)
        ensures
            self@.valid(*resource_handle) ==> n == self@.rc_of(resource_handle.index as int),
            !self@.valid(*resource_handle) ==> n == 0,
    {
        self.resources.ref_count(resource_handle)
    }

    /// The number of slots the cache's arena owns.
    pub fn get_capacity(&self) -> (n: usize)
        ensures
            n == self@.num_slots(),
    {
        self.resources.get_capacity()
    }

    /// The directory texture paths are resolved against.
    pub fn get_textures_path(&self) -> (p: &String)
        ensures
            p@ == self.spec_textures_path(),
    {
        &self.textures_path
    }

    /// Rewrites every cached texture through `f`, slot by slot in index
    /// order; other resource kinds, paths, counts and generations are
    /// untouched.
    pub fn for_each_texture_mut<F: Fn(&Texture) -> Texture>(&mut self, f: F)
        requires
            old(self).wf(),
            forall|t: &Texture| #[trigger] call_requires(f, (t,)),
        ensures
            final(self)@.num_slots() == old(self)@.num_slots(),
            final(self)@.free == old(self)@.free,
            forall|i: int|
                0 <= i < old(self)@.num_slots() ==> {
                    let s_old = old(self)@.slots[i];
                    let s_new = #[trigger] final(self)@.slots[i];
                    &&& s_new.generation == s_old.generation
                    &&& s_new.ref_count == s_old.ref_count
                    &&& match s_old.payload {
                        Some(r_old) => match r_old.kind {
                            ResourceKind::Texture(t_old) => s_new.payload is Some && {
                                let r_new = s_new.payload.unwrap();
                                &&& r_new.path == r_old.path
                                &&& r_new.kind matches ResourceKind::Texture(t_new)
                                    && call_ensures(f, (&t_old,), t_new)
                            },
                            _ => s_new.payload == s_old.payload,
                        },
                        None => s_new.payload is None,
                    }
                },
            final(self).wf(),
            final(self).spec_textures_path() == old(self).spec_textures_path(),
    {
        let n = self.resources.get_capacity();
        let mut i: usize = 0;
        while i < n
            invariant
                forall|t: &Texture| #[trigger] call_requires(f, (t,)),
                old(self).wf(),
                n == self@.num_slots(),
                n == old(self)@.num_slots(),
                self@.free == old(self)@.free,
                self.spec_textures_path() == old(self).spec_textures_path(),
                0 <= i <= n,
                forall|j: int| i <= j < n ==> self@.slots[j] == old(self)@.slots[j],
                forall|j: int|
                    0 <= j < i ==> {
                        let s_old = old(self)@.slots[j];
                        let s_new = #[trigger] self@.slots[j];
                        &&& s_new.generation == s_old.generation
                        &&& s_new.ref_count == s_old.ref_count
                        &&& match s_old.payload {
                            Some(r_old) => match r_old.kind {
                                ResourceKind::Texture(t_old) => s_new.payload is Some && {
                                    let r_new = s_new.payload.unwrap();
                                    &&& r_new.path == r_old.path
                                    &&& r_new.kind matches ResourceKind::Texture(t_new)
                                        && call_ensures(f, (&t_old,), t_new)
                                },
                                _ => s_new.payload == s_old.payload,
                            },
                            None => s_new.payload is None,
                        }
                    },
            decreases n - i,
        {
            match self.resources.at_mut(i as u32) {
                Some(resource) => {
                    match &mut resource.kind {
                        ResourceKind::Texture(texture) => {
                            *texture = f(&*texture);
                        },
                        _ => (),
                    }
                },
                None => (),
            }
            i += 1;
        }
        proof {
            lemma_rewrite_keeps_wf(old(self)@, self@);
        }
    }
}

/// A scan that reached `i` with a match there has found the first match:
/// `first_match_from` from the start lands on `i`.
proof fn lemma_first_match_found(m: RcPoolModel<Resource>, path: Seq<char>, i: int)
    requires
        first_match_from(m, path, 0) == i,
        0 <= i < m.num_slots(),
        m.occupied(i),
        m.slots[i].payload.unwrap().path@ == path,
    ensures
        has_path(m, path),
        find_m(m, path) == m.handle_at(i),
{
}

/// A full scan that found nothing means the path is absent.
proof fn lemma_no_match(m: RcPoolModel<Resource>, path: Seq<char>)
    requires
        first_match_from(m, path, 0) == -1,
    ensures
        !has_path(m, path),
{
    lemma_first_match_bounds(m, path, 0);
    if has_path(m, path) {
        let w = choose|i: int|
            0 <= i < m.num_slots() && m.occupied(i) && m.slots[i].payload.unwrap().path@ == path;
        assert(m.occupied(w));
        assert(false);
    }
}

/// `first_match_from(i)` is `-1` exactly when no slot at or after `i`
/// matches, and otherwise lands on the first matching slot.
proof fn lemma_first_match_bounds(m: RcPoolModel<Resource>, path: Seq<char>, i: int)
    requires
        0 <= i,
    ensures
        first_match_from(m, path, i) == -1 || first_match_from(m, path, i) >= i,
        first_match_from(m, path, i) == -1 ==> forall|j: int|
            i <= j < m.num_slots() && #[trigger] m.occupied(j)
                ==> m.slots[j].payload.unwrap().path@ != path,
        first_match_from(m, path, i) >= 0 ==> {
            let r = first_match_from(m, path, i);
            &&& i <= r < m.num_slots()
            &&& m.occupied(r)
            &&& m.slots[r].payload.unwrap().path@ == path
        },
    decreases m.num_slots() - i,
{
    if i < m.num_slots() {
        lemma_first_match_bounds(m, path, i + 1);
    }
}

/// A successful lookup certifies a cached path.
proof fn lemma_find_some_means_match(m: RcPoolModel<Resource>, path: Seq<char>)
    requires
        m.wf(),
        !find_m(m, path).spec_is_none(),
    ensures
        has_path(m, path),
        find_m(m, path).spec_is_some(),
{
    lemma_first_match_bounds(m, path, 0);
    let r = first_match_from(m, path, 0);
    if r >= 0 {
        lemma_first_match_found(m, path, r);
    }
}

/// A "none" lookup certifies an absent path.
proof fn lemma_find_none_means_no_match(m: RcPoolModel<Resource>, path: Seq<char>)
    requires
        m.wf(),
        find_m(m, path).spec_is_none(),
    ensures
        !has_path(m, path),
{
    lemma_first_match_bounds(m, path, 0);
    let r = first_match_from(m, path, 0);
    if r >= 0 {
        assert(find_m(m, path) == m.handle_at(r));
        assert(m.num_slots() <= NONE_INDEX as int);
        assert(!find_m(m, path).spec_is_none());
    } else {
        lemma_no_match(m, path);
    }
}

/// Inserting a path that is not yet cached keeps paths unique.
proof fn lemma_spawn_keeps_unique(m: RcPoolModel<Resource>, resource: Resource)
    requires
        m.wf(),
        m.can_spawn(),
        paths_unique(m),
        !has_path(m, resource.path@),
    ensures
        paths_unique(m.spawn_m(resource)),
{
    crate::rcpool::lemma_rc_spawn_wf(m, resource);
    let m1 = m.spawn_m(resource);
    let t = m.spawn_index();
    assert forall|i: int, j: int|
        0 <= i < j < m1.num_slots() && m1.occupied(i) && m1.occupied(j)
            implies m1.slots[i].payload.unwrap().path@ != m1.slots[j].payload.unwrap().path@ by {
        if i != t && j != t {
            assert(m.occupied(i) && m.occupied(j));
        } else if i == t {
            assert(m.occupied(j));
            assert(m1.slots[j] == m.slots[j]);
        } else {
            assert(m.occupied(i));
            assert(m1.slots[i] == m.slots[i]);
        }
    }
}

/// Sharing touches only a count: paths stay unique.
proof fn lemma_share_keeps_unique(m: RcPoolModel<Resource>, h: Handle<Resource>)
    requires
        paths_unique(m),
    ensures
        paths_unique(m.share_m(h)),
{
    let m1 = m.share_m(h);
    assert forall|i: int, j: int|
        0 <= i < j < m1.num_slots() && m1.occupied(i) && m1.occupied(j)
            implies m1.slots[i].payload.unwrap().path@ != m1.slots[j].payload.unwrap().path@ by {
        assert(m.occupied(i) && m.occupied(j));
        assert(m1.slots[i].payload == m.slots[i].payload);
        assert(m1.slots[j].payload == m.slots[j].payload);
    }
}

/// Releasing drops at most one entry: paths stay unique.
proof fn lemma_release_keeps_unique(m: RcPoolModel<Resource>, h: Handle<Resource>)
    requires
        paths_unique(m),
    ensures
        paths_unique(m.release_m(h)),
{
    let m1 = m.release_m(h);
    assert forall|i: int, j: int|
        0 <= i < j < m1.num_slots() && m1.occupied(i) && m1.occupied(j)
            implies m1.slots[i].payload.unwrap().path@ != m1.slots[j].payload.unwrap().path@ by {
        assert(m.occupied(i) && m.occupied(j));
        assert(m1.slots[i].payload == m.slots[i].payload);
        assert(m1.slots[j].payload == m.slots[j].payload);
    }
}

/// A scan starting at or before an occupied matching slot, with no match
/// in between, lands exactly on that slot.
proof fn lemma_first_match_lands(m: RcPoolModel<Resource>, path: Seq<char>, t: int, i: int)
    requires
        0 <= i <= t < m.num_slots(),
        m.occupied(t),
        m.slots[t].payload.unwrap().path@ == path,
        forall|j: int|
            i <= j < t && #[trigger] m.occupied(j) ==> m.slots[j].payload.unwrap().path@ != path,
    ensures
        first_match_from(m, path, i) == t,
    decreases t - i,
{
    if i < t {
        lemma_first_match_lands(m, path, t, i + 1);
    }
}

/// Dedup idempotence: after a request for `path` succeeds — whether it hit
/// the cache or stored what the loader produced — a second request for the
/// identical path finds the entry: it returns the very same handle and
/// stores nothing new; and each call that retains its handle by sharing it
/// raises the entry's count by exactly one.
pub proof fn lemma_dedup_idempotence(m: RcPoolModel<Resource>, path: String, kind: ResourceKind)
    requires
        m.wf(),
        paths_unique(m),
        m.can_spawn(),
    ensures
        ({
            // State and handle after the first successful request.
            let m1 = if has_path(m, path@) {
                m
            } else {
                m.spawn_m(Resource { path: path, kind: kind })
            };
            let h1 = if has_path(m, path@) {
                find_m(m, path@)
            } else {
                m.spawn_handle()
            };
            &&& m1.valid(h1)
            &&& has_path(m1, path@)
            &&& find_m(m1, path@) == h1
            &&& m1.rc_of(h1.index as int) < 0xFFFF_FFFF ==> m1.share_m(h1).rc_of(
                h1.index as int,
            ) == m1.rc_of(h1.index as int) + 1
        }),
{
    if has_path(m, path@) {
        lemma_first_match_bounds(m, path@, 0);
        let r = first_match_from(m, path@, 0);
        if r == -1 {
            lemma_no_match(m, path@);
            assert(false);
        }
        assert(m.valid(m.handle_at(r)));
    } else {
        let resource = Resource { path: path, kind: kind };
        let m1 = m.spawn_m(resource);
        let t = m.spawn_index();
        crate::rcpool::lemma_rc_spawn_wf(m, resource);
        assert(m1.occupied(t));
        assert(m1.slots[t].payload.unwrap().path@ == path@);
        assert(has_path(m1, path@));
        assert forall|j: int|
            0 <= j < t && #[trigger] m1.occupied(j)
                implies m1.slots[j].payload.unwrap().path@ != path@ by {
            assert(m1.slots[j] == m.slots[j]);
            assert(m.occupied(j));
        }
        lemma_first_match_lands(m1, path@, t, 0);
        assert(find_m(m1, path@) == m1.handle_at(t));
        assert(m1.handle_at(t) == m.spawn_handle());
    }
}

/// A slot-by-slot rewrite that keeps occupancy, paths, counts and
/// generations keeps the cache well-formed.
proof fn lemma_rewrite_keeps_wf(m: RcPoolModel<Resource>, m1: RcPoolModel<Resource>)
    requires
        m.wf(),
        paths_unique(m),
        m1.num_slots() == m.num_slots(),
        m1.free == m.free,
        forall|i: int|
            0 <= i < m.num_slots() ==> {
                let s_old = m.slots[i];
                let s_new = #[trigger] m1.slots[i];
                &&& s_new.generation == s_old.generation
                &&& s_new.ref_count == s_old.ref_count
                &&& (s_new.payload is Some) == (s_old.payload is Some)
                &&& (s_old.payload is Some ==> s_new.payload.unwrap().path
                    == s_old.payload.unwrap().path)
            },
    ensures
        m1.wf(),
        paths_unique(m1),
{
    assert forall|k: int| 0 <= k < m1.free.len() implies 0 <= #[trigger] m1.free[k]
        < m1.slots.len() by {}
    assert forall|i: int|
        0 <= i < m1.slots.len() && m1.slots[i].payload is None && #[trigger] m1.slots[i].generation
            < crate::pool::MAX_GENERATION implies m1.free.contains(i as u32) by {
        assert(m.slots[i].payload is None);
        assert(m.free.contains(i as u32));
    }
    assert forall|i: int, j: int|
        0 <= i < j < m1.num_slots() && #[trigger] m1.occupied(i) && #[trigger] m1.occupied(j)
            implies m1.slots[i].payload.unwrap().path@ != m1.slots[j].payload.unwrap().path@ by {
        assert(m.occupied(i) && m.occupied(j));
        assert(m1.slots[i].payload.unwrap().path == m.slots[i].payload.unwrap().path);
        assert(m1.slots[j].payload.unwrap().path == m.slots[j].payload.unwrap().path);
    }
}

} // verus!
