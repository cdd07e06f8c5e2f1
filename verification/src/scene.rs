//! Scenes: a graph of nodes, animations over them, a physics world, and
//! the binder linking nodes to bodies — with the clone-with-filter,
//! resolve and prune passes that keep every stored handle honest.

use vstd::prelude::*;

use crate::animation::{
    remapped_tracks_m, remapped_tracks_prefix, resolved_tracks_m, resolved_tracks_prefix,
    without_node_m, Animation, AnimationContainer, Track,
};
use crate::graph::{
    cloned_graph_m, lemma_lookup_injective, lemma_lookup_valid, lookup_m, remap_table_m, Graph,
    Node, RemapEntry,
};
use crate::handle::Handle;
use crate::link::{prune_m, Link};
use crate::physics::{Physics, RigidBody};
use crate::pool::PoolModel;

verus! {

/// The first `n` links pushed through the remap table: the node end is
/// redirected where the table resolves it, the body end is kept as it is
/// (the physics world is copied slot for slot, so body handles stay
/// suitable); links of filtered-out or stale nodes are dropped.
pub open spec fn remapped_links_prefix(
    links: Seq<Link>,
    t: Seq<Option<RemapEntry>>,
    n: int,
) -> Seq<Link>
    decreases n,
{
    if n <= 0 {
        Seq::empty()
    } else {
        let rest = remapped_links_prefix(links, t, n - 1);
        match lookup_m(t, links[n - 1].0) {
            Some(nh) => rest.push((nh, links[n - 1].1)),
            None => rest,
        }
    }
}

/// All links pushed through the remap table.
pub open spec fn remapped_links_m(links: Seq<Link>, t: Seq<Option<RemapEntry>>) -> Seq<Link> {
    remapped_links_prefix(links, t, links.len() as int)
}

/// A scene: the node graph, the animations over it, the physics world,
/// and the node-to-body binder.
pub struct Scene {
    /// Container for all scene nodes.
    pub graph: Graph,
    /// Animations; their tracks reference graph nodes by handle.
    pub animations: AnimationContainer,
    /// The physics world whose bodies nodes may be bound to.
    pub physics: Physics,
    /// The weak node-to-body link table bridging graph and physics.
    pub physics_binder: crate::link::PhysicsBinder,
}

impl Scene {
    /// Well-formedness of every part.
    pub open spec fn wf(self) -> bool {
        &&& self.graph.wf()
        &&& self.physics.wf()
        &&& self.physics_binder.wf()
    }

    /// Creates an empty scene.
    pub fn new() -> (s: Scene)
        ensures
            s.graph@ == PoolModel::<Node>::empty(),
            s.animations@ == Seq::<Animation>::empty(),
            s.physics@ == PoolModel::<RigidBody>::empty(),
            s.physics_binder@ == Seq::<Link>::empty(),
            s.wf(),
    {
        Scene {
            graph: Graph::new(),
            animations: AnimationContainer::new(),
            physics: Physics::new(),
            physics_binder: crate::link::PhysicsBinder::new(),
        }
    }

    /// Removes a node from the scene with its associated entities: every
    /// animation with a track on the node goes away, then the node's slot
    /// is freed.  A stale or out-of-range handle removes nothing.
    pub fn remove_node(&mut self, handle: Handle<Node>)
        requires
            old(self).graph.wf(),
        ensures
            final(self).graph@ == old(self).graph@.free_m(handle),
            final(self).animations@ == if old(self).graph@.valid(handle) {
                without_node_m(old(self).animations@, handle)
            } else {
                old(self).animations@
            },
            final(self).physics@ == old(self).physics@,
            final(self).physics_binder@ == old(self).physics_binder@,
            final(self).graph.wf(),
    {
        if self.graph.is_valid_handle(handle) {
            self.animations.retain_without_node(handle);
        }
        self.graph.remove_node(handle);
    }

    /// The resolve pass, run once after a bulk reconstruction: every
    /// stored node handle is re-validated against the graph, and tracks
    /// whose handle no longer matches are dropped rather than trusted.
    pub fn resolve(&mut self)
        ensures
            final(self).graph@ == old(self).graph@,
            final(self).physics@ == old(self).physics@,
            final(self).physics_binder@ == old(self).physics_binder@,
            final(self).animations@.len() == old(self).animations@.len(),
            forall|i: int|
                0 <= i < old(self).animations@.len() ==> {
                    let a_new = #[trigger] final(self).animations@[i];
                    &&& a_new.name == old(self).animations@[i].name
                    &&& a_new.tracks@ == resolved_tracks_m(
                        old(self).animations@[i].tracks@,
                        old(self).graph@,
                    )
                },
    {
        let graph = &self.graph;
        self.animations.resolve(graph);
    }

    /// The prune pass, run once per update step before link targets are
    /// dereferenced: every node-to-body link with a dead endpoint is
    /// dropped.
    pub fn prune_links(&mut self)
        requires
            old(self).physics_binder.wf(),
        ensures
            final(self).graph@ == old(self).graph@,
            final(self).physics@ == old(self).physics@,
            final(self).animations@ == old(self).animations@,
            final(self).physics_binder@ == prune_m(
                old(self).physics_binder@,
                old(self).graph@,
                old(self).physics@,
            ),
            final(self).physics_binder.wf(),
    {
        let graph = &self.graph;
        let physics = &self.physics;
        self.physics_binder.prune(graph, physics);
    }

    /// Clones the scene through a node filter.  The graph keeps only the
    /// accepted nodes, packed into a fresh arena; animation tracks and
    /// binder links are pushed through the old-to-new table built during
    /// the clone — redirected where their node survived, dropped where it
    /// was filtered out or already stale; the physics world is copied
    /// slot for slot, so the kept body handles remain suitable.
    pub fn clone<F: Fn(&Node) -> bool>(&self, filter: &F) -> (s: Scene)
        requires
            self.wf(),
            forall|nd: &Node| #[trigger] call_requires(filter, (nd,)),
        ensures
            s.wf(),
            s.physics@ == self.physics@,
            exists|keep: Seq<bool>|
                {
                    &&& keep.len() == self.graph@.num_slots()
                    &&& (forall|i: int|
                        0 <= i < keep.len() && self.graph@.occupied(i) ==> #[trigger] call_ensures(
                            filter,
                            (&self.graph@.slots[i].payload.unwrap(),),
                            keep[i],
                        ))
                    &&& s.graph@ == cloned_graph_m(self.graph@, keep)
                    &&& s.animations@.len() == self.animations@.len()
                    &&& (forall|i: int|
                        0 <= i < self.animations@.len() ==> (#[trigger] s.animations@[i]).name
                            == self.animations@[i].name && s.animations@[i].tracks@
                            == remapped_tracks_m(
                            self.animations@[i].tracks@,
                            remap_table_m(self.graph@, keep),
                        ))
                    &&& s.physics_binder@ == remapped_links_m(
                        self.physics_binder@,
                        remap_table_m(self.graph@, keep),
                    )
                },
    {
        let (graph, table) = self.graph.clone_filtered(filter);
        let ghost keep = choose|keep: Seq<bool>|
            {
                &&& keep.len() == self.graph@.num_slots()
                &&& (forall|i: int|
                    0 <= i < keep.len() && self.graph@.occupied(i) ==> #[trigger] call_ensures(
                        filter,
                        (&self.graph@.slots[i].payload.unwrap(),),
                        keep[i],
                    ))
                &&& graph@ == cloned_graph_m(self.graph@, keep)
                &&& table@ == remap_table_m(self.graph@, keep)
            };
        let animations = self.animations.duplicate_remapped(&table);
        let physics = self.physics.duplicate();
        let links = self.physics_binder.links();
        let n = links.len();
        let mut remapped: Vec<Link> = Vec::new();
        let mut i: usize = 0;
        while i < n
            invariant
                self.wf(),
                n == self.physics_binder@.len(),
                links@ == self.physics_binder@,
                keep.len() == self.graph@.num_slots(),
                table@ == remap_table_m(self.graph@, keep),
                0 <= i <= n,
                remapped@ == remapped_links_prefix(self.physics_binder@, table@, i as int),
            decreases n - i,
        {
            let (a, b) = links[i];
            match table.lookup(a) {
                Some(na) => remapped.push((na, b)),
                None => (),
            }
            i += 1;
        }
        proof {
            lemma_remapped_links_unique(
                self.graph@,
                keep,
                self.physics_binder@,
                self.physics_binder@.len() as int,
            );
        }
        let binder = crate::link::PhysicsBinder::from_links(remapped);
        Scene { graph, animations, physics, physics_binder: binder }
    }
}

/// A remapped link list: every link comes from an old link whose node the
/// table resolves, keys stay unique, and every node end is valid in the
/// cloned graph.
pub proof fn lemma_remapped_links_unique(
    g: PoolModel<Node>,
    keep: Seq<bool>,
    links: Seq<Link>,
    n: int,
)
    requires
        g.wf(),
        keep.len() == g.num_slots(),
        crate::link::keys_unique(links),
        n <= links.len(),
    ensures
        ({
            let t = remap_table_m(g, keep);
            let r = remapped_links_prefix(links, t, n);
            &&& forall|k: int|
                0 <= k < r.len() ==> exists|j: int|
                    0 <= j < n && lookup_m(t, links[j].0) == Some((#[trigger] r[k]).0) && r[k].1
                        == links[j].1
            &&& crate::link::keys_unique(r)
            &&& forall|k: int|
                0 <= k < r.len() ==> cloned_graph_m(g, keep).valid((#[trigger] r[k]).0)
        }),
    decreases n,
{
    let t = remap_table_m(g, keep);
    if n > 0 {
        lemma_remapped_links_unique(g, keep, links, n - 1);
        let rest = remapped_links_prefix(links, t, n - 1);
        let r = remapped_links_prefix(links, t, n);
        match lookup_m(t, links[n - 1].0) {
            Some(nh) => {
                lemma_lookup_valid(g, keep, links[n - 1].0);
                assert forall|k: int| 0 <= k < r.len() implies exists|j: int|
                    0 <= j < n && lookup_m(t, links[j].0) == Some((#[trigger] r[k]).0) && r[k].1
                        == links[j].1 by {
                    if k < rest.len() {
                        let j = choose|j: int|
                            0 <= j < n - 1 && lookup_m(t, links[j].0) == Some(rest[k].0)
                                && rest[k].1 == links[j].1;
                        assert(0 <= j < n && lookup_m(t, links[j].0) == Some(r[k].0) && r[k].1
                            == links[j].1);
                    } else {
                        assert(lookup_m(t, links[n - 1].0) == Some(r[k].0) && r[k].1 == links[n
                            - 1].1);
                    }
                }
                assert forall|k1: int, k2: int|
                    0 <= k1 < k2 < r.len() implies (r[k1]).0 != (r[k2]).0 by {
                    if k2 == r.len() - 1 {
                        let j1 = choose|j: int|
                            0 <= j < n - 1 && lookup_m(t, links[j].0) == Some(rest[k1].0)
                                && rest[k1].1 == links[j].1;
                        assert(links[j1].0 != links[n - 1].0);
                        lemma_lookup_injective(g, keep, links[j1].0, links[n - 1].0);
                    } else {
                        assert(rest[k1].0 != rest[k2].0);
                    }
                }
            },
            None => (),
        }
    }
}

/// Every track of an all-valid list survives its own resolve pass.
pub proof fn lemma_resolve_of_valid_is_identity(tracks: Seq<Track>, g: PoolModel<Node>, n: int)
    requires
        0 <= n <= tracks.len(),
        forall|k: int| 0 <= k < tracks.len() ==> g.valid((#[trigger] tracks[k]).node),
    ensures
        resolved_tracks_prefix(tracks, g, n) == tracks.subrange(0, n),
    decreases n,
{
    if n > 0 {
        lemma_resolve_of_valid_is_identity(tracks, g, n - 1);
        assert(resolved_tracks_prefix(tracks, g, n) =~= tracks.subrange(0, n));
    } else {
        assert(resolved_tracks_prefix(tracks, g, n) =~= tracks.subrange(0, n));
    }
}

/// Remapped tracks are sound: every surviving track is valid in the
/// cloned graph, reaches the very node its old track reached, and a
/// resolve pass over the remapped list changes nothing.
pub proof fn lemma_remapped_tracks_sound(
    g: PoolModel<Node>,
    keep: Seq<bool>,
    tracks: Seq<Track>,
    n: int,
)
    requires
        g.wf(),
        keep.len() == g.num_slots(),
        n <= tracks.len(),
    ensures
        ({
            let t = remap_table_m(g, keep);
            let g1 = cloned_graph_m(g, keep);
            let r = remapped_tracks_prefix(tracks, t, n);
            &&& forall|k: int| 0 <= k < r.len() ==> g1.valid((#[trigger] r[k]).node)
            &&& forall|k: int|
                0 <= k < r.len() ==> exists|j: int|
                    0 <= j < n && lookup_m(t, tracks[j].node) == Some((#[trigger] r[k]).node)
                        && g1.borrow_m(r[k].node) == g.borrow_m(tracks[j].node)
        }),
    decreases n,
{
    let t = remap_table_m(g, keep);
    let g1 = cloned_graph_m(g, keep);
    if n > 0 {
        lemma_remapped_tracks_sound(g, keep, tracks, n - 1);
        let rest = remapped_tracks_prefix(tracks, t, n - 1);
        let r = remapped_tracks_prefix(tracks, t, n);
        match lookup_m(t, tracks[n - 1].node) {
            Some(nh) => {
                lemma_lookup_valid(g, keep, tracks[n - 1].node);
                assert forall|k: int| 0 <= k < r.len() implies exists|j: int|
                    0 <= j < n && lookup_m(t, tracks[j].node) == Some((#[trigger] r[k]).node)
                        && g1.borrow_m(r[k].node) == g.borrow_m(tracks[j].node) by {
                    if k < rest.len() {
                        let j = choose|j: int|
                            0 <= j < n - 1 && lookup_m(t, tracks[j].node) == Some(rest[k].node)
                                && g1.borrow_m(rest[k].node) == g.borrow_m(tracks[j].node);
                        assert(0 <= j < n && lookup_m(t, tracks[j].node) == Some(r[k].node)
                            && g1.borrow_m(r[k].node) == g.borrow_m(tracks[j].node));
                    } else {
                        assert(lookup_m(t, tracks[n - 1].node) == Some(r[k].node));
                    }
                }
            },
            None => (),
        }
    }
}

/// Resolve determinism: after a filtered clone, every retained
/// cross-reference — animation track or node-to-body link — carries the
/// new handle of its old target, valid in the cloned graph and reaching
/// the same node; references to filtered-out or stale nodes are absent,
/// never dangling; and the resolve pass over the cloned scene's tracks
/// changes nothing, whichever nodes the filter kept.
pub proof fn lemma_resolve_determinism(
    g: PoolModel<Node>,
    keep: Seq<bool>,
    tracks: Seq<Track>,
    links: Seq<Link>,
)
    requires
        g.wf(),
        keep.len() == g.num_slots(),
        crate::link::keys_unique(links),
    ensures
        ({
            let t = remap_table_m(g, keep);
            let g1 = cloned_graph_m(g, keep);
            let r = remapped_tracks_m(tracks, t);
            let rl = remapped_links_m(links, t);
            &&& forall|k: int| 0 <= k < r.len() ==> g1.valid((#[trigger] r[k]).node)
            &&& forall|k: int|
                0 <= k < r.len() ==> exists|j: int|
                    0 <= j < tracks.len() && lookup_m(t, tracks[j].node) == Some(
                        (#[trigger] r[k]).node,
                    ) && g1.borrow_m(r[k].node) == g.borrow_m(tracks[j].node)
            &&& resolved_tracks_m(r, g1) == r
            &&& forall|k: int| 0 <= k < rl.len() ==> g1.valid((#[trigger] rl[k]).0)
            &&& crate::link::keys_unique(rl)
        }),
{
    let t = remap_table_m(g, keep);
    let g1 = cloned_graph_m(g, keep);
    let r = remapped_tracks_m(tracks, t);
    lemma_remapped_tracks_sound(g, keep, tracks, tracks.len() as int);
    lemma_resolve_of_valid_is_identity(r, g1, r.len() as int);
    assert(resolved_tracks_m(r, g1) =~= r);
    lemma_remapped_links_unique(g, keep, links, links.len() as int);
}

} // verus!
