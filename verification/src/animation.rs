//! Animations and their tracks: handle-carrying payloads that must follow
//! the resolve protocol.
//!
//! A track targets a scene node by handle.  Those handles are recorded
//! against one particular graph; after a structural rebuild (a filtered
//! clone, a load) they must be remapped through the clone's table or
//! re-validated, never trusted as they are.

use vstd::prelude::*;

use crate::graph::{lookup_m, Node, RemapEntry, RemapTable};
use crate::handle::Handle;
use crate::pool::PoolModel;

verus! {

/// One animation track, targeting a scene node.
#[derive(Clone, Copy, Debug)]
pub struct Track {
    pub node: Handle<Node>,
}

impl Track {
    /// Builds a track targeting `node`.
    pub fn new(node: Handle<Node>) -> (t: Track)
        ensures
            t.node == node,
    {
        Track { node }
    }

    /// The node this track targets.
    pub fn get_node(&self) -> (h: Handle<Node>)
        ensures
            h == self.node,
    {
        self.node
    }
}

/// A named animation: a list of tracks.
pub struct Animation {
    pub name: String,
    pub tracks: Vec<Track>,
}

/// Whether any track of `tracks` targets `node`.
pub open spec fn references_node(tracks: Seq<Track>, node: Handle<Node>) -> bool {
    exists|k: int| 0 <= k < tracks.len() && tracks[k].node == node
}

/// The first `n` tracks remapped through table `t`: a track whose node
/// the table resolves is redirected to the new handle, every other track
/// is dropped.
pub open spec fn remapped_tracks_prefix(
    tracks: Seq<Track>,
    t: Seq<Option<RemapEntry>>,
    n: int,
) -> Seq<Track>
    decreases n,
{
    if n <= 0 {
        Seq::empty()
    } else {
        let rest = remapped_tracks_prefix(tracks, t, n - 1);
        match lookup_m(t, tracks[n - 1].node) {
            Some(nh) => rest.push(Track { node: nh }),
            None => rest,
        }
    }
}

/// All tracks remapped through table `t`.
pub open spec fn remapped_tracks_m(tracks: Seq<Track>, t: Seq<Option<RemapEntry>>) -> Seq<
    Track,
> {
    remapped_tracks_prefix(tracks, t, tracks.len() as int)
}

/// The first `n` tracks that survive a resolve against graph `g`: those
/// whose node handle is still valid, in order.
pub open spec fn resolved_tracks_prefix(tracks: Seq<Track>, g: PoolModel<Node>, n: int) -> Seq<
    Track,
>
    decreases n,
{
    if n <= 0 {
        Seq::empty()
    } else {
        let rest = resolved_tracks_prefix(tracks, g, n - 1);
        if g.valid(tracks[n - 1].node) {
            rest.push(tracks[n - 1])
        } else {
            rest
        }
    }
}

/// All tracks that survive a resolve against graph `g`.
pub open spec fn resolved_tracks_m(tracks: Seq<Track>, g: PoolModel<Node>) -> Seq<Track> {
    resolved_tracks_prefix(tracks, g, tracks.len() as int)
}

impl Animation {
    /// Builds an empty animation named `name`.
    pub fn new(name: String) -> (a: Animation)
        ensures
            a.name == name,
            a.tracks@ == Seq::<Track>::empty(),
    {
        let a = Animation { name, tracks: Vec::new() };
        proof {
            assert(a.tracks@ =~= Seq::<Track>::empty());
        }
        a
    }

    /// Appends a track targeting `node`.
    pub fn add_track(&mut self, node: Handle<Node>)
        ensures
            final(self).tracks@ == old(self).tracks@.push(Track { node }),
            final(self).name == old(self).name,
    {
        self.tracks.push(Track { node });
    }

    /// The tracks, in order.
    pub fn get_tracks(&self) -> (r: &Vec<Track>)
        ensures
            r@ == self.tracks@,
    {
        &self.tracks
    }

    /// A copy of this animation with every track pushed through the remap
    /// table: redirected where the table resolves the old node, dropped
    /// where it does not.
    pub fn duplicate_remapped(&self, table: &RemapTable) -> (a: Animation)
        ensures
            a.name == self.name,
            a.tracks@ == remapped_tracks_m(self.tracks@, table@),
    {
        let n = self.tracks.len();
        let mut tracks: Vec<Track> = Vec::new();
        let mut i: usize = 0;
        while i < n
            invariant
                n == self.tracks@.len(),
                0 <= i <= n,
                tracks@ == remapped_tracks_prefix(self.tracks@, table@, i as int),
            decreases n - i,
        {
            let track = self.tracks[i];
            match table.lookup(track.node) {
                Some(new_handle) => tracks.push(Track { node: new_handle }),
                None => (),
            }
            i += 1;
        }
        Animation { name: self.name.clone(), tracks }
    }

    /// Drops every track whose node handle is no longer valid in `g`; the
    /// remaining tracks are untouched and in order.
    pub fn resolve(&mut self, graph: &crate::graph::Graph)
        ensures
            final(self).tracks@ == resolved_tracks_m(old(self).tracks@, graph@),
            final(self).name == old(self).name,
    {
        let n = self.tracks.len();
        let mut kept: Vec<Track> = Vec::new();
        let mut i: usize = 0;
        while i < n
            invariant
                n == old(self).tracks@.len(),
                self.tracks@ == old(self).tracks@,
                self.name == old(self).name,
                0 <= i <= n,
                kept@ == resolved_tracks_prefix(old(self).tracks@, graph@, i as int),
            decreases n - i,
        {
            let track = self.tracks[i];
            if graph.is_valid_handle(track.node) {
                kept.push(track);
            }
            i += 1;
        }
        self.tracks = kept;
    }
}

/// A container of animations.
pub struct AnimationContainer {
    animations: Vec<Animation>,
}

/// The first `n` animations that survive removing `node`: an animation
/// with any track targeting the node goes away whole, the rest stay in
/// order.  (The views of the kept animations, in order.)
pub open spec fn without_node_prefix(
    anims: Seq<Animation>,
    node: Handle<Node>,
    n: int,
) -> Seq<Animation>
    decreases n,
{
    if n <= 0 {
        Seq::empty()
    } else {
        let rest = without_node_prefix(anims, node, n - 1);
        if references_node(anims[n - 1].tracks@, node) {
            rest
        } else {
            rest.push(anims[n - 1])
        }
    }
}

/// All animations that survive removing `node`.
pub open spec fn without_node_m(anims: Seq<Animation>, node: Handle<Node>) -> Seq<Animation> {
    without_node_prefix(anims, node, anims.len() as int)
}

impl View for AnimationContainer {
    type V = Seq<Animation>;

    closed spec fn view(&self) -> Seq<Animation> {
        self.animations@
    }
}

impl AnimationContainer {
    /// Creates an empty container.
    pub fn new() -> (c: AnimationContainer)
        ensures
            c@ == Seq::<Animation>::empty(),
    {
        let c = AnimationContainer { animations: Vec::new() };
        proof {
            assert(c@ =~= Seq::<Animation>::empty());
        }
        c
    }

    /// Appends an animation.
    pub fn add(&mut self, animation: Animation)
        ensures
            final(self)@ == old(self)@.push(animation),
    {
        self.animations.push(animation);
    }

    /// How many animations the container holds.
    pub fn len(&self) -> (n: usize)
        ensures
            n == self@.len(),
    {
        self.animations.len()
    }

    /// Read access to animation `i`.
    pub fn at(&self, i: usize) -> (r: Option<&Animation>)
        ensures
            r.is_some() == (i < self@.len()),
            r.is_some() ==> *r.unwrap() == self@[i as int],
    {
        if i < self.animations.len() {
            Some(&self.animations[i])
        } else {
            None
        }
    }

    /// Drops every animation that has a track targeting `node`; run when
    /// the node is removed from the scene.
    pub fn retain_without_node(&mut self, node: Handle<Node>)
        ensures
            final(self)@ == without_node_m(old(self)@, node),
    {
        let ghost orig = self.animations@;
        let mut source: Vec<Animation> = Vec::new();
        core::mem::swap(&mut source, &mut self.animations);
        let ghost mut processed: Seq<Animation> = Seq::empty();
        proof {
            assert(orig =~= processed + source@);
        }
        while source.len() > 0
            invariant
                orig == processed + source@,
                processed.len() + source@.len() == orig.len(),
                self.animations@ == without_node_prefix(orig, node, processed.len() as int),
            decreases source@.len(),
        {
            let animation = source.remove(0);
            proof {
                assert(animation == orig[processed.len() as int]);
                processed = processed.push(animation);
                assert(orig =~= processed + source@);
            }
            let mut hit = false;
            let tracks_len = animation.tracks.len();
            let mut k: usize = 0;
            while k < tracks_len
                invariant
                    tracks_len == animation.tracks@.len(),
                    0 <= k <= tracks_len,
                    hit ==> references_node(animation.tracks@, node),
                    !hit ==> forall|j: int| 0 <= j < k ==> animation.tracks@[j].node != node,
                decreases tracks_len - k,
            {
                let track = animation.tracks[k];
                if track.node.index == node.index && track.node.generation == node.generation {
                    proof {
                        assert(animation.tracks@[k as int].node == node);
                    }
                    hit = true;
                }
                k += 1;
            }
            proof {
                if !hit && references_node(animation.tracks@, node) {
                    let w = choose|j: int|
                        0 <= j < animation.tracks@.len() && animation.tracks@[j].node == node;
                    assert(false);
                }
            }
            if !hit {
                self.animations.push(animation);
            }
        }
        proof {
            assert(processed =~= orig);
        }
    }

    /// Rebuilds the container through the remap table: every animation is
    /// copied with its tracks redirected to new handles, tracks of
    /// filtered-out or stale nodes dropped.
    pub fn duplicate_remapped(&self, table: &RemapTable) -> (c: AnimationContainer)
        ensures
            c@.len() == self@.len(),
            forall|i: int|
                0 <= i < self@.len() ==> (#[trigger] c@[i]).name == self@[i].name && c@[i].tracks@
                    == remapped_tracks_m(self@[i].tracks@, table@),
    {
        let n = self.animations.len();
        let mut out: Vec<Animation> = Vec::new();
        let mut i: usize = 0;
        while i < n
            invariant
                n == self@.len(),
                0 <= i <= n,
                out@.len() == i,
                forall|j: int|
                    0 <= j < i ==> (#[trigger] out@[j]).name == self@[j].name && out@[j].tracks@
                        == remapped_tracks_m(self@[j].tracks@, table@),
            decreases n - i,
        {
            let copy = self.animations[i].duplicate_remapped(table);
            out.push(copy);
            i += 1;
        }
        AnimationContainer { animations: out }
    }

    /// The resolve pass for animations: every track whose node handle is
    /// no longer valid in `g` is dropped; nothing else changes.
    pub fn resolve(&mut self, graph: &crate::graph::Graph)
        ensures
            final(self)@.len() == old(self)@.len(),
            forall|i: int|
                0 <= i < old(self)@.len() ==> (#[trigger] final(self)@[i]).name == old(
                    self,
                )@[i].name && final(self)@[i].tracks@ == resolved_tracks_m(
                    old(self)@[i].tracks@,
                    graph@,
                ),
    {
        let n = self.animations.len();
        let mut i: usize = 0;
        while i < n
            invariant
                n == old(self)@.len(),
                self@.len() == n,
                0 <= i <= n,
                forall|j: int| i <= j < n ==> self@[j] == old(self)@[j],
                forall|j: int|
                    0 <= j < i ==> (#[trigger] self@[j]).name == old(self)@[j].name
                        && self@[j].tracks@ == resolved_tracks_m(old(self)@[j].tracks@, graph@),
            decreases n - i,
        {
            let animation = &mut self.animations[i];
            animation.resolve(graph);
            i += 1;
        }
    }
}

} // verus!
