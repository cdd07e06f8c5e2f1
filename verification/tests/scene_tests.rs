//! Behaviour of scenes: binding, pruning, resolve, clone-with-filter,
//! and the scene container.

use scene_arena::animation::{Animation, AnimationContainer};
use scene_arena::graph::{Graph, Node};
use scene_arena::handle::Handle;
use scene_arena::link::PhysicsBinder;
use scene_arena::physics::Physics;
use scene_arena::physics::RigidBody;
use scene_arena::scene::Scene;
use scene_arena::container::SceneContainer;

fn named(name: &str) -> Node {
    Node::new(name.to_string())
}

#[test]
fn bind_replaces_and_returns_previous() {
    let mut scene = Scene::new();
    let a = scene.graph.add_node(named("a"));
    let b1 = scene.physics.add_body(RigidBody {});
    let b2 = scene.physics.add_body(RigidBody {});
    assert_eq!(scene.physics_binder.bind(a, b1), None);
    assert_eq!(scene.physics_binder.bound_body(a), Some(b1));
    assert_eq!(scene.physics_binder.bind(a, b2), Some(b1));
    assert_eq!(scene.physics_binder.bound_body(a), Some(b2));
    assert_eq!(scene.physics_binder.links().len(), 1);
}

#[test]
fn unbind_removes_and_returns_previous() {
    let mut scene = Scene::new();
    let a = scene.graph.add_node(named("a"));
    let b = scene.physics.add_body(RigidBody {});
    scene.physics_binder.bind(a, b);
    assert_eq!(scene.physics_binder.unbind(a), Some(b));
    assert_eq!(scene.physics_binder.unbind(a), None);
    assert_eq!(scene.physics_binder.bound_body(a), None);
}

#[test]
fn prune_drops_links_with_freed_body() {
    // Given a bound pair (a, b): free b, run the prune pass, and the
    // pair is gone — no consumer can observe a dangling b.
    let mut scene = Scene::new();
    let a = scene.graph.add_node(named("a"));
    let a2 = scene.graph.add_node(named("a2"));
    let b = scene.physics.add_body(RigidBody {});
    let b2 = scene.physics.add_body(RigidBody {});
    scene.physics_binder.bind(a, b);
    scene.physics_binder.bind(a2, b2);
    scene.physics.remove_body(b);
    scene.prune_links();
    assert_eq!(scene.physics_binder.bound_body(a), None);
    assert_eq!(scene.physics_binder.bound_body(a2), Some(b2));
    assert_eq!(scene.physics_binder.links().len(), 1);
}

#[test]
fn prune_drops_links_with_freed_node() {
    let mut scene = Scene::new();
    let a = scene.graph.add_node(named("a"));
    let b = scene.physics.add_body(RigidBody {});
    scene.physics_binder.bind(a, b);
    scene.remove_node(a);
    scene.prune_links();
    assert!(scene.physics_binder.links().is_empty());
}

#[test]
fn resolve_drops_stale_tracks_only() {
    let mut scene = Scene::new();
    let a = scene.graph.add_node(named("a"));
    let gone = scene.graph.add_node(named("gone"));
    let mut animation = Animation::new("walk".to_string());
    animation.add_track(a);
    animation.add_track(gone);
    scene.animations.add(animation);
    scene.graph.remove_node(gone);
    scene.resolve();
    let anim = scene.animations.at(0).expect("animation kept");
    assert_eq!(anim.name, "walk");
    assert_eq!(anim.get_tracks().len(), 1);
    assert_eq!(anim.get_tracks()[0].get_node(), a);
}

#[test]
fn remove_node_removes_its_animations() {
    let mut scene = Scene::new();
    let a = scene.graph.add_node(named("a"));
    let b = scene.graph.add_node(named("b"));
    let mut on_a = Animation::new("on-a".to_string());
    on_a.add_track(a);
    let mut on_b = Animation::new("on-b".to_string());
    on_b.add_track(b);
    scene.animations.add(on_a);
    scene.animations.add(on_b);
    scene.remove_node(a);
    assert!(!scene.graph.is_valid_handle(a));
    assert_eq!(scene.animations.len(), 1);
    assert_eq!(scene.animations.at(0).unwrap().name, "on-b");
    // Removing through a now-stale handle changes nothing further.
    scene.remove_node(a);
    assert_eq!(scene.animations.len(), 1);
}

#[test]
fn clone_with_filter_remaps_every_reference() {
    // Clone with a filter that drops one node, then resolve: every kept
    // cross-reference points at the new handle of its old target, and
    // references to the filtered-out node are absent, never dangling.
    let mut scene = Scene::new();
    let a = scene.graph.add_node(named("a"));
    let b = scene.graph.add_node(named("b"));
    let c = scene.graph.add_node(named("c"));
    let body = scene.physics.add_body(RigidBody {});
    scene.physics_binder.bind(a, body);
    let mut animation = Animation::new("anim".to_string());
    animation.add_track(a);
    animation.add_track(b);
    animation.add_track(c);
    scene.animations.add(animation);

    let mut copy = scene.clone(&|n: &Node| n.name != "b");

    // The new graph holds exactly the kept nodes, packed from index zero
    // with fresh generations.
    assert_eq!(copy.graph.get_capacity(), 2);
    let na = copy.graph.handle_from_index(0);
    let nc = copy.graph.handle_from_index(1);
    assert_eq!(na.generation, 0);
    assert_eq!(copy.graph.borrow(na).unwrap().name, "a");
    assert_eq!(copy.graph.borrow(nc).unwrap().name, "c");
    // Old handles mean nothing against the new arena's slots unless they
    // happen to coincide; the track list proves the remapping.
    let anim = copy.animations.at(0).expect("animation copied");
    assert_eq!(anim.get_tracks().len(), 2);
    assert_eq!(anim.get_tracks()[0].get_node(), na);
    assert_eq!(anim.get_tracks()[1].get_node(), nc);
    // The binder kept the body end and remapped the node end.
    assert_eq!(copy.physics_binder.links().len(), 1);
    assert_eq!(copy.physics_binder.bound_body(na), Some(body));
    assert!(copy.physics.is_valid_body_handle(body));
    // Resolve after the clone changes nothing: nothing dangles.
    copy.resolve();
    assert_eq!(copy.animations.at(0).unwrap().get_tracks().len(), 2);
    copy.prune_links();
    assert_eq!(copy.physics_binder.links().len(), 1);
    // The original scene is untouched.
    assert_eq!(scene.graph.get_capacity(), 3);
    assert!(scene.graph.is_valid_handle(b));
}

#[test]
fn clone_drops_stale_track_references() {
    let mut scene = Scene::new();
    let a = scene.graph.add_node(named("a"));
    let dead = scene.graph.add_node(named("dead"));
    let mut animation = Animation::new("anim".to_string());
    animation.add_track(a);
    animation.add_track(dead);
    scene.animations.add(animation);
    scene.graph.remove_node(dead);
    let copy = scene.clone(&|_n: &Node| true);
    // The stale track was dropped during the clone, not carried over.
    assert_eq!(copy.animations.at(0).unwrap().get_tracks().len(), 1);
    assert_eq!(copy.graph.get_capacity(), 1);
}

#[test]
fn scene_container_add_iter_remove() {
    let mut container = SceneContainer::new();
    let h1 = container.add(Scene::new());
    let h2 = container.add(Scene::new());
    assert_eq!(container.iter().len(), 2);
    let handles = container.iter_mut();
    assert_eq!(handles.len(), 2);
    for h in handles {
        assert!(container.borrow_mut(h).is_some());
    }
    container.remove(h1);
    assert_eq!(container.iter().len(), 1);
    assert!(container.borrow(h1).is_none());
    assert!(container.borrow(h2).is_some());
    // The freed slot is reused with a bumped generation.
    let h3 = container.add(Scene::new());
    assert_eq!(h3.index, h1.index);
    assert!(h3.generation > h1.generation);
    container.clear();
    assert!(container.iter().is_empty());
    assert!(container.borrow(h2).is_none());
}

#[test]
fn restore_then_resolve_revalidates_handles() {
    // After a bulk reconstruction only occupancy survives: generations
    // start over at zero, so stored handles must pass the resolve pass,
    // not be trusted.
    let graph = Graph::restore_from(vec![Some(named("a")), None, Some(named("c"))]);
    let physics = Physics::restore_from(vec![Some(RigidBody {})]);
    let mut animations = AnimationContainer::new();
    let mut anim = Animation::new("anim".to_string());
    anim.add_track(Handle::make(0, 0)); // matches the restored slot
    anim.add_track(Handle::make(1, 0)); // gap: must be dropped
    anim.add_track(Handle::make(2, 7)); // pre-save generation: must be dropped
    animations.add(anim);
    let mut binder = PhysicsBinder::new();
    binder.bind(Handle::make(0, 0), Handle::make(0, 0));
    binder.bind(Handle::make(1, 0), Handle::make(0, 0)); // node gap: pruned
    let mut scene = Scene { graph, animations, physics, physics_binder: binder };
    scene.resolve();
    scene.prune_links();
    assert_eq!(scene.animations.at(0).unwrap().get_tracks().len(), 1);
    assert_eq!(scene.physics_binder.links().len(), 1);
    assert_eq!(scene.physics_binder.links()[0].0, Handle::make(0, 0));
}
