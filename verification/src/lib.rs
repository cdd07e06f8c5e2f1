//! A generational-handle arena storage core for scene engines.
//!
//! Entities (scene nodes, resources, physics bodies) live in arenas and are
//! referenced through lightweight generation-checked handles.  A handle that
//! outlives its slot is detected, never dereferenced into a recycled entry.
//! On top of the arenas sit a reference-counted arena for shared ownership,
//! a path-keyed resource cache, and a cross-pool link table with prune and
//! resolve passes that keep weak references sound across frees, clones and
//! bulk reconstruction.

pub mod handle;
pub mod pool;
pub mod rcpool;
pub mod resource;
pub mod manager;
pub mod graph;
pub mod physics;
pub mod link;
pub mod animation;
pub mod scene;
pub mod container;
