//! A verified scene data model: named collections of scene nodes with
//! prefab inheritance, qualified cross-collection references, recursive
//! instantiation into a live entity hierarchy, and per-frame local-to-
//! global transform propagation.
pub mod angle;
pub mod collection;
pub mod errors;
pub mod events;
pub mod handle;
pub mod laws;
pub mod mesh_data;
pub mod physics_data;
pub mod qualified;
pub mod scene;
pub mod store;
pub mod svec;
pub mod transform;
pub mod world;
