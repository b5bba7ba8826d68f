//! Rigid-body and collider definitions as authored in a collection.
//!
//! These are data only: the physics engine that bodies and colliders are
//! registered with lives outside the library and is reached through opaque
//! handles.
use vstd::prelude::*;

verus! {

/// How the physics engine should treat a body.
#[derive(Clone, Copy, PartialEq, Eq, Structural, Debug)]
pub enum RigidBodyStatus {
    Static,
    Dynamic,
    Kinematic,
}

/// A named rigid-body definition.
#[derive(Debug)]
pub struct RigidBody {
    pub name: String,
    pub status: RigidBodyStatus,
}

/// The mathematical value of a rigid-body definition.
pub struct BodyView {
    pub name: Seq<char>,
    pub status: RigidBodyStatus,
}

impl View for RigidBody {
    type V = BodyView;

    open spec fn view(&self) -> BodyView {
        BodyView { name: self.name@, status: self.status }
    }
}

/// A collider shape. Half extents are in sub-units.
#[derive(Clone, Copy, PartialEq, Eq, Structural, Debug)]
pub enum Shape {
    Cuboid(i64, i64),
    Blubb,
}

/// A named collider definition.
#[derive(Debug)]
pub struct Collider {
    pub name: String,
    pub shape: Shape,
}

/// The mathematical value of a collider definition.
pub struct ColliderView {
    pub name: Seq<char>,
    pub shape: Shape,
}

impl View for Collider {
    type V = ColliderView;

    open spec fn view(&self) -> ColliderView {
        ColliderView { name: self.name@, shape: self.shape }
    }
}

} // verus!
