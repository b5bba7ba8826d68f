//! Typed failures of loading, resolution and instantiation.
//!
//! Every failure carries the offending name, and where it applies the
//! collection it was looked up in, so that no missing reference goes
//! unattributed. Callers abort the operation that failed and leave the
//! previously built state intact.
use vstd::prelude::*;

verus! {

/// A failure of collection initialization, prefab resolution or spawning.
#[derive(Debug)]
pub enum SceneError {
    /// A qualified or bare node name did not resolve in the collection
    /// it was looked up in.
    MissingNode { name: String, collection: String },
    /// The collection segment of a qualified `collection/name` path names
    /// no loaded collection.
    MissingCollectionName { name: String },
    /// A Mesh component references a mesh name absent from the resolved
    /// collection.
    MissingMesh { name: String, collection: String },
    /// A RigidBody component references a rigid-body name absent from the
    /// resolved collection.
    MissingRigidBody { name: String, collection: String },
    /// A Collider component references a collider name absent from the
    /// resolved collection.
    MissingCollider { name: String, collection: String },
    /// A prefab chain did not terminate within the bound given by the
    /// total node count: it must repeat a node, so it can never resolve.
    UnresolvedPrefabCycle { name: String },
    /// A node names a parent that does not exist in its collection.
    DanglingParentReference { node: String, parent: String },
    /// A node asks for a collider but carries no rigid body to bind it to.
    ColliderWithoutRigidBody { node: String },
    /// Instantiation descended deeper than the total node count allows:
    /// the chain of prefab-expanded children must repeat a node, so it can
    /// never finish.
    SpawnCycle { name: String },
}

/// The mathematical value of a failure.
pub enum ErrView {
    MissingNode { name: Seq<char>, collection: Seq<char> },
    MissingCollectionName { name: Seq<char> },
    MissingMesh { name: Seq<char>, collection: Seq<char> },
    MissingRigidBody { name: Seq<char>, collection: Seq<char> },
    MissingCollider { name: Seq<char>, collection: Seq<char> },
    UnresolvedPrefabCycle { name: Seq<char> },
    DanglingParentReference { node: Seq<char>, parent: Seq<char> },
    ColliderWithoutRigidBody { node: Seq<char> },
    SpawnCycle { name: Seq<char> },
}

impl View for SceneError {
    type V = ErrView;

    open spec fn view(&self) -> ErrView {
        match self {
            SceneError::MissingNode { name, collection } => ErrView::MissingNode {
                name: name@,
                collection: collection@,
            },
            SceneError::MissingCollectionName { name } => ErrView::MissingCollectionName {
                name: name@,
            },
            SceneError::MissingMesh { name, collection } => ErrView::MissingMesh {
                name: name@,
                collection: collection@,
            },
            SceneError::MissingRigidBody { name, collection } => ErrView::MissingRigidBody {
                name: name@,
                collection: collection@,
            },
            SceneError::MissingCollider { name, collection } => ErrView::MissingCollider {
                name: name@,
                collection: collection@,
            },
            SceneError::UnresolvedPrefabCycle { name } => ErrView::UnresolvedPrefabCycle {
                name: name@,
            },
            SceneError::DanglingParentReference { node, parent } => {
                ErrView::DanglingParentReference { node: node@, parent: parent@ }
            },
            SceneError::ColliderWithoutRigidBody { node } => ErrView::ColliderWithoutRigidBody {
                node: node@,
            },
            SceneError::SpawnCycle { name } => ErrView::SpawnCycle { name: name@ },
        }
    }
}

} // verus!
