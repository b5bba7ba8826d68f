//! A collection: a named, independently loaded set of scene nodes, meshes,
//! rigid bodies and colliders.
//!
//! Names are looked up per category; when a name occurs more than once the
//! latest definition wins. `initialize` gives the collection its identity,
//! computes every node's child list from the Parent components, and sorts
//! each node's components by type priority.
use vstd::prelude::*;

verus! {

use crate::errors::SceneError;
use crate::mesh_data::{MeshData, MeshView};
use crate::physics_data::{BodyView, Collider, ColliderView, RigidBody};
use crate::scene::{
    CompView,
    NodeView,
    SceneNode,
    comps_view,
    find_kind,
    sort_comps,
    sort_components,
};
use crate::svec::sv_contents;

/// The latest index at which `name` occurs in `names`, if it occurs at
/// all: when a name is defined twice, the later definition wins.
pub open spec fn last_index_of_name(names: Seq<Seq<char>>, name: Seq<char>) -> Option<int>
    decreases names.len(),
{
    if names.len() == 0 {
        None
    } else if names.last() == name {
        Some(names.len() - 1)
    } else {
        last_index_of_name(names.drop_last(), name)
    }
}

/// What `last_index_of_name` returns: the last occurrence, or nothing.
pub proof fn lemma_last_index_of_name(names: Seq<Seq<char>>, name: Seq<char>)
    ensures
        match last_index_of_name(names, name) {
            Some(i) => 0 <= i < names.len() && names[i] == name && (forall|j: int|
                i < j < names.len() ==> names[j] != name),
            None => forall|j: int| 0 <= j < names.len() ==> names[j] != name,
        },
    decreases names.len(),
{
    if names.len() > 0 && names.last() != name {
        lemma_last_index_of_name(names.drop_last(), name);
        assert forall|j: int| 0 <= j < names.len() - 1 implies names.drop_last()[j] == names[j] by {}
        match last_index_of_name(names.drop_last(), name) {
            Some(i) => {
                assert forall|j: int| i < j < names.len() implies names[j] != name by {
                    if j < names.len() - 1 {
                        assert(names.drop_last()[j] == names[j]);
                    }
                }
            },
            None => {
                assert forall|j: int| 0 <= j < names.len() implies names[j] != name by {
                    if j < names.len() - 1 {
                        assert(names.drop_last()[j] == names[j]);
                    }
                }
            },
        }
    }
}

/// The last occurrence is at `i` exactly when `names[i]` matches and
/// nothing after it does.
pub proof fn lemma_last_index_at(names: Seq<Seq<char>>, name: Seq<char>, i: int)
    requires
        0 <= i < names.len(),
        names[i] == name,
        forall|j: int| i < j < names.len() ==> names[j] != name,
    ensures
        last_index_of_name(names, name) == Some(i),
    decreases names.len(),
{
    if i < names.len() - 1 {
        lemma_last_index_at(names.drop_last(), name, i);
    }
}

/// A name that occurs nowhere has no index.
pub proof fn lemma_last_index_none(names: Seq<Seq<char>>, name: Seq<char>)
    requires
        forall|j: int| 0 <= j < names.len() ==> names[j] != name,
    ensures
        last_index_of_name(names, name) == Option::<int>::None,
    decreases names.len(),
{
    if names.len() > 0 {
        lemma_last_index_none(names.drop_last(), name);
    }
}

/// The names of a node sequence, in order.
pub open spec fn node_names(nodes: Seq<NodeView>) -> Seq<Seq<char>> {
    nodes.map_values(|n: NodeView| n.name)
}

/// The names of a mesh sequence, in order.
pub open spec fn mesh_names(meshes: Seq<MeshView>) -> Seq<Seq<char>> {
    meshes.map_values(|m: MeshView| m.mesh_name)
}

/// The names of a rigid-body sequence, in order.
pub open spec fn body_names(bodies: Seq<BodyView>) -> Seq<Seq<char>> {
    bodies.map_values(|b: BodyView| b.name)
}

/// The names of a collider sequence, in order.
pub open spec fn collider_names(colliders: Seq<ColliderView>) -> Seq<Seq<char>> {
    colliders.map_values(|c: ColliderView| c.name)
}

/// The name carried by a node's Parent component, when it has one.
pub open spec fn parent_name_of(n: NodeView) -> Option<Seq<char>> {
    match find_kind(n.components, 1) {
        Some(i) => match n.components[i] {
            CompView::Parent(nm) => Some(nm),
            _ => None,
        },
        None => None,
    }
}

/// Where the Parent component of node `i` points: the index of the named
/// parent node, resolved latest-wins.
pub open spec fn parent_index_of(nodes: Seq<NodeView>, i: int) -> Option<int> {
    match parent_name_of(nodes[i]) {
        Some(nm) => last_index_of_name(node_names(nodes), nm),
        None => None,
    }
}

/// The children of node `p`, computed by scanning nodes `0..upto` in
/// order: each node whose Parent component resolves to `p` is appended.
pub open spec fn children_spec(nodes: Seq<NodeView>, p: int, upto: int) -> Seq<usize>
    decreases upto,
{
    if upto <= 0 {
        Seq::<usize>::empty()
    } else {
        let prev = children_spec(nodes, p, upto - 1);
        if parent_name_of(nodes[upto - 1]) is Some && parent_index_of(nodes, upto - 1) == Some(p) {
            prev.push((upto - 1) as usize)
        } else {
            prev
        }
    }
}

/// Whether every node that carries a Parent component names a parent that
/// exists: the condition under which initialization succeeds.
pub open spec fn parents_resolvable(nodes: Seq<NodeView>) -> bool {
    forall|i: int|
        0 <= i < nodes.len() && (#[trigger] parent_name_of(nodes[i])) is Some ==> parent_index_of(
            nodes,
            i,
        ) is Some
}

/// What initialization produces: the given name, the non-node categories
/// untouched, and each node with its components sorted by type priority
/// and its child list extended by every node whose Parent component
/// resolves to it, in node order.
pub open spec fn is_initialized_from(post: CollView, pre: CollView, name: Seq<char>) -> bool {
    &&& post.name == name
    &&& post.meshes == pre.meshes
    &&& post.rigid_bodies == pre.rigid_bodies
    &&& post.colliders == pre.colliders
    &&& post.nodes.len() == pre.nodes.len()
    &&& forall|i: int|
        0 <= i < pre.nodes.len() ==> {
            &&& (#[trigger] post.nodes[i]).name == pre.nodes[i].name
            &&& post.nodes[i].prefab == pre.nodes[i].prefab
            &&& post.nodes[i].components == sort_comps(pre.nodes[i].components)
            &&& post.nodes[i].children == pre.nodes[i].children + children_spec(
                pre.nodes,
                i,
                pre.nodes.len() as int,
            )
        }
}

/// How many of the first `upto` nodes carry no Parent component: the
/// nodes spawned as roots.
pub open spec fn parentless_count(nodes: Seq<NodeView>, upto: int) -> int
    decreases upto,
{
    if upto <= 0 {
        0
    } else {
        parentless_count(nodes, upto - 1) + if parent_name_of(nodes[upto - 1]) is None {
            1int
        } else {
            0int
        }
    }
}

/// A collection of scene nodes, meshes, rigid bodies and colliders, loaded
/// as one unit and identified by name.
#[derive(Debug)]
pub struct Collection {
    pub scene_nodes: Vec<SceneNode>,
    pub meshes: Vec<MeshData>,
    pub rigid_bodies: Vec<RigidBody>,
    pub colliders: Vec<Collider>,
    pub name: String,
}

/// The mathematical value of a collection.
pub struct CollView {
    pub name: Seq<char>,
    pub nodes: Seq<NodeView>,
    pub meshes: Seq<MeshView>,
    pub rigid_bodies: Seq<BodyView>,
    pub colliders: Seq<ColliderView>,
}

impl View for Collection {
    type V = CollView;

    open spec fn view(&self) -> CollView {
        CollView {
            name: self.name@,
            nodes: self.scene_nodes@.map_values(|n: SceneNode| n@),
            meshes: self.meshes@.map_values(|m: MeshData| m@),
            rigid_bodies: self.rigid_bodies@.map_values(|b: RigidBody| b@),
            colliders: self.colliders@.map_values(|c: Collider| c@),
        }
    }
}

impl Collection {
    /// An empty, unnamed collection.
    pub fn empty() -> (r: Collection)
        ensures
            r@.name == Seq::<char>::empty(),
            r@.nodes == Seq::<NodeView>::empty(),
            r@.meshes == Seq::<MeshView>::empty(),
            r@.rigid_bodies == Seq::<BodyView>::empty(),
            r@.colliders == Seq::<ColliderView>::empty(),
    {
        let r = Collection {
            scene_nodes: Vec::new(),
            meshes: Vec::new(),
            rigid_bodies: Vec::new(),
            colliders: Vec::new(),
            name: String::new(),
        };
        proof {
            assert(r@.nodes =~= Seq::<NodeView>::empty());
            assert(r@.meshes =~= Seq::<MeshView>::empty());
            assert(r@.rigid_bodies =~= Seq::<BodyView>::empty());
            assert(r@.colliders =~= Seq::<ColliderView>::empty());
        }
        r
    }

    /// Looks a scene node up by name, latest definition winning.
    pub fn find_scene_node(&self, name: &String) -> (r: Option<usize>)
        ensures
            match r {
                Some(i) => last_index_of_name(node_names(self@.nodes), name@) == Some(i as int),
                None => last_index_of_name(node_names(self@.nodes), name@) is None,
            },
    {
        let mut i = self.scene_nodes.len();
        while i > 0
            invariant
                i <= self.scene_nodes.len(),
                forall|j: int|
                    i <= j < self@.nodes.len() ==> node_names(self@.nodes)[j] != name@,
            decreases i,
        {
            i = i - 1;
            if self.scene_nodes[i].name == *name {
                proof {
                    lemma_last_index_at(node_names(self@.nodes), name@, i as int);
                }
                return Some(i);
            }
        }
        proof {
            lemma_last_index_none(node_names(self@.nodes), name@);
        }
        None
    }

    /// Looks a mesh up by name, latest definition winning.
    pub fn find_mesh(&self, name: &String) -> (r: Option<usize>)
        ensures
            match r {
                Some(i) => last_index_of_name(mesh_names(self@.meshes), name@) == Some(i as int),
                None => last_index_of_name(mesh_names(self@.meshes), name@) is None,
            },
    {
        let mut i = self.meshes.len();
        while i > 0
            invariant
                i <= self.meshes.len(),
                forall|j: int|
                    i <= j < self@.meshes.len() ==> mesh_names(self@.meshes)[j] != name@,
            decreases i,
        {
            i = i - 1;
            if self.meshes[i].mesh_name == *name {
                proof {
                    lemma_last_index_at(mesh_names(self@.meshes), name@, i as int);
                }
                return Some(i);
            }
        }
        proof {
            lemma_last_index_none(mesh_names(self@.meshes), name@);
        }
        None
    }

    /// Looks a rigid body up by name, latest definition winning.
    pub fn find_rigid_body(&self, name: &String) -> (r: Option<usize>)
        ensures
            match r {
                Some(i) => last_index_of_name(body_names(self@.rigid_bodies), name@) == Some(
                    i as int,
                ),
                None => last_index_of_name(body_names(self@.rigid_bodies), name@) is None,
            },
    {
        let mut i = self.rigid_bodies.len();
        while i > 0
            invariant
                i <= self.rigid_bodies.len(),
                forall|j: int|
                    i <= j < self@.rigid_bodies.len() ==> body_names(self@.rigid_bodies)[j]
                        != name@,
            decreases i,
        {
            i = i - 1;
            if self.rigid_bodies[i].name == *name {
                proof {
                    lemma_last_index_at(body_names(self@.rigid_bodies), name@, i as int);
                }
                return Some(i);
            }
        }
        proof {
            lemma_last_index_none(body_names(self@.rigid_bodies), name@);
        }
        None
    }

    /// Looks a collider up by name, latest definition winning.
    pub fn find_collider(&self, name: &String) -> (r: Option<usize>)
        ensures
            match r {
                Some(i) => last_index_of_name(collider_names(self@.colliders), name@) == Some(
                    i as int,
                ),
                None => last_index_of_name(collider_names(self@.colliders), name@) is None,
            },
    {
        let mut i = self.colliders.len();
        while i > 0
            invariant
                i <= self.colliders.len(),
                forall|j: int|
                    i <= j < self@.colliders.len() ==> collider_names(self@.colliders)[j]
                        != name@,
            decreases i,
        {
            i = i - 1;
            if self.colliders[i].name == *name {
                proof {
                    lemma_last_index_at(collider_names(self@.colliders), name@, i as int);
                }
                return Some(i);
            }
        }
        proof {
            lemma_last_index_none(collider_names(self@.colliders), name@);
        }
        None
    }

    /// Gives the collection its identity, computes each node's child list
    /// by scanning all nodes for Parent components pointing at it, and
    /// sorts every node's component set by type priority.
    ///
    /// When some node names a parent that does not exist, the collection
    /// is left untouched and the dangling reference is reported.
    pub fn initialize(&mut self, name: String) -> (r: Result<(), SceneError>)
        ensures
            r is Ok <==> parents_resolvable(old(self)@.nodes),
            r matches Ok(()) ==> is_initialized_from(final(self)@, old(self)@, name@),
            r matches Err(e) ==> {
                &&& *final(self) == *old(self)
                &&& e@ matches crate::errors::ErrView::DanglingParentReference { node, parent }
                &&& exists|i: int|
                    0 <= i < old(self)@.nodes.len() && (#[trigger] parent_name_of(
                        old(self)@.nodes[i],
                    )) == Some(parent) && parent_index_of(old(self)@.nodes, i) is None
                        && node == old(self)@.nodes[i].name
            },
    {
        let ghost orig = self@;
        let n = self.scene_nodes.len();

        // First pass: resolve every Parent component, rejecting the whole
        // initialization on the first dangling reference.
        let mut targets: Vec<Option<usize>> = Vec::new();
        for i in 0..n
            invariant
                n == self.scene_nodes.len(),
                *self == *old(self),
                orig == self@,
                targets@.len() == i,
                forall|j: int|
                    0 <= j < i ==> #[trigger] targets@[j] == (match parent_index_of(
                        orig.nodes,
                        j,
                    ) {
                        Some(p) => Some(p as usize),
                        None => None,
                    }),
                forall|j: int|
                    0 <= j < i && (#[trigger] parent_name_of(orig.nodes[j])) is Some
                        ==> parent_index_of(orig.nodes, j) is Some,
        {
            let parent = self.scene_nodes[i].get_parent();
            match parent {
                None => {
                    targets.push(None);
                },
                Some(parent_name) => {
                    proof {
                        assert(parent_name_of(orig.nodes[i as int]) == Some(parent_name@));
                    }
                    match self.find_scene_node(parent_name) {
                        Some(p) => {
                            proof {
                                lemma_last_index_of_name(node_names(orig.nodes), parent_name@);
                                assert(parent_index_of(orig.nodes, i as int) == Some(p as int));
                            }
                            targets.push(Some(p));
                        },
                        None => {
                            proof {
                                assert(parent_index_of(orig.nodes, i as int) is None);
                            }
                            return Err(
                                SceneError::DanglingParentReference {
                                    node: self.scene_nodes[i].name.clone(),
                                    parent: parent_name.clone(),
                                },
                            );
                        },
                    }
                },
            }
        }

        // Second pass: append each node to its parent's child list, in
        // node order.
        for i in 0..n
            invariant
                n == self.scene_nodes.len(),
                n == orig.nodes.len(),
                targets@.len() == n,
                forall|j: int|
                    0 <= j < n ==> #[trigger] targets@[j] == (match parent_index_of(
                        orig.nodes,
                        j,
                    ) {
                        Some(p) => Some(p as usize),
                        None => None,
                    }),
                self@.name == orig.name,
                self@.meshes == orig.meshes,
                self@.rigid_bodies == orig.rigid_bodies,
                self@.colliders == orig.colliders,
                self@.nodes.len() == n,
                forall|q: int|
                    0 <= q < n ==> {
                        &&& (#[trigger] self@.nodes[q]).name == orig.nodes[q].name
                        &&& self@.nodes[q].prefab == orig.nodes[q].prefab
                        &&& self@.nodes[q].components == orig.nodes[q].components
                        &&& self@.nodes[q].children == orig.nodes[q].children + children_spec(
                            orig.nodes,
                            q,
                            i as int,
                        )
                    },
        {
            let target = targets[i];
            let ghost before = self@.nodes;
            if let Some(p) = target {
                proof {
                    assert(parent_index_of(orig.nodes, i as int) is Some);
                    assert(parent_name_of(orig.nodes[i as int]) is Some);
                    lemma_last_index_of_name(
                        node_names(orig.nodes),
                        parent_name_of(orig.nodes[i as int]).unwrap(),
                    );
                    assert(parent_index_of(orig.nodes, i as int) == Some(p as int));
                }
                self.scene_nodes[p].children.push(i);
                proof {
                    assert forall|q: int| 0 <= q < n implies {
                        &&& (#[trigger] self@.nodes[q]).name == orig.nodes[q].name
                        &&& self@.nodes[q].prefab == orig.nodes[q].prefab
                        &&& self@.nodes[q].components == orig.nodes[q].components
                        &&& self@.nodes[q].children == orig.nodes[q].children + children_spec(
                            orig.nodes,
                            q,
                            i as int + 1,
                        )
                    } by {
                        if q == p as int {
                            assert(self@.nodes[q].children == before[q].children.push(i));
                            assert((orig.nodes[q].children + children_spec(
                                orig.nodes,
                                q,
                                i as int,
                            )).push(i) =~= orig.nodes[q].children + children_spec(
                                orig.nodes,
                                q,
                                i as int,
                            ).push(i));
                        } else {
                            assert(self@.nodes[q] == before[q]);
                        }
                    }
                }
            } else {
                proof {
                    assert(!(parent_name_of(orig.nodes[i as int]) is Some && parent_index_of(
                        orig.nodes,
                        i as int,
                    ) is Some));
                    assert forall|q: int| 0 <= q < n implies children_spec(
                        orig.nodes,
                        q,
                        i as int + 1,
                    ) == children_spec(orig.nodes, q, i as int) by {}
                }
            }
        }

        // Third pass: sort every node's components by type priority.
        let ghost mid = self@;
        for i in 0..n
            invariant
                n == self.scene_nodes.len(),
                self@.name == mid.name,
                self@.meshes == mid.meshes,
                self@.rigid_bodies == mid.rigid_bodies,
                self@.colliders == mid.colliders,
                self@.nodes.len() == n,
                n == mid.nodes.len(),
                forall|q: int|
                    0 <= q < n ==> {
                        &&& (#[trigger] self@.nodes[q]).name == mid.nodes[q].name
                        &&& self@.nodes[q].prefab == mid.nodes[q].prefab
                        &&& self@.nodes[q].children == mid.nodes[q].children
                        &&& self@.nodes[q].components == (if q < i {
                            sort_comps(mid.nodes[q].components)
                        } else {
                            mid.nodes[q].components
                        })
                    },
        {
            let ghost before = self@.nodes;
            let sorted = sort_components(&self.scene_nodes[i].components);
            self.scene_nodes[i].components = sorted;
            proof {
                assert forall|q: int| 0 <= q < n implies {
                    &&& (#[trigger] self@.nodes[q]).name == before[q].name
                    &&& self@.nodes[q].prefab == before[q].prefab
                    &&& self@.nodes[q].children == before[q].children
                    &&& self@.nodes[q].components == (if q == i as int {
                        sort_comps(before[q].components)
                    } else {
                        before[q].components
                    })
                } by {
                    if q != i as int {
                        assert(self@.nodes[q] == before[q]);
                    }
                }
            }
        }

        self.name = name;
        Ok(())
    }
}

} // verus!
