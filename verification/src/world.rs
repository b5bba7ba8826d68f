//! The live entity hierarchy.
//!
//! Entities live in one arena; parent and child links are arena indices,
//! never owning pointers. A child is always created after its parent, so
//! indices give a topological order of the forest: walking the arena in
//! index order computes every entity's global transform after its
//! parent's, exactly as a pre-order depth-first walk would.
//!
//! Spawning a collection builds the whole new hierarchy first and only
//! then tears the old one down: a resolution failure leaves the previous
//! hierarchy intact. Physics handles are attached by the caller once the
//! engine has registered the bodies, and teardown hands every attached
//! handle back so the caller can deregister them.
use vstd::prelude::*;

verus! {

use crate::collection::{
    CollView,
    last_index_of_name,
    lemma_last_index_at,
    lemma_last_index_none,
    lemma_last_index_of_name,
    parent_name_of,
    parentless_count,
};
use crate::errors::{ErrView, SceneError};
use crate::events::Events;
use crate::scene::{CompView, Component};
use crate::store::{DataAccessor, build_node_spec, data_wf, total_nodes};
use crate::svec::{ChildList, sv_contents};
use crate::transform::{
    GlobalTransform,
    LocalTransform,
    Transform2D,
    TransformView,
    identity_view,
    spec_multiply,
};

/// The one command the UI issues: make the collection at this index the
/// current scene.
#[derive(Clone, Copy, PartialEq, Eq, Structural, Debug)]
pub enum Command {
    SetCurrentScene(usize),
}

/// A non-owning back-reference to the parent entity.
#[derive(Clone, Copy, PartialEq, Eq, Structural, Debug)]
pub struct Parent(pub usize);

/// The entity's children. The entity owns the list value, not the
/// entities the indices refer to.
#[derive(Debug)]
pub struct Children(pub ChildList);

/// An opaque handle to a rigid body owned by the physics engine, as raw
/// index and generation.
#[derive(Clone, Copy, PartialEq, Eq, Structural, Debug)]
pub struct RigidBodyHandle(pub u64, pub u64);

/// An opaque handle to a collider owned by the physics engine, as raw
/// index and generation.
#[derive(Clone, Copy, PartialEq, Eq, Structural, Debug)]
pub struct ColliderHandle(pub u64, pub u64);

/// A resolved reference to a mesh definition: collection and index.
#[derive(Clone, Copy, PartialEq, Eq, Structural, Debug)]
pub struct MeshRef {
    pub collection: usize,
    pub index: usize,
}

/// A resolved reference to a rigid-body definition.
#[derive(Clone, Copy, PartialEq, Eq, Structural, Debug)]
pub struct BodyRef {
    pub collection: usize,
    pub index: usize,
}

/// A resolved reference to a collider definition.
#[derive(Clone, Copy, PartialEq, Eq, Structural, Debug)]
pub struct ColliderRef {
    pub collection: usize,
    pub index: usize,
}

/// One live entity: its externally visible name, its authored and
/// computed transforms, its place in the hierarchy, and the data and
/// engine objects attached to it.
#[derive(Debug)]
pub struct EntityData {
    pub name: String,
    pub local_transform: LocalTransform,
    pub global_transform: GlobalTransform,
    pub parent: Option<Parent>,
    pub children: Children,
    pub mesh: Option<MeshRef>,
    pub rigid_body: Option<BodyRef>,
    pub collider: Option<ColliderRef>,
    pub rigid_body_handle: Option<RigidBodyHandle>,
    pub collider_handle: Option<ColliderHandle>,
}

/// The mathematical value of an entity.
pub struct EntityView {
    pub name: Seq<char>,
    pub local: TransformView,
    pub global: TransformView,
    pub parent: Option<usize>,
    pub children: Seq<usize>,
    pub mesh: Option<MeshRef>,
    pub rigid_body: Option<BodyRef>,
    pub collider: Option<ColliderRef>,
    pub rigid_body_handle: Option<RigidBodyHandle>,
    pub collider_handle: Option<ColliderHandle>,
}

impl View for EntityData {
    type V = EntityView;

    open spec fn view(&self) -> EntityView {
        EntityView {
            name: self.name@,
            local: self.local_transform.0@,
            global: self.global_transform.0@,
            parent: match self.parent {
                Some(p) => Some(p.0),
                None => None,
            },
            children: sv_contents(self.children.0),
            mesh: self.mesh,
            rigid_body: self.rigid_body,
            collider: self.collider,
            rigid_body_handle: self.rigid_body_handle,
            collider_handle: self.collider_handle,
        }
    }
}

/// The value sequence of an entity arena.
pub open spec fn ents_view(s: Seq<EntityData>) -> Seq<EntityView> {
    s.map_values(|e: EntityData| e@)
}

/// The names of the entities, in arena order.
pub open spec fn entity_names(ents: Seq<EntityView>) -> Seq<Seq<char>> {
    ents.map_values(|e: EntityView| e.name)
}

/// Whether an entity's resolved data references point into the loaded
/// collections, and a collider is only attached alongside a rigid body.
pub open spec fn wf_entity_refs(e: EntityView, colls: Seq<CollView>) -> bool {
    &&& e.mesh matches Some(m) ==> m.collection < colls.len() && m.index < colls[
        m.collection as int
    ].meshes.len()
    &&& e.rigid_body matches Some(b) ==> b.collection < colls.len() && b.index < colls[
        b.collection as int
    ].rigid_bodies.len()
    &&& e.collider matches Some(c) ==> c.collection < colls.len() && c.index < colls[
        c.collection as int
    ].colliders.len()
    &&& e.collider is Some ==> e.rigid_body is Some
}

/// Well-formedness of the live hierarchy: every parent precedes its
/// child in the arena, every child link points forward at an entity
/// whose parent link points back, roots are parentless, and every data
/// reference is in bounds.
pub open spec fn wf_hierarchy(
    ents: Seq<EntityView>,
    roots: Seq<usize>,
    colls: Seq<CollView>,
) -> bool {
    &&& forall|i: int|
        0 <= i < ents.len() ==> ((#[trigger] ents[i]).parent matches Some(p) ==> p < i)
    &&& forall|i: int, k: int|
        0 <= i < ents.len() && 0 <= k < ents[i].children.len() ==> {
            let c = #[trigger] ents[i].children[k];
            &&& i < c < ents.len()
            &&& ents[c as int].parent == Some(i as usize)
        }
    &&& forall|j: int|
        0 <= j < roots.len() ==> (#[trigger] roots[j]) < ents.len() && ents[
            roots[j] as int
        ].parent is None
    &&& forall|i: int| 0 <= i < ents.len() ==> wf_entity_refs(#[trigger] ents[i], colls)
}

/// The world-space transform of entity `i`: its own local transform for
/// a root, or the parent's global transform composed with its local one.
pub open spec fn spec_global(ents: Seq<EntityView>, i: int) -> TransformView
    decreases i,
{
    if 0 <= i < ents.len() {
        match ents[i].parent {
            None => ents[i].local,
            Some(p) => if p < i {
                spec_multiply(spec_global(ents, p as int), ents[i].local)
            } else {
                ents[i].local
            },
        }
    } else {
        identity_view()
    }
}

/// The whole application state: the loaded collections and the live
/// entity hierarchy spawned from one of them.
pub struct AppState {
    pub data_accessor: DataAccessor,
    pub entities: Vec<EntityData>,
    pub root_entities: Vec<usize>,
}

/// Finds the entity with the given externally visible name, latest
/// spawned winning.
pub fn find_entity_in(entities: &Vec<EntityData>, name: &String) -> (r: Option<usize>)
    ensures
        match r {
            Some(i) => last_index_of_name(entity_names(ents_view(entities@)), name@) == Some(
                i as int,
            ),
            None => last_index_of_name(entity_names(ents_view(entities@)), name@) is None,
        },
{
    let mut i = entities.len();
    while i > 0
        invariant
            i <= entities@.len(),
            forall|j: int|
                i <= j < entities@.len() ==> entity_names(ents_view(entities@))[j] != name@,
        decreases i,
    {
        i = i - 1;
        if entities[i].name == *name {
            proof {
                lemma_last_index_at(entity_names(ents_view(entities@)), name@, i as int);
            }
            return Some(i);
        }
    }
    proof {
        lemma_last_index_none(entity_names(ents_view(entities@)), name@);
    }
    None
}

impl AppState {
    /// A fresh application state over the given store, with no live
    /// entities.
    pub fn new(data_accessor: DataAccessor) -> (r: AppState)
        ensures
            r.data_accessor == data_accessor,
            r.entities@ == Seq::<EntityData>::empty(),
            r.root_entities@ == Seq::<usize>::empty(),
    {
        AppState { data_accessor, entities: Vec::new(), root_entities: Vec::new() }
    }

    /// Finds a live entity by name, latest spawned winning.
    pub fn find_entity(&self, name: &String) -> (r: Option<usize>)
        ensures
            match r {
                Some(i) => last_index_of_name(entity_names(ents_view(self.entities@)), name@)
                    == Some(i as int),
                None => last_index_of_name(entity_names(ents_view(self.entities@)), name@)
                    is None,
            },
    {
        find_entity_in(&self.entities, name)
    }

    /// Tears the whole hierarchy down in one batch and hands back, in
    /// arena order, the physics handles that were attached, so the caller
    /// can deregister every body and collider from the engine.
    pub fn remove_all_entities(&mut self) -> (r: Vec<
        (Option<RigidBodyHandle>, Option<ColliderHandle>),
    >)
        ensures
            final(self).entities@ == Seq::<EntityData>::empty(),
            final(self).root_entities@ == Seq::<usize>::empty(),
            final(self).data_accessor == old(self).data_accessor,
            r@.len() == old(self).entities@.len(),
            forall|i: int|
                0 <= i < r@.len() ==> r@[i] == ((#[trigger] ents_view(
                    old(self).entities@,
                )[i]).rigid_body_handle, ents_view(old(self).entities@)[i].collider_handle),
    {
        let mut out: Vec<(Option<RigidBodyHandle>, Option<ColliderHandle>)> = Vec::new();
        let n = self.entities.len();
        for i in 0..n
            invariant
                n == self.entities@.len(),
                *self == *old(self),
                out@.len() == i,
                forall|j: int|
                    0 <= j < i ==> out@[j] == ((#[trigger] ents_view(
                        self.entities@,
                    )[j]).rigid_body_handle, ents_view(self.entities@)[j].collider_handle),
        {
            out.push((self.entities[i].rigid_body_handle, self.entities[i].collider_handle));
        }
        self.entities = Vec::new();
        self.root_entities.clear();
        out
    }

    /// Overwrites one entity's authored local transform; the physics
    /// reader uses this to copy post-simulation positions back in before
    /// propagation runs.
    pub fn set_local_transform(&mut self, entity: usize, transform: Transform2D)
        requires
            entity < old(self).entities@.len(),
        ensures
            final(self).data_accessor == old(self).data_accessor,
            final(self).root_entities == old(self).root_entities,
            final(self).entities@.len() == old(self).entities@.len(),
            ents_view(final(self).entities@)[entity as int] == (EntityView {
                local: transform@,
                ..ents_view(old(self).entities@)[entity as int]
            }),
            forall|j: int|
                0 <= j < old(self).entities@.len() && j != entity ==> ents_view(
                    final(self).entities@,
                )[j] == ents_view(old(self).entities@)[j],
    {
        self.entities[entity].local_transform = LocalTransform(transform);
        proof {
            assert forall|j: int|
                0 <= j < old(self).entities@.len() && j != entity implies ents_view(
                self.entities@,
            )[j] == ents_view(old(self).entities@)[j] by {}
        }
    }
}

/// Whether the per-frame traversal reaches entity `i`: a root listed in
/// the root list, or an entity whose parent is reached and whose parent's
/// child list names it. Entities the traversal does not reach keep their
/// previous global transform.
pub open spec fn spec_reachable(ents: Seq<EntityView>, roots: Seq<usize>, i: int) -> bool
    decreases i,
{
    if 0 <= i < ents.len() {
        match ents[i].parent {
            None => roots.contains(i as usize),
            Some(p) => p < i && ents[p as int].children.contains(i as usize) && spec_reachable(
                ents,
                roots,
                p as int,
            ),
        }
    } else {
        false
    }
}

/// Whether the index list holds `x`.
fn index_list_contains(v: &Vec<usize>, x: usize) -> (r: bool)
    ensures
        r == v@.contains(x),
{
    let n = v.len();
    for i in 0..n
        invariant
            n == v@.len(),
            forall|j: int| 0 <= j < i ==> v@[j] != x,
    {
        if v[i] == x {
            proof {
                assert(v@[i as int] == x);
            }
            return true;
        }
    }
    false
}

/// Whether a child list holds `x`.
fn child_list_contains(c: &ChildList, x: usize) -> (r: bool)
    ensures
        r == sv_contents(*c).contains(x),
{
    let n = c.len();
    for i in 0..n
        invariant
            n == sv_contents(*c).len(),
            forall|j: int| 0 <= j < i ==> sv_contents(*c)[j] != x,
    {
        if c.get(i) == x {
            proof {
                assert(sv_contents(*c)[i as int] == x);
            }
            return true;
        }
    }
    false
}

/// Runs the per-frame transform propagation pass over the entities the
/// root list reaches: every reached root's global transform becomes its
/// local transform, and every reached child's global transform is its
/// parent's new global transform composed with its own local one.
/// Entities the traversal does not reach are left untouched. Parents
/// precede children in the arena, so one forward pass computes every
/// reached parent before any of its children, exactly as the pre-order
/// depth-first walk of the hierarchy would.
pub fn propagate_transforms(state: &mut AppState)
    requires
        wf_hierarchy(
            ents_view(old(state).entities@),
            old(state).root_entities@,
            old(state).data_accessor@,
        ),
    ensures
        final(state).data_accessor == old(state).data_accessor,
        final(state).root_entities == old(state).root_entities,
        final(state).entities@.len() == old(state).entities@.len(),
        forall|i: int|
            0 <= i < old(state).entities@.len() ==> ents_view(final(state).entities@)[i]
                == (EntityView {
                global: if spec_reachable(
                    ents_view(old(state).entities@),
                    old(state).root_entities@,
                    i,
                ) {
                    spec_global(ents_view(old(state).entities@), i)
                } else {
                    ents_view(old(state).entities@)[i].global
                },
                ..ents_view(old(state).entities@)[i]
            }),
        wf_hierarchy(
            ents_view(final(state).entities@),
            final(state).root_entities@,
            final(state).data_accessor@,
        ),
{
    let ghost orig = ents_view(state.entities@);
    let ghost roots0 = state.root_entities@;
    proof {
        assert(orig == ents_view(old(state).entities@));
        assert(roots0 == old(state).root_entities@);
    }
    let n = state.entities.len();
    let mut reach: Vec<bool> = Vec::new();
    for i in 0..n
        invariant
            n == state.entities@.len(),
            n == orig.len(),
            state.data_accessor == old(state).data_accessor,
            state.root_entities == old(state).root_entities,
            state.root_entities@ == roots0,
            reach@.len() == i,
            forall|j: int| 0 <= j < i ==> reach@[j] == spec_reachable(orig, roots0, j),
            forall|j: int|
                i <= j < n ==> ents_view(state.entities@)[j] == orig[j],
            forall|j: int|
                0 <= j < i ==> ents_view(state.entities@)[j] == (EntityView {
                    global: if spec_reachable(orig, roots0, j) {
                        spec_global(orig, j)
                    } else {
                        orig[j].global
                    },
                    ..orig[j]
                }),
            wf_hierarchy(orig, roots0, old(state).data_accessor@),
    {
        proof {
            assert(ents_view(state.entities@)[i as int] == orig[i as int]);
        }
        let parent = state.entities[i].parent;
        let reached: bool = match parent {
            None => index_list_contains(&state.root_entities, i),
            Some(p) => {
                proof {
                    assert(orig[i as int].parent == Some(p.0));
                    assert(p.0 < i);
                }
                if reach[p.0] {
                    child_list_contains(&state.entities[p.0].children.0, i)
                } else {
                    false
                }
            },
        };
        reach.push(reached);
        proof {
            // The parent's child list is untouched by the pass: only
            // global transforms change.
            match orig[i as int].parent {
                Some(p) => {
                    assert(p < i);
                    assert(ents_view(state.entities@)[p as int] == (EntityView {
                        global: if spec_reachable(orig, roots0, p as int) {
                            spec_global(orig, p as int)
                        } else {
                            orig[p as int].global
                        },
                        ..orig[p as int]
                    }));
                    assert(ents_view(state.entities@)[p as int].children == orig[
                        p as int
                    ].children);
                    assert(reach@[p as int] == spec_reachable(orig, roots0, p as int));
                    if reach@[p as int] {
                        assert(reached == orig[p as int].children.contains(i as usize));
                    } else {
                        assert(!reached);
                    }
                },
                None => {
                    assert(reached == roots0.contains(i as usize));
                },
            }
            assert(reach@[i as int] == spec_reachable(orig, roots0, i as int));
        }
        if reached {
            let local: Transform2D = state.entities[i].local_transform.0;
            let g: Transform2D = match parent {
                None => local,
                Some(p) => {
                    proof {
                        assert(spec_reachable(orig, roots0, p.0 as int));
                        assert(ents_view(state.entities@)[p.0 as int].global == spec_global(
                            orig,
                            p.0 as int,
                        ));
                    }
                    let pg: Transform2D = state.entities[p.0].global_transform.0;
                    pg.multiply(&local)
                },
            };
            proof {
                assert(g@ == spec_global(orig, i as int));
            }
            let ghost prev = state.entities@;
            state.entities[i].global_transform = GlobalTransform(g);
            proof {
                assert forall|j: int|
                    0 <= j < n && j != i implies ents_view(state.entities@)[j] == ents_view(
                    prev,
                )[j] by {
                    assert(state.entities@[j] == prev[j]);
                }
                assert(ents_view(state.entities@)[i as int] == (EntityView {
                    global: spec_global(orig, i as int),
                    ..orig[i as int]
                }));
                assert forall|j: int| i + 1 <= j < n implies ents_view(state.entities@)[j]
                    == orig[j] by {
                    assert(ents_view(state.entities@)[j] == ents_view(prev)[j]);
                    assert(ents_view(prev)[j] == orig[j]);
                }
                assert forall|j: int| 0 <= j < i implies ents_view(state.entities@)[j]
                    == (EntityView {
                    global: if spec_reachable(orig, roots0, j) {
                        spec_global(orig, j)
                    } else {
                        orig[j].global
                    },
                    ..orig[j]
                }) by {
                    assert(ents_view(state.entities@)[j] == ents_view(prev)[j]);
                }
            }
        } else {
            proof {
                assert(ents_view(state.entities@)[i as int] == (EntityView {
                    global: orig[i as int].global,
                    ..orig[i as int]
                }));
            }
        }
    }
    proof {
        assert forall|i: int|
            0 <= i < old(state).entities@.len() implies wf_entity_refs(
            #[trigger] ents_view(state.entities@)[i],
            state.data_accessor@,
        ) by {}
    }
}




/// The running result of instantiation's component walk: the transform
/// and the resolved data references accumulated so far.
pub struct WalkState {
    pub local: TransformView,
    pub mesh: Option<MeshRef>,
    pub rigid_body: Option<BodyRef>,
    pub collider: Option<ColliderRef>,
}

/// The component walk of instantiation over the first `upto` components
/// of a resolved, priority-sorted set: the last Transform wins (the
/// identity when none is authored), each name-valued reference resolves
/// against the target collection, and the walk fails at the first failing
/// lookup, or at a collider that arrives before any rigid body.
pub open spec fn walk_components(
    colls: Seq<CollView>,
    comps: Seq<CompView>,
    upto: int,
    target: int,
    node_name: Seq<char>,
) -> Result<WalkState, ErrView>
    decreases upto,
{
    if upto <= 0 {
        Ok(WalkState { local: identity_view(), mesh: None, rigid_body: None, collider: None })
    } else {
        match walk_components(colls, comps, upto - 1, target, node_name) {
            Err(e) => Err(e),
            Ok(st) => match comps[upto - 1] {
                CompView::Transform { tx, ty, rot } => Ok(
                    WalkState { local: TransformView { tx, ty, rot }, ..st },
                ),
                CompView::Parent(_) => Ok(st),
                CompView::Mesh(nm) => match crate::store::mesh_lookup(colls, nm, target) {
                    Ok((c, mi)) => Ok(
                        WalkState {
                            mesh: Some(MeshRef { collection: c as usize, index: mi as usize }),
                            ..st
                        },
                    ),
                    Err(e) => Err(e),
                },
                CompView::RigidBody(nm) => match crate::store::body_lookup(colls, nm, target) {
                    Ok((c, bi)) => Ok(
                        WalkState {
                            rigid_body: Some(BodyRef { collection: c as usize, index: bi as usize }),
                            ..st
                        },
                    ),
                    Err(e) => Err(e),
                },
                CompView::Collider(nm) => match crate::store::collider_lookup(colls, nm, target) {
                    Ok((c, ci)) => if st.rigid_body is None {
                        Err(ErrView::ColliderWithoutRigidBody { node: node_name })
                    } else {
                        Ok(
                            WalkState {
                                collider: Some(
                                    ColliderRef { collection: c as usize, index: ci as usize },
                                ),
                                ..st
                            },
                        )
                    },
                    Err(e) => Err(e),
                },
            },
        }
    }
}

/// A failed walk stays failed however much further it runs.
pub proof fn lemma_walk_err_persists(
    colls: Seq<CollView>,
    comps: Seq<CompView>,
    j1: int,
    j2: int,
    target: int,
    node_name: Seq<char>,
)
    requires
        0 <= j1 <= j2,
        walk_components(colls, comps, j1, target, node_name) is Err,
    ensures
        walk_components(colls, comps, j2, target, node_name) == walk_components(
            colls,
            comps,
            j1,
            target,
            node_name,
        ),
    decreases j2,
{
    if j2 > j1 {
        lemma_walk_err_persists(colls, comps, j1, j2 - 1, target, node_name);
    }
}

/// One node's instantiation, in full: the node resolved against the
/// target, its components walked, the entity appended under its
/// externally visible name and linked under its parent or recorded as a
/// root, and each resolved child spawned in turn, depth first. This is
/// the functional model `spawn_entities_recursive` is proved equal to:
/// its result is the hierarchy the executable code must produce, and its
/// failure the exact error the executable code must report.
pub open spec fn spawn_spec(
    colls: Seq<CollView>,
    index: int,
    source: int,
    target: int,
    parent_name: Option<Seq<char>>,
    ents: Seq<EntityView>,
    roots: Seq<usize>,
    fuel: nat,
) -> Result<(Seq<EntityView>, Seq<usize>), ErrView>
    decreases fuel, 1int, 0int,
{
    let node_name = colls[source].nodes[index].name;
    if fuel == 0 {
        Err(ErrView::SpawnCycle { name: node_name })
    } else {
        match build_node_spec(colls, node_name, target) {
            Err(e) => Err(e),
            Ok(bp) => match walk_components(
                colls,
                bp.0.components,
                bp.0.components.len() as int,
                target,
                bp.0.name,
            ) {
                Err(e) => Err(e),
                Ok(st) => {
                    let entity_name = if source == target {
                        bp.0.name
                    } else {
                        parent_name->Some_0 + bp.0.name
                    };
                    let parent_idx = match parent_name {
                        Some(pn) => last_index_of_name(entity_names(ents), pn),
                        None => None,
                    };
                    let idx = ents.len() as usize;
                    let e = EntityView {
                        name: entity_name,
                        local: st.local,
                        global: st.local,
                        parent: match parent_idx {
                            Some(p) => Some(p as usize),
                            None => None,
                        },
                        children: Seq::<usize>::empty(),
                        mesh: st.mesh,
                        rigid_body: st.rigid_body,
                        collider: st.collider,
                        rigid_body_handle: None,
                        collider_handle: None,
                    };
                    let ents1 = ents.push(e);
                    let ents2 = match parent_idx {
                        Some(p) => ents1.update(
                            p,
                            EntityView { children: ents1[p].children.push(idx), ..ents1[p] },
                        ),
                        None => ents1,
                    };
                    let roots2 = match parent_idx {
                        Some(_) => roots,
                        None => roots.push(idx),
                    };
                    spawn_children_spec(colls, bp.1, 0, target, entity_name, ents2, roots2, fuel)
                },
            },
        }
    }
}

/// The children of a resolved node, spawned in order under the new
/// entity's name; the first failing child aborts the rest.
pub open spec fn spawn_children_spec(
    colls: Seq<CollView>,
    pairs: Seq<(usize, usize)>,
    k: int,
    target: int,
    parent_name: Seq<char>,
    ents: Seq<EntityView>,
    roots: Seq<usize>,
    fuel: nat,
) -> Result<(Seq<EntityView>, Seq<usize>), ErrView>
    decreases fuel, 0int, pairs.len() - k,
{
    if k >= pairs.len() {
        Ok((ents, roots))
    } else if fuel == 0 {
        Err(ErrView::SpawnCycle { name: parent_name })
    } else {
        match spawn_spec(
            colls,
            pairs[k].0 as int,
            pairs[k].1 as int,
            target,
            Some(parent_name),
            ents,
            roots,
            (fuel - 1) as nat,
        ) {
            Err(e) => Err(e),
            Ok(st) => spawn_children_spec(colls, pairs, k + 1, target, parent_name, st.0, st.1, fuel),
        }
    }
}

/// A scene switch, node by node: each parentless node among the first
/// `upto` of the chosen collection spawns, in node order, into a
/// hierarchy that starts out empty.
pub open spec fn switch_spec(colls: Seq<CollView>, coll_index: int, upto: int, fuel: nat) -> Result<
    (Seq<EntityView>, Seq<usize>),
    ErrView,
>
    decreases upto,
{
    if upto <= 0 {
        Ok((Seq::<EntityView>::empty(), Seq::<usize>::empty()))
    } else {
        match switch_spec(colls, coll_index, upto - 1, fuel) {
            Err(e) => Err(e),
            Ok(st) => if parent_name_of(colls[coll_index].nodes[upto - 1]) is None {
                spawn_spec(colls, upto - 1, coll_index, coll_index, None, st.0, st.1, fuel)
            } else {
                Ok(st)
            },
        }
    }
}

/// What making collection `index` the current scene produces: the
/// hierarchy spawned from its parentless nodes, or the exact failure
/// that aborts the switch.
pub open spec fn scene_spawn_spec(colls: Seq<CollView>, index: int) -> Result<
    (Seq<EntityView>, Seq<usize>),
    ErrView,
> {
    switch_spec(colls, index, colls[index].nodes.len() as int, (total_nodes(colls) + 1) as nat)
}

/// A failed switch stays failed however many further nodes it covers.
pub proof fn lemma_switch_err_persists(
    colls: Seq<CollView>,
    coll_index: int,
    j1: int,
    j2: int,
    fuel: nat,
)
    requires
        0 <= j1 <= j2,
        switch_spec(colls, coll_index, j1, fuel) is Err,
    ensures
        switch_spec(colls, coll_index, j2, fuel) == switch_spec(colls, coll_index, j1, fuel),
    decreases j2,
{
    if j2 > j1 {
        lemma_switch_err_persists(colls, coll_index, j1, j2 - 1, fuel);
    }
}

/// Scene-switch commands applied in order from `k` on: each successful
/// switch replaces the hierarchy wholesale, and the first failing switch
/// stops the drain.
pub open spec fn run_commands_spec(
    colls: Seq<CollView>,
    cmds: Seq<Command>,
    k: int,
    ents: Seq<EntityView>,
    roots: Seq<usize>,
) -> Result<(Seq<EntityView>, Seq<usize>), ErrView>
    decreases cmds.len() - k,
{
    if k < 0 || k >= cmds.len() {
        Ok((ents, roots))
    } else {
        let scene = cmds[k]->SetCurrentScene_0;
        match scene_spawn_spec(colls, scene as int) {
            Err(e) => Err(e),
            Ok(st) => run_commands_spec(colls, cmds, k + 1, st.0, st.1),
        }
    }
}

/// What spawning preserves of the entities that already existed: every
/// field but the child list is untouched, and the child list is only ever
/// extended at the back.
pub open spec fn preserves_existing(pre: Seq<EntityView>, post: Seq<EntityView>) -> bool {
    &&& post.len() >= pre.len()
    &&& forall|i: int|
        0 <= i < pre.len() ==> {
            let o = #[trigger] pre[i];
            let f = post[i];
            &&& f.name == o.name
            &&& f.local == o.local
            &&& f.global == o.global
            &&& f.parent == o.parent
            &&& f.mesh == o.mesh
            &&& f.rigid_body == o.rigid_body
            &&& f.collider == o.collider
            &&& f.rigid_body_handle == o.rigid_body_handle
            &&& f.collider_handle == o.collider_handle
            &&& f.children.len() >= o.children.len()
            &&& f.children.subrange(0, o.children.len() as int) == o.children
        }
}

/// Preservation composes across successive spawn steps.
pub proof fn lemma_preserves_trans(a: Seq<EntityView>, b: Seq<EntityView>, c: Seq<EntityView>)
    requires
        preserves_existing(a, b),
        preserves_existing(b, c),
    ensures
        preserves_existing(a, c),
{
    assert forall|i: int| 0 <= i < a.len() implies {
        let o = #[trigger] a[i];
        let f = c[i];
        &&& f.name == o.name
        &&& f.local == o.local
        &&& f.global == o.global
        &&& f.parent == o.parent
        &&& f.mesh == o.mesh
        &&& f.rigid_body == o.rigid_body
        &&& f.collider == o.collider
        &&& f.rigid_body_handle == o.rigid_body_handle
        &&& f.collider_handle == o.collider_handle
        &&& f.children.len() >= o.children.len()
        &&& f.children.subrange(0, o.children.len() as int) == o.children
    } by {
        assert(b[i].children.subrange(0, a[i].children.len() as int) == a[i].children);
        assert(c[i].children.subrange(0, b[i].children.len() as int) == b[i].children);
        assert(c[i].children.subrange(0, a[i].children.len() as int) =~= c[i].children.subrange(
            0,
            b[i].children.len() as int,
        ).subrange(0, a[i].children.len() as int));
    }
}

/// Nothing changed is a (trivial) preservation.
pub proof fn lemma_preserves_refl(a: Seq<EntityView>)
    ensures
        preserves_existing(a, a),
{
    assert forall|i: int| 0 <= i < a.len() implies (#[trigger] a[i]).children.subrange(
        0,
        a[i].children.len() as int,
    ) == a[i].children by {
        assert(a[i].children.subrange(0, a[i].children.len() as int) =~= a[i].children);
    }
}

/// A name borne by some entity is found by the latest-wins lookup.
pub proof fn lemma_name_present(names: Seq<Seq<char>>, name: Seq<char>, i: int)
    requires
        0 <= i < names.len(),
        names[i] == name,
    ensures
        last_index_of_name(names, name) is Some,
{
    lemma_last_index_of_name(names, name);
}


/// Spawns the node at `index` of `source_collection`, resolved against
/// `collection_to_spawn_in`, and then each child of its resolved form,
/// depth first. Every new entity is linked under the entity named by
/// `parent_name`, or recorded as a root. A node that authors no Transform
/// component gets the identity transform, per the data model in which
/// every entity owns a local and a global transform. The fuel bounds the
/// recursion depth: data whose prefab-expanded children chain back into
/// themselves is rejected instead of recursing forever.
fn spawn_entities_recursive(
    data: &DataAccessor,
    index: usize,
    source_collection: usize,
    collection_to_spawn_in: usize,
    parent_name: Option<&String>,
    entities: &mut Vec<EntityData>,
    roots: &mut Vec<usize>,
    fuel: u128,
) -> (r: Result<(), SceneError>)
    requires
        data_wf(data@),
        source_collection < data@.len(),
        collection_to_spawn_in < data@.len(),
        index < data@[source_collection as int].nodes.len(),
        wf_hierarchy(ents_view(old(entities)@), old(roots)@, data@),
        parent_name matches Some(nm) ==> last_index_of_name(
            entity_names(ents_view(old(entities)@)),
            nm@,
        ) is Some,
        source_collection != collection_to_spawn_in ==> parent_name is Some,
    ensures
        preserves_existing(ents_view(old(entities)@), ents_view(final(entities)@)),
        wf_hierarchy(ents_view(final(entities)@), final(roots)@, data@),
        forall|i: int|
            old(entities)@.len() <= i < final(entities)@.len() ==> (#[trigger] ents_view(
                final(entities)@,
            )[i]).rigid_body_handle is None && ents_view(
                final(entities)@,
            )[i].collider_handle is None,
        final(roots)@.len() >= old(roots)@.len(),
        final(roots)@.subrange(0, old(roots)@.len() as int) == old(roots)@,
        parent_name is Some ==> final(roots)@ == old(roots)@,
        r is Ok ==> final(entities)@.len() > old(entities)@.len(),
        r is Ok && parent_name is None ==> final(roots)@ == old(roots)@.push(
            old(entities)@.len() as usize,
        ),
        r matches Ok(()) ==> spawn_spec(
            data@,
            index as int,
            source_collection as int,
            collection_to_spawn_in as int,
            match parent_name {
                Some(nm) => Some(nm@),
                None => None,
            },
            ents_view(old(entities)@),
            old(roots)@,
            fuel as nat,
        ) == Ok::<(Seq<EntityView>, Seq<usize>), ErrView>(
            (ents_view(final(entities)@), final(roots)@),
        ),
        r matches Err(e) ==> spawn_spec(
            data@,
            index as int,
            source_collection as int,
            collection_to_spawn_in as int,
            match parent_name {
                Some(nm) => Some(nm@),
                None => None,
            },
            ents_view(old(entities)@),
            old(roots)@,
            fuel as nat,
        ) == Err::<(Seq<EntityView>, Seq<usize>), ErrView>(e@),
    decreases fuel,
{
    let ghost pn_view: Option<Seq<char>> = match parent_name {
        Some(nm) => Some(nm@),
        None => None,
    };
    let ghost ents0 = ents_view(entities@);
    let ghost roots0 = roots@;
    let node_name = data.collections[source_collection].scene_nodes[index].name.clone();
    if fuel == 0 {
        proof {
            lemma_preserves_refl(ents_view(entities@));
            assert(roots@.subrange(0, roots@.len() as int) =~= roots@);
        }
        return Err(SceneError::SpawnCycle { name: node_name });
    }
    let built = data.build_node(&node_name, collection_to_spawn_in);
    let (node, children) = match built {
        Ok(x) => x,
        Err(e) => {
            proof {
                lemma_preserves_refl(ents_view(entities@));
                assert(roots@.subrange(0, roots@.len() as int) =~= roots@);
            }
            return Err(e);
        },
    };
    let ncolls = data.collections.len();
    proof {
        assert(data@.len() == ncolls);
        crate::store::lemma_build_node_children_bounds(
            data@,
            node_name@,
            collection_to_spawn_in as int,
        );
    }

    // Resolve the data references of the priority-sorted component set.
    let mut transform = Transform2D::identity();
    let mut mesh: Option<MeshRef> = None;
    let mut rigid_body: Option<BodyRef> = None;
    let mut collider: Option<ColliderRef> = None;
    let ncomps = node.components.len();
    for ci in 0..ncomps
        invariant
            ncomps == node.components@.len(),
            collection_to_spawn_in < data@.len(),
            *entities == *old(entities),
            *roots == *old(roots),
            wf_hierarchy(ents_view(entities@), roots@, data@),
            fuel >= 1,
            index < data@[source_collection as int].nodes.len(),
            source_collection < data@.len(),
            node_name@ == data@[source_collection as int].nodes[index as int].name,
            ({
                let bspec = build_node_spec(data@, node_name@, collection_to_spawn_in as int);
                &&& bspec is Ok
                &&& bspec->Ok_0.0.components == node@.components
                &&& bspec->Ok_0.0.name == node@.name
                &&& bspec->Ok_0.1 == children@
            }),
            ents0 == ents_view(entities@),
            roots0 == roots@,
            pn_view == (match parent_name {
                Some(nm) => Some(nm@),
                None => None,
            }),
            walk_components(
                data@,
                node@.components,
                ci as int,
                collection_to_spawn_in as int,
                node@.name,
            ) == Ok::<WalkState, ErrView>(
                WalkState { local: transform@, mesh, rigid_body, collider },
            ),
            mesh matches Some(m) ==> m.collection < data@.len() && m.index < data@[
                m.collection as int
            ].meshes.len(),
            rigid_body matches Some(b) ==> b.collection < data@.len() && b.index < data@[
                b.collection as int
            ].rigid_bodies.len(),
            collider matches Some(cd) ==> cd.collection < data@.len() && cd.index < data@[
                cd.collection as int
            ].colliders.len(),
            collider is Some ==> rigid_body is Some,
    {
        match &node.components[ci] {
            Component::Transform { translation, rotation } => {
                transform = Transform2D::new(*translation, *rotation);
            },
            Component::Parent(_) => {},
            Component::Mesh(nm) => {
                match data.lookup_mesh(nm, collection_to_spawn_in) {
                    Ok((mc, mi)) => {
                        mesh = Some(MeshRef { collection: mc, index: mi });
                    },
                    Err(e) => {
                        proof {
                            lemma_preserves_refl(ents_view(entities@));
                            assert(roots@.subrange(0, roots@.len() as int) =~= roots@);
                            assert(walk_components(
                                data@,
                                node@.components,
                                ci as int + 1,
                                collection_to_spawn_in as int,
                                node@.name,
                            ) == Err::<WalkState, ErrView>(e@));
                            lemma_walk_err_persists(
                                data@,
                                node@.components,
                                ci as int + 1,
                                ncomps as int,
                                collection_to_spawn_in as int,
                                node@.name,
                            );
                            let bspec = build_node_spec(
                                data@,
                                data@[source_collection as int].nodes[index as int].name,
                                collection_to_spawn_in as int,
                            );
                            assert(bspec is Ok);
                            assert(bspec->Ok_0.0.components == node@.components);
                            assert(bspec->Ok_0.0.name == node@.name);
                            assert(spawn_spec(
                                data@,
                                index as int,
                                source_collection as int,
                                collection_to_spawn_in as int,
                                pn_view,
                                ents0,
                                roots0,
                                fuel as nat,
                            ) == Err::<(Seq<EntityView>, Seq<usize>), ErrView>(e@));
                        }
                        return Err(e);
                    },
                }
            },
            Component::RigidBody(nm) => {
                match data.lookup_rigid_body(nm, collection_to_spawn_in) {
                    Ok((bc, bi)) => {
                        rigid_body = Some(BodyRef { collection: bc, index: bi });
                    },
                    Err(e) => {
                        proof {
                            lemma_preserves_refl(ents_view(entities@));
                            assert(roots@.subrange(0, roots@.len() as int) =~= roots@);
                            assert(walk_components(
                                data@,
                                node@.components,
                                ci as int + 1,
                                collection_to_spawn_in as int,
                                node@.name,
                            ) == Err::<WalkState, ErrView>(e@));
                            lemma_walk_err_persists(
                                data@,
                                node@.components,
                                ci as int + 1,
                                ncomps as int,
                                collection_to_spawn_in as int,
                                node@.name,
                            );
                            let bspec = build_node_spec(
                                data@,
                                data@[source_collection as int].nodes[index as int].name,
                                collection_to_spawn_in as int,
                            );
                            assert(bspec is Ok);
                            assert(bspec->Ok_0.0.components == node@.components);
                            assert(bspec->Ok_0.0.name == node@.name);
                            assert(spawn_spec(
                                data@,
                                index as int,
                                source_collection as int,
                                collection_to_spawn_in as int,
                                pn_view,
                                ents0,
                                roots0,
                                fuel as nat,
                            ) == Err::<(Seq<EntityView>, Seq<usize>), ErrView>(e@));
                        }
                        return Err(e);
                    },
                }
            },
            Component::Collider(nm) => {
                match data.lookup_collider(nm, collection_to_spawn_in) {
                    Ok((cc, cli)) => {
                        if rigid_body.is_none() {
                            proof {
                                lemma_preserves_refl(ents_view(entities@));
                                assert(roots@.subrange(0, roots@.len() as int) =~= roots@);
                                assert(walk_components(
                                    data@,
                                    node@.components,
                                    ci as int + 1,
                                    collection_to_spawn_in as int,
                                    node@.name,
                                ) == Err::<WalkState, ErrView>(
                                    ErrView::ColliderWithoutRigidBody { node: node@.name },
                                ));
                                lemma_walk_err_persists(
                                    data@,
                                    node@.components,
                                    ci as int + 1,
                                    ncomps as int,
                                    collection_to_spawn_in as int,
                                    node@.name,
                                );
                                let bspec = build_node_spec(
                                    data@,
                                    data@[source_collection as int].nodes[index as int].name,
                                    collection_to_spawn_in as int,
                                );
                                assert(bspec is Ok);
                                assert(bspec->Ok_0.0.components == node@.components);
                                assert(bspec->Ok_0.0.name == node@.name);
                                assert(spawn_spec(
                                    data@,
                                    index as int,
                                    source_collection as int,
                                    collection_to_spawn_in as int,
                                    pn_view,
                                    ents0,
                                    roots0,
                                    fuel as nat,
                                ) == Err::<(Seq<EntityView>, Seq<usize>), ErrView>(
                                    ErrView::ColliderWithoutRigidBody { node: node@.name },
                                ));
                            }
                            return Err(
                                SceneError::ColliderWithoutRigidBody { node: node.name.clone() },
                            );
                        }
                        collider = Some(ColliderRef { collection: cc, index: cli });
                    },
                    Err(e) => {
                        proof {
                            lemma_preserves_refl(ents_view(entities@));
                            assert(roots@.subrange(0, roots@.len() as int) =~= roots@);
                            assert(walk_components(
                                data@,
                                node@.components,
                                ci as int + 1,
                                collection_to_spawn_in as int,
                                node@.name,
                            ) == Err::<WalkState, ErrView>(e@));
                            lemma_walk_err_persists(
                                data@,
                                node@.components,
                                ci as int + 1,
                                ncomps as int,
                                collection_to_spawn_in as int,
                                node@.name,
                            );
                            let bspec = build_node_spec(
                                data@,
                                data@[source_collection as int].nodes[index as int].name,
                                collection_to_spawn_in as int,
                            );
                            assert(bspec is Ok);
                            assert(bspec->Ok_0.0.components == node@.components);
                            assert(bspec->Ok_0.0.name == node@.name);
                            assert(spawn_spec(
                                data@,
                                index as int,
                                source_collection as int,
                                collection_to_spawn_in as int,
                                pn_view,
                                ents0,
                                roots0,
                                fuel as nat,
                            ) == Err::<(Seq<EntityView>, Seq<usize>), ErrView>(e@));
                        }
                        return Err(e);
                    },
                }
            },
        }
    }

    // The externally visible name: the node's own name at the top level,
    // or the parent's name with the node's name appended inside a
    // cross-collection prefab expansion.
    let entity_name: String = if source_collection == collection_to_spawn_in {
        node.name.clone()
    } else {
        let mut s = parent_name.unwrap().clone();
        s.append(node.name.as_str());
        s
    };

    let parent_idx: Option<usize> = match parent_name {
        Some(pn) => {
            match find_entity_in(entities, pn) {
                Some(pi) => {
                    proof {
                        lemma_last_index_of_name(entity_names(ents_view(entities@)), pn@);
                    }
                    Some(pi)
                },
                None => {
                    proof {
                        assert(false);
                    }
                    None
                },
            }
        },
        None => None,
    };

    let idx = entities.len();
    let ghost pre_push = ents_view(entities@);
    let ent = EntityData {
        name: entity_name.clone(),
        local_transform: LocalTransform(transform),
        global_transform: GlobalTransform(transform),
        parent: match parent_idx {
            Some(p) => Some(Parent(p)),
            None => None,
        },
        children: Children(ChildList::new()),
        mesh,
        rigid_body,
        collider,
        rigid_body_handle: None,
        collider_handle: None,
    };
    let ghost pre_vec = entities@;
    entities.push(ent);
    proof {
        assert(entities@ == pre_vec.push(entities@[idx as int]));
        assert forall|j: int| 0 <= j < idx implies ents_view(entities@)[j] == pre_push[j] by {
            assert(entities@[j] == pre_vec[j]);
        }
        assert(ents_view(entities@)[idx as int].children =~= Seq::<usize>::empty());
        assert forall|i2: int, k2: int|
            0 <= i2 < ents_view(entities@).len() && 0 <= k2 < ents_view(entities@)[
                i2
            ].children.len() implies {
            let c = #[trigger] ents_view(entities@)[i2].children[k2];
            &&& i2 < c < ents_view(entities@).len()
            &&& ents_view(entities@)[c as int].parent == Some(i2 as usize)
        } by {
            assert(i2 < idx);
            assert(ents_view(entities@)[i2] == pre_push[i2]);
            let c = ents_view(entities@)[i2].children[k2];
            assert(i2 < c < pre_push.len());
            assert(ents_view(entities@)[c as int] == pre_push[c as int]);
        }
        assert forall|i2: int|
            0 <= i2 < ents_view(entities@).len() implies ((#[trigger] ents_view(
            entities@,
        )[i2]).parent matches Some(pp) ==> pp < i2) by {
            if i2 < idx {
                assert(ents_view(entities@)[i2] == pre_push[i2]);
            }
        }
        assert forall|j2: int|
            0 <= j2 < roots@.len() implies (#[trigger] roots@[j2]) < ents_view(
            entities@,
        ).len() && ents_view(entities@)[roots@[j2] as int].parent is None by {
            assert(ents_view(entities@)[roots@[j2] as int] == pre_push[roots@[j2] as int]);
        }
        assert forall|i2: int|
            0 <= i2 < ents_view(entities@).len() implies wf_entity_refs(
            #[trigger] ents_view(entities@)[i2],
            data@,
        ) by {
            if i2 < idx {
                assert(ents_view(entities@)[i2] == pre_push[i2]);
            } else {
                assert(ents_view(entities@)[i2] == entities@[idx as int]@);
            }
        }
        assert(wf_hierarchy(ents_view(entities@), roots@, data@));
        assert forall|i: int| 0 <= i < pre_push.len() implies (#[trigger] pre_push[i]).children
            == ents_view(entities@)[i].children.subrange(0, pre_push[i].children.len() as int)
        by {
            assert(ents_view(entities@)[i].children.subrange(
                0,
                pre_push[i].children.len() as int,
            ) =~= pre_push[i].children);
        }
        assert(preserves_existing(pre_push, ents_view(entities@)));
    }

    match parent_idx {
        Some(p) => {
            let ghost pre_link = ents_view(entities@);
            let ghost pre_link_vec = entities@;
            entities[p].children.0.push(idx);
            proof {
                assert(entities@.len() == pre_link_vec.len());
                assert forall|j: int| 0 <= j < pre_link.len() && j != p implies ents_view(
                    entities@,
                )[j] == pre_link[j] by {
                    assert(entities@[j] == pre_link_vec[j]);
                }
                assert(ents_view(entities@)[p as int] == (EntityView {
                    children: pre_link[p as int].children.push(idx),
                    ..pre_link[p as int]
                }));
                assert forall|i: int, k: int|
                    0 <= i < ents_view(entities@).len() && 0 <= k < ents_view(entities@)[
                        i
                    ].children.len() implies {
                    let c = #[trigger] ents_view(entities@)[i].children[k];
                    &&& i < c < ents_view(entities@).len()
                    &&& ents_view(entities@)[c as int].parent == Some(i as usize)
                } by {
                    if i == p as int && k == pre_link[p as int].children.len() {
                        assert(ents_view(entities@)[i].children[k] == idx);
                        assert(ents_view(entities@)[idx as int] == pre_link[idx as int]);
                        assert(p < idx);
                    } else {
                        assert(ents_view(entities@)[i].children[k] == pre_link[i].children[k]);
                        let c = ents_view(entities@)[i].children[k];
                        assert(i < c < pre_link.len());
                        if c != p {
                            assert(ents_view(entities@)[c as int] == pre_link[c as int]);
                        }
                    }
                }
                assert forall|i2: int|
                    0 <= i2 < ents_view(entities@).len() implies ((#[trigger] ents_view(
                    entities@,
                )[i2]).parent matches Some(pp) ==> pp < i2) by {
                    if i2 != p as int {
                        assert(ents_view(entities@)[i2] == pre_link[i2]);
                    } else {
                        assert(ents_view(entities@)[i2].parent == pre_link[i2].parent);
                    }
                }
                assert forall|j2: int|
                    0 <= j2 < roots@.len() implies (#[trigger] roots@[j2]) < ents_view(
                    entities@,
                ).len() && ents_view(entities@)[roots@[j2] as int].parent is None by {
                    if roots@[j2] as int != p as int {
                        assert(ents_view(entities@)[roots@[j2] as int] == pre_link[
                            roots@[j2] as int
                        ]);
                    } else {
                        assert(ents_view(entities@)[roots@[j2] as int].parent == pre_link[
                            roots@[j2] as int
                        ].parent);
                    }
                }
                assert forall|i2: int|
                    0 <= i2 < ents_view(entities@).len() implies wf_entity_refs(
                    #[trigger] ents_view(entities@)[i2],
                    data@,
                ) by {
                    if i2 != p as int {
                        assert(ents_view(entities@)[i2] == pre_link[i2]);
                    } else {
                        assert(ents_view(entities@)[i2].mesh == pre_link[i2].mesh);
                        assert(ents_view(entities@)[i2].rigid_body == pre_link[i2].rigid_body);
                        assert(ents_view(entities@)[i2].collider == pre_link[i2].collider);
                    }
                }
                assert(wf_hierarchy(ents_view(entities@), roots@, data@));
                assert forall|i: int| 0 <= i < pre_link.len() implies (#[trigger] pre_link[
                    i
                ]).children == ents_view(entities@)[i].children.subrange(
                    0,
                    pre_link[i].children.len() as int,
                ) by {
                    assert(ents_view(entities@)[i].children.subrange(
                        0,
                        pre_link[i].children.len() as int,
                    ) =~= pre_link[i].children);
                }
                assert(preserves_existing(pre_link, ents_view(entities@)));
                lemma_preserves_trans(pre_push, pre_link, ents_view(entities@));
            }
        },
        None => {
            roots.push(idx);
            proof {
                assert(wf_hierarchy(ents_view(entities@), roots@, data@));
            }
        },
    }

    let ghost after_link = ents_view(entities@);
    let ghost resolved = build_node_spec(
        data@,
        data@[source_collection as int].nodes[index as int].name,
        collection_to_spawn_in as int,
    )->Ok_0;
    proof {
        lemma_preserves_refl(after_link);
        assert(roots@.subrange(0, old(roots)@.len() as int) =~= old(roots)@);
        assert(node@.components == resolved.0.components);
        assert(node@.name == resolved.0.name);
        assert(node@.components.len() == ncomps);
        assert(walk_components(
            data@,
            resolved.0.components,
            resolved.0.components.len() as int,
            collection_to_spawn_in as int,
            resolved.0.name,
        ) == Ok::<WalkState, ErrView>(
            WalkState { local: transform@, mesh, rigid_body, collider },
        ));
        assert(entity_name@ == (if source_collection == collection_to_spawn_in {
            resolved.0.name
        } else {
            pn_view->Some_0 + resolved.0.name
        }));
        // The spec model's new entity, matched field by field against the
        // entity just pushed and linked.
        let pidx_spec: Option<int> = match pn_view {
            Some(pn) => last_index_of_name(entity_names(ents0), pn),
            None => None,
        };
        let e_spec = EntityView {
            name: entity_name@,
            local: transform@,
            global: transform@,
            parent: match pidx_spec {
                Some(p) => Some(p as usize),
                None => None,
            },
            children: Seq::<usize>::empty(),
            mesh: mesh,
            rigid_body: rigid_body,
            collider: collider,
            rigid_body_handle: None,
            collider_handle: None,
        };
        assert(pre_push == ents0);
        assert(ents_view(entities@)[idx as int].local == transform@);
        assert(ents_view(entities@)[idx as int].global == transform@);
        assert(ents_view(entities@)[idx as int].mesh == mesh);
        assert(ents_view(entities@)[idx as int].rigid_body == rigid_body);
        assert(ents_view(entities@)[idx as int].collider == collider);
        match parent_idx {
            Some(pi) => {
                assert(pidx_spec == Some(pi as int));
                assert(ents_view(entities@)[idx as int] == e_spec);
                assert(ents_view(entities@) =~= ents0.push(e_spec).update(
                    pi as int,
                    EntityView {
                        children: ents0.push(e_spec)[pi as int].children.push(idx),
                        ..ents0.push(e_spec)[pi as int]
                    },
                ));
                assert(roots@ == roots0);
            },
            None => {
                assert(pidx_spec is None);
                assert(ents_view(entities@)[idx as int] == e_spec);
                assert(ents_view(entities@) =~= ents0.push(e_spec));
                assert(roots@ == roots0.push(idx));
            },
        }
        assert(spawn_spec(
            data@,
            index as int,
            source_collection as int,
            collection_to_spawn_in as int,
            pn_view,
            ents0,
            roots0,
            fuel as nat,
        ) == spawn_children_spec(
            data@,
            children@,
            0,
            collection_to_spawn_in as int,
            entity_name@,
            ents_view(entities@),
            roots@,
            fuel as nat,
        ));
    }
    let nchild = children.len();
    for k in 0..nchild
        invariant
            nchild == children@.len(),
            collection_to_spawn_in < data@.len(),
            data_wf(data@),
            forall|k2: int|
                0 <= k2 < children@.len() ==> (#[trigger] children@[k2]).1 < data@.len()
                    && children@[k2].0 < data@[children@[k2].1 as int].nodes.len(),
            wf_hierarchy(ents_view(entities@), roots@, data@),
            idx < after_link.len(),
            after_link[idx as int].name == entity_name@,
            preserves_existing(after_link, ents_view(entities@)),
            preserves_existing(ents_view(old(entities)@), ents_view(entities@)),
            entities@.len() > old(entities)@.len(),
            forall|i: int|
                old(entities)@.len() <= i < entities@.len() ==> (#[trigger] ents_view(
                    entities@,
                )[i]).rigid_body_handle is None && ents_view(
                    entities@,
                )[i].collider_handle is None,
            roots@.len() >= old(roots)@.len(),
            roots@.subrange(0, old(roots)@.len() as int) == old(roots)@,
            fuel >= 1,
            idx == old(entities)@.len(),
            parent_name is Some ==> roots@ == old(roots)@,
            parent_name is None ==> roots@ == old(roots)@.push(idx as usize),
            ents0 == ents_view(old(entities)@),
            roots0 == old(roots)@,
            pn_view == (match parent_name {
                Some(nm) => Some(nm@),
                None => None,
            }),
            spawn_spec(
                data@,
                index as int,
                source_collection as int,
                collection_to_spawn_in as int,
                pn_view,
                ents0,
                roots0,
                fuel as nat,
            ) == spawn_children_spec(
                data@,
                children@,
                k as int,
                collection_to_spawn_in as int,
                entity_name@,
                ents_view(entities@),
                roots@,
                fuel as nat,
            ),
    {
        let (child_index, origin) = children[k];
        proof {
            assert(children@[k as int].1 < data@.len());
            assert(ents_view(entities@)[idx as int].name == entity_name@);
            lemma_name_present(entity_names(ents_view(entities@)), entity_name@, idx as int);
        }
        let ghost before_rec = ents_view(entities@);
        let ghost roots_before_rec = roots@;
        let res = spawn_entities_recursive(
            data,
            child_index,
            origin,
            collection_to_spawn_in,
            Some(&entity_name),
            entities,
            roots,
            fuel - 1,
        );
        proof {
            lemma_preserves_trans(after_link, before_rec, ents_view(entities@));
            lemma_preserves_trans(
                ents_view(old(entities)@),
                before_rec,
                ents_view(entities@),
            );
            assert(roots@.subrange(0, old(roots)@.len() as int) =~= roots@.subrange(
                0,
                roots_before_rec.len() as int,
            ).subrange(0, old(roots)@.len() as int));
            assert forall|i: int|
                old(entities)@.len() <= i < entities@.len() implies (#[trigger] ents_view(
                entities@,
            )[i]).rigid_body_handle is None && ents_view(
                entities@,
            )[i].collider_handle is None by {
                if i < before_rec.len() {
                    assert(before_rec[i].rigid_body_handle == ents_view(
                        entities@,
                    )[i].rigid_body_handle);
                    assert(before_rec[i].collider_handle == ents_view(
                        entities@,
                    )[i].collider_handle);
                }
            }
        }
        proof {
            assert(children@[k as int] == (child_index, origin));
            match res {
                Ok(_) => {
                    assert(spawn_children_spec(
                        data@,
                        children@,
                        k as int,
                        collection_to_spawn_in as int,
                        entity_name@,
                        before_rec,
                        roots_before_rec,
                        fuel as nat,
                    ) == spawn_children_spec(
                        data@,
                        children@,
                        k as int + 1,
                        collection_to_spawn_in as int,
                        entity_name@,
                        ents_view(entities@),
                        roots@,
                        fuel as nat,
                    ));
                },
                Err(_) => {
                    assert(spawn_children_spec(
                        data@,
                        children@,
                        k as int,
                        collection_to_spawn_in as int,
                        entity_name@,
                        before_rec,
                        roots_before_rec,
                        fuel as nat,
                    ) == Err::<(Seq<EntityView>, Seq<usize>), ErrView>(res->Err_0@));
                },
            }
        }
        match res {
            Ok(()) => {},
            Err(e) => {
                return Err(e);
            },
        }
    }
    Ok(())
}


impl AppState {
    /// Makes the collection at `index` the current scene: the new
    /// hierarchy is fully resolved and built first, the old one is torn
    /// down only on success, and the physics handles of the old entities
    /// are handed back for deregistration. On failure the previous
    /// hierarchy is left exactly as it was.
    pub fn set_current_scene(&mut self, index: usize) -> (r: Result<
        Vec<(Option<RigidBodyHandle>, Option<ColliderHandle>)>,
        SceneError,
    >)
        requires
            data_wf(old(self).data_accessor@),
            index < old(self).data_accessor@.len(),
        ensures
            final(self).data_accessor == old(self).data_accessor,
            r matches Ok(removed) ==> {
                &&& wf_hierarchy(
                    ents_view(final(self).entities@),
                    final(self).root_entities@,
                    final(self).data_accessor@,
                )
                &&& removed@.len() == old(self).entities@.len()
                &&& forall|i: int|
                    0 <= i < removed@.len() ==> removed@[i] == ((#[trigger] ents_view(
                        old(self).entities@,
                    )[i]).rigid_body_handle, ents_view(old(self).entities@)[i].collider_handle)
                &&& forall|i: int|
                    0 <= i < final(self).entities@.len() ==> (#[trigger] ents_view(
                        final(self).entities@,
                    )[i]).rigid_body_handle is None && ents_view(
                        final(self).entities@,
                    )[i].collider_handle is None
                &&& final(self).root_entities@.len() == parentless_count(
                    old(self).data_accessor@[index as int].nodes,
                    old(self).data_accessor@[index as int].nodes.len() as int,
                )
            },
            r is Ok ==> scene_spawn_spec(old(self).data_accessor@, index as int) == Ok::<
                (Seq<EntityView>, Seq<usize>),
                ErrView,
            >((ents_view(final(self).entities@), final(self).root_entities@)),
            r matches Err(e) ==> scene_spawn_spec(old(self).data_accessor@, index as int)
                == Err::<(Seq<EntityView>, Seq<usize>), ErrView>(e@),
            r is Err ==> *final(self) == *old(self),
    {
        let mut new_entities: Vec<EntityData> = Vec::new();
        let mut new_roots: Vec<usize> = Vec::new();
        let fuel = self.data_accessor.total_node_count() + 1;
        let n = self.data_accessor.collections[index].scene_nodes.len();
        proof {
            assert(ents_view(new_entities@) =~= Seq::<EntityView>::empty());
        }
        for i in 0..n
            invariant
                *self == *old(self),
                data_wf(self.data_accessor@),
                index < self.data_accessor@.len(),
                n == self.data_accessor@[index as int].nodes.len(),
                fuel as nat == (total_nodes(self.data_accessor@) + 1) as nat,
                switch_spec(self.data_accessor@, index as int, i as int, fuel as nat) == Ok::<
                    (Seq<EntityView>, Seq<usize>),
                    ErrView,
                >((ents_view(new_entities@), new_roots@)),
                wf_hierarchy(ents_view(new_entities@), new_roots@, self.data_accessor@),
                forall|j: int|
                    0 <= j < new_entities@.len() ==> (#[trigger] ents_view(
                        new_entities@,
                    )[j]).rigid_body_handle is None && ents_view(
                        new_entities@,
                    )[j].collider_handle is None,
                new_roots@.len() == parentless_count(
                    self.data_accessor@[index as int].nodes,
                    i as int,
                ),
        {
            let has_parent = self.data_accessor.collections[index].scene_nodes[i]
                .get_parent().is_some();
            proof {
                assert(has_parent == (parent_name_of(
                    self.data_accessor@[index as int].nodes[i as int],
                ) is Some));
            }
            if !has_parent {
                let ghost before_call = ents_view(new_entities@);
                let ghost roots_before_call = new_roots@;
                let res = spawn_entities_recursive(
                    &self.data_accessor,
                    i,
                    index,
                    index,
                    None,
                    &mut new_entities,
                    &mut new_roots,
                    fuel,
                );
                proof {
                    assert forall|j: int|
                        0 <= j < new_entities@.len() implies (#[trigger] ents_view(
                        new_entities@,
                    )[j]).rigid_body_handle is None && ents_view(
                        new_entities@,
                    )[j].collider_handle is None by {
                        if j < before_call.len() {
                            assert(before_call[j].rigid_body_handle == ents_view(
                                new_entities@,
                            )[j].rigid_body_handle);
                            assert(before_call[j].collider_handle == ents_view(
                                new_entities@,
                            )[j].collider_handle);
                        }
                    }
                }
                proof {
                    match res {
                        Ok(_) => {
                            assert(switch_spec(
                                self.data_accessor@,
                                index as int,
                                i as int + 1,
                                fuel as nat,
                            ) == Ok::<(Seq<EntityView>, Seq<usize>), ErrView>(
                                (ents_view(new_entities@), new_roots@),
                            ));
                        },
                        Err(_) => {
                            assert(switch_spec(
                                self.data_accessor@,
                                index as int,
                                i as int + 1,
                                fuel as nat,
                            ) == Err::<(Seq<EntityView>, Seq<usize>), ErrView>(res->Err_0@));
                            lemma_switch_err_persists(
                                self.data_accessor@,
                                index as int,
                                i as int + 1,
                                n as int,
                                fuel as nat,
                            );
                        },
                    }
                }
                match res {
                    Ok(()) => {},
                    Err(e) => {
                        return Err(e);
                    },
                }
            }
        }
        let removed = self.remove_all_entities();
        self.entities = new_entities;
        self.root_entities = new_roots;
        Ok(removed)
    }

    /// Drains the frame's scene-switch commands in order, applying each
    /// as `set_current_scene` does. The physics handles that every applied
    /// teardown released are handed back alongside the outcome, so the
    /// caller can deregister them even when a later command of the batch
    /// fails; a failing command stops the drain and leaves the hierarchy
    /// of the last successful switch in place.
    pub fn handle_commands(&mut self, commands: &Events<Command>) -> (r: (
        Vec<(Option<RigidBodyHandle>, Option<ColliderHandle>)>,
        Result<(), SceneError>,
    ))
        requires
            data_wf(old(self).data_accessor@),
            wf_hierarchy(
                ents_view(old(self).entities@),
                old(self).root_entities@,
                old(self).data_accessor@,
            ),
            forall|j: int|
                0 <= j < commands.events@.len() ==> ((#[trigger] commands.events@[j])
                    matches Command::SetCurrentScene(i) ==> i < old(self).data_accessor@.len()),
        ensures
            final(self).data_accessor == old(self).data_accessor,
            wf_hierarchy(
                ents_view(final(self).entities@),
                final(self).root_entities@,
                final(self).data_accessor@,
            ),
            commands.events@.len() == 0 ==> *final(self) == *old(self) && r.0@.len() == 0,
            r.1 is Ok ==> run_commands_spec(
                old(self).data_accessor@,
                commands.events@,
                0,
                ents_view(old(self).entities@),
                old(self).root_entities@,
            ) == Ok::<(Seq<EntityView>, Seq<usize>), ErrView>(
                (ents_view(final(self).entities@), final(self).root_entities@),
            ),
            r.1 matches Err(e) ==> run_commands_spec(
                old(self).data_accessor@,
                commands.events@,
                0,
                ents_view(old(self).entities@),
                old(self).root_entities@,
            ) == Err::<(Seq<EntityView>, Seq<usize>), ErrView>(e@),
            r.1 is Ok && commands.events@.len() > 0 ==> forall|i: int|
                0 <= i < final(self).entities@.len() ==> (#[trigger] ents_view(
                    final(self).entities@,
                )[i]).rigid_body_handle is None && ents_view(
                    final(self).entities@,
                )[i].collider_handle is None,
            r.0@.len() > 0 ==> {
                &&& r.0@.len() >= old(self).entities@.len()
                &&& forall|i: int|
                    0 <= i < old(self).entities@.len() ==> r.0@[i] == ((#[trigger] ents_view(
                        old(self).entities@,
                    )[i]).rigid_body_handle, ents_view(old(self).entities@)[i].collider_handle)
                &&& forall|i: int|
                    old(self).entities@.len() <= i < r.0@.len() ==> (#[trigger] r.0@[i]).0
                        is None && r.0@[i].1 is None
            },
    {
        let mut removed: Vec<(Option<RigidBodyHandle>, Option<ColliderHandle>)> = Vec::new();
        let n = commands.events.len();
        for k in 0..n
            invariant
                n == commands.events@.len(),
                self.data_accessor == old(self).data_accessor,
                data_wf(self.data_accessor@),
                wf_hierarchy(
                    ents_view(self.entities@),
                    self.root_entities@,
                    self.data_accessor@,
                ),
                forall|j: int|
                    0 <= j < commands.events@.len() ==> ((#[trigger] commands.events@[j])
                        matches Command::SetCurrentScene(i) ==> i
                        < self.data_accessor@.len()),
                run_commands_spec(
                    old(self).data_accessor@,
                    commands.events@,
                    0,
                    ents_view(old(self).entities@),
                    old(self).root_entities@,
                ) == run_commands_spec(
                    old(self).data_accessor@,
                    commands.events@,
                    k as int,
                    ents_view(self.entities@),
                    self.root_entities@,
                ),
                k == 0 ==> *self == *old(self) && removed@.len() == 0,
                k > 0 ==> {
                    &&& removed@.len() >= old(self).entities@.len()
                    &&& forall|i: int|
                        0 <= i < old(self).entities@.len() ==> removed@[i] == ((
                        #[trigger] ents_view(old(self).entities@)[i]).rigid_body_handle, ents_view(
                            old(self).entities@,
                        )[i].collider_handle)
                    &&& forall|i: int|
                        old(self).entities@.len() <= i < removed@.len() ==> (#[trigger] removed@[
                            i
                        ]).0 is None && removed@[i].1 is None
                    &&& forall|i: int|
                        0 <= i < self.entities@.len() ==> (#[trigger] ents_view(
                            self.entities@,
                        )[i]).rigid_body_handle is None && ents_view(
                            self.entities@,
                        )[i].collider_handle is None
                },
        {
            let Command::SetCurrentScene(index) = commands.events[k];
            let ghost pre_ents = ents_view(self.entities@);
            let ghost pre_roots = self.root_entities@;
            let ghost pre_removed = removed@;
            let res = self.set_current_scene(index);
            proof {
                assert(commands.events@[k as int]->SetCurrentScene_0 == index);
            }
            match res {
                Ok(handles) => {
                    let mut handles = handles;
                    proof {
                        assert(run_commands_spec(
                            self.data_accessor@,
                            commands.events@,
                            k as int,
                            pre_ents,
                            pre_roots,
                        ) == run_commands_spec(
                            self.data_accessor@,
                            commands.events@,
                            k as int + 1,
                            ents_view(self.entities@),
                            self.root_entities@,
                        ));
                        assert(handles@.len() == pre_ents.len());
                        assert forall|i: int| 0 <= i < handles@.len() implies #[trigger] handles@[
                            i
                        ] == (pre_ents[i].rigid_body_handle, pre_ents[i].collider_handle) by {}
                    }
                    removed.append(&mut handles);
                },
                Err(e) => {
                    proof {
                        assert(run_commands_spec(
                            self.data_accessor@,
                            commands.events@,
                            k as int,
                            pre_ents,
                            pre_roots,
                        ) == Err::<(Seq<EntityView>, Seq<usize>), ErrView>(e@));
                    }
                    return (removed, Err(e));
                },
            }
        }
        (removed, Ok(()))
    }
}

} // verus!
