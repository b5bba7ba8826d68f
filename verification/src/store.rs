//! The collection store: every loaded collection, ordered by load
//! position, with qualified cross-collection lookup.
//!
//! A collection's index is its load position and never changes. Qualified
//! paths `collection/name` are split on the first `/`; a bare name resolves
//! in the collection currently being spawned into.
use vstd::prelude::*;

verus! {

use crate::collection::{
    CollView,
    Collection,
    body_names,
    collider_names,
    is_initialized_from,
    last_index_of_name,
    lemma_last_index_of_name,
    mesh_names,
    node_names,
    parent_name_of,
    parent_index_of,
    parents_resolvable,
};
use crate::errors::{ErrView, SceneError};
use crate::mesh_data::MeshData;
use crate::physics_data::{Collider, RigidBody};
use crate::qualified::{build_qualified, first_slash, qualify_name, split_path};
use crate::scene::{CompView, Component, SceneNode, set_comp, sort_comps, sort_components};

/// The names of the loaded collections, in load order.
pub open spec fn coll_names(colls: Seq<CollView>) -> Seq<Seq<char>> {
    colls.map_values(|c: CollView| c.name)
}

/// Splitting a path against a context collection: a bare name stays in
/// the context; a qualified path names its collection explicitly, latest
/// loaded collection of that name winning.
pub open spec fn resolve_path(colls: Seq<CollView>, path: Seq<char>, ctx: int) -> Result<
    (int, Seq<char>),
    ErrView,
> {
    match first_slash(path) {
        None => Ok((ctx, path)),
        Some(i) => {
            let head = path.subrange(0, i);
            let tail = path.subrange(i + 1, path.len() as int);
            match last_index_of_name(coll_names(colls), head) {
                Some(c) => Ok((c, tail)),
                None => Err(ErrView::MissingCollectionName { name: head }),
            }
        },
    }
}

/// Resolving a node reference: where the path leads, which node it names.
pub open spec fn node_lookup(colls: Seq<CollView>, name: Seq<char>, ctx: int) -> Result<
    (int, int),
    ErrView,
> {
    match resolve_path(colls, name, ctx) {
        Err(e) => Err(e),
        Ok((c, n)) => match last_index_of_name(node_names(colls[c].nodes), n) {
            Some(ni) => Ok((c, ni)),
            None => Err(ErrView::MissingNode { name: n, collection: colls[c].name }),
        },
    }
}

/// Resolving a mesh reference.
pub open spec fn mesh_lookup(colls: Seq<CollView>, name: Seq<char>, ctx: int) -> Result<
    (int, int),
    ErrView,
> {
    match resolve_path(colls, name, ctx) {
        Err(e) => Err(e),
        Ok((c, n)) => match last_index_of_name(mesh_names(colls[c].meshes), n) {
            Some(mi) => Ok((c, mi)),
            None => Err(ErrView::MissingMesh { name: n, collection: colls[c].name }),
        },
    }
}

/// Resolving a rigid-body reference.
pub open spec fn body_lookup(colls: Seq<CollView>, name: Seq<char>, ctx: int) -> Result<
    (int, int),
    ErrView,
> {
    match resolve_path(colls, name, ctx) {
        Err(e) => Err(e),
        Ok((c, n)) => match last_index_of_name(body_names(colls[c].rigid_bodies), n) {
            Some(bi) => Ok((c, bi)),
            None => Err(ErrView::MissingRigidBody { name: n, collection: colls[c].name }),
        },
    }
}

/// Resolving a collider reference.
pub open spec fn collider_lookup(colls: Seq<CollView>, name: Seq<char>, ctx: int) -> Result<
    (int, int),
    ErrView,
> {
    match resolve_path(colls, name, ctx) {
        Err(e) => Err(e),
        Ok((c, n)) => match last_index_of_name(collider_names(colls[c].colliders), n) {
            Some(ci) => Ok((c, ci)),
            None => Err(ErrView::MissingCollider { name: n, collection: colls[c].name }),
        },
    }
}

/// A successful `resolve_path` lands on a loaded collection whenever the
/// context is one.
pub proof fn lemma_resolve_path_in_range(colls: Seq<CollView>, path: Seq<char>, ctx: int)
    requires
        0 <= ctx < colls.len(),
    ensures
        resolve_path(colls, path, ctx) matches Ok((c, _)) ==> 0 <= c < colls.len(),
{
    if first_slash(path) is Some {
        let i = first_slash(path).unwrap();
        lemma_last_index_of_name(coll_names(colls), path.subrange(0, i));
    }
}

/// The total number of scene nodes over a sequence of collections.
pub open spec fn total_nodes(colls: Seq<CollView>) -> int
    decreases colls.len(),
{
    if colls.len() == 0 {
        0
    } else {
        total_nodes(colls.drop_last()) + colls.last().nodes.len()
    }
}

/// The store of loaded collections.
#[derive(Debug)]
pub struct DataAccessor {
    pub collections: Vec<Collection>,
}

impl View for DataAccessor {
    type V = Seq<CollView>;

    open spec fn view(&self) -> Seq<CollView> {
        self.collections@.map_values(|c: Collection| c@)
    }
}

impl DataAccessor {
    /// An empty store.
    pub fn new() -> (r: Self)
        ensures
            r@ == Seq::<CollView>::empty(),
    {
        let r = DataAccessor { collections: Vec::new() };
        proof {
            assert(r@ =~= Seq::<CollView>::empty());
        }
        r
    }

    /// Registers one parsed collection under the given name: initializes
    /// it (child lists, component order) and appends it at the next index.
    /// On a dangling parent reference nothing is registered.
    pub fn load_collection(&mut self, name: String, collection: Collection) -> (r: Result<
        (),
        SceneError,
    >)
        ensures
            r is Ok <==> parents_resolvable(collection@.nodes),
            r matches Ok(()) ==> {
                &&& final(self)@.len() == old(self)@.len() + 1
                &&& forall|i: int| 0 <= i < old(self)@.len() ==> final(self)@[i] == old(self)@[i]
                &&& is_initialized_from(final(self)@.last(), collection@, name@)
            },
            r matches Err(e) ==> {
                &&& *final(self) == *old(self)
                &&& e@ matches ErrView::DanglingParentReference { node, parent }
                &&& exists|i: int|
                    0 <= i < collection@.nodes.len() && (#[trigger] parent_name_of(
                        collection@.nodes[i],
                    )) == Some(parent) && parent_index_of(collection@.nodes, i) is None && node
                        == collection@.nodes[i].name
            },
    {
        let mut collection = collection;
        match collection.initialize(name) {
            Err(e) => Err(e),
            Ok(()) => {
                self.collections.push(collection);
                proof {
                    assert forall|i: int| 0 <= i < old(self)@.len() implies final(self)@[i] == old(
                        self,
                    )@[i] by {}
                }
                Ok(())
            },
        }
    }

    /// Looks a collection up by name, latest loaded winning.
    pub fn find_collection(&self, name: &String) -> (r: Option<usize>)
        ensures
            match r {
                Some(c) => last_index_of_name(coll_names(self@), name@) == Some(c as int),
                None => last_index_of_name(coll_names(self@), name@) is None,
            },
    {
        let mut i = self.collections.len();
        while i > 0
            invariant
                i <= self.collections.len(),
                forall|j: int| i <= j < self@.len() ==> coll_names(self@)[j] != name@,
            decreases i,
        {
            i = i - 1;
            if self.collections[i].name == *name {
                proof {
                    crate::collection::lemma_last_index_at(coll_names(self@), name@, i as int);
                }
                return Some(i);
            }
        }
        proof {
            crate::collection::lemma_last_index_none(coll_names(self@), name@);
        }
        None
    }

    /// Splits a reference into its source collection and the name to look
    /// up there: a bare name stays in the context collection, a qualified
    /// path names its collection, and an unknown collection segment
    /// resolves to nothing.
    pub fn get_source_collection_and_component_name(
        &self,
        component_path: &String,
        collection_to_spawn_in: usize,
    ) -> (r: Option<(usize, String)>)
        ensures
            match resolve_path(self@, component_path@, collection_to_spawn_in as int) {
                Ok((c, n)) => r matches Some((rc, rn)) && rc as int == c && rn@ == n,
                Err(_) => r is None,
            },
    {
        match split_path(component_path) {
            None => Some((collection_to_spawn_in, component_path.clone())),
            Some((head, tail)) => {
                match self.find_collection(&head) {
                    Some(c) => Some((c, tail)),
                    None => None,
                }
            },
        }
    }

    /// Resolves a node reference to its defining collection and node
    /// index, with the exact failure when it does not resolve.
    pub(crate) fn lookup_node(&self, name: &String, ctx: usize) -> (r: Result<
        (usize, usize),
        SceneError,
    >)
        requires
            ctx < self@.len(),
        ensures
            match r {
                Ok((c, ni)) => {
                    &&& node_lookup(self@, name@, ctx as int) == Ok::<_, ErrView>(
                        (c as int, ni as int),
                    )
                    &&& c < self@.len()
                    &&& ni < self@[c as int].nodes.len()
                },
                Err(e) => node_lookup(self@, name@, ctx as int) == Err::<(int, int), _>(e@),
            },
    {
        let (c, node_name): (usize, String) = match split_path(name) {
            None => (ctx, name.clone()),
            Some((head, tail)) => {
                match self.find_collection(&head) {
                    Some(c) => {
                        proof {
                            lemma_last_index_of_name(coll_names(self@), head@);
                        }
                        (c, tail)
                    },
                    None => {
                        return Err(SceneError::MissingCollectionName { name: head });
                    },
                }
            },
        };
        match self.collections[c].find_scene_node(&node_name) {
            Some(ni) => {
                proof {
                    lemma_last_index_of_name(node_names(self@[c as int].nodes), node_name@);
                }
                Ok((c, ni))
            },
            None => Err(
                SceneError::MissingNode {
                    name: node_name,
                    collection: self.collections[c].name.clone(),
                },
            ),
        }
    }

    /// The mesh a resolved Mesh reference names, when it exists.
    pub fn get_mesh(&self, name: &String, collection_to_spawn_in: usize) -> (r: Option<&MeshData>)
        requires
            collection_to_spawn_in < self@.len(),
        ensures
            match mesh_lookup(self@, name@, collection_to_spawn_in as int) {
                Ok((c, mi)) => r matches Some(m) && m@ == self@[c].meshes[mi],
                Err(_) => r is None,
            },
    {
        proof {
            lemma_resolve_path_in_range(self@, name@, collection_to_spawn_in as int);
        }
        match self.get_source_collection_and_component_name(name, collection_to_spawn_in) {
            Some((c, n)) => {
                match self.collections[c].find_mesh(&n) {
                    Some(mi) => {
                        proof {
                            lemma_last_index_of_name(mesh_names(self@[c as int].meshes), n@);
                        }
                        Some(&self.collections[c].meshes[mi])
                    },
                    None => None,
                }
            },
            None => None,
        }
    }

    /// The rigid body a resolved RigidBody reference names, when it
    /// exists.
    pub fn get_rigid_body(&self, name: &String, collection_to_spawn_in: usize) -> (r: Option<
        &RigidBody,
    >)
        requires
            collection_to_spawn_in < self@.len(),
        ensures
            match body_lookup(self@, name@, collection_to_spawn_in as int) {
                Ok((c, bi)) => r matches Some(b) && b@ == self@[c].rigid_bodies[bi],
                Err(_) => r is None,
            },
    {
        proof {
            lemma_resolve_path_in_range(self@, name@, collection_to_spawn_in as int);
        }
        match self.get_source_collection_and_component_name(name, collection_to_spawn_in) {
            Some((c, n)) => {
                match self.collections[c].find_rigid_body(&n) {
                    Some(bi) => {
                        proof {
                            lemma_last_index_of_name(body_names(self@[c as int].rigid_bodies), n@);
                        }
                        Some(&self.collections[c].rigid_bodies[bi])
                    },
                    None => None,
                }
            },
            None => None,
        }
    }

    /// The collider a resolved Collider reference names, when it exists.
    pub fn get_collider(&self, name: &String, collection_to_spawn_in: usize) -> (r: Option<
        &Collider,
    >)
        requires
            collection_to_spawn_in < self@.len(),
        ensures
            match collider_lookup(self@, name@, collection_to_spawn_in as int) {
                Ok((c, ci)) => r matches Some(cl) && cl@ == self@[c].colliders[ci],
                Err(_) => r is None,
            },
    {
        proof {
            lemma_resolve_path_in_range(self@, name@, collection_to_spawn_in as int);
        }
        match self.get_source_collection_and_component_name(name, collection_to_spawn_in) {
            Some((c, n)) => {
                match self.collections[c].find_collider(&n) {
                    Some(ci) => {
                        proof {
                            lemma_last_index_of_name(
                                collider_names(self@[c as int].colliders),
                                n@,
                            );
                        }
                        Some(&self.collections[c].colliders[ci])
                    },
                    None => None,
                }
            },
            None => None,
        }
    }
}


/// Applying one authored component onto a resolved base: the matching
/// variant is overwritten; name-valued references authored in a defining
/// collection other than the spawn target are rewritten to their
/// qualified form; Parent components contribute nothing during prefab
/// merging.
pub open spec fn apply_one(
    base: Seq<CompView>,
    c: CompView,
    defining: Seq<char>,
    qualify: bool,
) -> Seq<CompView> {
    match c {
        CompView::Transform { .. } => set_comp(base, c),
        CompView::Mesh(nm) => set_comp(
            base,
            CompView::Mesh(
                if qualify {
                    qualify_name(defining, nm)
                } else {
                    nm
                },
            ),
        ),
        CompView::RigidBody(nm) => set_comp(
            base,
            CompView::RigidBody(
                if qualify {
                    qualify_name(defining, nm)
                } else {
                    nm
                },
            ),
        ),
        CompView::Collider(nm) => set_comp(
            base,
            CompView::Collider(
                if qualify {
                    qualify_name(defining, nm)
                } else {
                    nm
                },
            ),
        ),
        CompView::Parent(_) => base,
    }
}

/// Applying a node's authored components onto a resolved base, in order.
pub open spec fn apply_components(
    base: Seq<CompView>,
    comps: Seq<CompView>,
    defining: Seq<char>,
    qualify: bool,
) -> Seq<CompView>
    decreases comps.len(),
{
    if comps.len() == 0 {
        base
    } else {
        apply_components(apply_one(base, comps[0], defining, qualify), comps.skip(1), defining, qualify)
    }
}

/// Child indices paired with the collection they originate from.
pub open spec fn tag_children(children: Seq<usize>, coll: usize) -> Seq<(usize, usize)> {
    children.map_values(|ch: usize| (ch, coll))
}

/// The prefab chain of a node, fully merged: the chain is resolved root
/// first, each level's own components applied over what it inherited,
/// and each level's children appended, tagged with their collection. The
/// fuel bounds the chain length; running out means the chain cycles.
pub open spec fn build_prefab_spec(
    colls: Seq<CollView>,
    name: Seq<char>,
    target: int,
    prefab_ctx: int,
    fuel: nat,
) -> Result<(Seq<CompView>, Seq<(usize, usize)>), ErrView>
    decreases fuel,
{
    if fuel == 0 {
        Err(ErrView::UnresolvedPrefabCycle { name: name })
    } else {
        match node_lookup(colls, name, prefab_ctx) {
            Err(e) => Err(e),
            Ok((c, ni)) => {
                let node = colls[c].nodes[ni];
                let base = if node.prefab.len() > 0 {
                    build_prefab_spec(colls, node.prefab, target, c, (fuel - 1) as nat)
                } else {
                    Ok((Seq::<CompView>::empty(), Seq::<(usize, usize)>::empty()))
                };
                match base {
                    Err(e) => Err(e),
                    Ok((bc, bch)) => Ok(
                        (
                            apply_components(bc, node.components, colls[c].name, c != target),
                            bch + tag_children(node.children, c as usize),
                        ),
                    ),
                }
            },
        }
    }
}

/// A fully resolved node, ready to instantiate in the target collection:
/// the prefab chain merged with the bound given by the total node count,
/// the outermost node's own name and Parent component applied, and the
/// components sorted by type priority.
pub open spec fn build_node_spec(colls: Seq<CollView>, name: Seq<char>, target: int) -> Result<
    (crate::scene::NodeView, Seq<(usize, usize)>),
    ErrView,
> {
    let fuel = (total_nodes(colls) + 1) as nat;
    match build_prefab_spec(colls, name, target, target, fuel) {
        Err(e) => Err(e),
        Ok((comps, children)) => match node_lookup(colls, name, target) {
            Err(e) => Err(e),
            Ok((c, ni)) => {
                let top = colls[c].nodes[ni];
                let with_parent = match parent_name_of(top) {
                    Some(pn) => set_comp(comps, CompView::Parent(pn)),
                    None => comps,
                };
                Ok(
                    (
                        crate::scene::NodeView {
                            name: top.name,
                            prefab: Seq::<char>::empty(),
                            components: sort_comps(with_parent),
                            children: Seq::<usize>::empty(),
                        },
                        children,
                    ),
                )
            },
        },
    }
}


impl DataAccessor {
    /// Counts every scene node over all loaded collections.
    pub(crate) fn total_node_count(&self) -> (r: u128)
        ensures
            r == total_nodes(self@),
            r < 0xffff_ffff_ffff_ffff_ffff_ffff_ffff_ffff,
    {
        let n = self.collections.len();
        let mut sum: u128 = 0;
        proof {
            assert(self@.subrange(0, 0) =~= Seq::<CollView>::empty());
        }
        for i in 0..n
            invariant
                n == self@.len(),
                sum == total_nodes(self@.subrange(0, i as int)),
                sum <= i * 0xffff_ffff_ffff_ffff,
        {
            let len = self.collections[i].scene_nodes.len();
            proof {
                assert(self@.subrange(0, i as int + 1).drop_last() =~= self@.subrange(0, i as int));
                assert(self@.subrange(0, i as int + 1).last() == self@[i as int]);
                assert(len <= 0xffff_ffff_ffff_ffff);
                assert((i + 1) * 0xffff_ffff_ffff_ffff == i * 0xffff_ffff_ffff_ffff
                    + 0xffff_ffff_ffff_ffff) by (nonlinear_arith);
            }
            sum = sum + len as u128;
        }
        proof {
            assert(self@.subrange(0, n as int) =~= self@);
            assert(sum < 0xffff_ffff_ffff_ffff_ffff_ffff_ffff_ffff) by (nonlinear_arith)
                requires
                    sum <= n * 0xffff_ffff_ffff_ffff,
                    n <= 0xffff_ffff_ffff_ffff,
            ;
        }
        sum
    }

    /// Resolves the prefab chain of `name`, looked up in
    /// `prefab_collection`, into one merged component set and child list
    /// for instantiation in `collection_to_spawn_in`. The fuel bounds the
    /// chain; a chain that exhausts it cannot terminate and is reported
    /// as a cycle.
    fn build_prefab_node(
        &self,
        name: &String,
        collection_to_spawn_in: usize,
        prefab_collection: usize,
        fuel: u128,
    ) -> (r: Result<(SceneNode, Vec<(usize, usize)>), SceneError>)
        requires
            prefab_collection < self@.len(),
        ensures
            match r {
                Ok((node, children)) => {
                    &&& build_prefab_spec(
                        self@,
                        name@,
                        collection_to_spawn_in as int,
                        prefab_collection as int,
                        fuel as nat,
                    ) matches Ok(p)
                    &&& node@.components == p.0
                    &&& children@ == p.1
                    &&& node@.name == name@
                    &&& node@.prefab == Seq::<char>::empty()
                    &&& node@.children == Seq::<usize>::empty()
                },
                Err(e) => build_prefab_spec(
                    self@,
                    name@,
                    collection_to_spawn_in as int,
                    prefab_collection as int,
                    fuel as nat,
                ) == Err::<(Seq<CompView>, Seq<(usize, usize)>), _>(e@),
            },
        decreases fuel,
    {
        if fuel == 0 {
            return Err(SceneError::UnresolvedPrefabCycle { name: name.clone() });
        }
        let (c, ni) = match self.lookup_node(name, prefab_collection) {
            Ok(x) => x,
            Err(e) => {
                return Err(e);
            },
        };
        let ghost node_v = self@[c as int].nodes[ni as int];
        let (mut new_node, mut children): (SceneNode, Vec<(usize, usize)>) = if !self
            .collections[c].scene_nodes[ni].prefab.as_str().is_empty() {
            let prefab_name = self.collections[c].scene_nodes[ni].prefab.clone();
            match self.build_prefab_node(&prefab_name, collection_to_spawn_in, c, fuel - 1) {
                Ok(x) => x,
                Err(e) => {
                    return Err(e);
                },
            }
        } else {
            (SceneNode::empty(), Vec::new())
        };
        let ghost base_comps = new_node@.components;
        let ghost base_children = children@;
        new_node.name = name.clone();

        let qualify = c != collection_to_spawn_in;
        let ncomps = self.collections[c].scene_nodes[ni].components.len();
        proof {
            assert(node_v.components.skip(0) =~= node_v.components);
        }
        for i in 0..ncomps
            invariant
                c < self@.len(),
                ni < self@[c as int].nodes.len(),
                node_v == self@[c as int].nodes[ni as int],
                ncomps == node_v.components.len(),
                ncomps == self.collections@[c as int].scene_nodes@[ni as int].components@.len(),
                qualify == (c != collection_to_spawn_in),
                new_node@.name == name@,
                new_node@.prefab == Seq::<char>::empty(),
                new_node@.children == Seq::<usize>::empty(),
                apply_components(
                    new_node@.components,
                    node_v.components.skip(i as int),
                    self@[c as int].name,
                    qualify,
                ) == apply_components(base_comps, node_v.components, self@[c as int].name, qualify),
        {
            let ghost pre_comps = new_node@.components;
            let component = &self.collections[c].scene_nodes[ni].components[i];
            proof {
                assert(component@ == node_v.components[i as int]);
                assert(node_v.components.skip(i as int)[0] == node_v.components[i as int]);
                assert(node_v.components.skip(i as int).skip(1) =~= node_v.components.skip(
                    i as int + 1,
                ));
            }
            match component {
                Component::Transform { translation, rotation } => {
                    let t = *translation;
                    let rot = *rotation;
                    new_node.set_transform(t, rot);
                },
                Component::Mesh(nm) => {
                    let adjusted = if qualify {
                        build_qualified(&self.collections[c].name, nm)
                    } else {
                        nm.clone()
                    };
                    new_node.set_mesh(adjusted);
                },
                Component::RigidBody(nm) => {
                    let adjusted = if qualify {
                        build_qualified(&self.collections[c].name, nm)
                    } else {
                        nm.clone()
                    };
                    new_node.set_rigid_body(adjusted);
                },
                Component::Collider(nm) => {
                    let adjusted = if qualify {
                        build_qualified(&self.collections[c].name, nm)
                    } else {
                        nm.clone()
                    };
                    new_node.set_collider(adjusted);
                },
                Component::Parent(_) => {},
            }
            proof {
                assert(new_node@.components == apply_one(
                    pre_comps,
                    node_v.components[i as int],
                    self@[c as int].name,
                    qualify,
                ));
            }
        }
        proof {
            assert(node_v.components.skip(ncomps as int) =~= Seq::<CompView>::empty());
        }

        let nch = self.collections[c].scene_nodes[ni].children.len();
        for k in 0..nch
            invariant
                c < self@.len(),
                ni < self@[c as int].nodes.len(),
                node_v == self@[c as int].nodes[ni as int],
                nch == node_v.children.len(),
                children@ == base_children + tag_children(node_v.children.subrange(0, k as int), c),
        {
            let child = self.collections[c].scene_nodes[ni].children.get(k);
            children.push((child, c));
            proof {
                assert(children@ =~= base_children + tag_children(
                    node_v.children.subrange(0, k as int + 1),
                    c,
                ));
            }
        }
        proof {
            assert(node_v.children.subrange(0, nch as int) =~= node_v.children);
        }
        Ok((new_node, children))
    }

    /// Resolves `name` into a node ready for instantiation in
    /// `collection_to_spawn_in`: the prefab chain merged, the outermost
    /// node's own name and Parent component applied, and the components
    /// sorted by type priority.
    pub fn build_node(&self, name: &String, collection_to_spawn_in: usize) -> (r: Result<
        (SceneNode, Vec<(usize, usize)>),
        SceneError,
    >)
        requires
            collection_to_spawn_in < self@.len(),
        ensures
            match r {
                Ok((node, children)) => {
                    &&& build_node_spec(self@, name@, collection_to_spawn_in as int) matches Ok(p)
                    &&& node@.name == p.0.name
                    &&& node@.prefab == p.0.prefab
                    &&& node@.components == p.0.components
                    &&& node@.children == p.0.children
                    &&& children@ == p.1
                },
                Err(e) => build_node_spec(self@, name@, collection_to_spawn_in as int) == Err::<
                    (crate::scene::NodeView, Seq<(usize, usize)>),
                    _,
                >(e@),
            },
    {
        let fuel = self.total_node_count() + 1;
        match self.build_prefab_node(name, collection_to_spawn_in, collection_to_spawn_in, fuel) {
            Err(e) => Err(e),
            Ok((node, children)) => {
                let mut node = node;
                match self.lookup_node(name, collection_to_spawn_in) {
                    Err(e) => Err(e),
                    Ok((c, ni)) => {
                        let top = &self.collections[c].scene_nodes[ni];
                        node.name = top.name.clone();
                        let parent = top.get_parent();
                        if let Some(parent_name) = parent {
                            let p = parent_name.clone();
                            node.set_parent(p);
                        }
                        let sorted = sort_components(&node.components);
                        node.components = sorted;
                        Ok((node, children))
                    },
                }
            },
        }
    }
}


impl DataAccessor {
    /// Resolves a mesh reference to indices, with the exact failure when
    /// it does not resolve.
    pub(crate) fn lookup_mesh(&self, name: &String, ctx: usize) -> (r: Result<
        (usize, usize),
        SceneError,
    >)
        requires
            ctx < self@.len(),
        ensures
            match r {
                Ok((c, mi)) => {
                    &&& mesh_lookup(self@, name@, ctx as int) == Ok::<_, ErrView>(
                        (c as int, mi as int),
                    )
                    &&& c < self@.len()
                    &&& mi < self@[c as int].meshes.len()
                },
                Err(e) => mesh_lookup(self@, name@, ctx as int) == Err::<(int, int), _>(e@),
            },
    {
        let (c, n): (usize, String) = match split_path(name) {
            None => (ctx, name.clone()),
            Some((head, tail)) => {
                match self.find_collection(&head) {
                    Some(c) => {
                        proof {
                            lemma_last_index_of_name(coll_names(self@), head@);
                        }
                        (c, tail)
                    },
                    None => {
                        return Err(SceneError::MissingCollectionName { name: head });
                    },
                }
            },
        };
        match self.collections[c].find_mesh(&n) {
            Some(mi) => {
                proof {
                    lemma_last_index_of_name(mesh_names(self@[c as int].meshes), n@);
                }
                Ok((c, mi))
            },
            None => Err(
                SceneError::MissingMesh { name: n, collection: self.collections[c].name.clone() },
            ),
        }
    }

    /// Resolves a rigid-body reference to indices, with the exact failure
    /// when it does not resolve.
    pub(crate) fn lookup_rigid_body(&self, name: &String, ctx: usize) -> (r: Result<
        (usize, usize),
        SceneError,
    >)
        requires
            ctx < self@.len(),
        ensures
            match r {
                Ok((c, bi)) => {
                    &&& body_lookup(self@, name@, ctx as int) == Ok::<_, ErrView>(
                        (c as int, bi as int),
                    )
                    &&& c < self@.len()
                    &&& bi < self@[c as int].rigid_bodies.len()
                },
                Err(e) => body_lookup(self@, name@, ctx as int) == Err::<(int, int), _>(e@),
            },
    {
        let (c, n): (usize, String) = match split_path(name) {
            None => (ctx, name.clone()),
            Some((head, tail)) => {
                match self.find_collection(&head) {
                    Some(c) => {
                        proof {
                            lemma_last_index_of_name(coll_names(self@), head@);
                        }
                        (c, tail)
                    },
                    None => {
                        return Err(SceneError::MissingCollectionName { name: head });
                    },
                }
            },
        };
        match self.collections[c].find_rigid_body(&n) {
            Some(bi) => {
                proof {
                    lemma_last_index_of_name(body_names(self@[c as int].rigid_bodies), n@);
                }
                Ok((c, bi))
            },
            None => Err(
                SceneError::MissingRigidBody {
                    name: n,
                    collection: self.collections[c].name.clone(),
                },
            ),
        }
    }

    /// Resolves a collider reference to indices, with the exact failure
    /// when it does not resolve.
    pub(crate) fn lookup_collider(&self, name: &String, ctx: usize) -> (r: Result<
        (usize, usize),
        SceneError,
    >)
        requires
            ctx < self@.len(),
        ensures
            match r {
                Ok((c, ci)) => {
                    &&& collider_lookup(self@, name@, ctx as int) == Ok::<_, ErrView>(
                        (c as int, ci as int),
                    )
                    &&& c < self@.len()
                    &&& ci < self@[c as int].colliders.len()
                },
                Err(e) => collider_lookup(self@, name@, ctx as int) == Err::<(int, int), _>(e@),
            },
    {
        let (c, n): (usize, String) = match split_path(name) {
            None => (ctx, name.clone()),
            Some((head, tail)) => {
                match self.find_collection(&head) {
                    Some(c) => {
                        proof {
                            lemma_last_index_of_name(coll_names(self@), head@);
                        }
                        (c, tail)
                    },
                    None => {
                        return Err(SceneError::MissingCollectionName { name: head });
                    },
                }
            },
        };
        match self.collections[c].find_collider(&n) {
            Some(ci) => {
                proof {
                    lemma_last_index_of_name(collider_names(self@[c as int].colliders), n@);
                }
                Ok((c, ci))
            },
            None => Err(
                SceneError::MissingCollider {
                    name: n,
                    collection: self.collections[c].name.clone(),
                },
            ),
        }
    }
}

/// Whether every child index recorded in the loaded collections points
/// at a node of its own collection.
pub open spec fn data_wf(colls: Seq<CollView>) -> bool {
    forall|c: int, ni: int, k: int|
        0 <= c < colls.len() && 0 <= ni < colls[c].nodes.len() && 0 <= k < colls[c].nodes[
            ni
        ].children.len() ==> (#[trigger] colls[c].nodes[ni].children[k]) < colls[c].nodes.len()
}


/// A successful node lookup lands on a loaded collection and a node it
/// holds.
pub proof fn lemma_node_lookup_in_range(colls: Seq<CollView>, name: Seq<char>, ctx: int)
    requires
        0 <= ctx < colls.len(),
    ensures
        node_lookup(colls, name, ctx) matches Ok((c, ni)) ==> 0 <= c < colls.len() && 0 <= ni
            < colls[c].nodes.len(),
{
    lemma_resolve_path_in_range(colls, name, ctx);
    match resolve_path(colls, name, ctx) {
        Ok(p) => {
            lemma_last_index_of_name(node_names(colls[p.0].nodes), p.1);
        },
        Err(_) => {},
    }
}

/// Every child pair a resolved prefab chain carries points at a node of
/// a loaded collection, provided the store's own child lists do.
pub proof fn lemma_build_prefab_children_bounds(
    colls: Seq<CollView>,
    name: Seq<char>,
    target: int,
    prefab_ctx: int,
    fuel: nat,
)
    requires
        data_wf(colls),
        colls.len() <= usize::MAX,
        0 <= prefab_ctx < colls.len(),
    ensures
        build_prefab_spec(colls, name, target, prefab_ctx, fuel) matches Ok(p) ==> forall|k: int|
            0 <= k < p.1.len() ==> (#[trigger] p.1[k]).1 < colls.len() && p.1[k].0 < colls[
                p.1[k].1 as int
            ].nodes.len(),
    decreases fuel,
{
    if fuel > 0 {
        lemma_node_lookup_in_range(colls, name, prefab_ctx);
        match node_lookup(colls, name, prefab_ctx) {
            Ok(loc) => {
                let c = loc.0;
                let ni = loc.1;
                let node = colls[c].nodes[ni];
                if node.prefab.len() > 0 {
                    lemma_build_prefab_children_bounds(
                        colls,
                        node.prefab,
                        target,
                        c,
                        (fuel - 1) as nat,
                    );
                }
                reveal_with_fuel(build_prefab_spec, 2);
                match build_prefab_spec(colls, name, target, prefab_ctx, fuel) {
                    Ok(p) => {
                        let base = if node.prefab.len() > 0 {
                            build_prefab_spec(colls, node.prefab, target, c, (fuel - 1) as nat)
                        } else {
                            Ok((Seq::<CompView>::empty(), Seq::<(usize, usize)>::empty()))
                        };
                        assert(base is Ok);
                        let bch = base->Ok_0.1;
                        assert(p.1 == bch + tag_children(node.children, c as usize));
                        assert forall|k: int|
                            0 <= k < p.1.len() implies (#[trigger] p.1[k]).1 < colls.len()
                            && p.1[k].0 < colls[p.1[k].1 as int].nodes.len() by {
                            if k >= bch.len() {
                                assert(p.1[k] == tag_children(node.children, c as usize)[k
                                    - bch.len()]);
                                assert(node.children[k - bch.len()] < colls[c].nodes.len());
                                assert(c as usize as int == c);
                            } else {
                                assert(p.1[k] == bch[k]);
                            }
                        }
                    },
                    Err(_) => {},
                }
            },
            Err(_) => {},
        }
    }
}

/// Every child pair a fully resolved node carries points at a node of a
/// loaded collection.
pub proof fn lemma_build_node_children_bounds(colls: Seq<CollView>, name: Seq<char>, target: int)
    requires
        data_wf(colls),
        colls.len() <= usize::MAX,
        0 <= target < colls.len(),
    ensures
        build_node_spec(colls, name, target) matches Ok(p) ==> forall|k: int|
            0 <= k < p.1.len() ==> (#[trigger] p.1[k]).1 < colls.len() && p.1[k].0 < colls[
                p.1[k].1 as int
            ].nodes.len(),
{
    let fuel = (total_nodes(colls) + 1) as nat;
    lemma_build_prefab_children_bounds(colls, name, target, target, fuel);
}

} // verus!
