//! Collection loading and prefab resolution, checked on concrete scenes.
use scene_core::collection::Collection;
use scene_core::errors::SceneError;
use scene_core::mesh_data::MeshData;
use scene_core::physics_data::{Collider, RigidBody, RigidBodyStatus, Shape};
use scene_core::scene::{compare_components, sort_components, Component, SceneNode};
use scene_core::store::DataAccessor;
use scene_core::svec::ChildList;
use scene_core::transform::Vec2I;
use std::cmp::Ordering;

fn node(name: &str, prefab: &str, components: Vec<Component>) -> SceneNode {
    SceneNode {
        name: name.to_string(),
        prefab: prefab.to_string(),
        components,
        children: ChildList::new(),
    }
}

fn mesh(name: &str) -> MeshData {
    MeshData {
        mesh_name: name.to_string(),
        texture: "tex".to_string(),
        vertices: Vec::new(),
        lines: Vec::new(),
        triangles: Vec::new(),
        quads: Vec::new(),
    }
}

fn collection(nodes: Vec<SceneNode>) -> Collection {
    Collection {
        scene_nodes: nodes,
        meshes: Vec::new(),
        rigid_bodies: Vec::new(),
        colliders: Vec::new(),
        name: String::new(),
    }
}

fn transform(x: i64, y: i64, rot: i64) -> Component {
    Component::Transform {
        translation: Vec2I { x, y },
        rotation: rot,
    }
}

fn mesh_name_of(c: &Component) -> &str {
    match c {
        Component::Mesh(n) => n.as_str(),
        _ => panic!("expected a Mesh component"),
    }
}

#[test]
fn compare_components_orders_by_type_priority() {
    let t = transform(0, 0, 0);
    let p = Component::Parent("a".to_string());
    let m = Component::Mesh("m".to_string());
    let rb = Component::RigidBody("r".to_string());
    let c = Component::Collider("c".to_string());
    assert_eq!(compare_components(&t, &p), Ordering::Less);
    assert_eq!(compare_components(&p, &m), Ordering::Less);
    assert_eq!(compare_components(&m, &rb), Ordering::Less);
    assert_eq!(compare_components(&rb, &c), Ordering::Less);
    assert_eq!(compare_components(&c, &t), Ordering::Greater);
    assert_eq!(compare_components(&m, &m), Ordering::Equal);
}

#[test]
fn sort_components_is_stable_by_priority() {
    let comps = vec![
        Component::Collider("c1".to_string()),
        Component::Mesh("m1".to_string()),
        transform(1, 2, 3),
        Component::Mesh("m2".to_string()),
        Component::Parent("p".to_string()),
    ];
    let sorted = sort_components(&comps);
    assert_eq!(sorted.len(), 5);
    assert!(matches!(sorted[0], Component::Transform { .. }));
    assert!(matches!(&sorted[1], Component::Parent(n) if n == "p"));
    assert!(matches!(&sorted[2], Component::Mesh(n) if n == "m1"));
    assert!(matches!(&sorted[3], Component::Mesh(n) if n == "m2"));
    assert!(matches!(&sorted[4], Component::Collider(n) if n == "c1"));
}

#[test]
fn initialize_computes_children_and_sorts() {
    let mut da = DataAccessor::new();
    let floor = node("floor", "", vec![transform(0, 0, 0)]);
    let bx = node(
        "box",
        "",
        vec![Component::Parent("floor".to_string()), transform(0, 64, 0)],
    );
    da.load_collection("world".to_string(), collection(vec![floor, bx]))
        .expect("load should succeed");
    let coll = &da.collections[0];
    assert_eq!(coll.name, "world");
    // floor's child list now holds the box's node index.
    assert_eq!(coll.scene_nodes[0].children.len(), 1);
    assert_eq!(coll.scene_nodes[0].children.get(0), 1);
    assert_eq!(coll.scene_nodes[1].children.len(), 0);
    // box's components were re-sorted: Transform now precedes Parent.
    assert!(matches!(
        coll.scene_nodes[1].components[0],
        Component::Transform { .. }
    ));
    assert!(matches!(
        &coll.scene_nodes[1].components[1],
        Component::Parent(n) if n == "floor"
    ));
}

#[test]
fn initialize_rejects_dangling_parent() {
    let mut da = DataAccessor::new();
    let orphan = node("orphan", "", vec![Component::Parent("ghost".to_string())]);
    let r = da.load_collection("w".to_string(), collection(vec![orphan]));
    match r {
        Err(SceneError::DanglingParentReference { node, parent }) => {
            assert_eq!(node, "orphan");
            assert_eq!(parent, "ghost");
        }
        _ => panic!("expected a dangling parent failure"),
    }
    assert_eq!(da.collections.len(), 0);
}

#[test]
fn qualified_paths_split_on_first_slash() {
    let mut da = DataAccessor::new();
    da.load_collection("world".to_string(), collection(vec![node("n", "", vec![])]))
        .unwrap();
    let bare = da.get_source_collection_and_component_name(&"thing".to_string(), 0);
    assert_eq!(bare, Some((0, "thing".to_string())));
    let qualified = da.get_source_collection_and_component_name(&"world/thing".to_string(), 0);
    assert_eq!(qualified, Some((0, "thing".to_string())));
    let missing = da.get_source_collection_and_component_name(&"mars/thing".to_string(), 0);
    assert_eq!(missing, None);
}

#[test]
fn build_node_without_prefab_keeps_own_components_sorted() {
    let mut da = DataAccessor::new();
    let n = node(
        "solo",
        "",
        vec![Component::Mesh("m".to_string()), transform(1, 2, 3)],
    );
    let mut c = collection(vec![n]);
    c.meshes.push(mesh("m"));
    da.load_collection("w".to_string(), c).unwrap();
    let (resolved, children) = da.build_node(&"solo".to_string(), 0).expect("resolves");
    assert_eq!(resolved.name, "solo");
    assert_eq!(resolved.prefab, "");
    assert_eq!(resolved.components.len(), 2);
    assert!(matches!(
        resolved.components[0],
        Component::Transform { translation: Vec2I { x: 1, y: 2 }, rotation: 3 }
    ));
    assert_eq!(mesh_name_of(&resolved.components[1]), "m");
    assert_eq!(children, Vec::<(usize, usize)>::new());
}

#[test]
fn build_node_override_wins_and_orders_components() {
    // The P8 shape: "enemy" instances "enemy_base" (Mesh + Collider) and
    // overrides the Transform.
    let mut da = DataAccessor::new();
    let base = node(
        "enemy_base",
        "",
        vec![
            Component::Mesh("sprite".to_string()),
            Component::Collider("c1".to_string()),
            transform(0, 0, 0),
        ],
    );
    let enemy = node("enemy", "enemy_base", vec![transform(10, 20, 45_000)]);
    da.load_collection("w".to_string(), collection(vec![base, enemy]))
        .unwrap();
    let (resolved, _children) = da.build_node(&"enemy".to_string(), 0).expect("resolves");
    assert_eq!(resolved.name, "enemy");
    assert_eq!(resolved.components.len(), 3);
    // Transform first, holding the instancing node's override.
    assert!(matches!(
        resolved.components[0],
        Component::Transform { translation: Vec2I { x: 10, y: 20 }, rotation: 45_000 }
    ));
    assert_eq!(mesh_name_of(&resolved.components[1]), "sprite");
    assert!(matches!(&resolved.components[2], Component::Collider(n) if n == "c1"));
}

#[test]
fn qualified_rewriting_round_trips() {
    // A node in collection "a" inherits from a prefab in collection "b".
    // Instantiated into "a", the prefab's mesh reference reads "b/sprite";
    // instantiated into "b" itself, it stays bare.
    let mut da = DataAccessor::new();
    da.load_collection(
        "a".to_string(),
        collection(vec![node("inst", "b/base", vec![])]),
    )
    .unwrap();
    da.load_collection(
        "b".to_string(),
        collection(vec![node("base", "", vec![Component::Mesh("sprite".to_string())])]),
    )
    .unwrap();

    let (into_a, _) = da.build_node(&"inst".to_string(), 0).expect("resolves in a");
    assert_eq!(mesh_name_of(&into_a.components[0]), "b/sprite");

    let (into_b, _) = da.build_node(&"a/inst".to_string(), 1).expect("resolves in b");
    assert_eq!(mesh_name_of(&into_b.components[0]), "sprite");
}

#[test]
fn build_node_reports_missing_names() {
    let mut da = DataAccessor::new();
    da.load_collection("w".to_string(), collection(vec![node("n", "", vec![])]))
        .unwrap();
    match da.build_node(&"nope".to_string(), 0) {
        Err(SceneError::MissingNode { name, collection }) => {
            assert_eq!(name, "nope");
            assert_eq!(collection, "w");
        }
        _ => panic!("expected a missing node failure"),
    }
    match da.build_node(&"mars/x".to_string(), 0) {
        Err(SceneError::MissingCollectionName { name }) => {
            assert_eq!(name, "mars");
        }
        _ => panic!("expected a missing collection failure"),
    }
}

#[test]
fn self_referential_prefab_is_a_cycle() {
    let mut da = DataAccessor::new();
    da.load_collection(
        "w".to_string(),
        collection(vec![node("ouro", "ouro", vec![])]),
    )
    .unwrap();
    match da.build_node(&"ouro".to_string(), 0) {
        Err(SceneError::UnresolvedPrefabCycle { .. }) => {}
        _ => panic!("expected a prefab cycle failure"),
    }
}

#[test]
fn name_lookups_prefer_the_latest_definition() {
    let mut da = DataAccessor::new();
    let mut c = collection(vec![
        node("dup", "", vec![transform(1, 0, 0)]),
        node("dup", "", vec![transform(2, 0, 0)]),
    ]);
    c.rigid_bodies.push(RigidBody {
        name: "rb".to_string(),
        status: RigidBodyStatus::Static,
    });
    c.colliders.push(Collider {
        name: "cl".to_string(),
        shape: Shape::Cuboid(32, 32),
    });
    da.load_collection("w".to_string(), c).unwrap();
    assert_eq!(da.collections[0].find_scene_node(&"dup".to_string()), Some(1));
    assert_eq!(da.collections[0].find_rigid_body(&"rb".to_string()), Some(0));
    assert_eq!(da.collections[0].find_collider(&"cl".to_string()), Some(0));
    assert_eq!(da.collections[0].find_mesh(&"none".to_string()), None);
    // The resolved node is the latest "dup".
    let (resolved, _) = da.build_node(&"dup".to_string(), 0).unwrap();
    assert!(matches!(
        resolved.components[0],
        Component::Transform { translation: Vec2I { x: 2, y: 0 }, rotation: 0 }
    ));
}

#[test]
fn getters_resolve_meshes_bodies_and_colliders() {
    let mut da = DataAccessor::new();
    let mut c = collection(vec![node("n", "", vec![])]);
    c.meshes.push(mesh("m"));
    c.rigid_bodies.push(RigidBody {
        name: "rb".to_string(),
        status: RigidBodyStatus::Dynamic,
    });
    c.colliders.push(Collider {
        name: "cl".to_string(),
        shape: Shape::Cuboid(8, 8),
    });
    da.load_collection("w".to_string(), c).unwrap();
    assert!(da.get_mesh(&"m".to_string(), 0).is_some());
    assert!(da.get_mesh(&"w/m".to_string(), 0).is_some());
    assert!(da.get_mesh(&"zzz".to_string(), 0).is_none());
    assert!(matches!(
        da.get_rigid_body(&"rb".to_string(), 0),
        Some(RigidBody { status: RigidBodyStatus::Dynamic, .. })
    ));
    assert!(matches!(
        da.get_collider(&"cl".to_string(), 0),
        Some(Collider { shape: Shape::Cuboid(8, 8), .. })
    ));
}

#[test]
fn empty_collection_loads_and_resolves_nothing() {
    let mut da = DataAccessor::new();
    da.load_collection("void".to_string(), collection(vec![])).unwrap();
    assert_eq!(da.collections.len(), 1);
    assert_eq!(da.collections[0].scene_nodes.len(), 0);
    assert!(da.build_node(&"anything".to_string(), 0).is_err());
}
