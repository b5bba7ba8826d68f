//! Spawning collections into a live hierarchy, transform propagation over
//! it, teardown bookkeeping, and the physics-engine round trip.
use rapier2d::dynamics::{
    ImpulseJointSet, IslandManager, MultibodyJointSet, RigidBodyBuilder, RigidBodySet, SoftBodySet,
};
use rapier2d::geometry::{ColliderBuilder, ColliderSet};
use scene_core::collection::Collection;
use scene_core::errors::SceneError;
use scene_core::events::{clear_events, Events};
use scene_core::handle::Handle;
use scene_core::physics_data::{Collider, RigidBody, RigidBodyStatus, Shape};
use scene_core::scene::{Component, SceneNode};
use scene_core::store::DataAccessor;
use scene_core::svec::ChildList;
use scene_core::transform::Vec2I;
use scene_core::world::{
    propagate_transforms, AppState, ColliderHandle, Command, RigidBodyHandle,
};
use std::sync::Arc;

fn node(name: &str, prefab: &str, components: Vec<Component>) -> SceneNode {
    SceneNode {
        name: name.to_string(),
        prefab: prefab.to_string(),
        components,
        children: ChildList::new(),
    }
}

fn transform(x: i64, y: i64, rot: i64) -> Component {
    Component::Transform {
        translation: Vec2I { x, y },
        rotation: rot,
    }
}

fn world_collection() -> Collection {
    // The reference scenario: a static floor at the origin and a dynamic
    // box 64 units above it, parented to the floor.
    Collection {
        scene_nodes: vec![
            node(
                "floor",
                "",
                vec![transform(0, 0, 0), Component::RigidBody("static_floor".to_string())],
            ),
            node(
                "box",
                "",
                vec![
                    transform(0, 64, 0),
                    Component::RigidBody("dyn_box".to_string()),
                    Component::Parent("floor".to_string()),
                    Component::Collider("box_col".to_string()),
                ],
            ),
        ],
        meshes: Vec::new(),
        rigid_bodies: vec![
            RigidBody { name: "static_floor".to_string(), status: RigidBodyStatus::Static },
            RigidBody { name: "dyn_box".to_string(), status: RigidBodyStatus::Dynamic },
        ],
        colliders: vec![Collider { name: "box_col".to_string(), shape: Shape::Cuboid(32, 32) }],
        name: String::new(),
    }
}

fn single_node_collection() -> Collection {
    Collection {
        scene_nodes: vec![node("lone", "", vec![transform(5, 5, 0)])],
        meshes: Vec::new(),
        rigid_bodies: Vec::new(),
        colliders: Vec::new(),
        name: String::new(),
    }
}

struct Physics {
    bodies: RigidBodySet,
    colliders: ColliderSet,
    islands: IslandManager,
    impulse_joints: ImpulseJointSet,
    multibody_joints: MultibodyJointSet,
    soft_bodies: SoftBodySet,
}

impl Physics {
    fn new() -> Physics {
        Physics {
            bodies: RigidBodySet::new(),
            colliders: ColliderSet::new(),
            islands: IslandManager::new(),
            impulse_joints: ImpulseJointSet::new(),
            multibody_joints: MultibodyJointSet::new(),
            soft_bodies: SoftBodySet::new(),
        }
    }
}

/// What the application shell does around a scene switch: deregister the
/// torn-down handles, then register a body and collider for each new
/// entity that asks for one.
fn switch_scene(state: &mut AppState, physics: &mut Physics, index: usize) -> Result<(), SceneError> {
    let removed = state.set_current_scene(index)?;
    for (body_handle, collider_handle) in removed {
        if let Some(RigidBodyHandle(i, g)) = body_handle {
            let raw = rapier2d::data::arena::Index::from_raw_parts(i as u32, g as u32);
            physics.bodies.remove(
                rapier2d::dynamics::RigidBodyHandle(raw),
                &mut physics.islands,
                &mut physics.colliders,
                &mut physics.impulse_joints,
                &mut physics.multibody_joints,
                &mut physics.soft_bodies,
                true,
            );
        }
        if let Some(ColliderHandle(i, g)) = collider_handle {
            let raw = rapier2d::data::arena::Index::from_raw_parts(i as u32, g as u32);
            // Removing the body above already detached its colliders;
            // this drops a collider whose body went away first.
            physics.colliders.remove(
                rapier2d::geometry::ColliderHandle(raw),
                &mut physics.islands,
                &mut physics.bodies,
                &mut physics.soft_bodies,
                false,
            );
        }
    }
    for e in 0..state.entities.len() {
        if let Some(body_ref) = state.entities[e].rigid_body {
            let def = &state.data_accessor.collections[body_ref.collection].rigid_bodies
                [body_ref.index];
            let builder = match def.status {
                RigidBodyStatus::Static => RigidBodyBuilder::fixed(),
                RigidBodyStatus::Dynamic => RigidBodyBuilder::dynamic(),
                RigidBodyStatus::Kinematic => RigidBodyBuilder::kinematic_velocity_based(),
            };
            let t = state.entities[e].local_transform.0;
            let body = builder
                .translation(rapier2d::math::Vector::new(
                    t.translation.x as f32 / 64.0,
                    t.translation.y as f32 / 64.0,
                ))
                .build();
            let handle = physics.bodies.insert(body);
            let (i, g) = handle.into_raw_parts();
            state.entities[e].rigid_body_handle = Some(RigidBodyHandle(i as u64, g as u64));

            if let Some(collider_ref) = state.entities[e].collider {
                let def = &state.data_accessor.collections[collider_ref.collection].colliders
                    [collider_ref.index];
                if let Shape::Cuboid(hx, hy) = def.shape {
                    let collider =
                        ColliderBuilder::cuboid(hx as f32 / 64.0, hy as f32 / 64.0).build();
                    let chandle = physics.colliders.insert_with_parent(
                        collider,
                        handle,
                        &mut physics.bodies,
                    );
                    let (ci, cg) = chandle.into_raw_parts();
                    state.entities[e].collider_handle =
                        Some(ColliderHandle(ci as u64, cg as u64));
                }
            }
        }
    }
    Ok(())
}

#[test]
fn spawn_and_propagate_places_the_box_above_the_floor() {
    let mut da = DataAccessor::new();
    da.load_collection("world".to_string(), world_collection()).unwrap();
    let mut state = AppState::new(da);
    state.set_current_scene(0).unwrap();
    propagate_transforms(&mut state);

    assert_eq!(state.entities.len(), 2);
    assert_eq!(state.root_entities.len(), 1);
    let floor = state.find_entity(&"floor".to_string()).unwrap();
    let bx = state.find_entity(&"box".to_string()).unwrap();
    assert_eq!(state.root_entities[0], floor);
    assert_eq!(state.entities[bx].parent.map(|p| p.0), Some(floor));
    assert_eq!(state.entities[floor].children.0.len(), 1);
    assert_eq!(state.entities[floor].children.0.get(0), bx);
    assert_eq!(state.entities[bx].global_transform.0.translation, Vec2I { x: 0, y: 64 });
    assert_eq!(state.entities[bx].global_transform.0.rotation, 0);
    assert_eq!(state.entities[floor].global_transform.0.translation, Vec2I { x: 0, y: 0 });
}

#[test]
fn respawning_restores_entity_and_physics_counts() {
    // Switch to 0, to 1, and back to 0: the live entity and root counts
    // match the first spawn of 0, and the physics engine's body and
    // collider counts return to their pre-spawn values after each
    // teardown.
    let mut da = DataAccessor::new();
    da.load_collection("world".to_string(), world_collection()).unwrap();
    da.load_collection("lone".to_string(), single_node_collection()).unwrap();
    let mut state = AppState::new(da);
    let mut physics = Physics::new();

    switch_scene(&mut state, &mut physics, 0).unwrap();
    let first_entities = state.entities.len();
    let first_roots = state.root_entities.len();
    assert_eq!(first_entities, 2);
    assert_eq!(physics.bodies.len(), 2);
    assert_eq!(physics.colliders.len(), 1);

    switch_scene(&mut state, &mut physics, 1).unwrap();
    assert_eq!(state.entities.len(), 1);
    assert_eq!(physics.bodies.len(), 0);
    assert_eq!(physics.colliders.len(), 0);

    switch_scene(&mut state, &mut physics, 0).unwrap();
    assert_eq!(state.entities.len(), first_entities);
    assert_eq!(state.root_entities.len(), first_roots);
    assert_eq!(physics.bodies.len(), 2);
    assert_eq!(physics.colliders.len(), 1);

    // A final teardown releases everything.
    let removed = state.remove_all_entities();
    assert_eq!(removed.len(), first_entities);
    for (body_handle, collider_handle) in removed {
        if let Some(RigidBodyHandle(i, g)) = body_handle {
            let raw = rapier2d::data::arena::Index::from_raw_parts(i as u32, g as u32);
            physics.bodies.remove(
                rapier2d::dynamics::RigidBodyHandle(raw),
                &mut physics.islands,
                &mut physics.colliders,
                &mut physics.impulse_joints,
                &mut physics.multibody_joints,
                &mut physics.soft_bodies,
                true,
            );
        }
        if let Some(ColliderHandle(i, g)) = collider_handle {
            let raw = rapier2d::data::arena::Index::from_raw_parts(i as u32, g as u32);
            physics.colliders.remove(
                rapier2d::geometry::ColliderHandle(raw),
                &mut physics.islands,
                &mut physics.bodies,
                &mut physics.soft_bodies,
                false,
            );
        }
    }
    assert_eq!(physics.bodies.len(), 0);
    assert_eq!(physics.colliders.len(), 0);
    assert_eq!(state.entities.len(), 0);
    assert_eq!(state.root_entities.len(), 0);
}

#[test]
fn failed_switch_leaves_the_previous_hierarchy_intact() {
    let mut da = DataAccessor::new();
    da.load_collection("world".to_string(), world_collection()).unwrap();
    // A collider that references no rigid body cannot be bound.
    let bad = Collection {
        scene_nodes: vec![node(
            "naked",
            "",
            vec![transform(0, 0, 0), Component::Collider("c".to_string())],
        )],
        meshes: Vec::new(),
        rigid_bodies: Vec::new(),
        colliders: vec![Collider { name: "c".to_string(), shape: Shape::Cuboid(1, 1) }],
        name: String::new(),
    };
    da.load_collection("bad".to_string(), bad).unwrap();
    let mut state = AppState::new(da);
    state.set_current_scene(0).unwrap();
    assert_eq!(state.entities.len(), 2);

    match state.set_current_scene(1) {
        Err(SceneError::ColliderWithoutRigidBody { node }) => assert_eq!(node, "naked"),
        _ => panic!("expected a collider without rigid body failure"),
    }
    // The previously spawned hierarchy is untouched.
    assert_eq!(state.entities.len(), 2);
    assert!(state.find_entity(&"floor".to_string()).is_some());
}

#[test]
fn missing_references_abort_the_spawn() {
    let mut da = DataAccessor::new();
    let ghost_mesh = Collection {
        scene_nodes: vec![node(
            "m",
            "",
            vec![transform(0, 0, 0), Component::Mesh("ghost".to_string())],
        )],
        meshes: Vec::new(),
        rigid_bodies: Vec::new(),
        colliders: Vec::new(),
        name: String::new(),
    };
    let ghost_body = Collection {
        scene_nodes: vec![node(
            "b",
            "",
            vec![transform(0, 0, 0), Component::RigidBody("ghost".to_string())],
        )],
        meshes: Vec::new(),
        rigid_bodies: Vec::new(),
        colliders: Vec::new(),
        name: String::new(),
    };
    let ghost_collider = Collection {
        scene_nodes: vec![node(
            "c",
            "",
            vec![
                transform(0, 0, 0),
                Component::RigidBody("rb".to_string()),
                Component::Collider("ghost".to_string()),
            ],
        )],
        meshes: Vec::new(),
        rigid_bodies: vec![RigidBody { name: "rb".to_string(), status: RigidBodyStatus::Static }],
        colliders: Vec::new(),
        name: String::new(),
    };
    da.load_collection("meshes".to_string(), ghost_mesh).unwrap();
    da.load_collection("bodies".to_string(), ghost_body).unwrap();
    da.load_collection("cols".to_string(), ghost_collider).unwrap();
    let mut state = AppState::new(da);
    match state.set_current_scene(0) {
        Err(SceneError::MissingMesh { name, collection }) => {
            assert_eq!(name, "ghost");
            assert_eq!(collection, "meshes");
        }
        _ => panic!("expected a missing mesh failure"),
    }
    match state.set_current_scene(1) {
        Err(SceneError::MissingRigidBody { name, .. }) => assert_eq!(name, "ghost"),
        _ => panic!("expected a missing rigid body failure"),
    }
    match state.set_current_scene(2) {
        Err(SceneError::MissingCollider { name, .. }) => assert_eq!(name, "ghost"),
        _ => panic!("expected a missing collider failure"),
    }
    assert_eq!(state.entities.len(), 0);
}

#[test]
fn prefab_expanded_children_get_concatenated_names() {
    // A node in "a" instances a prefab from "b" that has a child of its
    // own: the child entity's name is the parent's name with the child
    // node's own name appended.
    let mut da = DataAccessor::new();
    da.load_collection(
        "a".to_string(),
        Collection {
            scene_nodes: vec![
                node("inst", "b/base", vec![transform(0, 0, 0)]),
                node("x", "", vec![transform(1, 1, 0)]),
            ],
            meshes: Vec::new(),
            rigid_bodies: Vec::new(),
            colliders: Vec::new(),
            name: String::new(),
        },
    )
    .unwrap();
    da.load_collection(
        "b".to_string(),
        Collection {
            scene_nodes: vec![
                node("base", "", vec![transform(0, 0, 0)]),
                node("x", "", vec![Component::Parent("base".to_string())]),
            ],
            meshes: Vec::new(),
            rigid_bodies: Vec::new(),
            colliders: Vec::new(),
            name: String::new(),
        },
    )
    .unwrap();
    let mut state = AppState::new(da);
    state.set_current_scene(0).unwrap();
    // Roots in node order: "inst" with its prefab-expanded child, then
    // the target collection's own "x" as a second root.
    assert_eq!(state.entities.len(), 3);
    assert_eq!(state.root_entities.len(), 2);
    assert_eq!(state.entities[0].name, "inst");
    assert_eq!(state.entities[1].name, "instx");
    assert_eq!(state.entities[1].parent.map(|p| p.0), Some(0));
    assert_eq!(state.entities[2].name, "x");
}

#[test]
fn unbounded_spawn_recursion_is_a_cycle() {
    // "x" in collection "a" instances a prefab in "b" whose child node is
    // itself named "x": every expansion schedules another "x".
    let mut da = DataAccessor::new();
    da.load_collection(
        "a".to_string(),
        Collection {
            scene_nodes: vec![node("x", "b/p", vec![])],
            meshes: Vec::new(),
            rigid_bodies: Vec::new(),
            colliders: Vec::new(),
            name: String::new(),
        },
    )
    .unwrap();
    da.load_collection(
        "b".to_string(),
        Collection {
            scene_nodes: vec![
                node("p", "", vec![]),
                node("x", "", vec![Component::Parent("p".to_string())]),
            ],
            meshes: Vec::new(),
            rigid_bodies: Vec::new(),
            colliders: Vec::new(),
            name: String::new(),
        },
    )
    .unwrap();
    let mut state = AppState::new(da);
    match state.set_current_scene(0) {
        Err(SceneError::SpawnCycle { .. }) => {}
        r => panic!("expected a spawn cycle failure, got {:?}", r.map(|v| v.len())),
    }
}

#[test]
fn commands_drive_scene_switches() {
    let mut da = DataAccessor::new();
    da.load_collection("world".to_string(), world_collection()).unwrap();
    da.load_collection("lone".to_string(), single_node_collection()).unwrap();
    let mut state = AppState::new(da);
    let mut commands: Events<Command> = Events::default();
    commands.send(Command::SetCurrentScene(0));
    commands.send(Command::SetCurrentScene(1));
    let (released, outcome) = state.handle_commands(&commands);
    outcome.unwrap();
    clear_events(&mut commands);
    assert_eq!(commands.events.len(), 0);
    assert_eq!(state.entities.len(), 1);
    assert_eq!(state.entities[0].name, "lone");
    // The first switch tore nothing down; the second tore down the two
    // "world" entities, which had no physics handles registered yet.
    assert_eq!(released.len(), 2);
    assert!(released.iter().all(|(b, c)| b.is_none() && c.is_none()));
}

#[test]
fn a_failing_command_still_returns_released_handles() {
    let mut da = DataAccessor::new();
    da.load_collection("world".to_string(), world_collection()).unwrap();
    da.load_collection(
        "bad".to_string(),
        Collection {
            scene_nodes: vec![node(
                "naked",
                "",
                vec![transform(0, 0, 0), Component::Collider("c".to_string())],
            )],
            meshes: Vec::new(),
            rigid_bodies: Vec::new(),
            colliders: vec![Collider { name: "c".to_string(), shape: Shape::Cuboid(1, 1) }],
            name: String::new(),
        },
    )
    .unwrap();
    let mut state = AppState::new(da);
    state.set_current_scene(0).unwrap();
    // Hand-mark the live entities with engine handles, as the shell would
    // after registering them.
    state.entities[0].rigid_body_handle = Some(RigidBodyHandle(7, 1));
    state.entities[1].rigid_body_handle = Some(RigidBodyHandle(8, 1));

    let mut commands: Events<Command> = Events::default();
    commands.send(Command::SetCurrentScene(0));
    commands.send(Command::SetCurrentScene(1));
    let (released, outcome) = state.handle_commands(&commands);
    // The second command fails, but the handles the first switch released
    // still come back for deregistration.
    assert!(matches!(outcome, Err(SceneError::ColliderWithoutRigidBody { .. })));
    assert_eq!(released.len(), 2);
    assert_eq!(released[0].0, Some(RigidBodyHandle(7, 1)));
    assert_eq!(released[1].0, Some(RigidBodyHandle(8, 1)));
}

#[test]
fn physics_writeback_feeds_the_next_propagation() {
    let mut da = DataAccessor::new();
    da.load_collection("world".to_string(), world_collection()).unwrap();
    let mut state = AppState::new(da);
    state.set_current_scene(0).unwrap();
    let bx = state.find_entity(&"box".to_string()).unwrap();
    // The physics reader copies a post-simulation position back in.
    let moved = scene_core::transform::Transform2D::new(Vec2I { x: 7, y: 40 }, 0);
    state.set_local_transform(bx, moved);
    propagate_transforms(&mut state);
    assert_eq!(state.entities[bx].global_transform.0.translation, Vec2I { x: 7, y: 40 });
}

#[test]
fn asset_handles_share_their_identifier() {
    let id = Arc::new(7u64);
    let handle: Handle<u32> = Handle::new(id.clone());
    assert_eq!(*handle.id, 7);
    assert_eq!(Arc::strong_count(&id), 2);
}

#[test]
fn identity_intermediate_in_a_spawned_chain() {
    // A three-level chain whose middle entity has the identity transform:
    // the leaf's global transform is exactly what it would be if it hung
    // directly off the root.
    let chain = Collection {
        scene_nodes: vec![
            node("root", "", vec![transform(100, -50, 30_000)]),
            node(
                "mid",
                "",
                vec![transform(0, 0, 0), Component::Parent("root".to_string())],
            ),
            node(
                "leaf",
                "",
                vec![transform(64, 0, 45_000), Component::Parent("mid".to_string())],
            ),
            node(
                "direct",
                "",
                vec![transform(64, 0, 45_000), Component::Parent("root".to_string())],
            ),
        ],
        meshes: Vec::new(),
        rigid_bodies: Vec::new(),
        colliders: Vec::new(),
        name: String::new(),
    };
    let mut da = DataAccessor::new();
    da.load_collection("chain".to_string(), chain).unwrap();
    let mut state = AppState::new(da);
    state.set_current_scene(0).unwrap();
    propagate_transforms(&mut state);
    let leaf = state.find_entity(&"leaf".to_string()).unwrap();
    let direct = state.find_entity(&"direct".to_string()).unwrap();
    assert_eq!(
        state.entities[leaf].global_transform.0,
        state.entities[direct].global_transform.0
    );
    assert_eq!(state.entities[leaf].global_transform.0.rotation, 75_000);
}

#[test]
fn spawning_an_empty_collection_clears_the_world() {
    let mut da = DataAccessor::new();
    da.load_collection("world".to_string(), world_collection()).unwrap();
    da.load_collection(
        "void".to_string(),
        Collection {
            scene_nodes: Vec::new(),
            meshes: Vec::new(),
            rigid_bodies: Vec::new(),
            colliders: Vec::new(),
            name: String::new(),
        },
    )
    .unwrap();
    let mut state = AppState::new(da);
    state.set_current_scene(0).unwrap();
    assert_eq!(state.entities.len(), 2);
    let removed = state.set_current_scene(1).unwrap();
    assert_eq!(removed.len(), 2);
    assert_eq!(state.entities.len(), 0);
    assert_eq!(state.root_entities.len(), 0);
}
