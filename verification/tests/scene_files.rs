//! Saving and reading scenes, merging one into another, and streaming.

use kengine::numbers::{Aabb, Mat4, Quat, Real, Transform, Vec3, Vec4};
use kengine::pool::Handle;
use kengine::scene::components::{Camera, Light, LightKind, ParticleSystem};
use kengine::scene::cull::CullAction;
use kengine::scene::graph::{Environment, Scene};
use kengine::scene::mesh::{
    BlendMode, Material, Mesh, MeshData, MeshSource, MorphTarget, Vertex,
};
use kengine::scene::node::Node;
use kengine::scene::physics::{
    Axes, Collider, ColliderDesc, ColliderShape, Joint, JointDesc, JointKind, Limits, RigidBody,
    RigidBodyDesc, RigidBodyType,
};
use kengine::scene::ragdoll::{Ragdoll, RagdollLimb};
use kengine::scene::serialize::{SceneLoadError, SCENE_FORMAT_VERSION};
use kengine::scene::skin::{AnimationPlayer, Skin};
use kengine::scene::streaming::{Cell, CellState, Streaming, StreamingReport};
use std::collections::HashMap;

fn single(value: f32) -> Real {
    Real::from_bits(value.to_bits())
}

fn float(value: Real) -> f32 {
    f32::from_bits(value.bits)
}

fn vector(x: f32, y: f32, z: f32) -> Vec3 {
    Vec3::new(single(x), single(y), single(z))
}

type Matrix = [[f32; 4]; 4];

fn columns(m: Mat4) -> Matrix {
    [m.x_axis, m.y_axis, m.z_axis, m.w_axis].map(|c| [c.x, c.y, c.z, c.w].map(float))
}

fn matrix(m: Matrix) -> Mat4 {
    let column = |c: [f32; 4]| {
        let [x, y, z, w] = c.map(single);
        Vec4 { x, y, z, w }
    };
    Mat4 {
        x_axis: column(m[0]),
        y_axis: column(m[1]),
        z_axis: column(m[2]),
        w_axis: column(m[3]),
    }
}

fn times(a: Matrix, b: Matrix) -> Matrix {
    let mut out = [[0.0; 4]; 4];
    for column in 0..4 {
        for row in 0..4 {
            out[column][row] = (0..4).map(|k| a[k][row] * b[column][k]).sum();
        }
    }
    out
}

/// Position and scale; nothing is turned here.
fn placed(transform: &Transform) -> Matrix {
    let (p, s) = (transform.position, transform.scale);
    [
        [float(s.x), 0.0, 0.0, 0.0],
        [0.0, float(s.y), 0.0, 0.0],
        [0.0, 0.0, float(s.z), 0.0],
        [float(p.x), float(p.y), float(p.z), 1.0],
    ]
}

fn box_of(mesh: &Mesh, global: Matrix) -> Aabb {
    let mut bounds = Aabb::empty();
    for vertex in &mesh.data.vertices {
        let p = [vertex.position.x, vertex.position.y, vertex.position.z].map(float);
        let at = |row: usize| {
            single(p[0] * global[0][row] + p[1] * global[1][row] + p[2] * global[2][row] + global[3][row])
        };
        let point = Vec3::new(at(0), at(1), at(2));
        bounds = bounds.join(&Aabb { min: point, max: point });
    }
    bounds
}

/// A whole frame: who is shown, where everything is, and the boxes of what is drawn.
fn frame(scene: &mut Scene) -> CullAction {
    let order = scene.update();
    let mut known: HashMap<Handle, Matrix> = HashMap::new();
    let mut globals = Vec::new();
    for handle in &order {
        let node = scene.try_get(*handle).unwrap();
        let own = placed(&node.transform);
        let global = match known.get(&node.parent()) {
            Some(parent) => times(*parent, own),
            None => own,
        };
        known.insert(*handle, global);
        globals.push(matrix(global));
    }
    scene.store_transforms(&order, &globals);
    let bounds = scene
        .drawable_nodes()
        .iter()
        .map(|handle| {
            let node = scene.try_get(*handle).unwrap();
            box_of(node.mesh().unwrap(), columns(node.global_transform()))
        })
        .collect();
    scene.refresh_culling(&bounds)
}

fn cube() -> Mesh {
    let mut corners = Vec::new();
    for x in [-0.5, 0.5] {
        for y in [-0.5, 0.5] {
            for z in [-0.5, 0.5] {
                corners.push(Vertex {
                    position: vector(x, y, z),
                    normal: vector(0.0, 1.0, 0.0),
                    u: single(0.0),
                    v: single(0.0),
                });
            }
        }
    }
    Mesh::new(1, corners, vec![0, 1, 2])
}

fn global(scene: &Scene, handle: Handle) -> Vec3 {
    scene.try_get(handle).unwrap().global_position()
}

fn roundtrip(scene: &mut Scene) -> Scene {
    let (document, _) = scene.write_document();
    let nothing = document.meshes.iter().map(|_| None).collect();
    document.read(&nothing).expect("a scene")
}

fn material(properties: u64) -> Material {
    Material { id: properties as u128, revision: 0, properties, blend_mode: BlendMode::Opaque }
}

#[test]
fn an_empty_scene_survives_a_roundtrip() {
    let mut scene = Scene::new();
    let restored = roundtrip(&mut scene);

    assert_eq!(restored.root(), scene.root());
    assert_eq!(restored.try_get(restored.root()).unwrap().name, "__root");
}

#[test]
fn the_hierarchy_and_transforms_come_back_intact() {
    let mut scene = Scene::new();
    let turned = Quat {
        x: single(0.0),
        y: single(0.35f32.sin()),
        z: single(0.0),
        w: single(0.35f32.cos()),
    };
    let parent = scene.add_node(Node::new("parent").with_transform(Transform {
        position: vector(1.0, 2.0, 3.0),
        rotation: turned,
        scale: vector(2.0, 2.0, 2.0),
    }));
    let child = scene
        .add_node_with_parent(Node::new("child").with_position(vector(0.0, 5.0, 0.0)), parent);

    let restored = roundtrip(&mut scene);

    assert_eq!(restored.try_get(child).unwrap().name, "child");
    assert_eq!(restored.try_get(child).unwrap().parent(), parent);
    let above = restored.try_get(parent).unwrap();
    assert!(above.children().contains(&child));
    assert_eq!(above.transform.scale, vector(2.0, 2.0, 2.0));
    assert_eq!(above.transform, scene.try_get(parent).unwrap().transform);
}

#[test]
fn visibility_survives() {
    let mut scene = Scene::new();
    let hidden = scene.add_node(Node::new("hidden").with_mesh(cube()));
    scene.try_get_mut(hidden).unwrap().visible = false;

    let restored = roundtrip(&mut scene);

    assert!(!restored.try_get(hidden).unwrap().visible);
    assert_eq!(restored.drawable_nodes().len(), 0);
}

#[test]
fn a_procedural_mesh_is_inlined_and_comes_back_whole() {
    let mut scene = Scene::new();
    let original = cube();
    let node = scene.add_node(Node::new("sphere").with_mesh(original.clone()));

    let restored = roundtrip(&mut scene);

    let mesh = restored.try_get(node).unwrap().mesh().expect("a mesh");
    assert_eq!(mesh.id(), original.id());
    assert_eq!(mesh.data.vertices, original.data.vertices);
    assert_eq!(mesh.data.indices, original.data.indices);
}

#[test]
fn nodes_sharing_a_mesh_still_share_it_after_loading() {
    let mut scene = Scene::new();
    let mesh = cube();
    let a = scene.add_node(Node::new("a").with_mesh(mesh.clone()));
    let b = scene.add_node(Node::new("b").with_mesh(mesh.clone()));
    let c = scene.add_node(Node::new("c").with_mesh(mesh));

    let restored = roundtrip(&mut scene);

    let first = restored.try_get(a).unwrap().mesh().unwrap();
    for other in [b, c] {
        let mesh = restored.try_get(other).unwrap().mesh().unwrap();
        assert!(std::sync::Arc::ptr_eq(&first.data, &mesh.data));
    }
}

#[test]
fn a_shared_mesh_is_only_written_once() {
    let mut scene = Scene::new();
    let shared = cube();
    for _ in 0..5 {
        scene.add_node(Node::new("n").with_mesh(shared.clone()));
    }
    let other = Mesh::new(2, Vec::new(), Vec::new());
    scene.add_node(Node::new("m").with_mesh(other));

    let (document, _) = scene.write_document();

    assert_eq!(document.meshes.len(), 2);
    assert_eq!(document.node_meshes.len(), 6);
    assert!(document.meshes.iter().all(|entry| entry.inline.is_some()));
}

#[test]
fn materials_are_deduplicated_but_distinct_ones_are_kept_apart() {
    let mut scene = Scene::new();
    let a = scene.add_node(Node::new("a").with_mesh(cube()).with_material(material(1)));
    let b = scene.add_node(Node::new("b").with_mesh(cube()).with_material(material(1)));
    let c = scene.add_node(Node::new("c").with_mesh(cube()).with_material(material(2)));

    let (document, _) = scene.write_document();
    assert_eq!(document.materials.len(), 2);

    let restored = roundtrip(&mut scene);
    let of = |handle: Handle| restored.try_get(handle).unwrap().material().unwrap().clone();
    assert_eq!(of(a), of(b));
    assert_ne!(of(a), of(c));
}

#[test]
fn material_parameters_survive() {
    let mut scene = Scene::new();
    let original =
        Material { id: 9, revision: 3, properties: 77, blend_mode: BlendMode::Additive };
    let node = scene.add_node(Node::new("n").with_mesh(cube()).with_material(original));

    let restored = roundtrip(&mut scene);

    assert_eq!(*restored.try_get(node).unwrap().material().unwrap(), original);
}

#[test]
fn lights_survive_with_their_kind_and_parameters() {
    let mut scene = Scene::new();
    let sun = Light {
        enabled: true,
        cast_shadows: true,
        kind: LightKind::Directional,
        color: vector(1.0, 0.9, 0.8),
        intensity: single(4.5),
        mask: u32::MAX,
    };
    let directional = scene.add_node(Node::new("sun").with_light(sun));
    let kind =
        LightKind::Spot { range: single(12.0), inner: single(15.0), outer: single(30.0) };
    let spot = scene.add_node(Node::new("spot").with_light(Light {
        kind,
        intensity: single(2.0),
        ..sun
    }));

    let restored = roundtrip(&mut scene);

    let light = restored.try_get(directional).unwrap().light().unwrap();
    assert_eq!(light.intensity, single(4.5));
    assert!(light.cast_shadows);
    assert_eq!(light.color, vector(1.0, 0.9, 0.8));
    assert_eq!(restored.try_get(spot).unwrap().light().unwrap().kind, kind);
}

#[test]
fn cameras_survive_with_their_projection() {
    let mut scene = Scene::new();
    let camera = Camera {
        enabled: true,
        orthographic: true,
        field_of_view: single(7.5),
        near: single(0.5),
        far: single(250.0),
    };
    let node = scene.add_node(Node::new("cam").with_camera(camera));

    let restored = roundtrip(&mut scene);

    assert_eq!(*restored.try_get(node).unwrap().camera().unwrap(), camera);
    assert!(restored.active_camera().is_some());
}

#[test]
fn the_environment_survives_and_its_harmonics_are_rebuilt() {
    let mut scene = Scene::new();
    scene.environment_mut().intensity = single(0.35);
    scene.environment_mut().sky = vector(0.9, 0.1, 0.2);

    let restored = roundtrip(&mut scene);

    assert_eq!(restored.environment().intensity, single(0.35));
    assert_eq!(restored.environment().sky, vector(0.9, 0.1, 0.2));
}

#[test]
fn morph_weights_survive() {
    let target =
        |name: &str| MorphTarget { name: name.to_string(), default_weight: single(0.0) };
    let mesh = Mesh::from_data(MeshData {
        id: 3,
        source: None,
        morph_targets: vec![target("a"), target("b")],
        vertices: Vec::new(),
        indices: Vec::new(),
    });
    let mut scene = Scene::new();
    let node = scene.add_node(Node::new("face").with_mesh(mesh));
    scene.try_get_mut(node).unwrap().set_morph_weight(0, single(0.25));
    scene.try_get_mut(node).unwrap().set_morph_weight(1, single(0.75));

    let restored = roundtrip(&mut scene);

    let face = restored.try_get(node).unwrap();
    assert_eq!(*face.morph_weights(), [single(0.25), single(0.75)]);
    assert_eq!(face.mesh().unwrap().morph_target_count(), 2);
    assert_eq!(face.find_morph_target("b"), Some(1));
}

#[test]
fn physics_components_survive_as_descriptions() {
    let mut scene = Scene::new();
    let ground = scene.add_node(
        Node::new("ground")
            .with_rigid_body(RigidBody::fixed())
            .with_collider(Collider::cuboid(vector(10.0, 0.5, 10.0))),
    );
    let ball = scene.add_node(
        Node::new("ball")
            .with_position(vector(0.0, 5.0, 0.0))
            .with_rigid_body(RigidBody::new(RigidBodyDesc {
                gravity_scale: single(0.5),
                locked_rotations: Axes { x: true, y: true, z: true },
                ..RigidBodyDesc::of_type(RigidBodyType::Dynamic)
            }))
            .with_collider(Collider::new(ColliderDesc {
                friction: single(0.9),
                restitution: single(0.3),
                ..ColliderDesc::new(ColliderShape::Ball { radius: single(0.75) })
            })),
    );

    let mut restored = roundtrip(&mut scene);

    let fixed = restored.try_get(ground).unwrap().rigid_body().unwrap();
    assert_eq!(fixed.body_type(), RigidBodyType::Fixed);
    let body = restored.try_get(ball).unwrap().rigid_body().unwrap();
    assert_eq!(body.desc().gravity_scale, single(0.5));
    assert_eq!(body.desc().locked_rotations, Axes { x: true, y: true, z: true });
    assert!(body.native().is_none());
    let collider = restored.try_get(ball).unwrap().collider().unwrap();
    assert_eq!(collider.desc().shape, ColliderShape::Ball { radius: single(0.75) });
    assert_eq!(collider.desc().friction, single(0.9));

    enter_physics(&mut restored);
    assert_eq!(restored.physics().bodies.alive_count(), 2);
    assert_eq!(restored.physics().colliders.alive_count(), 2);
}

/// Enters everything into the solver's table, as it stands in the scene.
fn enter_physics(scene: &mut Scene) {
    let pose = |handle: &Handle| {
        let transform = scene.try_get(*handle).unwrap().transform;
        kengine::numbers::Pose { position: transform.position, rotation: transform.rotation }
    };
    let bodies = scene.index.rigid_bodies.iter().map(pose).collect();
    let colliders = scene.index.colliders.iter().map(pose).collect();
    scene.sync_bodies_to_physics(&bodies);
    scene.sync_colliders_to_physics(&colliders);
    scene.finish_sync();
}

#[test]
fn joints_keep_pointing_at_the_right_nodes() {
    let mut scene = Scene::new();
    let anchor = scene.add_node(Node::new("anchor").with_rigid_body(RigidBody::fixed()));
    let bob = scene.add_node(
        Node::new("bob")
            .with_position(vector(2.0, 0.0, 0.0))
            .with_rigid_body(RigidBody::dynamic())
            .with_collider(Collider::ball(single(0.3))),
    );
    let limits = Some(Limits { min: single(-1.0), max: single(1.0) });
    let joint = scene.add_node(Node::new("joint").with_joint(Joint::new(
        anchor,
        bob,
        JointDesc::new(JointKind::Revolute { limits }, Vec3::zero(), vector(-2.0, 0.0, 0.0)),
    )));

    let mut restored = roundtrip(&mut scene);

    let component = restored.try_get(joint).unwrap().joint().unwrap();
    assert_eq!(component.body1(), anchor);
    assert_eq!(component.body2(), bob);
    assert_eq!(component.desc().kind, JointKind::Revolute { limits });

    enter_physics(&mut restored);
    assert_eq!(restored.physics().joints.alive_count(), 1);
}

#[test]
fn a_skin_survives_with_its_joints_and_inverse_binds() {
    let mut scene = Scene::new();
    let bone_a = scene.add_node(Node::new("bone_a"));
    let bone_b = scene.add_node(Node::new("bone_b").with_position(vector(0.0, 1.0, 0.0)));
    let down = matrix([
        [1.0, 0.0, 0.0, 0.0],
        [0.0, 1.0, 0.0, 0.0],
        [0.0, 0.0, 1.0, 0.0],
        [0.0, -1.0, 0.0, 1.0],
    ]);
    let skin = Skin::new(vec![bone_a, bone_b], vec![Mat4::identity(), down]);
    let node = scene.add_node(Node::new("skinned").with_mesh(cube()).with_skin(skin));

    let restored = roundtrip(&mut scene);

    let skin = restored.try_get(node).unwrap().skin().expect("a skin");
    assert_eq!(*skin.joints(), [bone_a, bone_b]);
    assert_eq!(skin.inverse_bind()[1], down);
    assert_eq!(skin.matrices().len(), 2);
}

#[test]
fn saving_the_same_scene_twice_produces_identical_bytes() {
    let mut scene = Scene::new();
    for index in 0..20 {
        scene.add_node(
            Node::new(&format!("n{index}")).with_mesh(cube()).with_material(material(5)),
        );
    }

    let first = format!("{:?}", scene.write_document().0);
    let second = format!("{:?}", scene.write_document().0);

    assert_eq!(first, second);
}

#[test]
fn a_future_format_version_is_rejected_instead_of_misread() {
    let mut scene = Scene::new();
    let (mut document, _) = scene.write_document();
    assert_eq!(document.version, SCENE_FORMAT_VERSION);
    document.version = 999;

    let error = match document.read(&Vec::new()) {
        Ok(_) => panic!("it was read"),
        Err(error) => error,
    };

    assert_eq!(error, SceneLoadError::Version { found: 999 });
    assert_eq!(error.message(), "场景文件版本是 999，本引擎只认 1");
}

#[test]
fn a_document_whose_nodes_are_no_tree_is_refused() {
    let mut scene = Scene::new();
    scene.add_node(Node::new("a"));
    let (mut document, _) = scene.write_document();
    for slot in &mut document.slots {
        if let Some(node) = &mut slot.node {
            node.children = Vec::new();
        }
    }

    let error = match document.read(&Vec::new()) {
        Ok(_) => panic!("it was read"),
        Err(error) => error,
    };

    assert_eq!(error, SceneLoadError::Broken);
    assert_eq!(error.message(), "场景文件里的节点不成树");
}

#[test]
fn loading_without_a_manager_still_works_for_procedural_content() {
    let mut scene = Scene::new();
    let node = scene.add_node(Node::new("cube").with_mesh(cube()));

    let restored = roundtrip(&mut scene);

    assert!(restored.try_get(node).unwrap().mesh().is_some());
}

fn from_file() -> Mesh {
    Mesh::from_data(MeshData {
        id: 4,
        source: Some(MeshSource { path: "missing/nowhere.glb".to_string(), index: 0 }),
        morph_targets: Vec::new(),
        vertices: Vec::new(),
        indices: Vec::new(),
    })
}

#[test]
fn an_unresolvable_mesh_reference_degrades_instead_of_failing_the_load() {
    let mut scene = Scene::new();
    let node = scene.add_node(Node::new("gone").with_mesh(from_file()));

    let restored = roundtrip(&mut scene);

    assert!(restored.try_get(node).unwrap().mesh().is_none());
    assert_eq!(restored.try_get(node).unwrap().name, "gone");
}

#[test]
fn a_mesh_from_a_file_is_a_reference() {
    let mut scene = Scene::new();
    let node = scene.add_node(Node::new("there").with_mesh(from_file()));

    let (document, _) = scene.write_document();
    assert!(document.meshes[0].inline.is_none());
    let restored = document.read(&vec![Some(cube())]).expect("a scene");

    assert_eq!(restored.try_get(node).unwrap().mesh().unwrap().data.vertices.len(), 8);
}

#[test]
fn probe_script_survives_save() {
    let mut scene = Scene::new();
    scene.add_node(Node::new("n").with_script("spin.js"));

    let restored = roundtrip(&mut scene);

    let handle = restored.find_by_name("n").unwrap();
    let slot = restored.try_get(handle).unwrap().script().expect("a slot");
    assert_eq!(slot.path, "spin.js");
    assert!(!slot.is_live());
}

#[test]
fn what_is_left_out_is_counted() {
    let mut scene = Scene::new();
    scene.add_node(Node::new("smoke").with_particles(ParticleSystem {
        playing: true,
        rate: single(1.0),
        alive: 0,
        scene_collision: false,
    }));
    scene.add_node(
        Node::new("rig").with_animator(AnimationPlayer::new(Vec::new(), Vec::new())),
    );

    let (_, skipped) = scene.write_document();

    assert_eq!((skipped.particles, skipped.animators, skipped.ragdolls), (1, 1, 0));
}

#[test]
fn freed_slots_keep_their_generations() {
    let mut scene = Scene::new();
    let gone = scene.add_node(Node::new("gone"));
    let kept = scene.add_node(Node::new("kept"));
    scene.remove_node(gone);

    let mut restored = roundtrip(&mut scene);

    assert!(restored.try_get(gone).is_none());
    assert_eq!(restored.try_get(kept).unwrap().name, "kept");
    let new = restored.add_node(Node::new("new"));
    assert_ne!(new, gone);
}

// Merging.

fn with_fillers(count: usize) -> Scene {
    let mut scene = Scene::new();
    for index in 0..count {
        scene.add_node(Node::new(&format!("filler{index}")));
    }
    scene
}

#[test]
fn merging_remaps_the_hierarchy() {
    let mut source = Scene::new();
    let parent = source.add_node(Node::new("p").with_position(vector(0.0, 1.0, 0.0)));
    let child =
        source.add_node_with_parent(Node::new("c").with_position(vector(1.0, 0.0, 0.0)), parent);
    assert_eq!(source.try_get(child).unwrap().parent(), parent);

    let mut target = with_fillers(7);
    let above = target.root();
    let root = target.merge(source, above);
    frame(&mut target);

    let new_parent = target.find_by_name("p").unwrap();
    let new_child = target.find_by_name("c").unwrap();
    assert_ne!(new_child, child);
    assert_eq!(target.try_get(new_child).unwrap().parent(), new_parent);
    assert!(target.try_get(new_parent).unwrap().children().contains(&new_child));
    assert_eq!(global(&target, new_child), vector(1.0, 1.0, 0.0));
    assert!(target.try_get(root).unwrap().children().contains(&new_parent));
}

#[test]
fn merging_remaps_skin_joints() {
    let mut source = Scene::new();
    let bone_a = source.add_node(Node::new("bone_a"));
    let bone_b = source.add_node(Node::new("bone_b"));
    source.add_node(Node::new("skinned").with_mesh(cube()).with_skin(Skin::new(
        vec![bone_a, bone_b],
        vec![Mat4::identity(), Mat4::identity()],
    )));

    let mut target = with_fillers(11);
    let above = target.root();
    target.merge(source, above);

    let skinned = target.find_by_name("skinned").unwrap();
    let joints = target.try_get(skinned).unwrap().skin().unwrap().joints().to_vec();
    assert_eq!(joints.len(), 2);
    assert_eq!(target.try_get(joints[0]).unwrap().name, "bone_a");
    assert_eq!(target.try_get(joints[1]).unwrap().name, "bone_b");
}

#[test]
fn merging_remaps_joint_endpoints() {
    let mut source = Scene::new();
    let anchor = source.add_node(Node::new("anchor").with_rigid_body(RigidBody::fixed()));
    let bob = source.add_node(
        Node::new("bob")
            .with_position(vector(2.0, 0.0, 0.0))
            .with_rigid_body(RigidBody::dynamic())
            .with_collider(Collider::ball(single(0.3))),
    );
    source.add_node(Node::new("joint").with_joint(Joint::new(
        anchor,
        bob,
        JointDesc::new(JointKind::Fixed, Vec3::zero(), vector(-2.0, 0.0, 0.0)),
    )));

    let mut target = with_fillers(13);
    let above = target.root();
    target.merge(source, above);

    let joint_node = target.find_by_name("joint").unwrap();
    let (body1, body2) = {
        let joint = target.try_get(joint_node).unwrap().joint().unwrap();
        (joint.body1(), joint.body2())
    };
    assert_eq!(target.try_get(body1).unwrap().name, "anchor");
    assert_eq!(target.try_get(body2).unwrap().name, "bob");

    enter_physics(&mut target);
    assert_eq!(target.physics().joints.alive_count(), 1);
}

#[test]
fn merging_keeps_the_targets_own_environment() {
    let mut source = Scene::new();
    source.environment_mut().intensity = single(0.1);

    let mut target = Scene::new();
    *target.environment_mut() = Environment { intensity: single(0.9), ..Environment::dark() };
    let above = target.root();
    target.merge(source, above);

    assert_eq!(target.environment().intensity, single(0.9));
}

#[test]
fn merging_an_empty_scene_is_harmless() {
    let mut target = Scene::new();
    let before = target.nodes().alive_count();

    let above = target.root();
    let root = target.merge(Scene::new(), above);

    assert!(root.is_some());
    assert_eq!(target.nodes().alive_count(), before + 1);
}

#[test]
fn merged_transforms_stack_on_the_parent() {
    let mut source = Scene::new();
    source.add_node(Node::new("thing").with_position(vector(1.0, 0.0, 0.0)));

    let mut target = Scene::new();
    let pivot = target.add_node(Node::new("pivot").with_position(vector(0.0, 10.0, 0.0)));
    target.merge(source, pivot);
    frame(&mut target);

    let thing = target.find_by_name("thing").unwrap();
    assert_eq!(global(&target, thing), vector(1.0, 10.0, 0.0));
}

// Streaming.

/// What is stored under each path.
type Shelf = HashMap<String, fn() -> Scene>;

fn with_distances(streaming: Streaming, load: f32, unload: f32) -> Streaming {
    let least = load.max(0.0) * 1.1 + f32::EPSILON;
    streaming.with_distances(single(load), single(unload), single(least))
}

fn distance_to(cell: &Cell, viewer: [f32; 3]) -> f32 {
    let center = [cell.center.x, cell.center.y, cell.center.z].map(float);
    let squares: f32 = (0..3).map(|axis| (viewer[axis] - center[axis]).powi(2)).sum();
    squares.sqrt() - float(cell.radius)
}

fn read(shelf: &Shelf, streaming: &Streaming, index: usize) -> Option<Scene> {
    shelf.get(&streaming.cells()[index].path).map(|build| roundtrip(&mut build()))
}

fn stream(
    streaming: &mut Streaming,
    scene: &mut Scene,
    viewer: [f32; 3],
    shelf: &Shelf,
) -> StreamingReport {
    let distances =
        streaming.cells().iter().map(|cell| single(distance_to(cell, viewer))).collect();
    let mut round = streaming.begin_update(scene, &distances);
    while let Some(index) = streaming.next_load(&mut round) {
        let loaded = read(shelf, streaming, index);
        streaming.finish_load(scene, &mut round, index, loaded);
    }
    round.report
}

fn force_load(streaming: &mut Streaming, scene: &mut Scene, name: &str, shelf: &Shelf) -> bool {
    let index = streaming.cells().iter().position(|cell| cell.name == name);
    let loaded = index.and_then(|index| read(shelf, streaming, index));
    streaming.force_load(scene, name, loaded)
}

fn rock() -> Scene {
    let mut scene = Scene::new();
    scene.add_node(Node::new("rock").with_mesh(cube()));
    scene
}

fn shelf(paths: &[&str]) -> Shelf {
    paths.iter().map(|path| (path.to_string(), rock as fn() -> Scene)).collect()
}

fn cell(name: &str, x: f32, radius: f32) -> Cell {
    Cell::new(name, name, vector(x, 0.0, 0.0), single(radius))
}

#[test]
fn a_cell_loads_when_the_viewer_approaches_and_unloads_when_they_leave() {
    let shelf = shelf(&["a"]);
    let mut scene = Scene::new();
    let mut streaming = with_distances(Streaming::new(), 10.0, 20.0);
    streaming.add_cell(cell("a", 0.0, 1.0));

    let report = stream(&mut streaming, &mut scene, [100.0, 0.0, 0.0], &shelf);
    assert!(!report.changed());
    assert_eq!(streaming.loaded_count(), 0);

    let report = stream(&mut streaming, &mut scene, [5.0, 0.0, 0.0], &shelf);
    assert_eq!(report.loaded, vec!["a"]);
    frame(&mut scene);
    assert_eq!(scene.drawable_count(), 1);
    let root = streaming.cell("a").unwrap().root();
    assert_eq!(scene.try_get(root).unwrap().name, "Cell:a");

    let report = stream(&mut streaming, &mut scene, [100.0, 0.0, 0.0], &shelf);
    assert_eq!(report.unloaded, vec!["a"]);
    frame(&mut scene);
    assert_eq!(scene.drawable_count(), 0);
}

#[test]
fn standing_on_the_boundary_does_not_thrash() {
    let shelf = shelf(&["a"]);
    let mut scene = Scene::new();
    let mut streaming = with_distances(Streaming::new(), 10.0, 10.0);
    assert!(float(streaming.unload_distance()) > float(streaming.load_distance()));

    streaming.add_cell(cell("a", 0.0, 0.0));
    stream(&mut streaming, &mut scene, [10.0, 0.0, 0.0], &shelf);
    assert_eq!(streaming.loaded_count(), 1);

    for _ in 0..20 {
        let report = stream(&mut streaming, &mut scene, [10.0, 0.0, 0.0], &shelf);
        assert!(!report.changed());
    }
}

#[test]
fn the_load_budget_spreads_work_across_frames() {
    let names = ["c0", "c1", "c2", "c3", "c4"];
    let shelf = shelf(&names);
    let mut streaming = with_distances(Streaming::new(), 1000.0, 2000.0).with_load_budget(2);
    for name in names {
        streaming.add_cell(cell(name, 0.0, 1.0));
    }

    let mut scene = Scene::new();
    let report = stream(&mut streaming, &mut scene, [0.0; 3], &shelf);
    assert_eq!(report.loaded.len(), 2);
    assert_eq!(report.deferred, 3);

    stream(&mut streaming, &mut scene, [0.0; 3], &shelf);
    stream(&mut streaming, &mut scene, [0.0; 3], &shelf);
    assert_eq!(streaming.loaded_count(), 5);
}

#[test]
fn the_nearest_cell_loads_first() {
    let shelf = shelf(&["far", "near"]);
    let mut streaming = with_distances(Streaming::new(), 1000.0, 2000.0).with_load_budget(1);
    streaming.add_cell(cell("far", 500.0, 1.0));
    streaming.add_cell(cell("near", 5.0, 1.0));

    let mut scene = Scene::new();
    let report = stream(&mut streaming, &mut scene, [0.0; 3], &shelf);

    assert_eq!(report.loaded, vec!["near"]);
}

#[test]
fn a_broken_cell_fails_once_and_is_not_retried() {
    let shelf = Shelf::new();
    let mut scene = Scene::new();
    let mut streaming = with_distances(Streaming::new(), 100.0, 200.0);
    streaming.add_cell(Cell::new("gone", "nowhere/missing.scene", Vec3::zero(), single(1.0)));

    stream(&mut streaming, &mut scene, [0.0; 3], &shelf);
    assert_eq!(streaming.cell("gone").unwrap().state(), CellState::Failed);

    for _ in 0..10 {
        let report = stream(&mut streaming, &mut scene, [0.0; 3], &shelf);
        assert!(!report.changed());
    }
}

#[test]
fn a_failed_cell_can_be_retried_by_hand() {
    let mut scene = Scene::new();
    let mut streaming = with_distances(Streaming::new(), 100.0, 200.0);
    streaming.add_cell(cell("late", 0.0, 1.0));

    stream(&mut streaming, &mut scene, [0.0; 3], &Shelf::new());
    assert_eq!(streaming.cell("late").unwrap().state(), CellState::Failed);

    assert!(force_load(&mut streaming, &mut scene, "late", &shelf(&["late"])));
    assert!(streaming.cell("late").unwrap().is_loaded());
}

#[test]
fn cells_can_be_driven_entirely_by_hand() {
    let shelf = shelf(&["a"]);
    let mut scene = Scene::new();
    let mut streaming = with_distances(Streaming::new(), f32::INFINITY, f32::INFINITY);
    streaming.add_cell(cell("a", 0.0, 1.0));

    assert!(force_load(&mut streaming, &mut scene, "a", &shelf));
    assert!(!force_load(&mut streaming, &mut scene, "a", &shelf));
    assert_eq!(streaming.loaded_count(), 1);

    assert!(streaming.force_unload(&mut scene, "a"));
    assert!(!streaming.force_unload(&mut scene, "a"));
    assert_eq!(streaming.loaded_count(), 0);

    assert!(!force_load(&mut streaming, &mut scene, "nonexistent", &shelf));
}

#[test]
fn unloading_removes_every_node_of_the_cell() {
    fn family() -> Scene {
        let mut scene = Scene::new();
        let parent = scene.add_node(Node::new("parent").with_mesh(cube()));
        scene.add_node_with_parent(Node::new("child").with_mesh(cube()), parent);
        scene.add_node_with_parent(Node::new("grandchild"), parent);
        scene
    }
    let shelf = Shelf::from([("a".to_string(), family as fn() -> Scene)]);
    let mut scene = Scene::new();
    let before = scene.nodes().alive_count();

    let mut streaming = with_distances(Streaming::new(), 10.0, 20.0);
    streaming.add_cell(cell("a", 0.0, 1.0));
    stream(&mut streaming, &mut scene, [0.0; 3], &shelf);
    assert_eq!(scene.nodes().alive_count(), before + 5);

    stream(&mut streaming, &mut scene, [1000.0, 0.0, 0.0], &shelf);
    assert_eq!(scene.nodes().alive_count(), before + 1);
}

#[test]
fn a_cells_physics_objects_come_and_go_with_it() {
    fn ground() -> Scene {
        let mut scene = Scene::new();
        scene.add_node(
            Node::new("ground")
                .with_rigid_body(RigidBody::fixed())
                .with_collider(Collider::cuboid(vector(1.0, 1.0, 1.0))),
        );
        scene
    }
    let shelf = Shelf::from([("a".to_string(), ground as fn() -> Scene)]);
    let mut scene = Scene::new();
    let mut streaming = with_distances(Streaming::new(), 10.0, 20.0);
    streaming.add_cell(cell("a", 0.0, 1.0));

    stream(&mut streaming, &mut scene, [0.0; 3], &shelf);
    enter_physics(&mut scene);
    assert_eq!(scene.physics().bodies.alive_count(), 1);

    stream(&mut streaming, &mut scene, [1000.0, 0.0, 0.0], &shelf);
    assert_eq!(scene.physics().bodies.alive_count(), 0);
}

#[test]
fn unloading_everything_empties_every_cell() {
    let shelf = shelf(&["a", "b"]);
    let mut scene = Scene::new();
    let mut streaming = with_distances(Streaming::new(), 100.0, 200.0).with_load_budget(2);
    streaming.add_cell(cell("a", 0.0, 1.0));
    streaming.add_cell(cell("b", 0.0, 1.0));
    stream(&mut streaming, &mut scene, [0.0; 3], &shelf);

    assert_eq!(streaming.unload_all(&mut scene), 2);
    assert_eq!(streaming.loaded_count(), 0);
    assert!(scene.try_get(streaming.container()).unwrap().children().is_empty());
}

#[test]
fn merging_renames_what_animations_and_ragdolls_refer_to() {
    let mut source = Scene::new();
    let bone = source.add_node(Node::new("bone"));
    let body = source.add_node(Node::new("body"));
    let gone = source.add_node(Node::new("gone"));
    source.add_node(
        Node::new("player").with_animator(AnimationPlayer::new(Vec::new(), vec![bone, gone])),
    );
    let doll = source.add_node(Node::new("doll"));
    let limb = |bone, body, children| RagdollLimb { bone, body, children };
    let root = limb(bone, body, vec![limb(body, bone, Vec::new())]);
    source
        .try_get_mut(doll)
        .unwrap()
        .set_ragdoll(Ragdoll::new(root).with_character_body(body));
    source.remove_node(gone);

    let mut target = Scene::new();
    for name in ["a", "b", "c"] {
        target.add_node(Node::new(name));
    }
    let above = target.root();
    target.merge(source, above);

    let find = |name: &str| target.find_by_name(name).unwrap();
    let (bone, body) = (find("bone"), find("body"));
    let player = target.try_get(find("player")).unwrap().animator().unwrap();
    assert_eq!(player.targets(), &vec![bone, Handle::none()]);
    let ragdoll = target.try_get(find("doll")).unwrap().ragdoll().unwrap();
    assert_eq!((ragdoll.root().bone, ragdoll.root().body), (bone, body));
    assert_eq!(ragdoll.root().children[0].bone, body);
    assert_eq!(ragdoll.root().children[0].body, bone);
    assert_eq!(ragdoll.character_body, body);
}
