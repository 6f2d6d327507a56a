//! The tree of nodes, what is drawn of it, and models.

use kengine::numbers::{Aabb, Mat4, Real, Transform, Vec3, Vec4};
use kengine::pool::Handle;
use kengine::scene::components::{Camera, Light, LightKind, ParticleSystem};
use kengine::scene::cull::CullAction;
use kengine::scene::graph::Scene;
use kengine::scene::mesh::{BlendMode, Material, Mesh, MeshData, MorphTarget, Vertex};
use kengine::scene::model::{MeshPart, Model, ModelNode, ModelSkin};
use kengine::scene::node::Node;
use kengine::scene::skin::{AnimationPlayer, MorphSample};
use std::collections::HashMap;

fn single(value: f32) -> Real {
    Real::from_bits(value.to_bits())
}

fn float(value: Real) -> f32 {
    f32::from_bits(value.bits)
}

fn vector(x: f32, y: f32, z: f32) -> Vec3 {
    Vec3::new(single(x), single(y), single(z))
}

type Matrix = [[f32; 4]; 4];

fn columns(m: Mat4) -> Matrix {
    [m.x_axis, m.y_axis, m.z_axis, m.w_axis].map(|c| [c.x, c.y, c.z, c.w].map(float))
}

fn matrix(m: Matrix) -> Mat4 {
    let column = |c: [f32; 4]| {
        let [x, y, z, w] = c.map(single);
        Vec4 { x, y, z, w }
    };
    Mat4 {
        x_axis: column(m[0]),
        y_axis: column(m[1]),
        z_axis: column(m[2]),
        w_axis: column(m[3]),
    }
}

fn times(a: Matrix, b: Matrix) -> Matrix {
    let mut out = [[0.0; 4]; 4];
    for column in 0..4 {
        for row in 0..4 {
            out[column][row] = (0..4).map(|k| a[k][row] * b[column][k]).sum();
        }
    }
    out
}

/// Position and scale; nothing is turned here.
fn placed(transform: &Transform) -> Matrix {
    let (p, s) = (transform.position, transform.scale);
    [
        [float(s.x), 0.0, 0.0, 0.0],
        [0.0, float(s.y), 0.0, 0.0],
        [0.0, 0.0, float(s.z), 0.0],
        [float(p.x), float(p.y), float(p.z), 1.0],
    ]
}

fn box_of(mesh: &Mesh, global: Matrix) -> Aabb {
    let mut bounds = Aabb::empty();
    for vertex in &mesh.data.vertices {
        let p = [vertex.position.x, vertex.position.y, vertex.position.z].map(float);
        let at = |row: usize| {
            single(p[0] * global[0][row] + p[1] * global[1][row] + p[2] * global[2][row] + global[3][row])
        };
        let point = Vec3::new(at(0), at(1), at(2));
        bounds = bounds.join(&Aabb { min: point, max: point });
    }
    bounds
}

/// A whole frame: who is shown, where everything is, and the boxes of what is drawn.
fn frame(scene: &mut Scene) -> CullAction {
    let order = scene.update();
    let mut known: HashMap<Handle, Matrix> = HashMap::new();
    let mut globals = Vec::new();
    for handle in &order {
        let node = scene.try_get(*handle).unwrap();
        let own = placed(&node.transform);
        let global = match known.get(&node.parent()) {
            Some(parent) => times(*parent, own),
            None => own,
        };
        known.insert(*handle, global);
        globals.push(matrix(global));
    }
    scene.store_transforms(&order, &globals);
    let bounds = scene
        .drawable_nodes()
        .iter()
        .map(|handle| {
            let node = scene.try_get(*handle).unwrap();
            box_of(node.mesh().unwrap(), columns(node.global_transform()))
        })
        .collect();
    scene.refresh_culling(&bounds)
}

fn cube() -> Mesh {
    let mut corners = Vec::new();
    for x in [-0.5, 0.5] {
        for y in [-0.5, 0.5] {
            for z in [-0.5, 0.5] {
                corners.push(Vertex {
                    position: vector(x, y, z),
                    normal: vector(0.0, 1.0, 0.0),
                    u: single(0.0),
                    v: single(0.0),
                });
            }
        }
    }
    Mesh::new(1, corners, vec![0, 1, 2])
}

fn global(scene: &Scene, handle: Handle) -> Vec3 {
    scene.try_get(handle).unwrap().global_position()
}

fn material() -> Material {
    Material { id: 1, revision: 1, properties: 1, blend_mode: BlendMode::Opaque }
}

/// What a viewer at z = 20 that looks towards the origin sees of the drawables.
fn in_sight(scene: &Scene) -> Vec<usize> {
    (0..scene.culling.len())
        .filter(|index| {
            let bounds = scene.culling.bounds[*index];
            float(bounds.min.z) < 20.0 && float(bounds.max.z) > -30.0
        })
        .collect()
}

#[test]
fn child_inherits_parent_transform() {
    let mut scene = Scene::new();
    let parent = scene.add_node(Node::new("Parent").with_position(vector(10.0, 0.0, 0.0)));
    let child = scene
        .add_node_with_parent(Node::new("Child").with_position(vector(0.0, 5.0, 0.0)), parent);

    frame(&mut scene);

    assert_eq!(global(&scene, child), vector(10.0, 5.0, 0.0));
    assert_eq!(global(&scene, parent), vector(10.0, 0.0, 0.0));
}

#[test]
fn parent_scale_applies_to_child() {
    let mut scene = Scene::new();
    let parent = scene.add_node(Node::new("Parent").with_scale(vector(2.0, 2.0, 2.0)));
    let child = scene
        .add_node_with_parent(Node::new("Child").with_position(vector(1.0, 0.0, 0.0)), parent);

    frame(&mut scene);

    assert_eq!(global(&scene, child), vector(2.0, 0.0, 0.0));
}

#[test]
fn invisible_parent_hides_subtree() {
    let mut scene = Scene::new();
    let parent = scene.add_node(Node::new("Parent").with_mesh(cube()));
    scene.add_node_with_parent(Node::new("Child").with_mesh(cube()), parent);

    scene.update();
    assert_eq!(scene.visible_meshes().len(), 2);

    scene.try_get_mut(parent).unwrap().visible = false;
    scene.update();
    assert_eq!(scene.visible_meshes().len(), 0);
}

#[test]
fn remove_node_drops_whole_subtree() {
    let mut scene = Scene::new();
    let parent = scene.add_node(Node::new("Parent"));
    let child = scene.add_node_with_parent(Node::new("Child"), parent);
    let grandchild = scene.add_node_with_parent(Node::new("Grandchild"), child);

    scene.remove_node(parent);

    assert!(scene.try_get(parent).is_none());
    assert!(scene.try_get(child).is_none());
    assert!(scene.try_get(grandchild).is_none());
    assert!(scene.try_get(scene.root()).unwrap().children().is_empty());
}

#[test]
fn root_cannot_be_removed() {
    let mut scene = Scene::new();
    let root = scene.root();

    scene.remove_node(root);

    assert!(scene.try_get(root).is_some());
}

#[test]
fn link_nodes_moves_child_between_parents() {
    let mut scene = Scene::new();
    let a = scene.add_node(Node::new("A"));
    let b = scene.add_node(Node::new("B"));
    let child = scene.add_node_with_parent(Node::new("Child"), a);

    scene.link_nodes(child, b);

    assert_eq!(scene.try_get(child).unwrap().parent(), b);
    assert!(scene.try_get(a).unwrap().children().is_empty());
    assert_eq!(*scene.try_get(b).unwrap().children(), [child]);
}

#[test]
fn link_nodes_rejects_cycles() {
    let mut scene = Scene::new();
    let parent = scene.add_node(Node::new("Parent"));
    let child = scene.add_node_with_parent(Node::new("Child"), parent);

    scene.link_nodes(parent, child);

    assert_eq!(scene.try_get(child).unwrap().parent(), parent);
    assert_eq!(scene.try_get(parent).unwrap().parent(), scene.root());
}

#[test]
fn a_node_cannot_hang_under_itself() {
    let mut scene = Scene::new();
    let node = scene.add_node(Node::new("n"));

    scene.link_nodes(node, node);

    assert_eq!(scene.try_get(node).unwrap().parent(), scene.root());
    assert_eq!(*scene.try_get(scene.root()).unwrap().children(), [node]);
}

#[test]
fn find_by_name_locates_node() {
    let mut scene = Scene::new();
    let handle = scene.add_node(Node::new("Player"));

    assert_eq!(scene.find_by_name("Player"), Some(handle));
    assert_eq!(scene.find_by_name("Enemy"), None);
}

#[test]
fn a_stale_handle_never_reaches_a_later_node() {
    let mut scene = Scene::new();
    let old = scene.add_node(Node::new("old"));
    scene.remove_node(old);
    let new = scene.add_node(Node::new("new"));

    assert_ne!(old, new);
    assert!(scene.try_get(old).is_none());
    assert_eq!(Handle::decode_from_u128(new.encode_to_u128()), new);
    assert_eq!(Handle::decode_from_u128(u128::MAX), Handle::none());
}

#[test]
fn parents_come_before_their_children() {
    let mut scene = Scene::new();
    let a = scene.add_node(Node::new("a"));
    let b = scene.add_node_with_parent(Node::new("b"), a);
    let c = scene.add_node(Node::new("c"));
    let d = scene.add_node_with_parent(Node::new("d"), b);

    assert_eq!(scene.update(), [scene.root(), a, b, d, c]);
    assert_eq!(scene.subtree(a), [a, b, d]);
}

#[test]
fn a_script_node_shows_up_in_the_scene_index() {
    let mut scene = Scene::new();
    let node = scene.add_node(Node::new("s").with_script("a.js"));
    scene.update();

    assert_eq!(scene.script_nodes(), &[node]);
}

// Models.

fn model_node(name: &str) -> ModelNode {
    ModelNode {
        name: name.to_string(),
        transform: Transform::identity(),
        children: Vec::new(),
        parts: Vec::new(),
        skin: None,
    }
}

fn model(meshes: Vec<Mesh>, nodes: Vec<ModelNode>, roots: Vec<usize>) -> Model {
    Model {
        meshes,
        materials: vec![material()],
        nodes,
        roots,
        skins: Vec::new(),
        animations: Vec::new(),
    }
}

#[test]
fn instantiating_model_rebuilds_hierarchy() {
    let mut scene = Scene::new();
    let mut top = model_node("Root");
    top.children = vec![1];
    top.parts = vec![MeshPart { mesh: 0, material: Some(0) }];
    let mut child = model_node("Child");
    child.transform = Transform::from_position(vector(0.0, 3.0, 0.0));
    let model = model(vec![cube()], vec![top, child], vec![0]);

    let root = scene.instantiate_model(&model, scene.root());
    frame(&mut scene);

    let node = scene.try_get(root).unwrap();
    assert_eq!(node.name, "Root");
    assert!(node.mesh().is_some());
    assert!(node.material().is_some());
    let child = node.children()[0];
    assert_eq!(scene.try_get(child).unwrap().name, "Child");
    assert_eq!(global(&scene, child), vector(0.0, 3.0, 0.0));
}

#[test]
fn multi_root_model_gets_container_node() {
    let model = model(Vec::new(), vec![model_node("A"), model_node("B")], vec![0, 1]);

    let mut scene = Scene::new();
    let root = scene.instantiate_model(&model, scene.root());

    let node = scene.try_get(root).unwrap();
    assert_eq!(node.name, "Model");
    assert_eq!(node.children().len(), 2);
}

#[test]
fn multi_part_node_splits_into_children() {
    let mut multi = model_node("Multi");
    multi.parts =
        vec![MeshPart { mesh: 0, material: Some(0) }, MeshPart { mesh: 1, material: None }];
    let model = model(vec![cube(), cube()], vec![multi], vec![0]);

    let mut scene = Scene::new();
    let root = scene.instantiate_model(&model, scene.root());
    scene.update();

    let node = scene.try_get(root).unwrap();
    assert!(node.mesh().is_none());
    assert_eq!(node.children().len(), 2);
    assert_eq!(scene.visible_meshes().len(), 2);
}

#[test]
fn empty_model_does_not_panic() {
    let model = model(Vec::new(), Vec::new(), Vec::new());

    let mut scene = Scene::new();
    let root = scene.instantiate_model(&model, scene.root());

    assert!(scene.try_get(root).is_some());
}

#[test]
fn instantiating_a_skinned_model_attaches_skins() {
    let mut body = model_node("Body");
    body.children = vec![1, 2];
    body.parts = vec![MeshPart { mesh: 0, material: None }];
    body.skin = Some(0);
    let mut model =
        model(vec![cube()], vec![body, model_node("Hip"), model_node("Knee")], vec![0]);
    model.skins = vec![ModelSkin {
        joints: vec![1, 2],
        inverse_bind: vec![Mat4::identity(), Mat4::identity()],
    }];
    model.animations = vec!["Idle".to_string(), "Walk".to_string()];

    let mut scene = Scene::new();
    let root = scene.instantiate_model(&model, scene.root());

    let node = scene.try_get(root).unwrap();
    let skin = node.skin().expect("a skin");
    assert!(node.mesh().is_some());
    assert_eq!(skin.len(), 2);
    assert!(skin.joints().iter().all(|joint| scene.try_get(*joint).is_some()));
    assert_eq!(*skin.joints(), *node.children());
    let player = node.animator().expect("a player");
    assert_eq!(player.clips, ["Idle", "Walk"]);
    assert_eq!(player.targets().len(), 3);
}

#[test]
fn static_models_get_no_animator() {
    let model = model(Vec::new(), vec![model_node("A")], vec![0]);

    let mut scene = Scene::new();
    let root = scene.instantiate_model(&model, scene.root());

    assert!(scene.try_get(root).unwrap().animator().is_none());
}

// Boxes and what is in sight.

#[test]
fn world_aabb_follows_node_transform() {
    let mut scene = Scene::new();
    let node = scene
        .add_node(Node::new("Cube").with_mesh(cube()).with_position(vector(5.0, 0.0, 0.0)));

    frame(&mut scene);

    let bounds = scene.try_get(node).unwrap().global_aabb();
    assert_eq!(bounds, Aabb { min: vector(4.5, -0.5, -0.5), max: vector(5.5, 0.5, 0.5) });
}

#[test]
fn world_aabb_inherits_parent_scale() {
    let mut scene = Scene::new();
    let parent = scene.add_node(Node::new("Parent").with_scale(vector(4.0, 4.0, 4.0)));
    let child = scene.add_node_with_parent(Node::new("Child").with_mesh(cube()), parent);

    frame(&mut scene);

    let bounds = scene.try_get(child).unwrap().global_aabb();
    assert_eq!(bounds, Aabb { min: vector(-2.0, -2.0, -2.0), max: vector(2.0, 2.0, 2.0) });
}

#[test]
fn node_without_mesh_has_empty_aabb() {
    let mut scene = Scene::new();
    let node = scene.add_node(Node::new("Empty"));

    frame(&mut scene);

    assert!(scene.try_get(node).unwrap().global_aabb().is_empty());
}

#[test]
fn cull_matches_linear_filtering() {
    let mut scene = Scene::new();
    let mesh = cube();
    for x in 0..30 {
        for z in 0..30 {
            scene.add_node(
                Node::new("Cube")
                    .with_mesh(mesh.clone())
                    .with_position(vector(x as f32 - 15.0, 0.0, z as f32 - 45.0)),
            );
        }
    }
    frame(&mut scene);

    let linear = scene
        .visible_meshes()
        .iter()
        .filter(|item| float(item.aabb.min.z) < 20.0 && float(item.aabb.max.z) > -30.0)
        .count();
    let culled = scene.cull(&in_sight(&scene));

    assert_eq!(culled.len(), linear);
    assert!(culled.len() < scene.drawable_count());
    assert_eq!(scene.drawable_count(), 900);
}

#[test]
fn cull_tracks_moved_nodes() {
    let mut scene = Scene::new();
    let node = scene.add_node(Node::new("Cube").with_mesh(cube()));
    frame(&mut scene);
    assert_eq!(scene.cull(&in_sight(&scene)).len(), 1);

    scene.try_get_mut(node).unwrap().transform.position = vector(0.0, 0.0, 900.0);
    frame(&mut scene);

    assert_eq!(scene.cull(&in_sight(&scene)).len(), 0);
    assert_eq!(scene.drawable_count(), 1);
}

#[test]
fn cull_drops_hidden_and_removed_nodes() {
    let mut scene = Scene::new();
    let a = scene.add_node(Node::new("A").with_mesh(cube()));
    let b = scene
        .add_node(Node::new("B").with_mesh(cube()).with_position(vector(2.0, 0.0, 0.0)));
    frame(&mut scene);
    assert_eq!(scene.cull(&in_sight(&scene)).len(), 2);

    scene.try_get_mut(a).unwrap().visible = false;
    frame(&mut scene);
    assert_eq!(scene.cull(&in_sight(&scene)).len(), 1);

    scene.remove_node(b);
    frame(&mut scene);
    assert_eq!(scene.cull(&in_sight(&scene)).len(), 0);
    assert_eq!(scene.drawable_count(), 0);
}

#[test]
fn cull_carries_material_and_transform() {
    let mut scene = Scene::new();
    scene.add_node(
        Node::new("Cube")
            .with_mesh(cube())
            .with_material(material())
            .with_position(vector(1.0, 2.0, 3.0)),
    );
    frame(&mut scene);

    let items = scene.cull(&in_sight(&scene));
    assert_eq!(items.len(), 1);
    assert!(items[0].material.is_some());
    assert_eq!(items[0].transform.w_axis.truncate(), vector(1.0, 2.0, 3.0));
}

#[test]
fn frustum_culls_offscreen_nodes() {
    let mut scene = Scene::new();
    scene.add_node(Node::new("Near").with_mesh(cube()));
    scene.add_node(Node::new("Far").with_mesh(cube()).with_position(vector(0.0, 0.0, 900.0)));

    frame(&mut scene);

    assert_eq!(scene.visible_meshes().len(), 2);
    assert_eq!(scene.cull(&in_sight(&scene)).len(), 1);
}

#[test]
fn visible_bounds_covers_every_mesh() {
    let mut scene = Scene::new();
    scene.add_node(Node::new("A").with_mesh(cube()));
    scene.add_node(Node::new("B").with_mesh(cube()).with_position(vector(10.0, 0.0, 0.0)));

    frame(&mut scene);
    let bounds = scene.visible_bounds();

    assert_eq!(bounds.min.x, single(-0.5));
    assert_eq!(bounds.max.x, single(10.5));
}

#[test]
fn visible_bounds_ignores_hidden_meshes() {
    let mut scene = Scene::new();
    scene.add_node(Node::new("A").with_mesh(cube()));
    let hidden = scene
        .add_node(Node::new("B").with_mesh(cube()).with_position(vector(100.0, 0.0, 0.0)));
    scene.try_get_mut(hidden).unwrap().visible = false;

    frame(&mut scene);

    assert_eq!(scene.visible_bounds().max.x, single(0.5));
}

#[test]
fn empty_scene_has_empty_bounds() {
    let mut scene = Scene::new();
    frame(&mut scene);

    assert!(scene.visible_bounds().is_empty());
}

#[test]
fn a_frame_without_changes_keeps_the_search_structure() {
    let mut scene = Scene::new();
    let node = scene.add_node(Node::new("A").with_mesh(cube()));

    assert_eq!(frame(&mut scene), CullAction::Rebuild);
    assert_eq!(frame(&mut scene), CullAction::Keep);
    scene.try_get_mut(node).unwrap().transform.position = vector(1.0, 0.0, 0.0);
    assert_eq!(frame(&mut scene), CullAction::Rebuild);
}

// Particles.

fn smoke() -> ParticleSystem {
    ParticleSystem { playing: true, rate: single(60.0), alive: 0, scene_collision: false }
}

/// Half a second: thirty particles more on every system that moves.
fn half_a_second(scene: &mut Scene) {
    for handle in scene.ticking_particles() {
        let system = *scene.try_get(handle).unwrap().particles().unwrap();
        scene.store_particles(handle, ParticleSystem { alive: system.alive + 30, ..system });
    }
}

fn everywhere(scene: &Scene) -> usize {
    let count = scene.index.particles.len();
    scene.visible_particles(&vec![Aabb::empty(); count], &vec![true; count]).len()
}

#[test]
fn particles_tick_and_are_collected() {
    let mut scene = Scene::new();
    let node = scene.add_node(Node::new("Smoke").with_particles(smoke()));

    frame(&mut scene);
    assert_eq!(everywhere(&scene), 0);

    half_a_second(&mut scene);

    assert_eq!(everywhere(&scene), 1);
    assert_eq!(scene.try_get(node).unwrap().particles().unwrap().alive, 30);
}

#[test]
fn hidden_particle_systems_freeze() {
    let mut scene = Scene::new();
    let handle = scene.add_node(Node::new("Smoke").with_particles(smoke()));

    frame(&mut scene);
    half_a_second(&mut scene);
    let before = scene.try_get(handle).unwrap().particles().unwrap().alive;

    scene.try_get_mut(handle).unwrap().visible = false;
    frame(&mut scene);
    half_a_second(&mut scene);

    assert_eq!(scene.try_get(handle).unwrap().particles().unwrap().alive, before);
    assert_eq!(everywhere(&scene), 0);
}

#[test]
fn offscreen_particle_systems_are_culled() {
    let mut scene = Scene::new();
    scene.add_node(Node::new("Near").with_particles(smoke()));
    scene.add_node(
        Node::new("Far").with_particles(smoke()).with_position(vector(0.0, 0.0, 900.0)),
    );

    frame(&mut scene);
    half_a_second(&mut scene);

    assert_eq!(everywhere(&scene), 2);
    let bounds = vec![Aabb::empty(); 2];
    assert_eq!(scene.visible_particles(&bounds, &vec![true, false]).len(), 1);
}

#[test]
fn particles_do_not_enter_the_mesh_culling_structure() {
    let mut scene = Scene::new();
    scene.add_node(Node::new("Smoke").with_particles(smoke()));

    frame(&mut scene);
    half_a_second(&mut scene);

    assert_eq!(scene.drawable_count(), 0);
    assert!(scene.visible_bounds().is_empty());
}

// Lights and cameras.

fn lamp(enabled: bool, cast_shadows: bool) -> Light {
    Light {
        enabled,
        cast_shadows,
        kind: LightKind::Point { range: single(5.0) },
        color: Vec3::one(),
        intensity: Real::one(),
        mask: u32::MAX,
    }
}

#[test]
fn shadow_caster_picks_the_flagged_light() {
    let mut scene = Scene::new();
    scene.add_node(Node::new("Fill").with_light(lamp(true, false)));
    scene.add_node(Node::new("Sun").with_light(lamp(true, true)));

    scene.update();

    let (light, _) = scene.shadow_caster().expect("a light that casts shadows");
    assert!(light.cast_shadows);
}

#[test]
fn no_shadow_caster_when_none_flagged() {
    let mut scene = Scene::new();
    scene.add_node(Node::new("Fill").with_light(lamp(true, false)));
    scene.update();

    assert!(scene.shadow_caster().is_none());
}

#[test]
fn visible_lights_skips_disabled_ones() {
    let mut scene = Scene::new();
    scene.add_node(Node::new("Off").with_light(lamp(false, false)));
    scene.add_node(Node::new("On").with_light(lamp(true, false)));

    scene.update();

    assert_eq!(scene.visible_lights().len(), 1);
}

#[test]
fn invisible_parent_hides_child_light() {
    let mut scene = Scene::new();
    let parent = scene.add_node(Node::new("Parent"));
    scene.add_node_with_parent(Node::new("Lamp").with_light(lamp(true, false)), parent);

    scene.update();
    assert_eq!(scene.visible_lights().len(), 1);

    scene.try_get_mut(parent).unwrap().visible = false;
    scene.update();
    assert_eq!(scene.visible_lights().len(), 0);
}

#[test]
fn light_transform_follows_node_hierarchy() {
    let mut scene = Scene::new();
    let parent = scene.add_node(Node::new("Rig").with_position(vector(10.0, 0.0, 0.0)));
    scene.add_node_with_parent(
        Node::new("Lamp").with_light(lamp(true, false)).with_position(vector(0.0, 4.0, 0.0)),
        parent,
    );

    frame(&mut scene);

    let (_, transform) = scene.visible_lights()[0];
    assert_eq!(transform.w_axis.truncate(), vector(10.0, 4.0, 0.0));
}

fn camera(enabled: bool) -> Camera {
    Camera {
        enabled,
        orthographic: false,
        field_of_view: single(1.0),
        near: single(0.1),
        far: single(100.0),
    }
}

#[test]
fn active_camera_skips_disabled_ones() {
    let mut scene = Scene::new();
    scene.add_node(Node::new("OffCamera").with_camera(camera(false)));
    let on = scene.add_node(
        Node::new("OnCamera").with_camera(camera(true)).with_position(vector(0.0, 0.0, 7.0)),
    );

    frame(&mut scene);

    let (to_world, _) = scene.active_camera().expect("a camera");
    assert_eq!(to_world.w_axis.truncate(), global(&scene, on));
    assert_eq!(scene.terrain_eye(), vector(0.0, 0.0, 7.0));
}

#[test]
fn grounds_are_looked_at_from_the_origin_without_a_camera() {
    let mut scene = Scene::new();
    scene.update();

    assert_eq!(scene.terrain_eye(), Vec3::zero());
}

// Chains of bones.

#[test]
fn ik_rejects_invalid_handles() {
    let mut scene = Scene::new();
    let root = scene.add_node(Node::new("root"));
    let mid = scene.add_node_with_parent(Node::new("mid"), root);

    assert!(scene.two_bone_places(root, mid, Handle::none()).is_none());
    assert!(scene.two_bone_places(root, mid, mid).is_some());
}

#[test]
fn a_chain_leads_up_to_the_root() {
    let mut scene = Scene::new();
    let a = scene.add_node(Node::new("a").with_position(vector(1.0, 0.0, 0.0)));
    let b = scene.add_node_with_parent(Node::new("b").with_position(vector(2.0, 0.0, 0.0)), a);

    let chain = scene.world_chain(b);

    let positions: Vec<_> = chain.iter().map(|transform| transform.position).collect();
    assert_eq!(positions, [vector(2.0, 0.0, 0.0), vector(1.0, 0.0, 0.0), Vec3::zero()]);
    assert_eq!(scene.ancestry(b), [b, a, scene.root()]);
    assert!(scene.world_chain(Handle::none()).is_empty());
}

#[test]
fn what_hangs_above_a_node_is_its_parent_or_nothing() {
    let mut scene = Scene::new();
    let a = scene.add_node(Node::new("a").with_position(vector(1.0, 0.0, 0.0)));
    let b = scene.add_node_with_parent(Node::new("b"), a);
    frame(&mut scene);

    assert_eq!(scene.parent_matrix(b).unwrap().w_axis.truncate(), vector(1.0, 0.0, 0.0));
    assert_eq!(scene.parent_matrix(scene.root()), Some(Mat4::identity()));
    assert_eq!(scene.parent_matrix(Handle::none()), None);
}

// Morph targets.

fn face() -> Mesh {
    let plain = cube();
    Mesh::from_data(MeshData {
        id: 7,
        source: None,
        morph_targets: vec![MorphTarget {
            name: "mouth".to_string(),
            default_weight: single(1.0),
        }],
        vertices: plain.data.vertices.clone(),
        indices: vec![0, 1, 2],
    })
}

#[test]
fn instantiating_a_morphed_model_seeds_the_default_weights() {
    let mut head = model_node("Head");
    head.parts = vec![MeshPart { mesh: 0, material: None }];
    let model = model(vec![face()], vec![head], vec![0]);

    let mut scene = Scene::new();
    let mouth = scene.instantiate_model(&model, scene.root());

    let node = scene.try_get(mouth).unwrap();
    assert_eq!(*node.morph_weights(), [single(1.0)]);
    assert_eq!(node.find_morph_target("mouth"), Some(0));
}

#[test]
fn morph_weights_reach_the_render_item() {
    let mut scene = Scene::new();
    let mouth = scene.add_node(Node::new("face").with_mesh(face()));
    scene.try_get_mut(mouth).unwrap().set_morph_weight(0, single(0.25));
    scene.update();

    let items = scene.visible_meshes();
    assert_eq!(items.len(), 1);
    assert_eq!(*items[0].morph_weights, [single(0.25)]);
    assert!(items[0].mesh.morph_target_count() > 0);
}

#[test]
fn setting_a_morph_weight_by_name() {
    let mut node = Node::new("face").with_mesh(face());

    assert!(node.set_morph_weight_by_name("mouth", single(0.5)));
    assert_eq!(*node.morph_weights(), [single(0.5)]);

    assert!(!node.set_morph_weight_by_name("nose", single(1.0)));
    assert_eq!(*node.morph_weights(), [single(0.5)]);
}

#[test]
fn out_of_range_morph_index_is_ignored() {
    let mut node = Node::new("face").with_mesh(face());

    node.set_morph_weight(99, single(1.0));

    assert_eq!(node.morph_weights().len(), 1);
}

#[test]
fn morph_weights_are_per_instance() {
    let mesh = face();
    let mut scene = Scene::new();
    let first = scene.add_node(Node::new("a").with_mesh(mesh.clone()));
    let second = scene.add_node(Node::new("b").with_mesh(mesh));

    scene.try_get_mut(first).unwrap().set_morph_weight(0, single(0.0));

    assert_eq!(*scene.try_get(first).unwrap().morph_weights(), [single(0.0)]);
    assert_eq!(*scene.try_get(second).unwrap().morph_weights(), [single(1.0)]);
}

#[test]
fn animation_drives_morph_weights() {
    let mut scene = Scene::new();
    let mouth = scene.add_node(Node::new("face").with_mesh(face()));
    let mut player = AnimationPlayer::new(vec!["Talk".to_string()], vec![mouth]);
    player.morphs = vec![MorphSample { target: 0, index: 0, weight: single(0.25) }];
    scene.add_node(Node::new("Rig").with_animator(player));
    scene.update();

    scene.tick_animations();

    assert_eq!(*scene.try_get(mouth).unwrap().morph_weights(), [single(0.25)]);
}

#[test]
fn meshes_without_morph_targets_have_no_weights() {
    let mut scene = Scene::new();
    let node = scene.add_node(Node::new("Cube").with_mesh(cube()));
    scene.update();

    assert!(scene.try_get(node).unwrap().morph_weights().is_empty());
    assert!(scene.visible_meshes().iter().all(|item| item.morph_weights.is_empty()));
}
