//! Sounds, overlays, decals and grounds.

use kengine::numbers::{Aabb, Mat4, Quat, Real, Transform, Vec3, Vec4};
use kengine::pool::Handle;
use kengine::scene::audio::{Mixer, SoundSource, Status};
use kengine::scene::components::{Camera, Light, LightKind, Spatial, Terrain};
use kengine::scene::cull::CullAction;
use kengine::scene::debug::{Gizmo, SceneDebugOptions, SearchBox, SolverLine};
use kengine::scene::decal::{Decal, DecalOptions, Piece};
use kengine::scene::graph::{Scene, SpriteInstance};
use kengine::scene::mesh::{BlendMode, Material, Mesh, Vertex};
use kengine::scene::node::Node;
use kengine::scene::physics::ColliderShape;
use kengine::scene::skin::Skin;
use kengine::scene::terrain::{ChunkMesh, TerrainHit};
use std::collections::HashMap;

fn single(value: f32) -> Real {
    Real::from_bits(value.to_bits())
}

fn float(value: Real) -> f32 {
    f32::from_bits(value.bits)
}

fn vector(x: f32, y: f32, z: f32) -> Vec3 {
    Vec3::new(single(x), single(y), single(z))
}

type Matrix = [[f32; 4]; 4];

fn columns(m: Mat4) -> Matrix {
    [m.x_axis, m.y_axis, m.z_axis, m.w_axis].map(|c| [c.x, c.y, c.z, c.w].map(float))
}

fn matrix(m: Matrix) -> Mat4 {
    let column = |c: [f32; 4]| {
        let [x, y, z, w] = c.map(single);
        Vec4 { x, y, z, w }
    };
    Mat4 {
        x_axis: column(m[0]),
        y_axis: column(m[1]),
        z_axis: column(m[2]),
        w_axis: column(m[3]),
    }
}

fn times(a: Matrix, b: Matrix) -> Matrix {
    let mut out = [[0.0; 4]; 4];
    for column in 0..4 {
        for row in 0..4 {
            out[column][row] = (0..4).map(|k| a[k][row] * b[column][k]).sum();
        }
    }
    out
}

/// Position and scale; nothing is turned here.
fn placed(transform: &Transform) -> Matrix {
    let (p, s) = (transform.position, transform.scale);
    [
        [float(s.x), 0.0, 0.0, 0.0],
        [0.0, float(s.y), 0.0, 0.0],
        [0.0, 0.0, float(s.z), 0.0],
        [float(p.x), float(p.y), float(p.z), 1.0],
    ]
}

fn box_of(mesh: &Mesh, global: Matrix) -> Aabb {
    let mut bounds = Aabb::empty();
    for vertex in &mesh.data.vertices {
        let p = [vertex.position.x, vertex.position.y, vertex.position.z].map(float);
        let at = |row: usize| {
            single(p[0] * global[0][row] + p[1] * global[1][row] + p[2] * global[2][row] + global[3][row])
        };
        let point = Vec3::new(at(0), at(1), at(2));
        bounds = bounds.join(&Aabb { min: point, max: point });
    }
    bounds
}

/// A whole frame: who is shown, where everything is, and the boxes of what is drawn.
fn frame(scene: &mut Scene) -> CullAction {
    let order = scene.update();
    let mut known: HashMap<Handle, Matrix> = HashMap::new();
    let mut globals = Vec::new();
    for handle in &order {
        let node = scene.try_get(*handle).unwrap();
        let own = placed(&node.transform);
        let global = match known.get(&node.parent()) {
            Some(parent) => times(*parent, own),
            None => own,
        };
        known.insert(*handle, global);
        globals.push(matrix(global));
    }
    scene.store_transforms(&order, &globals);
    let bounds = scene
        .drawable_nodes()
        .iter()
        .map(|handle| {
            let node = scene.try_get(*handle).unwrap();
            box_of(node.mesh().unwrap(), columns(node.global_transform()))
        })
        .collect();
    scene.refresh_culling(&bounds)
}

fn cube() -> Mesh {
    let mut corners = Vec::new();
    for x in [-0.5, 0.5] {
        for y in [-0.5, 0.5] {
            for z in [-0.5, 0.5] {
                corners.push(Vertex {
                    position: vector(x, y, z),
                    normal: vector(0.0, 1.0, 0.0),
                    u: single(0.0),
                    v: single(0.0),
                });
            }
        }
    }
    Mesh::new(1, corners, vec![0, 1, 2])
}

fn camera() -> Camera {
    Camera {
        enabled: true,
        orthographic: false,
        field_of_view: single(1.0),
        near: single(0.1),
        far: single(1000.0),
    }
}

// Sounds.

const BEEP: u64 = 1;
const HUM: u64 = 2;

/// A scene, a mixer, and the samples that are loaded.
struct Stage {
    scene: Scene,
    mixer: Mixer,
}

impl Stage {
    fn new() -> Stage {
        Stage { scene: Scene::new(), mixer: Mixer::new() }
    }

    fn with(source: SoundSource) -> (Stage, Handle) {
        let mut stage = Stage::new();
        let node = stage.scene.add_node(Node::new("s").with_sound(source));
        frame(&mut stage.scene);
        stage.tick();
        (stage, node)
    }

    fn tick(&mut self) {
        self.scene.tick_audio(&mut self.mixer, &vec![BEEP, HUM]);
    }

    fn len(&self) -> usize {
        self.mixer.voices.alive_count()
    }

    fn sound(&mut self, node: Handle) -> &mut SoundSource {
        self.scene.try_get_mut(node).unwrap().sound_mut().unwrap()
    }

    fn voice(&mut self, node: Handle) -> &mut kengine::scene::audio::Voice {
        let native = self.sound(node).native().expect("a voice");
        self.mixer.voices.try_borrow_mut(native).unwrap()
    }

    /// Plays long enough for everything that does not repeat to end. Voices that have ended leave.
    fn render(&mut self) {
        for handle in self.mixer.voices.handles() {
            let voice = self.mixer.voices.try_borrow(handle).unwrap();
            if !voice.looping && voice.status == Status::Playing {
                self.mixer.voices.free(handle);
            }
        }
    }
}

#[test]
fn a_sound_source_reaches_the_mixer_once_its_resource_is_ready() {
    let (mut stage, node) = Stage::with(SoundSource::new(BEEP));

    assert_eq!(stage.len(), 1);
    assert!(stage.sound(node).native().is_some());
}

#[test]
fn a_source_whose_resource_is_still_loading_waits_instead_of_failing() {
    let missing = 99;
    let (mut stage, _) = Stage::with(SoundSource::new(missing));
    for _ in 0..5 {
        stage.tick();
    }

    assert_eq!(stage.len(), 0);
}

#[test]
fn the_sound_follows_its_node() {
    let spatial =
        Spatial { radius: single(1.0), max_distance: single(50.0), rolloff: single(1.0) };
    let (mut stage, node) = Stage::with(SoundSource::spatial(BEEP, spatial));

    stage.scene.try_get_mut(node).unwrap().transform.position = vector(7.0, 0.0, -3.0);
    frame(&mut stage.scene);
    stage.tick();

    assert_eq!(stage.voice(node).position, vector(7.0, 0.0, -3.0));
    assert_eq!(stage.voice(node).spatial, Some(spatial));
}

#[test]
fn the_listener_follows_the_active_camera() {
    let mut stage = Stage::new();
    stage.scene.add_node(
        Node::new("camera").with_camera(camera()).with_position(vector(0.0, 2.0, 10.0)),
    );

    frame(&mut stage.scene);
    stage.tick();

    let listener = stage.mixer.listener.expect("ears");
    assert_eq!(listener.w_axis.truncate(), vector(0.0, 2.0, 10.0));
}

#[test]
fn a_scene_without_a_camera_leaves_the_listener_alone() {
    let mut stage = Stage::new();
    let place = matrix([
        [1.0, 0.0, 0.0, 0.0],
        [0.0, 1.0, 0.0, 0.0],
        [0.0, 0.0, 1.0, 0.0],
        [5.0, 5.0, 5.0, 1.0],
    ]);
    stage.mixer.listener = Some(place);

    stage.scene.update();
    stage.tick();

    assert_eq!(stage.mixer.listener, Some(place));
}

#[test]
fn changing_the_gain_reaches_the_mixer() {
    let (mut stage, node) = Stage::with(SoundSource::new(BEEP));
    stage.sound(node).gain = single(0.25);
    stage.tick();

    assert_eq!(stage.voice(node).gain, single(0.25));
}

#[test]
fn pausing_and_resuming_go_through() {
    let (mut stage, node) = Stage::with(SoundSource::new(BEEP));

    stage.sound(node).pause();
    stage.tick();
    assert_eq!(stage.voice(node).status, Status::Paused);

    stage.sound(node).play();
    stage.tick();
    assert_eq!(stage.voice(node).status, Status::Playing);
}

#[test]
fn a_source_created_paused_does_not_start_on_its_own() {
    let (mut stage, node) = Stage::with(SoundSource::new(BEEP).paused());

    assert_eq!(stage.voice(node).status, Status::Paused);
}

#[test]
fn a_one_shot_sound_is_marked_finished_and_not_restarted() {
    let (mut stage, node) = Stage::with(SoundSource::new(BEEP));
    stage.render();

    stage.tick();
    assert!(stage.sound(node).is_finished());
    assert_eq!(stage.len(), 0);

    for _ in 0..5 {
        stage.tick();
    }
    assert_eq!(stage.len(), 0);
}

#[test]
fn restart_replays_a_finished_sound() {
    let (mut stage, node) = Stage::with(SoundSource::new(BEEP));
    stage.render();
    stage.tick();
    assert!(stage.sound(node).is_finished());

    stage.sound(node).restart();
    stage.tick();

    assert_eq!(stage.len(), 1);
    assert!(!stage.sound(node).is_finished());
}

#[test]
fn other_samples_stop_what_is_playing() {
    let (mut stage, node) = Stage::with(SoundSource::new(BEEP));
    let old = stage.sound(node).native().unwrap();

    stage.sound(node).set_buffer(HUM);
    stage.tick();

    assert!(stage.mixer.voices.try_borrow(old).is_none());
    assert_eq!(stage.len(), 1);
    assert_eq!(stage.voice(node).buffer, HUM);
}

#[test]
fn restarting_a_playing_sound_leaves_one_voice() {
    let (mut stage, node) = Stage::with(SoundSource::new(BEEP));
    let old = stage.sound(node).native().unwrap();

    stage.sound(node).restart();
    stage.tick();

    assert!(stage.mixer.voices.try_borrow(old).is_none());
    assert_eq!(stage.len(), 1);
}

#[test]
fn a_looping_sound_never_gets_marked_finished() {
    let (mut stage, node) = Stage::with(SoundSource::new(HUM).looping());
    for _ in 0..4 {
        stage.render();
        stage.tick();
    }

    assert!(!stage.sound(node).is_finished());
    assert_eq!(stage.len(), 1);
}

#[test]
fn stopping_all_sounds_clears_the_mixer() {
    let mut stage = Stage::new();
    for index in 0..3 {
        stage
            .scene
            .add_node(Node::new(&format!("s{index}")).with_sound(SoundSource::new(BEEP)));
    }
    stage.scene.update();
    stage.tick();
    assert_eq!(stage.len(), 3);

    stage.scene.stop_all_sounds(&mut stage.mixer);

    assert_eq!(stage.len(), 0);
}

// Overlays.

fn scene_with_gizmos() -> Scene {
    let mut scene = Scene::new();
    scene.gizmos_mut().set_enabled(true);
    scene
}

/// Of how many lines the overlays are made.
fn line_count(scene: &Scene) -> usize {
    let lines = |item: &Gizmo| match item {
        Gizmo::Bounds(_) | Gizmo::Search { .. } | Gizmo::Eye { .. } => 12,
        Gizmo::Lamp { range, .. } => 3 + if range.is_some() { 96 } else { 0 },
        Gizmo::JointPoint(_) | Gizmo::Axes { .. } => 3,
        Gizmo::Bone { .. } | Gizmo::Solver(_) => 1,
    };
    scene.gizmos().items.iter().map(lines).sum()
}

fn no_options() -> SceneDebugOptions {
    SceneDebugOptions::default()
}

fn solver_line() -> SolverLine {
    SolverLine {
        from: Vec3::zero(),
        to: Vec3::one(),
        hue: single(340.0),
        saturation: single(1.0),
        lightness: single(0.5),
        alpha: single(1.0),
    }
}

#[test]
fn nothing_is_drawn_while_gizmos_are_off() {
    let mut scene = Scene::new();
    scene.add_node(Node::new("box").with_mesh(cube()));
    scene.update();

    scene.debug_draw(
        SceneDebugOptions {
            bounds: true,
            bvh: true,
            skeletons: true,
            node_axes: true,
            lights: true,
            cameras: true,
        },
        &vec![SearchBox { aabb: Aabb::empty(), depth: 0, leaf: true }],
    );
    scene.debug_draw_physics(&vec![solver_line()]);

    assert!(scene.gizmos().items.is_empty());
}

#[test]
fn empty_options_draw_nothing() {
    let mut scene = scene_with_gizmos();
    scene.add_node(Node::new("box").with_mesh(cube()));
    scene.update();

    assert!(no_options().is_empty());
    scene.debug_draw(no_options(), &Vec::new());
    assert!(scene.gizmos().items.is_empty());
}

#[test]
fn bounds_are_drawn_once_per_drawable() {
    let mut scene = scene_with_gizmos();
    for i in 0..3 {
        scene.add_node(
            Node::new(&format!("box{i}"))
                .with_mesh(cube())
                .with_position(vector(i as f32 * 3.0, 0.0, 0.0)),
        );
    }
    frame(&mut scene);

    scene.debug_draw(SceneDebugOptions { bounds: true, ..no_options() }, &Vec::new());

    assert_eq!(line_count(&scene), 3 * 12);
}

#[test]
fn the_gizmo_buffer_survives_the_physics_swap() {
    let mut scene = scene_with_gizmos();
    scene.gizmos_mut().items.push(Gizmo::JointPoint(Vec3::zero()));

    scene.debug_draw_physics(&vec![solver_line()]);

    let items = &scene.gizmos().items;
    assert_eq!(*items, [Gizmo::JointPoint(Vec3::zero()), Gizmo::Solver(solver_line())]);
}

#[test]
fn the_bvh_is_drawn_layer_by_layer() {
    let mut scene = scene_with_gizmos();
    let layer = |depth: u32, leaf: bool| SearchBox { aabb: Aabb::empty(), depth, leaf };
    let boxes = vec![layer(0, false), layer(1, true), layer(1, true)];

    scene.debug_draw(SceneDebugOptions { bvh: true, ..no_options() }, &boxes);

    assert!(line_count(&scene) >= 3 * 12);
    let depths: Vec<_> = scene
        .gizmos()
        .items
        .iter()
        .map(|item| match item {
            Gizmo::Search { depth, leaf, .. } => (*depth, *leaf),
            _ => panic!("something else"),
        })
        .collect();
    assert_eq!(depths, [(0, false), (1, true), (1, true)]);
}

#[test]
fn a_skeleton_root_does_not_connect_to_the_scene_root() {
    let mut scene = scene_with_gizmos();
    let anchor = scene.add_node(Node::new("anchor").with_position(vector(100.0, 0.0, 0.0)));
    let hip = scene.add_node_with_parent(Node::new("hip"), anchor);
    let knee =
        scene.add_node_with_parent(Node::new("knee").with_position(vector(0.0, 1.0, 0.0)), hip);
    scene.add_node(Node::new("body").with_mesh(cube()).with_skin(Skin::new(
        vec![hip, knee],
        vec![Mat4::identity(), Mat4::identity()],
    )));
    frame(&mut scene);

    scene.debug_draw(SceneDebugOptions { skeletons: true, ..no_options() }, &Vec::new());

    let bones: Vec<_> = scene
        .gizmos()
        .items
        .iter()
        .filter_map(|item| match item {
            Gizmo::Bone { from, to } => Some((*from, *to)),
            _ => None,
        })
        .collect();
    assert_eq!(bones, [(vector(100.0, 0.0, 0.0), vector(100.0, 1.0, 0.0))]);
}

#[test]
fn the_active_camera_frustum_is_skipped() {
    let mut scene = scene_with_gizmos();
    scene.add_node(Node::new("active").with_camera(camera()));
    scene.update();

    let options = SceneDebugOptions { cameras: true, ..no_options() };
    scene.debug_draw(options, &Vec::new());
    assert!(scene.gizmos().items.is_empty());

    scene.add_node(
        Node::new("other")
            .with_camera(Camera { enabled: false, ..camera() })
            .with_position(vector(0.0, 0.0, 5.0)),
    );
    scene.update();

    scene.debug_draw(options, &Vec::new());
    assert!(!scene.gizmos().items.is_empty());
}

fn lamp(kind: LightKind) -> Light {
    Light {
        enabled: true,
        cast_shadows: false,
        kind,
        color: Vec3::one(),
        intensity: Real::one(),
        mask: u32::MAX,
    }
}

fn lamp_lines(kind: LightKind) -> usize {
    let mut scene = scene_with_gizmos();
    scene.add_node(Node::new("lamp").with_light(lamp(kind)));
    scene.update();
    scene.debug_draw(SceneDebugOptions { lights: true, ..no_options() }, &Vec::new());
    line_count(&scene)
}

#[test]
fn a_light_draws_a_marker_and_a_direction() {
    assert!(lamp_lines(LightKind::Directional) > 0);
}

#[test]
fn a_point_light_also_draws_its_range() {
    let point = lamp_lines(LightKind::Point { range: single(8.0) });
    assert!(point > lamp_lines(LightKind::Directional));
}

// Decals.

fn floor(size: f32) -> Mesh {
    let h = size * 0.5;
    let corner = |x: f32, z: f32| Vertex {
        position: vector(x, 0.0, z),
        normal: vector(0.0, 1.0, 0.0),
        u: single(0.0),
        v: single(0.0),
    };
    let corners = vec![corner(-h, -h), corner(h, -h), corner(h, h), corner(-h, h)];
    Mesh::new(1, corners, vec![0, 2, 1, 0, 3, 2])
}

fn scene_with_floor() -> (Scene, Handle) {
    let mut scene = Scene::new();
    let handle = scene.add_node(Node::new("Floor").with_mesh(floor(20.0)));
    frame(&mut scene);
    (scene, handle)
}

fn opaque() -> Material {
    Material { id: 1, revision: 0, properties: 0, blend_mode: BlendMode::Opaque }
}

fn options_of(x: f32, y: f32, size: f32) -> DecalOptions {
    DecalOptions::new(
        Decal {
            position: vector(x, y, 0.0),
            normal: vector(0.0, 1.0, 0.0),
            size: vector(size, size, size),
            angle: single(0.0),
        },
        opaque(),
    )
}

fn options_at(x: f32, y: f32) -> DecalOptions {
    options_of(x, y, 1.0)
}

fn box_round(decal: &Decal) -> Aabb {
    let corner = |sign: f32| {
        let at = |middle: Real, size: Real| single(float(middle) + sign * 0.5 * float(size));
        Vec3::new(
            at(decal.position.x, decal.size.x),
            at(decal.position.y, decal.size.y),
            at(decal.position.z, decal.size.z),
        )
    };
    Aabb { min: corner(-1.0), max: corner(1.0) }
}

/// What lies in the box, cut out of a level floor: three corners for each triangle.
fn cut(scene: &Scene, receiver: Handle, bounds: &Aabb) -> Option<Piece> {
    let node = scene.try_get(receiver).unwrap();
    let place = columns(node.global_transform());
    let data = &node.mesh().unwrap().data;
    let clamp = |value: f32, low: Real, high: Real| single(value.clamp(float(low), float(high)));
    let vertices: Vec<Vertex> = data
        .indices
        .iter()
        .map(|index| {
            let vertex = data.vertices[*index as usize];
            let (x, z) = (float(vertex.position.x), float(vertex.position.z));
            Vertex {
                position: Vec3::new(
                    clamp(x + place[3][0], bounds.min.x, bounds.max.x),
                    single(place[3][1]),
                    clamp(z + place[3][2], bounds.min.z, bounds.max.z),
                ),
                ..vertex
            }
        })
        .collect();
    let indices = (0..vertices.len() as u32).collect();
    Some(Piece { vertices, indices })
}

fn spawn_decal(scene: &mut Scene, options: &DecalOptions) -> Option<Handle> {
    let bounds = box_round(&options.decal);
    let receivers = scene.decal_receivers(bounds, options.root);
    let pieces = receivers.iter().map(|receiver| cut(scene, *receiver, &bounds)).collect();
    scene.spawn_decal(options, &pieces, 77)
}

fn index_count(scene: &Scene, handle: Handle) -> usize {
    scene.try_get(handle).unwrap().mesh().unwrap().data.indices.len()
}

#[test]
fn a_decal_lands_on_the_floor() {
    let (mut scene, _) = scene_with_floor();
    let handle = spawn_decal(&mut scene, &options_at(0.0, 0.0)).expect("a decal");
    assert_eq!(scene.try_get(handle).unwrap().mesh().unwrap().id(), 77);
}

#[test]
fn a_decal_in_thin_air_produces_nothing() {
    let (mut scene, _) = scene_with_floor();
    let before = scene.nodes().alive_count();
    assert!(spawn_decal(&mut scene, &options_at(0.0, 50.0)).is_none());
    assert_eq!(scene.nodes().alive_count(), before);
}

#[test]
fn the_decal_material_is_forced_to_alpha() {
    let (mut scene, _) = scene_with_floor();
    let options = options_at(0.0, 0.0);
    assert_eq!(options.material.blend_mode, BlendMode::Opaque);

    let handle = spawn_decal(&mut scene, &options).unwrap();
    let material = scene.try_get(handle).unwrap().material().unwrap();
    assert_eq!(*material, Material { blend_mode: BlendMode::Alpha, ..opaque() });
}

#[test]
fn the_receiver_world_transform_is_used() {
    let mut scene = Scene::new();
    let handle = scene.add_node(Node::new("Floor").with_mesh(floor(20.0)));
    scene.try_get_mut(handle).unwrap().transform.position = vector(50.0, 0.0, 0.0);
    frame(&mut scene);

    assert!(spawn_decal(&mut scene, &options_at(0.0, 0.0)).is_none());
    assert!(spawn_decal(&mut scene, &options_at(50.0, 0.0)).is_some());
}

fn two_floors() -> Scene {
    let mut scene = Scene::new();
    for x in [-0.4, 0.4] {
        scene.add_node(
            Node::new("Floor").with_mesh(floor(0.6)).with_position(vector(x, 0.0, 0.0)),
        );
    }
    frame(&mut scene);
    scene
}

#[test]
fn several_receivers_merge_into_one_node() {
    let mut scene = two_floors();
    let before = scene.nodes().alive_count();
    let handle = spawn_decal(&mut scene, &options_of(0.0, 0.0, 4.0)).unwrap();

    assert_eq!(scene.nodes().alive_count(), before + 1);
    assert_eq!(index_count(&scene, handle), 12);
}

#[test]
fn merged_indices_stay_in_range() {
    let mut scene = two_floors();
    let handle = spawn_decal(&mut scene, &options_of(0.0, 0.0, 4.0)).unwrap();

    let data = &scene.try_get(handle).unwrap().mesh().unwrap().data;
    let count = data.vertices.len() as u32;
    assert!(data.indices.iter().all(|index| *index < count));
    assert_eq!(count, 12);
    assert_eq!(data.indices, (0..12).collect::<Vec<u32>>());
}

#[test]
fn invisible_receivers_are_skipped() {
    let (mut scene, handle) = scene_with_floor();
    scene.try_get_mut(handle).unwrap().visible = false;
    frame(&mut scene);
    assert!(spawn_decal(&mut scene, &options_at(0.0, 0.0)).is_none());
}

#[test]
fn the_root_filter_limits_the_receivers() {
    let mut scene = Scene::new();
    let group = scene.add_node(Node::new("Group"));
    let inside = scene.add_node_with_parent(Node::new("Inside").with_mesh(floor(20.0)), group);
    scene.add_node(Node::new("Outside").with_mesh(floor(20.0)));
    frame(&mut scene);

    let limited = spawn_decal(&mut scene, &options_at(0.0, 0.0).with_root(group)).unwrap();
    let all = spawn_decal(&mut scene, &options_at(0.0, 0.0)).unwrap();

    assert_eq!(index_count(&scene, all), index_count(&scene, limited) * 2);
    assert!(scene.try_get(inside).is_some());
}

#[test]
fn the_root_filter_accepts_the_root_itself() {
    let (mut scene, handle) = scene_with_floor();
    assert!(spawn_decal(&mut scene, &options_at(0.0, 0.0).with_root(handle)).is_some());
}

#[test]
fn a_decal_does_not_receive_another_decal() {
    let (mut scene, _) = scene_with_floor();
    let first = spawn_decal(&mut scene, &options_at(0.0, 0.0)).unwrap();
    let baseline = index_count(&scene, first);
    frame(&mut scene);

    let second = spawn_decal(&mut scene, &options_at(0.0, 0.0)).unwrap();
    assert_eq!(index_count(&scene, second), baseline);

    scene.try_get_mut(first).unwrap().receives_decals = true;
    frame(&mut scene);
    let third = spawn_decal(&mut scene, &options_at(0.0, 0.0)).unwrap();
    assert!(index_count(&scene, third) > baseline);
}

#[test]
fn the_node_name_is_used() {
    let (mut scene, _) = scene_with_floor();
    let options = options_at(0.0, 0.0).with_name("BulletHole");
    let handle = spawn_decal(&mut scene, &options).unwrap();
    assert_eq!(scene.try_get(handle).unwrap().name, "BulletHole");
    assert_eq!(scene.find_by_name("BulletHole"), Some(handle));
}

#[test]
fn removing_a_decal_leaves_the_scene_intact() {
    let (mut scene, floor_handle) = scene_with_floor();
    let handle = spawn_decal(&mut scene, &options_at(0.0, 0.0)).unwrap();
    scene.remove_node(handle);
    frame(&mut scene);

    assert!(scene.try_get(handle).is_none());
    assert!(scene.try_get(floor_handle).is_some());
    assert!(spawn_decal(&mut scene, &options_at(0.0, 0.0)).is_some());
}

#[test]
fn the_decal_geometry_is_in_world_space() {
    let mut scene = Scene::new();
    let floor_handle = scene.add_node(Node::new("Floor").with_mesh(floor(20.0)));
    scene.try_get_mut(floor_handle).unwrap().transform.position = vector(7.0, 0.0, 0.0);
    frame(&mut scene);

    let handle = spawn_decal(&mut scene, &options_at(7.0, 0.0)).unwrap();
    let node = scene.try_get(handle).unwrap();
    assert_eq!(node.transform.position, Vec3::zero());
    assert_eq!(node.global_transform, Mat4::identity());
    for vertex in &node.mesh().unwrap().data.vertices {
        assert!((float(vertex.position.x) - 7.0).abs() <= 0.51);
    }
}

// Grounds.

const SIZE: f32 = 160.0;

fn height(x: f32) -> f32 {
    (x / 10.0 * 0.5).sin() * 4.0
}

fn ground() -> Terrain {
    Terrain {
        rows: 17,
        cols: 17,
        heights: 5,
        scale: vector(SIZE, 1.0, SIZE),
        collider_offset: vector(SIZE / 2.0, 0.0, SIZE / 2.0),
    }
}

fn grid(side: usize) -> Mesh {
    let vertex = Vertex {
        position: Vec3::zero(),
        normal: vector(0.0, 1.0, 0.0),
        u: single(0.0),
        v: single(0.0),
    };
    Mesh::new(9, vec![vertex; side * side], Vec::new())
}

/// The four chunks as seen from `eye`, given relative to the ground.
fn chunks(eye: [f32; 3]) -> Vec<ChunkMesh> {
    let chunk = |index: usize| {
        let middle = [40.0 + 80.0 * (index % 2) as f32, 40.0 + 80.0 * (index / 2) as f32];
        let away = ((eye[0] - middle[0]).powi(2) + (eye[2] - middle[1]).powi(2)).sqrt();
        ChunkMesh { index, mesh: grid(if away < 500.0 { 9 } else { 3 }) }
    };
    (0..4).map(chunk).collect()
}

fn ground_frame(scene: &mut Scene) {
    frame(scene);
    let eye = scene.terrain_eye();
    for handle in scene.terrain_nodes().to_vec() {
        let place = columns(scene.try_get(handle).unwrap().global_transform());
        let local = [
            float(eye.x) - place[3][0],
            float(eye.y) - place[3][1],
            float(eye.z) - place[3][2],
        ];
        for child in scene.sync_terrain_chunks(handle, chunks(local)) {
            scene.adopt_terrain_chunk(handle, child, matrix(place));
        }
    }
}

fn ground_scene() -> (Scene, Handle) {
    let mut scene = Scene::new();
    scene.add_node(
        Node::new("Camera").with_camera(camera()).with_position(vector(80.0, 50.0, 80.0)),
    );
    let handle = scene.add_node(Node::new("Terrain").with_terrain(ground()));
    ground_frame(&mut scene);
    (scene, handle)
}

fn vertex_count(scene: &Scene, handle: Handle) -> usize {
    scene.try_get(handle).unwrap().mesh().unwrap().data.vertices.len()
}

#[test]
fn chunks_become_child_nodes_with_meshes() {
    let (scene, handle) = ground_scene();
    let children = scene.try_get(handle).unwrap().children().to_vec();
    assert_eq!(children.len(), 4);
    for child in children {
        assert!(scene.try_get(child).unwrap().mesh().is_some());
    }
}

#[test]
fn chunks_are_not_duplicated_on_later_frames() {
    let (mut scene, handle) = ground_scene();
    for _ in 0..10 {
        ground_frame(&mut scene);
    }
    assert_eq!(scene.try_get(handle).unwrap().children().len(), 4);
}

#[test]
fn chunk_meshes_are_rebuilt_when_the_camera_moves() {
    let (mut scene, handle) = ground_scene();
    let child = scene.try_get(handle).unwrap().children()[3];
    let before = vertex_count(&scene, child);

    let camera = scene.find_by_name("Camera").unwrap();
    scene.try_get_mut(camera).unwrap().transform.position = vector(2000.0, 500.0, 2000.0);
    ground_frame(&mut scene);

    assert!(vertex_count(&scene, child) < before);
}

#[test]
fn terrain_chunks_enter_the_culling_structure() {
    let (scene, _) = ground_scene();
    assert!(scene.drawable_nodes().len() >= 4);
}

#[test]
fn the_lod_follows_the_terrain_local_position() {
    let mut scene = Scene::new();
    scene.add_node(
        Node::new("Camera").with_camera(camera()).with_position(vector(5000.0, 50.0, 5000.0)),
    );
    let handle = scene.add_node(
        Node::new("Terrain").with_terrain(ground()).with_position(vector(5000.0, 0.0, 5000.0)),
    );
    ground_frame(&mut scene);

    let child = scene.try_get(handle).unwrap().children()[0];
    assert_eq!(vertex_count(&scene, child), 9 * 9);
}

#[test]
fn a_heightfield_collider_can_be_attached() {
    let (mut scene, handle) = ground_scene();
    scene.attach_terrain_collider(handle);

    let collider = scene.try_get(handle).unwrap().collider().expect("a collider");
    let shape = ColliderShape::Heightfield {
        rows: 17,
        cols: 17,
        heights: 5,
        scale: vector(SIZE, 1.0, SIZE),
    };
    assert_eq!(collider.desc().shape, shape);
    assert_eq!(collider.desc().position, vector(80.0, 0.0, 80.0));
    assert_eq!(collider.desc().rotation, Quat::identity());
}

/// Where a ray straight down, or up, meets each ground.
fn hits(scene: &Scene, from: [f32; 3], down: bool) -> Vec<Option<TerrainHit>> {
    scene
        .terrain_nodes()
        .iter()
        .map(|handle| {
            let place = columns(scene.try_get(*handle).unwrap().global_transform());
            let local = [from[0] - place[3][0], from[2] - place[3][2]];
            let over = local.iter().all(|part| (0.0..=SIZE).contains(part));
            let y = height(local[0]) + place[3][1];
            if down && over && y <= from[1] {
                Some(TerrainHit { point: vector(from[0], y, from[2]), distance: single(from[1] - y) })
            } else {
                None
            }
        })
        .collect()
}

#[test]
fn raycasting_finds_the_surface_in_world_space() {
    let (scene, handle) = ground_scene();
    let (hit, point) =
        scene.raycast_terrain(&hits(&scene, [80.0, 100.0, 80.0], true)).expect("a hit");

    assert_eq!(hit, handle);
    assert!((float(point.y) - height(80.0)).abs() < 0.1);
}

#[test]
fn raycasting_respects_the_terrain_transform() {
    let mut scene = Scene::new();
    scene.add_node(Node::new("Camera").with_camera(camera()));
    scene.add_node(
        Node::new("Terrain")
            .with_terrain(ground())
            .with_transform(Transform::from_position(vector(1000.0, 20.0, -500.0))),
    );
    ground_frame(&mut scene);

    let (_, point) =
        scene.raycast_terrain(&hits(&scene, [1080.0, 200.0, -420.0], true)).expect("a hit");

    assert!((float(point.x) - 1080.0).abs() < 0.1);
    assert!((float(point.z) + 420.0).abs() < 0.1);
    assert!(float(point.y) > 15.0);
}

#[test]
fn a_ray_that_misses_returns_nothing() {
    let (scene, _) = ground_scene();
    assert!(scene.raycast_terrain(&hits(&scene, [80.0, 100.0, 80.0], false)).is_none());
}

#[test]
fn the_nearest_of_two_grounds_is_hit() {
    let mut scene = Scene::new();
    let low = scene.add_node(Node::new("low").with_terrain(ground()));
    let high = scene.add_node(
        Node::new("high").with_terrain(ground()).with_position(vector(0.0, 30.0, 0.0)),
    );
    frame(&mut scene);

    let all = hits(&scene, [80.0, 100.0, 80.0], true);
    assert_eq!(scene.raycast_terrain(&all).unwrap().0, high);
    assert_eq!(scene.raycast_terrain(&vec![all[0], None]).unwrap().0, low);
}

// What else a scene holds.

#[test]
fn sprites_and_their_textures_are_kept_in_order() {
    let mut scene = Scene::new();
    let sprite = |texture: u128| SpriteInstance { texture, position: Vec3::zero(), layer: 0 };
    scene.push_sprite(sprite(4));
    scene.push_sprite(sprite(3));
    scene.register_sprite_texture(4);

    let textures: Vec<u128> = scene.sprites().iter().map(|sprite| sprite.texture).collect();
    assert_eq!(textures, [4, 3]);
    assert_eq!(scene.sprite_textures(), &[4]);

    scene.clear_sprites();
    assert!(scene.sprites().is_empty());
}

#[test]
fn a_new_environment_has_a_new_version() {
    let mut scene = Scene::new();
    let before = scene.environment_version();
    let environment = kengine::scene::graph::Environment {
        intensity: single(2.0),
        ..*scene.environment()
    };

    scene.set_environment_hdr(environment, 8);

    assert_eq!(scene.environment().intensity, single(2.0));
    assert_eq!(scene.prefiltered_environment(), Some(8));
    assert_ne!(scene.environment_version(), before);
}
