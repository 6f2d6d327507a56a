//! Levels of detail, culling and skins.

use kengine::numbers::{Aabb, Mat4, Real, Vec3, Vec4};
use kengine::pool::Handle;
use kengine::scene::cull::{CullAction, SceneCulling, MAX_REFITS, REBUILD_THRESHOLD};
use kengine::scene::graph::Scene;
use kengine::scene::lod::Lod;
use kengine::scene::mesh::Mesh;
use kengine::scene::node::Node;
use kengine::scene::serialize::SceneDocument;
use kengine::scene::skin::Skin;

fn single(value: f32) -> Real {
    Real::from_bits(value.to_bits())
}

fn float(value: Real) -> f32 {
    f32::from_bits(value.bits)
}

fn vector(x: f32, y: f32, z: f32) -> Vec3 {
    Vec3::new(single(x), single(y), single(z))
}

/// From where on each level is left again.
fn relaxed(lod: &Lod) -> Vec<Real> {
    lod.levels()
        .iter()
        .map(|level| single(float(level.distance) * (1.0 - float(level.hysteresis))))
        .collect()
}

fn select(lod: &Lod, distance: f32) -> usize {
    lod.select(single(distance), &relaxed(lod))
}

fn update(lod: &mut Lod, distance: f32) -> usize {
    let relaxed = relaxed(lod);
    lod.update(single(distance), &relaxed)
}

fn three_levels() -> Lod {
    Lod::new().with_level(single(0.0)).with_level(single(50.0)).with_level(single(300.0))
}

fn distances(lod: &Lod) -> Vec<f32> {
    lod.levels().iter().map(|level| float(level.distance)).collect()
}

#[test]
fn picks_the_farthest_level_whose_distance_is_reached() {
    let lod = three_levels();
    assert_eq!(select(&lod, 0.0), 0);
    assert_eq!(select(&lod, 49.9), 0);
    assert_eq!(select(&lod, 50.0), 1);
    assert_eq!(select(&lod, 299.0), 1);
    assert_eq!(select(&lod, 1e6), 2);
}

#[test]
fn closer_than_the_first_level_still_shows_the_first_level() {
    let lod = Lod::new().with_level(single(50.0)).with_level(single(300.0));
    assert_eq!(select(&lod, 1.0), 0);
}

#[test]
fn levels_are_kept_sorted_by_distance() {
    let mut lod = Lod::new();
    assert_eq!(lod.add_level(single(300.0), single(0.0)), 0);
    assert_eq!(lod.add_level(single(0.0), single(0.0)), 0);
    assert_eq!(lod.add_level(single(50.0), single(0.0)), 1);
    assert_eq!(distances(&lod), vec![0.0, 50.0, 300.0]);
}

#[test]
fn hysteresis_keeps_the_current_level_near_the_boundary() {
    let mut lod =
        Lod::new().with_level(single(0.0)).with_level_hysteresis(single(100.0), single(0.1));
    assert_eq!(update(&mut lod, 101.0), 1);
    assert_eq!(update(&mut lod, 95.0), 1);
    assert_eq!(update(&mut lod, 89.0), 0);
    assert_eq!(update(&mut lod, 99.0), 0);
    assert_eq!(update(&mut lod, 100.0), 1);
}

#[test]
fn children_beyond_the_levels_are_always_shown() {
    let mut lod = three_levels();
    update(&mut lod, 60.0);
    assert!(!lod.shows_child(0));
    assert!(lod.shows_child(1));
    assert!(!lod.shows_child(2));
    assert!(lod.shows_child(3));
}

#[test]
fn nan_and_infinite_inputs_do_not_panic() {
    let mut lod = Lod::new();
    lod.add_level(single(f32::NAN), single(f32::INFINITY));
    lod.add_level(single(10.0), single(-1.0));
    lod.add_level(single(20.0), single(f32::NAN));
    assert_eq!(select(&lod, f32::NAN), 0);
    assert!(lod.levels().iter().all(|level| (0.0..=1.0).contains(&float(level.hysteresis))));
}

#[test]
fn a_level_beyond_the_last_means_the_last() {
    let mut lod = three_levels();
    lod.set_current(9);
    assert_eq!(lod.current(), 2);
    let mut none = Lod::new();
    none.set_current(9);
    assert_eq!(none.current(), 0);
}

// In a scene.

fn shape() -> Mesh {
    Mesh::new(1, Vec::new(), Vec::new())
}

/// Three levels at the origin, looked at from a distance.
fn scene_at(distance: f32) -> (Scene, Handle, Vec<Handle>) {
    let mut scene = Scene::new();
    let lod = scene.add_node(Node::new("Lod").with_lod(three_levels()));
    let levels = (0..3)
        .map(|_| {
            let child = scene.add_node(Node::new("level").with_mesh(shape()));
            scene.link_nodes(child, lod);
            child
        })
        .collect();
    look(&mut scene, lod, distance);
    (scene, lod, levels)
}

fn look(scene: &mut Scene, lod: Handle, distance: f32) {
    let relaxed = relaxed(scene.try_get(lod).unwrap().lod().unwrap());
    scene.update_lod(lod, single(distance), &relaxed);
    scene.update();
}

fn shown(scene: &Scene, levels: &[Handle]) -> Vec<bool> {
    levels.iter().map(|handle| scene.try_get(*handle).unwrap().global_visible).collect()
}

#[test]
fn only_the_selected_level_is_drawn() {
    let (scene, lod, levels) = scene_at(100.0);
    assert_eq!(scene.try_get(lod).unwrap().lod().unwrap().current(), 1);
    assert_eq!(shown(&scene, &levels), vec![false, true, false]);
    assert_eq!(scene.visible_meshes().len(), 1);
}

#[test]
fn moving_the_camera_switches_level_in_the_same_frame() {
    let (mut scene, lod, levels) = scene_at(10.0);
    assert_eq!(shown(&scene, &levels), vec![true, false, false]);
    look(&mut scene, lod, 1000.0);
    assert_eq!(shown(&scene, &levels), vec![false, false, true]);
}

#[test]
fn user_visibility_flags_are_left_alone() {
    let (mut scene, lod, levels) = scene_at(100.0);
    for handle in &levels {
        assert!(scene.try_get(*handle).unwrap().visible);
    }
    scene.try_get_mut(lod).unwrap().visible = false;
    scene.update();
    assert_eq!(shown(&scene, &levels), vec![false, false, false]);
}

#[test]
fn manual_selection_sticks_when_auto_update_is_off() {
    let (mut scene, lod, levels) = scene_at(100.0);
    let component = scene.try_get_mut(lod).unwrap().lod_mut().unwrap();
    component.auto_update = false;
    component.set_current(2);
    look(&mut scene, lod, 100.0);
    assert_eq!(shown(&scene, &levels), vec![false, false, true]);
}

#[test]
fn lod_survives_a_scene_roundtrip() {
    let (mut scene, lod, _) = scene_at(100.0);
    let (document, _): (SceneDocument, _) = scene.write_document();
    let restored = document.read(&vec![None]).expect("a scene");
    let levels = distances(restored.try_get(lod).unwrap().lod().expect("the levels"));
    assert_eq!(levels, vec![0.0, 50.0, 300.0]);
}

// Culling.

fn boxed(x: f32, y: f32, z: f32) -> Aabb {
    Aabb { min: vector(x - 0.4, y - 0.4, z - 0.4), max: vector(x + 0.4, y + 0.4, z + 0.4) }
}

fn grid(side: usize, spacing: f32) -> SceneCulling {
    let mut culling = SceneCulling::new();
    culling.begin();
    for x in 0..side {
        for z in 0..side {
            culling.push(
                Handle { index: (x * side + z) as u32, generation: 1 },
                boxed(x as f32 * spacing, 0.0, z as f32 * spacing),
            );
        }
    }
    assert_eq!(culling.commit(), CullAction::Rebuild);
    culling
}

fn again(culling: &mut SceneCulling, bounds: &[Aabb]) -> CullAction {
    let handles = culling.handles.clone();
    culling.begin();
    for (handle, aabb) in handles.iter().zip(bounds) {
        culling.push(*handle, *aabb);
    }
    culling.commit()
}

#[test]
fn unchanged_scene_reuses_the_tree() {
    let mut culling = grid(4, 2.0);
    let before = culling.bounds.clone();

    assert_eq!(again(&mut culling, &before), CullAction::Keep);

    assert_eq!(culling.bounds, before);
    assert_eq!(culling.refits, 0);
}

#[test]
fn moving_a_node_updates_the_bounds() {
    let mut culling = grid(4, 2.0);
    let mut bounds = culling.bounds.clone();
    bounds[0] = boxed(0.0, 900.0, 0.0);

    again(&mut culling, &bounds);

    assert!(float(culling.bounds[0].max.y) > 800.0);
}

#[test]
fn removing_a_node_rebuilds() {
    let mut culling = grid(4, 2.0);
    let handles = culling.handles.clone();
    let bounds = culling.bounds.clone();

    culling.begin();
    for (handle, aabb) in handles.iter().zip(&bounds).skip(1) {
        culling.push(*handle, *aabb);
    }
    assert_eq!(culling.commit(), CullAction::Rebuild);

    assert_eq!(culling.len(), handles.len() - 1);
    assert_eq!(culling.handle(0), handles[1]);
}

#[test]
fn empty_scene_is_handled() {
    let mut culling = SceneCulling::new();
    culling.begin();
    culling.commit();

    assert_eq!(culling.len(), 0);
    assert!(culling.bounds.is_empty());
}

#[test]
fn a_large_structure_is_adjusted_only_so_often() {
    let mut culling = grid(50, 2.0);
    assert!(culling.len() > REBUILD_THRESHOLD);
    let mut bounds = culling.bounds.clone();

    for round in 0..MAX_REFITS {
        bounds[0] = boxed(0.0, round as f32 + 1.0, 0.0);
        assert_eq!(again(&mut culling, &bounds), CullAction::Refit);
    }
    bounds[0] = boxed(0.0, -1.0, 0.0);
    assert_eq!(again(&mut culling, &bounds), CullAction::Rebuild);
    assert_eq!(culling.refits, 0);
}

// Skins.

fn moved(y: f32) -> Mat4 {
    let identity = Mat4::identity();
    Mat4 {
        w_axis: Vec4 { x: single(0.0), y: single(y), z: single(0.0), w: single(1.0) },
        ..identity
    }
}

#[test]
fn skin_truncates_mismatched_inputs() {
    let joint = |index: u32| Handle { index, generation: 1 };
    let skin =
        Skin::new(vec![joint(1), joint(2), joint(3)], vec![Mat4::identity(), Mat4::identity()]);

    assert_eq!(skin.len(), 2);
    assert_eq!(skin.inverse_bind().len(), 2);
    assert_eq!(skin.matrices().len(), 2);
}

#[test]
fn missing_joints_fall_back_to_identity() {
    let mut scene = Scene::new();
    let skin = Skin::new(vec![Handle::none()], vec![Mat4::identity()]);
    let node = scene.add_node(Node::new("n").with_mesh(shape()).with_skin(skin));
    scene.update();

    assert_eq!(scene.skin_places(node), Some(vec![Mat4::identity()]));
}

#[test]
fn skins_go_where_their_joints_are() {
    let mut scene = Scene::new();
    let joint = scene.add_node(Node::new("joint"));
    let skin = Skin::new(vec![joint], vec![Mat4::identity()]);
    let node = scene.add_node(Node::new("n").with_mesh(shape()).with_skin(skin));
    scene.update();
    scene.store_transforms(&vec![joint], &vec![moved(5.0)]);

    assert_eq!(scene.skin_places(node), Some(vec![moved(5.0)]));

    scene.store_skin(node, vec![moved(3.0)]);
    assert_eq!(*scene.try_get(node).unwrap().skin().unwrap().matrices(), [moved(3.0)]);
}

#[test]
fn skinned_meshes_render_with_an_identity_transform() {
    let mut scene = Scene::new();
    let skin = Skin::new(Vec::new(), Vec::new());
    let node = scene.add_node(Node::new("n").with_mesh(shape()).with_skin(skin));
    scene.update();
    scene.store_transforms(&vec![node], &vec![moved(9.0)]);

    let item = scene.render_item(node).expect("something to draw");
    assert_eq!(item.transform, Mat4::identity());
    assert!(item.skin.is_some());
}

#[test]
fn empty_skin_is_harmless() {
    let skin = Skin::new(Vec::new(), Vec::new());

    assert!(skin.is_empty());
    assert!(skin.matrices().is_empty());
}
