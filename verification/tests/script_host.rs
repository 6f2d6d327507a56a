//! What scripts can do to the scene, function by function.

use kengine::numbers::{Double, Quat, Real, Transform, Vec3};
use kengine::pool::Handle;
use kengine::scene::audio::{SoundSource, Status};
use kengine::scene::components::ParticleSystem;
use kengine::scene::graph::Scene;
use kengine::scene::node::Node;
use kengine::scene::physics::{BodyAction, RigidBody, RigidBodyDesc, RigidBodyType};
use kengine::scene::skin::AnimationPlayer;
use kengine::scene::sync::RayHit;
use kengine::script::host::{Host, Seat, MAX_SIGNALS, MAX_SPAWNS};
use kengine::script::input::{ActionState, AxisState, Input, MouseButton, Vec2};
use kengine::script::runtime::ScriptRuntime;

fn single(value: f32) -> Real {
    Real::from_bits(value.to_bits())
}

fn double(value: f64) -> Double {
    Double::from_bits(value.to_bits())
}

fn vector(x: f32, y: f32, z: f32) -> Vec3 {
    Vec3::new(single(x), single(y), single(z))
}

const POSITION: f64 = 0.0;
const SCALE: f64 = 1.0;

fn component(host: &Host, id: Double, field: f64, axis: f64) -> f32 {
    f32::from_bits(host.get_component(id, double(field), double(axis)).bits)
}

/// A scene, an input, a host and a spare scene.
fn stage() -> (Scene, Input, Host, Option<Scene>) {
    (Scene::new(), Input::new(), Host::new(), Some(Scene::new()))
}

/// A host with a scene of one node, and the number of that node.
fn host_with(node: Node) -> (Host, Handle, Double) {
    let (mut scene, mut input, mut host, mut spare) = stage();
    let handle = scene.add_node(node);
    scene.update();
    host.park(&mut scene, &mut input, &mut spare, single(0.016), single(0.0));
    host.current = handle;
    let id = host.self_id();
    (host, handle, id)
}

fn node_in(host: &Host, handle: Handle) -> &Node {
    host.scene.as_ref().unwrap().try_get(handle).unwrap()
}

// Coming and going.

#[test]
fn a_parked_scene_can_be_read_and_written_live() {
    let (mut scene, mut input, mut host, mut spare) = stage();
    let node = scene.add_node(Node::new("probe"));

    host.park(&mut scene, &mut input, &mut spare, single(0.016), single(1.0));
    host.current = node;
    let id = host.self_id();
    host.set_vec(id, double(POSITION), vector(0.0, 42.0, 0.0));
    assert_eq!(host.transform_of(id).unwrap().position, vector(0.0, 42.0, 0.0));
    host.unpark(&mut scene, &mut input, &mut spare);

    assert_eq!(scene.try_get(node).unwrap().transform.position, vector(0.0, 42.0, 0.0));
}

#[test]
fn the_empty_shell_is_recycled_not_rebuilt() {
    let (mut scene, mut input, mut host, mut spare) = stage();
    let mark = spare.as_mut().expect("a spare scene").add_node(Node::new("shell-marker"));

    for _ in 0..3 {
        host.park(&mut scene, &mut input, &mut spare, single(0.0), single(0.0));
        host.unpark(&mut scene, &mut input, &mut spare);
    }

    let shell = spare.as_ref().expect("the spare scene");
    assert_eq!(shell.try_get(mark).unwrap().name, "shell-marker");
}

#[test]
fn the_registry_belongs_to_the_runtime_not_the_thread() {
    let (mut scene_a, mut input_a, mut host_a, mut spare_a) = stage();
    let node_a = scene_a.add_node(Node::new("a"));
    host_a.park(&mut scene_a, &mut input_a, &mut spare_a, single(0.0), single(0.0));
    let id_a = host_a.id_of(node_a);

    let (mut scene_b, mut input_b, mut host_b, mut spare_b) = stage();
    scene_b.add_node(Node::new("filler"));
    let node_b = scene_b.add_node(Node::new("b"));
    host_b.park(&mut scene_b, &mut input_b, &mut spare_b, single(0.0), single(0.0));
    let id_b = host_b.id_of(node_b);

    assert_eq!(id_a, double(0.0));
    assert_eq!(id_b, double(0.0));
    assert_eq!(host_b.handle_of(id_b), Some(node_b));
}

#[test]
fn the_registry_survives_between_ticks_of_the_same_runtime() {
    let (mut scene, mut input, mut host, mut spare) = stage();
    let node = scene.add_node(Node::new("stable"));

    host.park(&mut scene, &mut input, &mut spare, single(0.0), single(0.0));
    let first = host.id_of(node);
    host.unpark(&mut scene, &mut input, &mut spare);

    host.park(&mut scene, &mut input, &mut spare, single(0.0), single(0.0));
    let second = host.id_of(node);

    assert_eq!(first, second);
    assert_eq!(host.handle_of(first), Some(node));
}

#[test]
fn a_bogus_id_resolves_to_nothing() {
    let (mut scene, mut input, mut host, mut spare) = stage();
    host.park(&mut scene, &mut input, &mut spare, single(0.0), single(0.0));

    for bad in [-1.0, f64::NAN, f64::INFINITY, 1e30, 999.0] {
        assert_eq!(host.handle_of(double(bad)), None, "{bad}");
    }
}

#[test]
fn nothing_is_reachable_outside_a_tick() {
    let mut host = Host::new();

    assert!(host.scene.is_none());
    assert!(host.handle_of(double(0.0)).is_none());
    assert_eq!(host.find("anything"), Double::minus_one());
    assert!(!host.action_pressed("jump"));
}

#[test]
fn re_entrancy_is_refused_instead_of_panicking() {
    let mut runtime = ScriptRuntime::new();
    let context = runtime.context_mut();
    context.insert_data(Seat::new(Host::new()));

    let outer = context.remove_data::<Seat>();
    let inner = context.remove_data::<Seat>();

    assert!(outer.is_some());
    assert!(inner.is_none());
}

#[test]
fn timing_is_visible_to_the_bridge() {
    let (mut scene, mut input, mut host, mut spare) = stage();
    host.park(&mut scene, &mut input, &mut spare, single(0.25), single(7.5));

    assert_eq!(host.delta(), single(0.25));
    assert_eq!(host.time(), single(7.5));
}

#[test]
fn a_new_tick_starts_with_a_clean_slate() {
    let (mut scene, mut input, mut host, mut spare) = stage();
    let node = scene.add_node(Node::new("n"));
    host.park(&mut scene, &mut input, &mut spare, single(0.0), single(0.0));
    host.current = node;
    host.emit("x".to_string(), double(1.0));
    host.unpark(&mut scene, &mut input, &mut spare);

    host.park(&mut scene, &mut input, &mut spare, single(0.0), single(0.0));

    assert_eq!(host.current, Handle::none());
    assert_eq!(host.spawned, 0);
    assert!(host.signals.is_empty());
}

// Reading and writing nodes.

#[test]
fn host_writing_a_single_axis_writes_through_to_the_scene() {
    let (mut host, handle, id) = host_with(Node::new("mover"));

    for _ in 0..3 {
        let y = component(&host, id, POSITION, 1.0);
        host.set_component(id, double(POSITION), double(1.0), single(y + 1.0));
    }

    assert_eq!(node_in(&host, handle).transform.position, vector(0.0, 3.0, 0.0));
}

#[test]
fn host_assigning_a_whole_vector_works_too() {
    let (mut host, handle, id) = host_with(Node::new("mover"));

    host.set_vec(id, double(POSITION), vector(1.0, 2.0, 3.0));

    assert_eq!(node_in(&host, handle).transform.position, vector(1.0, 2.0, 3.0));
}

#[test]
fn host_reads_see_writes_made_earlier_in_the_same_callback() {
    let (mut host, _, id) = host_with(Node::new("n"));

    host.set_component(id, double(POSITION), double(0.0), single(5.0));

    assert_eq!(component(&host, id, POSITION, 0.0), 5.0);
}

#[test]
fn host_scale_and_visibility_round_trip() {
    let (mut host, handle, id) = host_with(Node::new("n"));

    host.set_vec(id, double(SCALE), vector(2.0, 2.0, 2.0));
    host.set_component(id, double(SCALE), double(1.0), single(5.0));
    host.set_visible(id, false);

    assert_eq!(node_in(&host, handle).transform.scale, vector(2.0, 5.0, 2.0));
    assert!(!node_in(&host, handle).visible);
    assert!(!host.get_visible(id));
}

#[test]
fn host_the_node_name_is_readable() {
    let (host, _, id) = host_with(Node::new("hero"));

    assert_eq!(host.get_name(id), Some("hero".to_string()));
}

#[test]
fn an_unknown_field_is_the_position_and_an_unknown_axis_is_x() {
    let (mut host, handle, id) = host_with(Node::new("n"));

    host.set_component(id, double(9.0), double(9.0), single(4.0));

    assert_eq!(node_in(&host, handle).transform.position, vector(4.0, 0.0, 0.0));
}

#[test]
fn host_get_node_returns_a_usable_object() {
    let (mut scene, mut input, mut host, mut spare) = stage();
    scene.add_node(Node::new("driver"));
    let target = scene.add_node(Node::new("target"));
    host.park(&mut scene, &mut input, &mut spare, single(0.016), single(0.0));

    let id = host.find("target");
    host.set_component(id, double(POSITION), double(0.0), single(7.0));

    assert_eq!(node_in(&host, target).transform.position.x, single(7.0));
}

#[test]
fn host_a_missing_node_comes_back_as_null() {
    let (mut host, _, _) = host_with(Node::new("n"));

    assert_eq!(host.find("nobody"), double(-1.0));
}

#[test]
fn host_queue_free_removes_the_node_immediately() {
    let (mut host, victim, id) = host_with(Node::new("victim"));

    host.queue_free(id);

    assert!(host.scene.as_ref().unwrap().try_get(victim).is_none());
    assert!(!host.is_valid(id));
}

#[test]
fn a_number_of_a_removed_node_reads_as_nothing() {
    let (mut host, _, id) = host_with(Node::new("victim").with_position(vector(1.0, 2.0, 3.0)));

    host.queue_free(id);

    assert_eq!(host.get_name(id), None);
    assert_eq!(component(&host, id, POSITION, 0.0), 0.0);
    assert_eq!(host.get_global_position(id), Vec3::zero());
    assert_eq!(host.get_forward(id, vector(1.0, 0.0, 0.0)), vector(0.0, 0.0, -1.0));
    assert!(!host.get_visible(id));
}

#[test]
fn host_a_nan_never_reaches_the_scene() {
    let (mut host, handle, id) = host_with(Node::new("n"));

    host.set_component(id, double(POSITION), double(0.0), single(f32::NAN));
    host.set_vec(id, double(POSITION), vector(f32::INFINITY, 0.0, 0.0));
    host.translate(id, vector(f32::NAN, 0.0, 0.0), vector(f32::NAN, 0.0, 0.0));
    host.rotate_y(id, single(f32::INFINITY), Quat::identity());
    host.look_at(id, vector(0.0, f32::NAN, 0.0), None);

    assert_eq!(node_in(&host, handle).transform, Transform::identity());
}

#[test]
fn moving_and_turning_store_what_was_worked_out() {
    let (mut host, handle, id) = host_with(Node::new("n"));
    let turned = Quat { x: single(0.0), y: single(1.0), z: single(0.0), w: single(0.0) };

    host.translate(id, vector(1.0, 0.0, 0.0), vector(3.0, 0.0, 0.0));
    host.rotate_y(id, single(3.0), turned);

    assert_eq!(node_in(&host, handle).transform.position, vector(3.0, 0.0, 0.0));
    assert_eq!(node_in(&host, handle).transform.rotation, turned);

    host.look_at(id, vector(3.0, 0.0, 0.0), None);
    assert_eq!(node_in(&host, handle).transform.rotation, turned);
    host.look_at(id, vector(9.0, 0.0, 0.0), Some(Quat::identity()));
    assert_eq!(node_in(&host, handle).transform.rotation, Quat::identity());
}

#[test]
fn host_a_script_can_push_a_rigid_body() {
    let body = RigidBody::new(RigidBodyDesc::of_type(RigidBodyType::Dynamic));
    let (mut host, handle, id) = host_with(Node::new("ball").with_rigid_body(body));

    host.apply_impulse(id, vector(0.0, 10.0, 0.0));
    host.set_linvel(id, vector(1.0, 0.0, 0.0));

    let actions = &node_in(&host, handle).rigid_body().unwrap().actions;
    assert_eq!(actions[actions.len() - 2], BodyAction::ApplyImpulse(vector(0.0, 10.0, 0.0)));
    assert_eq!(actions[actions.len() - 1], BodyAction::SetLinvel(vector(1.0, 0.0, 0.0)));
    assert_eq!(host.get_linvel(id), Vec3::zero());
}

#[test]
fn pushing_a_node_without_a_body_does_nothing() {
    let (mut host, handle, id) = host_with(Node::new("n"));

    host.apply_impulse(id, vector(0.0, 10.0, 0.0));

    assert!(node_in(&host, handle).rigid_body().is_none());
}

// Rays.

fn hit_on(handle: Handle) -> RayHit {
    RayHit {
        collider_user_data: handle.encode_to_u128(),
        body_user_data: handle.encode_to_u128(),
        point: vector(0.0, 0.0, 0.0),
        normal: vector(0.0, 1.0, 0.0),
        distance: single(5.0),
    }
}

#[test]
fn host_raycast_returns_a_result_the_script_can_act_on_immediately() {
    let (mut host, ground, id) = host_with(Node::new("ground"));

    let hit = host
        .raycast(vector(0.0, 5.0, 0.0), vector(0.0, -1.0, 0.0), Some(hit_on(ground)))
        .expect("a hit");

    assert_eq!(hit.node, id);
    assert_eq!(hit.distance, single(5.0));
    assert_eq!(hit.normal, vector(0.0, 1.0, 0.0));
}

#[test]
fn host_a_raycast_that_hits_nothing_returns_null() {
    let (mut host, ground, _) = host_with(Node::new("ground"));

    assert!(host.raycast(vector(0.0, 500.0, 0.0), vector(0.0, 1.0, 0.0), None).is_none());
    let nowhere = vector(f32::NAN, 0.0, 0.0);
    assert!(host.raycast(nowhere, vector(0.0, 1.0, 0.0), Some(hit_on(ground))).is_none());
}

#[test]
fn a_hit_on_something_that_is_no_node_has_no_number() {
    let (mut host, _, _) = host_with(Node::new("n"));
    let stranger = Handle { index: 77, generation: 5 };

    let hit = host.raycast(Vec3::zero(), vector(0.0, 1.0, 0.0), Some(hit_on(stranger))).unwrap();

    assert_eq!(hit.node, double(-1.0));
}

// Particles.

fn particle_node() -> Node {
    Node::new("n").with_particles(ParticleSystem {
        playing: true,
        rate: single(10.0),
        alive: 0,
        scene_collision: false,
    })
}

#[test]
fn host_a_script_can_stop_and_start_particles() {
    let (mut host, handle, id) = host_with(particle_node());

    host.set_particles_playing(id, false);

    assert!(!node_in(&host, handle).particles().unwrap().playing);
}

#[test]
fn host_a_script_can_change_the_emission_rate() {
    let (mut host, handle, id) = host_with(particle_node());

    host.set_emission_rate(id, single(250.0));

    assert_eq!(node_in(&host, handle).particles().unwrap().rate, single(250.0));
}

#[test]
fn host_a_negative_emission_rate_is_clamped() {
    let (mut host, handle, id) = host_with(particle_node());

    host.set_emission_rate(id, single(-100.0));

    assert_eq!(node_in(&host, handle).particles().unwrap().rate, single(0.0));
}

#[test]
fn host_a_script_can_read_the_particle_count() {
    let (mut host, _, id) = host_with(particle_node());
    let before = host.particles_of(id).unwrap();

    let count = double(7.0).to_count();
    host.burst_particles(id, ParticleSystem { alive: before.alive + count, ..before });

    assert_eq!(host.particle_count(id), 7);
}

#[test]
fn a_burst_of_nonsense_is_a_burst_of_nothing() {
    assert_eq!(double(-3.0).to_count(), 0);
    assert_eq!(double(f64::NAN).to_count(), 0);
    assert_eq!(double(f64::NEG_INFINITY).to_count(), 0);
    assert_eq!(double(f64::INFINITY).to_count(), u32::MAX);
    assert_eq!(double(12.9).to_count(), 12);
    assert_eq!(double(1e12).to_count(), u32::MAX);
}

#[test]
fn host_particle_calls_on_a_node_without_particles_do_nothing() {
    let (mut host, handle, id) = host_with(Node::new("n"));

    host.set_particles_playing(id, false);
    host.set_emission_rate(id, single(5.0));

    assert_eq!(host.particle_count(id), 0);
    assert!(node_in(&host, handle).particles().is_none());
}

// Sounds.

fn sound_node() -> Node {
    Node::new("n").with_sound(SoundSource::new(1))
}

#[test]
fn host_a_script_can_set_volume_and_pitch() {
    let (mut host, handle, id) = host_with(sound_node());

    host.set_sound_gain(id, single(0.25));
    host.set_sound_pitch(id, single(1.5));

    let sound = node_in(&host, handle).sound().unwrap();
    assert_eq!(sound.gain, single(0.25));
    assert_eq!(sound.pitch, single(1.5));
}

#[test]
fn host_a_zero_pitch_is_clamped() {
    let (mut host, handle, id) = host_with(sound_node());

    host.set_sound_pitch(id, single(0.0));

    assert_eq!(node_in(&host, handle).sound().unwrap().pitch, single(0.01));
}

#[test]
fn host_a_script_can_set_looping() {
    let (mut host, handle, id) = host_with(sound_node());

    host.set_sound_looping(id, true);

    assert!(node_in(&host, handle).sound().unwrap().looping);
}

#[test]
fn host_a_negative_volume_is_clamped() {
    let (mut host, handle, id) = host_with(sound_node());

    host.set_sound_gain(id, single(-2.0));

    assert_eq!(node_in(&host, handle).sound().unwrap().gain, single(0.0));
}

#[test]
fn sounds_can_be_stopped_and_played_again() {
    let (mut host, handle, id) = host_with(sound_node());

    host.stop_sound(id);
    assert_eq!(node_in(&host, handle).sound().unwrap().status(), Status::Stopped);
    host.play_sound(id);
    assert_eq!(node_in(&host, handle).sound().unwrap().status(), Status::Playing);
}

// Animations.

#[test]
fn host_playing_a_missing_clip_returns_false_instead_of_throwing() {
    let (mut host, _, id) = host_with(Node::new("n"));

    assert!(!host.play_animation(id, "不存在的剪辑"));
}

#[test]
fn a_known_clip_is_started_by_its_name() {
    let player =
        AnimationPlayer::new(vec!["Idle".to_string(), "Walk".to_string()], Vec::new());
    let (mut host, handle, id) = host_with(Node::new("n").with_animator(player));

    assert!(host.play_animation(id, "Walk"));
    assert!(!host.play_animation(id, "Run"));

    assert_eq!(node_in(&host, handle).animator().unwrap().playing, [1]);
}

#[test]
fn host_animation_calls_on_a_node_without_an_animator_do_nothing() {
    let (mut host, handle, id) = host_with(Node::new("n"));

    host.set_animation_playing(id, false);
    host.set_animation_speed(id, single(2.0));

    assert!(!host.is_animation_playing(id));
    assert!(node_in(&host, handle).animator().is_none());
}

#[test]
fn animations_can_be_held_and_sped_up() {
    let player = AnimationPlayer::new(Vec::new(), Vec::new());
    let (mut host, handle, id) = host_with(Node::new("n").with_animator(player));
    assert!(host.is_animation_playing(id));

    host.set_animation_playing(id, false);
    host.set_animation_speed(id, single(2.0));

    assert!(!host.is_animation_playing(id));
    assert_eq!(node_in(&host, handle).animator().unwrap().speed, single(2.0));
}

// Input.

fn input_with_jump() -> Input {
    let mut input = Input::new();
    input.actions.push(ActionState {
        name: "jump".to_string(),
        pressed: true,
        just_pressed: true,
        just_released: false,
    });
    input.axes.push(AxisState { name: "move_x".to_string(), value: single(1.0) });
    input
}

#[test]
fn host_a_script_reads_actions_and_axes() {
    let mut host = Host::new();
    host.input = Some(input_with_jump());

    assert!(host.action_pressed("jump"));
    assert!(host.action_just_pressed("jump"));
    assert!(!host.action_just_released("jump"));
    assert_eq!(host.axis("move_x"), single(1.0));
}

#[test]
fn host_an_unbound_action_is_simply_not_pressed() {
    let mut host = Host::new();
    host.input = Some(input_with_jump());

    assert!(!host.action_pressed("nope"));
    assert_eq!(host.axis("nope"), single(0.0));
}

#[test]
fn mouse_buttons_go_by_their_names_in_any_case() {
    let mut input = Input::new();
    input.left.pressed = true;
    input.middle.just_pressed = true;
    let mut host = Host::new();
    host.input = Some(input);

    assert!(host.mouse_pressed("Left"));
    assert!(host.mouse_pressed("LEFT"));
    assert!(!host.mouse_pressed("leftt"));
    assert!(!host.mouse_pressed("right"));
    assert!(host.mouse_just_pressed("middle"));
    assert_eq!(MouseButton::named("MiDDle"), Some(MouseButton::Middle));
    assert_eq!(MouseButton::named("wheel"), None);
}

#[test]
fn a_cursor_that_was_never_in_the_window_is_nowhere() {
    let mut host = Host::new();
    host.input = Some(Input::new());

    assert_eq!(host.mouse_position(), None);
    assert_eq!(host.mouse_delta(), Vec2::zero());
    assert_eq!(host.scroll_delta(), Vec2::zero());

    let somewhere = Vec2 { x: single(3.0), y: single(4.0) };
    host.input.as_mut().unwrap().cursor = Some(somewhere);
    assert_eq!(host.mouse_position(), Some(somewhere));
}

// Making nodes.

fn host_with_prototype(name: &str) -> Host {
    let (mut scene, mut input, mut host, mut spare) = stage();
    host.prototypes.register(name);
    host.park(&mut scene, &mut input, &mut spare, single(0.016), single(0.0));
    host
}

#[test]
fn host_a_script_spawns_a_registered_prototype() {
    let mut host = host_with_prototype("Enemy");
    let place = vector(1.0, 2.0, 3.0);
    assert_eq!(host.wanted_prototype("Enemy", place), Some(0));

    let id = host.spawn("Enemy", place, Node::new("Enemy"));

    assert_eq!(host.get_name(id), Some("Enemy".to_string()));
    let scene = host.scene.as_ref().unwrap();
    let spawned = scene.find_by_name("Enemy").expect("the node");
    assert_eq!(scene.try_get(spawned).unwrap().transform.position, place);
}

#[test]
fn host_spawning_an_unknown_prototype_returns_null() {
    let mut host = host_with_prototype("Enemy");

    assert_eq!(host.wanted_prototype("Typo", Vec3::zero()), None);
    assert_eq!(host.spawn("Typo", Vec3::zero(), Node::new("Typo")), double(-1.0));
    assert!(host.scene.as_ref().unwrap().find_by_name("Typo").is_none());
}

#[test]
fn nothing_is_spawned_nowhere() {
    let mut host = host_with_prototype("Enemy");

    let id = host.spawn("Enemy", vector(f32::NAN, 0.0, 0.0), Node::new("Enemy"));

    assert_eq!(id, double(-1.0));
}

#[test]
fn host_a_runaway_spawn_loop_is_capped_instead_of_eating_all_memory() {
    let mut host = host_with_prototype("Blob");
    let mut made = 0;
    for _ in 0..5000 {
        if host.spawn("Blob", Vec3::zero(), Node::new("Blob")) != double(-1.0) {
            made += 1;
        }
    }

    assert_eq!(made, ScriptRuntime::MAX_SPAWNS_PER_TICK);
    assert_eq!(made, MAX_SPAWNS);
}

#[test]
fn host_the_spawn_budget_refills_every_tick() {
    let (mut scene, mut input, mut host, mut spare) = stage();
    host.prototypes.register("Blob");

    for _ in 0..3 {
        host.park(&mut scene, &mut input, &mut spare, single(0.016), single(0.0));
        host.spawn("Blob", Vec3::zero(), Node::new("Blob"));
        host.unpark(&mut scene, &mut input, &mut spare);
    }

    let blobs = scene
        .nodes()
        .handles()
        .iter()
        .filter(|handle| scene.try_get(**handle).unwrap().name == "Blob")
        .count();
    assert_eq!(blobs, 3);
}

#[test]
fn a_prototype_registered_again_keeps_its_place() {
    let mut host = Host::new();

    assert_eq!(host.prototypes.register("a"), 0);
    assert_eq!(host.prototypes.register("b"), 1);
    assert_eq!(host.prototypes.register("a"), 0);
    assert_eq!(*host.prototypes.names(), ["a", "b"]);
}

#[test]
fn signals_stop_at_their_limit() {
    let mut host = Host::new();
    for index in 0..MAX_SIGNALS + 10 {
        host.emit("x".to_string(), double(index as f64));
    }

    assert_eq!(host.signals.len(), MAX_SIGNALS);
    assert_eq!(host.signals[0].value, double(0.0));
    assert_eq!(host.take_signals().len(), MAX_SIGNALS);
    assert!(host.signals.is_empty());
}

#[test]
fn a_handle_keeps_its_number() {
    let mut host = Host::new();
    let a = Handle { index: 1, generation: 1 };
    let b = Handle { index: 1, generation: 2 };

    let id_a = host.id_of(a);
    let id_b = host.id_of(b);

    assert_ne!(id_a, id_b);
    assert_eq!(host.id_of(a), id_a);
    assert_eq!(host.handle_of(id_a), Some(a));
    assert_eq!(host.handle_of(id_b), Some(b));
}
