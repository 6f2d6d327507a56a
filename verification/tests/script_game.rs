//! Scripts that play with the scene, run by the real engine.

use boa_engine::{Context, JsResult, JsString, JsValue, NativeFunction};
use kengine::numbers::{Double, Mat4, Pose, Quat, Real, Vec3, Vec4};
use kengine::pool::Handle;
use kengine::scene::audio::SoundSource;
use kengine::scene::components::ParticleSystem;
use kengine::scene::graph::Scene;
use kengine::scene::node::Node;
use kengine::scene::physics::{
    BodyAction, Collider, ColliderShape, RigidBody, RigidBodyDesc, RigidBodyType,
};
use kengine::scene::skin::AnimationPlayer;
use kengine::scene::sync::RayHit;
use kengine::script::host::{Host, Seat, Signal};
use kengine::script::input::{ActionState, AxisState, Input};
use kengine::script::roster::InstanceId;
use kengine::script::runtime::{ScriptRuntime, ScriptShelf};
use kengine::script::source::Script;

fn single(value: f32) -> Real {
    Real::from_bits(value.to_bits())
}

fn float(value: Real) -> f32 {
    f32::from_bits(value.bits)
}

fn vector(x: f32, y: f32, z: f32) -> Vec3 {
    Vec3::new(single(x), single(y), single(z))
}

fn value_of(signal: &Signal) -> f64 {
    f64::from_bits(signal.value.bits)
}

// What the engine cannot do by itself: arithmetic, the solver, and making nodes.

type Call = fn(&mut Host, &[f64]) -> JsValue;

fn numbers(args: &[JsValue], context: &mut Context) -> JsResult<Vec<f64>> {
    args.iter().map(|value| value.to_number(context)).collect()
}

fn with_host<R>(context: &mut Context, run: impl FnOnce(&mut Host) -> R) -> Option<R> {
    let mut host = context.remove_data::<Seat>()?.into_host();
    let result = run(&mut host);
    context.insert_data(Seat::new(host));
    Some(result)
}

fn id(args: &[f64]) -> Double {
    Double::from_bits(args[0].to_bits())
}

fn rotate_y(host: &mut Host, args: &[f64]) -> JsValue {
    let angle = args[1] as f32;
    if let Some(transform) = host.transform_of(id(args)) {
        let [x, y, z, w] = [
            transform.rotation.x,
            transform.rotation.y,
            transform.rotation.z,
            transform.rotation.w,
        ]
        .map(float);
        let (s, c) = (angle / 2.0).sin_cos();
        let turned = [x * c - z * s, y * c + w * s, z * c + x * s, w * c - y * s].map(single);
        let [x, y, z, w] = turned;
        host.rotate_y(id(args), single(angle), Quat { x, y, z, w });
    }
    JsValue::undefined()
}

fn burst(host: &mut Host, args: &[f64]) -> JsValue {
    if let Some(system) = host.particles_of(id(args)) {
        let alive = system.alive + args[1].max(0.0) as u32;
        host.burst_particles(id(args), ParticleSystem { alive, ..system });
    }
    JsValue::undefined()
}

/// A ray straight up or down, against boxes.
fn raycast(host: &mut Host, args: &[f64]) -> JsValue {
    let mut best: Option<RayHit> = None;
    if let Some(scene) = &host.scene {
        let world = scene.physics();
        for handle in world.colliders.handles() {
            let record = world.colliders.try_borrow(handle).unwrap();
            let ColliderShape::Cuboid { half_extents } = record.desc.shape else {
                continue;
            };
            let body = record.parent.map(|body| world.bodies.try_borrow(body.raw).unwrap());
            let base = body.map_or(0.0, |body| float(body.pose.position.y));
            let top = base + float(record.desc.position.y) + float(half_extents.y);
            let distance = args[1] as f32 - top;
            if args[4] < 0.0 && distance >= 0.0 && distance as f64 <= args[6] {
                best = Some(RayHit {
                    collider_user_data: record.user_data,
                    body_user_data: body.map_or(0, |body| body.user_data),
                    point: vector(args[0] as f32, top, args[2] as f32),
                    normal: vector(0.0, 1.0, 0.0),
                    distance: single(distance),
                });
            }
        }
    }
    let at = |i: usize| vector(args[i] as f32, args[i + 1] as f32, args[i + 2] as f32);
    match host.raycast(at(0), at(3), best) {
        Some(hit) => JsValue::from(JsString::from(
            [
                f64::from_bits(hit.node.bits),
                float(hit.point.x) as f64,
                float(hit.point.y) as f64,
                float(hit.point.z) as f64,
                float(hit.normal.x) as f64,
                float(hit.normal.y) as f64,
                float(hit.normal.z) as f64,
                float(hit.distance) as f64,
            ]
            .map(|part| format!("{part}"))
            .join(",")
            .as_str(),
        )),
        None => JsValue::null(),
    }
}

const UNPACK: &str = "
const cast = __k.raycast;
__k.raycast = (...args) => {
    const hit = cast(...args);
    if (hit === null) return null;
    const [node, px, py, pz, nx, ny, nz, distance] = hit.split(',').map(Number);
    return { node, px, py, pz, nx, ny, nz, distance };
};
";

fn offer(runtime: &mut ScriptRuntime, name: &str, call: Call) {
    let function = NativeFunction::from_copy_closure(move |_, args, context| {
        let args = numbers(args, context)?;
        Ok(with_host(context, |host| call(host, &args)).unwrap_or(JsValue::null()))
    });
    put(runtime, name, function);
}

fn put(runtime: &mut ScriptRuntime, name: &str, function: NativeFunction) {
    let context = runtime.context_mut();
    let bridge = context.global_object().get(JsString::from("__k"), context).unwrap();
    let function = function.to_js_function(context.realm());
    bridge.as_object().unwrap().set(JsString::from(name), function, true, context).unwrap();
}

fn runtime() -> ScriptRuntime {
    let mut runtime = ScriptRuntime::new();
    offer(&mut runtime, "rotateY", rotate_y);
    offer(&mut runtime, "burstParticles", burst);
    offer(&mut runtime, "raycast", raycast);
    let source = boa_engine::Source::from_bytes(UNPACK);
    runtime.context_mut().eval(source).unwrap();
    offer_prototypes(&mut runtime, &[]);
    runtime
}

type Prototypes = &'static [(&'static str, fn() -> Node)];

fn offer_prototypes(runtime: &mut ScriptRuntime, prototypes: Prototypes) {
    for (place, (name, _)) in prototypes.iter().enumerate() {
        assert_eq!(runtime.register_prototype(name), place);
    }
    let function = NativeFunction::from_copy_closure(move |_, args, context| {
        let name = args[0].to_string(context)?.to_std_string_escaped();
        let at = numbers(&args[1..], context)?;
        let at = vector(at[0] as f32, at[1] as f32, at[2] as f32);
        let made = with_host(context, |host| match host.wanted_prototype(&name, at) {
            Some(place) => host.spawn(&name, at, prototypes[place].1()),
            None => Double::minus_one(),
        });
        let made = made.unwrap_or(Double::minus_one());
        Ok(JsValue::from(f64::from_bits(made.bits)))
    });
    put(runtime, "spawn", function);
}

// The frame.

/// Works out where everything is; nothing is turned here.
fn settle(scene: &mut Scene) {
    let order = scene.update();
    let places = order
        .iter()
        .map(|handle| {
            let mut at = [0.0f32; 3];
            for transform in scene.world_chain(*handle) {
                let step = transform.position;
                for (part, step) in at.iter_mut().zip([step.x, step.y, step.z]) {
                    *part += float(step);
                }
            }
            let [x, y, z] = at.map(single);
            Mat4 { w_axis: Vec4 { x, y, z, w: single(1.0) }, ..Mat4::identity() }
        })
        .collect();
    scene.store_transforms(&order, &places);
}

fn enter_physics(scene: &mut Scene) {
    let pose = |handle: &Handle| {
        let transform = scene.try_get(*handle).unwrap().transform;
        Pose { position: transform.position, rotation: transform.rotation }
    };
    let bodies = scene.index.rigid_bodies.iter().map(pose).collect();
    let still = Pose { position: Vec3::zero(), rotation: Quat::identity() };
    let colliders = scene.index.colliders.iter().map(|_| still).collect();
    scene.sync_bodies_to_physics(&bodies);
    scene.sync_colliders_to_physics(&colliders);
    scene.finish_sync();
}

fn shelf(scripts: &[(&str, &str)]) -> ScriptShelf {
    let mut shelf = ScriptShelf::new();
    for (path, source) in scripts {
        shelf.add(path, Script::new(source, path));
    }
    shelf
}

fn process(
    runtime: &mut ScriptRuntime,
    scene: &mut Scene,
    shelf: &ScriptShelf,
    frames: usize,
    dt: f32,
) -> Vec<Signal> {
    let mut all = Vec::new();
    for frame in 0..frames {
        settle(scene);
        let elapsed = single(frame as f32 * dt);
        all.extend(runtime.process(scene, &mut Input::new(), shelf, single(dt), elapsed));
    }
    all
}

fn tick(
    runtime: &mut ScriptRuntime,
    scene: &mut Scene,
    input: &mut Input,
    shelf: &ScriptShelf,
) -> Vec<String> {
    settle(scene);
    runtime
        .process(scene, input, shelf, single(1.0 / 60.0), single(0.0))
        .into_iter()
        .map(|signal| signal.name)
        .collect()
}

/// Runs a script on a node for one frame, and gives what it sends.
fn run_on(node: Node, source: &str) -> (Scene, Handle, Vec<Signal>) {
    let mut runtime = runtime();
    let mut scene = Scene::new();
    let handle = scene.add_node(node.with_script("s.js"));
    let signals = process(&mut runtime, &mut scene, &shelf(&[("s.js", source)]), 1, 0.016);
    (scene, handle, signals)
}

fn names(signals: &[Signal]) -> Vec<&str> {
    signals.iter().map(|signal| signal.name.as_str()).collect()
}

fn position(scene: &Scene, handle: Handle) -> Vec3 {
    scene.try_get(handle).unwrap().transform.position
}

// Reading and writing.

#[test]
fn writing_a_single_axis_writes_through_to_the_scene() {
    let shelf = shelf(&[("a.js", "return { _process(dt) { self.position.y += 1.0; } };")]);
    let mut runtime = runtime();
    let mut scene = Scene::new();
    let node = scene.add_node(Node::new("mover").with_script("a.js"));

    process(&mut runtime, &mut scene, &shelf, 3, 0.016);

    assert_eq!(position(&scene, node), vector(0.0, 3.0, 0.0));
}

#[test]
fn assigning_a_whole_vector_works_too() {
    let (scene, node, _) = run_on(
        Node::new("mover"),
        "return { _process() { self.position = new Vector3(1, 2, 3); } };",
    );

    assert_eq!(position(&scene, node), vector(1.0, 2.0, 3.0));
}

#[test]
fn reads_see_writes_made_earlier_in_the_same_callback() {
    let (_, _, signals) = run_on(
        Node::new("n"),
        "return { _process() {
            self.position.x = 5;
            emit('read_back', self.position.x);
        } };",
    );

    assert_eq!(signals.len(), 1);
    assert_eq!(value_of(&signals[0]), 5.0);
}

#[test]
fn scale_and_visibility_round_trip() {
    let (scene, node, _) = run_on(
        Node::new("n"),
        "return { _process() {
            self.scale = new Vector3(2, 2, 2);
            self.scale.y = 5;
            self.visible = false;
        } };",
    );

    assert_eq!(scene.try_get(node).unwrap().transform.scale, vector(2.0, 5.0, 2.0));
    assert!(!scene.try_get(node).unwrap().visible);
}

#[test]
fn the_node_name_is_readable() {
    let (_, _, signals) =
        run_on(Node::new("hero"), "return { _ready() { emit(self.name, 1); } };");

    assert_eq!(signals[0].name, "hero");
}

#[test]
fn global_position_accounts_for_the_parent() {
    let shelf =
        shelf(&[("a.js", "return { _process() { emit('y', self.globalPosition.y); } };")]);
    let mut runtime = runtime();
    let mut scene = Scene::new();
    let parent = scene.add_node(Node::new("parent").with_position(vector(0.0, 10.0, 0.0)));
    scene.add_node_with_parent(
        Node::new("child").with_position(vector(0.0, 3.0, 0.0)).with_script("a.js"),
        parent,
    );

    let signals = process(&mut runtime, &mut scene, &shelf, 1, 0.016);

    assert!((value_of(&signals[0]) - 13.0).abs() < 1e-4);
}

#[test]
fn get_node_returns_a_usable_object() {
    let shelf = shelf(&[(
        "a.js",
        "return { _process() {
            const target = getNode('target');
            target.position.x = 7;
        } };",
    )]);
    let mut runtime = runtime();
    let mut scene = Scene::new();
    scene.add_node(Node::new("driver").with_script("a.js"));
    let target = scene.add_node(Node::new("target"));

    process(&mut runtime, &mut scene, &shelf, 1, 0.016);

    assert_eq!(position(&scene, target).x, single(7.0));
}

#[test]
fn a_missing_node_comes_back_as_null() {
    let (_, _, signals) = run_on(
        Node::new("n"),
        "return { _process() { emit('missing', getNode('nobody') === null ? 1 : 0); } };",
    );

    assert_eq!(value_of(&signals[0]), 1.0);
}

#[test]
fn queue_free_removes_the_node_immediately() {
    let shelf = shelf(&[(
        "a.js",
        "return { _process() {
            const victim = getNode('victim');
            if (victim) {
                victim.queueFree();
                emit('still_valid', victim.valid ? 1 : 0);
            }
        } };",
    )]);
    let mut runtime = runtime();
    let mut scene = Scene::new();
    scene.add_node(Node::new("killer").with_script("a.js"));
    let victim = scene.add_node(Node::new("victim"));

    let signals = process(&mut runtime, &mut scene, &shelf, 1, 0.016);

    assert!(scene.try_get(victim).is_none());
    assert_eq!(value_of(&signals[0]), 0.0);
}

// At once.

#[test]
fn raycast_returns_a_result_the_script_can_act_on_immediately() {
    let shelf = shelf(&[(
        "a.js",
        "return { _process() {
            const hit = raycast(new Vector3(0, 5, 0), Vector3.DOWN(), 100.0);
            if (hit === null) { emit('miss', 1); return; }
            emit('hit_distance', hit.distance);
            emit(hit.node.name);
            self.position = hit.position.add(Vector3.UP());
        } };",
    )]);
    let mut runtime = runtime();
    let mut scene = Scene::new();
    scene.add_node(
        Node::new("ground")
            .with_position(vector(0.0, -0.5, 0.0))
            .with_rigid_body(RigidBody::fixed())
            .with_collider(Collider::cuboid(vector(20.0, 0.5, 20.0))),
    );
    let probe = scene.add_node(Node::new("probe").with_script("a.js"));
    scene.update();
    enter_physics(&mut scene);

    let signals = process(&mut runtime, &mut scene, &shelf, 1, 0.016);

    assert_eq!(names(&signals), ["hit_distance", "ground"]);
    assert!((value_of(&signals[0]) - 5.0).abs() < 0.05);
    assert!((float(position(&scene, probe).y) - 1.0).abs() < 0.05);
}

#[test]
fn a_raycast_that_hits_nothing_returns_null() {
    let (_, _, signals) = run_on(
        Node::new("n"),
        "return { _process() {
            emit('miss', raycast(new Vector3(0, 500, 0), Vector3.UP(), 10.0) === null ? 1 : 0);
        } };",
    );

    assert_eq!(value_of(&signals[0]), 1.0);
}

#[test]
fn a_script_can_push_a_rigid_body() {
    let shelf = shelf(&[(
        "a.js",
        "return { _physics_process(dt) { self.applyImpulse(Vector3.UP().mul(10)); } };",
    )]);
    let mut runtime = runtime();
    let mut scene = Scene::new();
    let ball = scene.add_node(
        Node::new("ball")
            .with_rigid_body(RigidBody::new(RigidBodyDesc {
                gravity_scale: single(0.0),
                ..RigidBodyDesc::of_type(RigidBodyType::Dynamic)
            }))
            .with_collider(Collider::ball(single(0.5)))
            .with_script("a.js"),
    );

    process(&mut runtime, &mut scene, &shelf, 1, 0.016);
    let step = single(1.0 / 60.0);
    runtime.physics_process(&mut scene, &mut Input::new(), step, single(0.0));
    enter_physics(&mut scene);

    let native = scene.try_get(ball).unwrap().rigid_body().unwrap().native().unwrap();
    let record = scene.physics().bodies.try_borrow(native.raw).unwrap();
    assert_eq!(record.inbox, [BodyAction::ApplyImpulse(vector(0.0, 10.0, 0.0))]);
}

// Vectors.

#[test]
fn vector_math_behaves() {
    let (_, _, signals) = run_on(
        Node::new("n"),
        "return { _process() {
            const a = new Vector3(3, 4, 0);
            emit('len', a.length());
            emit('dot', a.dot(new Vector3(1, 0, 0)));
            emit('cross', a.cross(new Vector3(0, 0, 1)).y);
            emit('norm', a.normalized().length());
            emit('lerp', new Vector3(0,0,0).lerp(a, 0.5).x);
        } };",
    );
    let value =
        |name: &str| value_of(signals.iter().find(|signal| signal.name == name).unwrap());

    assert!((value("len") - 5.0).abs() < 1e-9);
    assert!((value("dot") - 3.0).abs() < 1e-9);
    assert!((value("cross") - (-3.0)).abs() < 1e-9);
    assert!((value("norm") - 1.0).abs() < 1e-9);
    assert!((value("lerp") - 1.5).abs() < 1e-9);
}

#[test]
fn normalising_a_zero_vector_does_not_produce_nan() {
    let (_, _, signals) = run_on(
        Node::new("n"),
        "return { _process() { emit('x', new Vector3(0,0,0).normalized().x); } };",
    );

    assert_eq!(value_of(&signals[0]), 0.0);
}

#[test]
fn a_nan_never_reaches_the_scene() {
    let (scene, node, _) = run_on(
        Node::new("n"),
        "return { _process() {
            self.position.x = 0/0;
            self.position = new Vector3(1/0, 0, 0);
        } };",
    );

    assert_eq!(position(&scene, node), Vec3::zero());
}

#[test]
fn script_driven_motion_is_deterministic() {
    fn run() -> (Vec3, Quat) {
        let shelf = shelf(&[(
            "a.js",
            "return { _process(dt) { self.position.x += dt * 2.0; self.rotateY(dt); } };",
        )]);
        let mut runtime = runtime();
        let mut scene = Scene::new();
        let node = scene.add_node(Node::new("n").with_script("a.js"));
        process(&mut runtime, &mut scene, &shelf, 30, 1.0 / 60.0);
        let transform = scene.try_get(node).unwrap().transform;
        (transform.position, transform.rotation)
    }

    let (place, rotation) = run();
    assert_eq!((place, rotation), run());
    assert!((float(place.x) - 1.0).abs() < 1e-4);
    assert!((float(rotation.y) - 0.25f32.sin()).abs() < 1e-4);
}

// Particles.

fn sparks(rate: f32) -> Node {
    Node::new("n").with_particles(ParticleSystem {
        playing: true,
        rate: single(rate),
        alive: 0,
        scene_collision: false,
    })
}

fn particles(scene: &Scene, handle: Handle) -> ParticleSystem {
    *scene.try_get(handle).unwrap().particles().unwrap()
}

#[test]
fn a_script_can_stop_and_start_particles() {
    let (scene, node, _) = run_on(sparks(10.0), "return { _ready() { self.stopParticles(); } };");
    assert!(!particles(&scene, node).playing);
}

#[test]
fn a_script_can_change_the_emission_rate() {
    let (scene, node, _) =
        run_on(sparks(10.0), "return { _ready() { self.emissionRate = 250; } };");
    assert_eq!(particles(&scene, node).rate, single(250.0));
}

#[test]
fn a_negative_emission_rate_is_clamped() {
    let (scene, node, _) =
        run_on(sparks(10.0), "return { _ready() { self.emissionRate = -100; } };");
    assert_eq!(particles(&scene, node).rate, single(0.0));
}

#[test]
fn a_script_can_burst_particles() {
    let (scene, node, _) = run_on(sparks(0.0), "return { _ready() { self.burst(50); } };");
    assert_eq!(particles(&scene, node).alive, 50);
}

#[test]
fn a_script_can_read_the_particle_count() {
    let (_, _, signals) = run_on(
        sparks(0.0),
        r#"
        return {
            _ready() {
                self.burst(7);
                emit("n" + self.particleCount);
            },
        };
        "#,
    );
    assert_eq!(names(&signals), ["n7"]);
}

#[test]
fn particle_calls_on_a_node_without_particles_do_nothing() {
    let (_, _, signals) = run_on(
        Node::new("n"),
        r#"
        return {
            _ready() {
                self.burst(10);
                self.stopParticles();
                self.emissionRate = 5;
                emit("survived:" + self.particleCount);
            },
        };
        "#,
    );
    assert_eq!(names(&signals), ["survived:0"]);
}

#[test]
fn the_new_api_works_on_other_nodes_not_just_self() {
    let shelf = shelf(&[(
        "s.js",
        r#"
        return {
            _ready() {
                const fx = getNode("fx");
                fx.burst(12);
                emit("n" + fx.particleCount);
            },
        };
        "#,
    )]);
    let mut scene = Scene::new();
    scene.add_node(Node::new("n").with_script("s.js"));
    let mut fx = sparks(0.0);
    fx.name = "fx".to_string();
    scene.add_node(fx);

    let mut runtime = runtime();
    assert_eq!(tick(&mut runtime, &mut scene, &mut Input::new(), &shelf), ["n12"]);
}

// Sounds.

#[test]
fn a_script_can_set_volume_and_pitch() {
    let (scene, node, _) = run_on(
        Node::new("n").with_sound(SoundSource::new(1)),
        "return { _ready() { self.volume = 0.25; self.pitch = 1.5; } };",
    );

    let sound = scene.try_get(node).unwrap().sound().unwrap();
    assert_eq!(sound.gain, single(0.25));
    assert_eq!(sound.pitch, single(1.5));
}

#[test]
fn a_zero_pitch_is_clamped() {
    let (scene, node, _) = run_on(
        Node::new("n").with_sound(SoundSource::new(1)),
        "return { _ready() { self.pitch = 0; } };",
    );
    assert!(float(scene.try_get(node).unwrap().sound().unwrap().pitch) > 0.0);
}

#[test]
fn a_script_can_set_looping() {
    let (scene, node, _) = run_on(
        Node::new("n").with_sound(SoundSource::new(1)),
        "return { _ready() { self.soundLooping = true; } };",
    );
    assert!(scene.try_get(node).unwrap().sound().unwrap().looping);
}

#[test]
fn a_negative_volume_is_clamped() {
    let (scene, node, _) = run_on(
        Node::new("n").with_sound(SoundSource::new(1)),
        "return { _ready() { self.volume = -2; } };",
    );
    assert_eq!(scene.try_get(node).unwrap().sound().unwrap().gain, single(0.0));
}

// Animations.

#[test]
fn playing_a_missing_clip_returns_false_instead_of_throwing() {
    let (_, _, signals) = run_on(
        Node::new("n"),
        r#"
        return {
            _ready() {
                const ok = self.playAnimation("不存在的剪辑");
                emit(ok === false ? "false" : "other");
            },
        };
        "#,
    );
    assert_eq!(names(&signals), ["false"]);
}

#[test]
fn a_clip_that_there_is_starts() {
    let player = AnimationPlayer::new(vec!["Walk".to_string()], Vec::new());
    let (scene, node, signals) = run_on(
        Node::new("n").with_animator(player),
        "return { _ready() { emit('' + self.playAnimation('Walk')); } };",
    );

    assert_eq!(names(&signals), ["true"]);
    assert_eq!(scene.try_get(node).unwrap().animator().unwrap().playing, [0]);
}

#[test]
fn half_a_character_in_the_name_of_a_clip_is_replaced() {
    let player = AnimationPlayer::new(vec!["W\u{fffd}".to_string()], Vec::new());
    let (_, _, signals) = run_on(
        Node::new("n").with_animator(player),
        "return { _ready() { emit('' + self.playAnimation('W\\ud800')); } };",
    );

    assert_eq!(names(&signals), ["true"]);
}

#[test]
fn a_script_cannot_change_the_numbers_that_others_read() {
    let (_, _, signals) = run_on(
        Node::new("n").with_position(vector(0.5, 0.0, 0.0)),
        r#"
        globalThis.__real = () => 7;
        globalThis.Float32Array = null;
        globalThis.DataView = null;
        globalThis.ArrayBuffer = null;
        return { _ready() { emit("x:" + self.position.x); } };
        "#,
    );

    assert_eq!(names(&signals), ["x:0.5"]);
}

#[test]
fn animation_calls_on_a_node_without_an_animator_do_nothing() {
    let (_, _, signals) = run_on(
        Node::new("n"),
        r#"
        return {
            _ready() {
                self.stopAnimation();
                self.animationSpeed = 2;
                emit("playing:" + self.animationPlaying);
            },
        };
        "#,
    );
    assert_eq!(names(&signals), ["playing:false"]);
}

// Input.

/// Jump is held and the way is right.
fn player(just_pressed: bool) -> Input {
    let mut input = Input::new();
    input.actions.push(ActionState {
        name: "jump".to_string(),
        pressed: true,
        just_pressed,
        just_released: false,
    });
    input.axes.push(AxisState { name: "move_x".to_string(), value: single(1.0) });
    input
}

#[test]
fn a_script_reads_actions_and_axes() {
    let shelf = shelf(&[(
        "s.js",
        r#"
        return {
            _process() {
                if (Input.pressed("jump")) emit("held");
                if (Input.justPressed("jump")) emit("fresh");
                self.position.x = Input.axis("move_x");
            },
        };
        "#,
    )]);
    let mut runtime = runtime();
    let mut scene = Scene::new();
    let node = scene.add_node(Node::new("n").with_script("s.js"));

    let first = tick(&mut runtime, &mut scene, &mut player(true), &shelf);
    assert_eq!(first, ["held", "fresh"]);
    assert_eq!(position(&scene, node).x, single(1.0));

    let second = tick(&mut runtime, &mut scene, &mut player(false), &shelf);
    assert_eq!(second, ["held"]);
}

#[test]
fn an_unbound_action_is_simply_not_pressed() {
    let (_, _, signals) = run_on(
        Node::new("n"),
        r#"return { _process() { if (Input.pressed("nope")) emit("wrong"); } };"#,
    );
    assert!(signals.is_empty());
}

#[test]
fn the_mouse_and_the_time_can_be_asked_for() {
    let shelf = shelf(&[(
        "s.js",
        r#"
        return {
            _process() {
                emit("" + Input.mousePressed("LEFT") + Input.mousePressed("leftt"));
                emit("" + Input.mousePosition + " " + Input.mouseDelta);
                emit("dt", Time.delta);
            },
        };
        "#,
    )]);
    let mut runtime = runtime();
    let mut scene = Scene::new();
    scene.add_node(Node::new("n").with_script("s.js"));
    let mut input = Input::new();
    input.left.pressed = true;
    input.moved.x = single(2.5);

    settle(&mut scene);
    let signals = runtime.process(&mut scene, &mut input, &shelf, single(0.25), single(0.0));

    assert_eq!(names(&signals), ["truefalse", "null 2.5,0", "dt"]);
    assert_eq!(value_of(&signals[2]), 0.25);
}

// Making nodes.

fn spawning(prototypes: Prototypes, scripts: &[(&str, &str)]) -> (ScriptRuntime, ScriptShelf, Scene) {
    let mut runtime = runtime();
    offer_prototypes(&mut runtime, prototypes);
    let mut scene = Scene::new();
    scene.add_node(Node::new("n").with_script("s.js"));
    (runtime, shelf(scripts), scene)
}

#[test]
fn a_script_spawns_a_registered_prototype() {
    let (mut runtime, shelf, mut scene) = spawning(
        &[("Enemy", || Node::new("Enemy"))],
        &[(
            "s.js",
            r#"
            return {
                _ready() {
                    const e = spawn("Enemy", new Vector3(1, 2, 3));
                    emit(e === null ? "null" : e.name);
                },
            };
            "#,
        )],
    );

    let signals = tick(&mut runtime, &mut scene, &mut Input::new(), &shelf);

    assert_eq!(signals, ["Enemy"]);
    let spawned = scene.find_by_name("Enemy").expect("the node");
    assert_eq!(position(&scene, spawned), vector(1.0, 2.0, 3.0));
}

#[test]
fn a_spawned_node_runs_its_own_script_from_the_next_frame() {
    let (mut runtime, shelf, mut scene) = spawning(
        &[("Bullet", || Node::new("Bullet").with_script("bullet.js"))],
        &[
            ("s.js", r#"return { _ready() { spawn("Bullet", Vector3.ZERO()); } };"#),
            ("bullet.js", r#"return { _ready() { emit("bullet-ready"); } };"#),
        ],
    );

    let first = tick(&mut runtime, &mut scene, &mut Input::new(), &shelf);
    assert!(first.is_empty());

    let second = tick(&mut runtime, &mut scene, &mut Input::new(), &shelf);
    assert_eq!(second, ["bullet-ready"]);
}

#[test]
fn spawning_an_unknown_prototype_returns_null() {
    let (_, _, signals) = run_on(
        Node::new("n"),
        r#"
        return {
            _ready() {
                const x = spawn("Typo", Vector3.ZERO());
                emit(x === null ? "null" : "something");
            },
        };
        "#,
    );
    assert_eq!(names(&signals), ["null"]);
}

#[test]
fn a_runaway_spawn_loop_is_capped_instead_of_eating_all_memory() {
    let (mut runtime, shelf, mut scene) = spawning(
        &[("Blob", || Node::new("Blob"))],
        &[(
            "s.js",
            r#"
            return {
                _ready() {
                    let made = 0;
                    for (let i = 0; i < 5000; i++) {
                        if (spawn("Blob", Vector3.ZERO()) !== null) made++;
                    }
                    emit("made", made);
                },
            };
            "#,
        )],
    );

    let signals = process(&mut runtime, &mut scene, &shelf, 1, 1.0 / 60.0);

    assert_eq!(value_of(&signals[0]), ScriptRuntime::MAX_SPAWNS_PER_TICK as f64);
}

#[test]
fn the_spawn_budget_refills_every_tick() {
    let (mut runtime, shelf, mut scene) = spawning(
        &[("Blob", || Node::new("Blob"))],
        &[("s.js", r#"return { _process() { spawn("Blob", Vector3.ZERO()); } };"#)],
    );

    for _ in 0..3 {
        tick(&mut runtime, &mut scene, &mut Input::new(), &shelf);
    }

    let blobs = scene
        .nodes()
        .handles()
        .iter()
        .filter(|handle| scene.try_get(**handle).unwrap().name == "Blob")
        .count();
    assert_eq!(blobs, 3);
}

// Scripts that call each other.

#[test]
fn one_script_calls_a_method_on_another() {
    let shelf = shelf(&[
        ("player.js", r#"return { _ready() { getNode("Bag").script.add(3); } };"#),
        (
            "bag.js",
            r#"
            return {
                items: 0,
                add(n) { this.items += n; emit("items", this.items); },
            };
            "#,
        ),
    ]);
    let mut runtime = runtime();
    let mut scene = Scene::new();
    scene.add_node(Node::new("Bag").with_script("bag.js"));
    scene.add_node(Node::new("Player").with_script("player.js"));

    let signals = process(&mut runtime, &mut scene, &shelf, 1, 1.0 / 60.0);

    assert_eq!(names(&signals), ["items"]);
    assert_eq!(value_of(&signals[0]), 3.0);
}

#[test]
fn a_node_without_a_script_has_none() {
    let shelf = shelf(&[(
        "s.js",
        r#"
        return {
            _ready() {
                emit(getNode("Plain").script === null ? "null" : "something");
            },
        };
        "#,
    )]);
    let mut runtime = runtime();
    let mut scene = Scene::new();
    scene.add_node(Node::new("Plain"));
    scene.add_node(Node::new("n").with_script("s.js"));

    assert_eq!(tick(&mut runtime, &mut scene, &mut Input::new(), &shelf), ["null"]);
}

#[test]
fn a_dead_nodes_script_is_no_longer_reachable() {
    let shelf = shelf(&[
        ("ghost.js", "return { alive() { return true; } };"),
        (
            "watcher.js",
            r#"
            let target = null;
            return {
                _ready() { target = getNode("Ghost"); },
                _process() {
                    if (target === null) return;
                    emit(target.script === null ? "gone" : "still-there");
                },
            };
            "#,
        ),
    ]);
    let mut runtime = runtime();
    let mut scene = Scene::new();
    let ghost = scene.add_node(Node::new("Ghost").with_script("ghost.js"));
    scene.add_node(Node::new("Watcher").with_script("watcher.js"));

    let first = tick(&mut runtime, &mut scene, &mut Input::new(), &shelf);
    assert_eq!(first, ["still-there"]);

    scene.remove_node(ghost);
    tick(&mut runtime, &mut scene, &mut Input::new(), &shelf);
    let after = tick(&mut runtime, &mut scene, &mut Input::new(), &shelf);

    assert_eq!(after, ["gone"]);
}

// Expressions.

fn idle() -> (ScriptRuntime, ScriptShelf, Scene, Handle) {
    let mut scene = Scene::new();
    let node = scene.add_node(Node::new("n").with_script("s.js"));
    (runtime(), shelf(&[("s.js", "return { _process(dt) {} };")]), scene, node)
}

fn instance(scene: &Scene, node: Handle) -> InstanceId {
    InstanceId(scene.try_get(node).unwrap().script().unwrap().instance)
}

#[test]
fn the_expression_sees_the_scene() {
    let (mut runtime, shelf, mut scene, node) = idle();
    scene.try_get_mut(node).unwrap().transform.position.y = single(3.5);
    tick(&mut runtime, &mut scene, &mut Input::new(), &shelf);
    let id = instance(&scene, node);

    assert_eq!(runtime.eval_in(id, &mut scene, "self.name").unwrap(), "n");
    assert_eq!(runtime.eval_in(id, &mut scene, "self.position.y").unwrap(), "3.5");
}

#[test]
fn an_expression_can_write_to_the_scene() {
    let (mut runtime, shelf, mut scene, node) = idle();
    tick(&mut runtime, &mut scene, &mut Input::new(), &shelf);
    let id = instance(&scene, node);

    runtime.eval_in(id, &mut scene, "self.position = new Vector3(1, 2, 3)").unwrap();

    assert_eq!(position(&scene, node).y, single(2.0));
}

#[test]
fn self_is_not_bound_while_the_factory_runs() {
    let (_, _, signals) = run_on(
        Node::new("n"),
        r#"
        const nameAtTopLevel = self.name;
        const validAtTopLevel = self.valid;
        return {
            _ready() {
                emit("top-name:" + nameAtTopLevel);
                emit("top-valid:" + validAtTopLevel);
                emit("ready-valid:" + self.valid);
            },
        };
        "#,
    );

    assert_eq!(names(&signals), ["top-name:null", "top-valid:false", "ready-valid:true"]);
}

// What refused calls are answered.

#[test]
fn what_is_not_there_is_minus_one_or_null() {
    let (_, _, signals) = run_on(
        Node::new("n"),
        "return { _process() {
            emit('find', __k.find('nobody') === -1 ? 1 : 0);
            emit('found', __k.find('n') === __k.selfId() ? 1 : 0);
            emit('name', __k.getName(99) === null ? 1 : 0);
            emit('own', __k.getName(__k.selfId()) === 'n' ? 1 : 0);
            emit('valid', __k.isValid(-1) === false ? 1 : 0);
            emit('mouse', __k.mousePosition() === null ? 1 : 0);
        } };",
    );

    assert_eq!(names(&signals), ["find", "found", "name", "own", "valid", "mouse"]);
    assert!(signals.iter().all(|signal| value_of(signal) == 1.0));
}

#[test]
fn writing_is_answered_with_undefined() {
    let (scene, node, signals) = run_on(
        Node::new("n"),
        "return { _process() {
            const me = __k.selfId();
            emit('fit', __k.setVec(me, 0, 1, 2, 3) === undefined ? 1 : 0);
            emit('nan', __k.setVec(me, 0, 0/0, 2, 3) === undefined ? 1 : 0);
            emit('infinite', __k.setComponent(me, 0, 0, 1/0) === undefined ? 1 : 0);
            emit('gone', __k.setVisible(99, false) === undefined ? 1 : 0);
            emit('push', __k.applyImpulse(me, 0/0, 0, 0) === undefined ? 1 : 0);
        } };",
    );

    assert_eq!(names(&signals), ["fit", "nan", "infinite", "gone", "push"]);
    assert!(signals.iter().all(|signal| value_of(signal) == 1.0));
    assert_eq!(position(&scene, node), vector(1.0, 2.0, 3.0));
    assert!(scene.try_get(node).unwrap().visible);
}

#[test]
fn the_functions_have_names_and_lengths() {
    let (_, _, signals) = run_on(
        Node::new("n"),
        "return { _process() {
            emit('name', __k.setVec.name === 'setVec' ? 1 : 0);
            emit('length', __k.setVec.length);
            emit('none', __k.time.length);
            emit('hidden', Object.keys(__k).includes('setVec') ? 0 : 1);
            emit('there', Object.getOwnPropertyNames(__k).includes('setVec') ? 1 : 0);
            let made = 0;
            try { new __k.time(); } catch (e) { made = 1; }
            emit('no constructor', made);
        } };",
    );

    let values: Vec<f64> = signals.iter().map(value_of).collect();
    assert_eq!(names(&signals), ["name", "length", "none", "hidden", "there", "no constructor"]);
    assert_eq!(values, [1.0, 5.0, 0.0, 1.0, 1.0, 1.0]);
}
