//! Components and nodes by themselves.

use kengine::numbers::{Aabb, Double, Mat4, Quat, Real, Transform, Vec3};
use kengine::pool::{Handle, Pool};
use kengine::scene::audio::SoundSource;
use kengine::scene::components::{Camera, Light, LightKind, ParticleSystem, Spatial, Terrain};
use kengine::scene::graph::Scene;
use kengine::scene::mesh::{BlendMode, Material, Mesh};
use kengine::scene::node::Node;
use kengine::scene::physics::{
    BodyAction, Collider, ColliderShape, Joint, JointDesc, JointKind, RigidBody, RigidBodyType,
};
use kengine::scene::ragdoll::{Ragdoll, RagdollLimb};
use kengine::scene::script::ScriptSlot;
use kengine::scene::skin::{AnimationPlayer, Skin};

fn single(value: f32) -> Real {
    Real::from_bits(value.to_bits())
}

fn vector(x: f32, y: f32, z: f32) -> Vec3 {
    Vec3::new(single(x), single(y), single(z))
}

// Numbers.

#[test]
fn numbers_compare_as_numbers_do() {
    let samples = [f32::NEG_INFINITY, -2.5, -0.0, 0.0, 1e-40, 1.0, 3.5, f32::INFINITY, f32::NAN];
    for a in samples {
        for b in samples {
            let (x, y) = (single(a), single(b));
            assert_eq!(x.is_less(y), a < b, "{a} {b}");
            assert_eq!(x.is_at_most(y), a <= b, "{a} {b}");
            assert_eq!(x.same_value(y), a == b, "{a} {b}");
            let order = x.total_key().cmp(&y.total_key());
            assert_eq!(order, a.total_cmp(&b), "{a} {b}");
            if !a.is_nan() && !b.is_nan() && a != b {
                assert_eq!(x.max(y), single(a.max(b)));
                assert_eq!(x.min(y), single(a.min(b)));
            }
        }
        assert_eq!(single(a).is_nan(), a.is_nan());
        assert_eq!(single(a).is_finite(), a.is_finite());
    }
    assert_eq!(single(f32::NAN).max(single(2.0)), single(2.0));
    assert_eq!(single(-3.0).abs(), single(3.0));
}

#[test]
fn indices_come_out_of_doubles() {
    let double = |value: f64| Double::from_bits(value.to_bits());
    for (value, expected) in [
        (0.0, Some(0)),
        (-0.0, Some(0)),
        (0.75, Some(0)),
        (1.0, Some(1)),
        (77.9, Some(77)),
        (4294967294.0, Some(4294967294)),
        (4294967295.0, None),
        (-1.0, None),
        (1e30, None),
        (f64::NAN, None),
        (f64::INFINITY, None),
    ] {
        assert_eq!(double(value).to_index(), expected, "{value}");
    }
    for n in [0u32, 1, 2, 3, 1000, 0x8000_0001, 0xffff_fffe] {
        assert_eq!(Double::from_index(n), double(n as f64));
    }
    for (value, count) in [(-5.0, 0), (f64::NAN, 0), (2.5, 2), (1e30, u32::MAX)] {
        assert_eq!(double(value).to_count(), count, "{value}");
    }
}

#[test]
fn boxes_join_and_meet() {
    let unit = Aabb { min: Vec3::zero(), max: Vec3::one() };
    let far = Aabb { min: vector(2.0, 0.0, 0.0), max: vector(3.0, 1.0, 1.0) };
    assert!(Aabb::empty().is_empty());
    assert_eq!(Aabb::empty().join(&unit), unit);
    assert_eq!(unit.join(&far), Aabb { min: Vec3::zero(), max: vector(3.0, 1.0, 1.0) });
    assert!(!unit.intersects(&far));
    assert!(unit.intersects(&Aabb { min: vector(1.0, 1.0, 1.0), max: vector(2.0, 2.0, 2.0) }));
}

// Pools.

#[test]
fn a_freed_place_is_given_out_again_under_another_handle() {
    let mut pool = Pool::new();
    let a = pool.spawn('a');
    let b = pool.spawn('b');
    assert_eq!(pool.free(a), Some('a'));
    assert_eq!(pool.free(a), None);
    let c = pool.spawn('c');

    assert_eq!(c.index, a.index);
    assert!(!pool.is_valid_handle(a));
    assert_eq!(pool.try_borrow(c), Some(&'c'));
    assert_eq!(pool.handles(), [c, b]);
    assert_eq!((pool.alive_count(), pool.get_capacity()), (2, 2));
    assert_eq!(Handle::from_key(c.to_key()), c);
}

// Nodes.

fn camera() -> Camera {
    Camera {
        enabled: true,
        orthographic: false,
        field_of_view: single(1.0),
        near: single(0.1),
        far: single(10.0),
    }
}

fn light() -> Light {
    Light {
        enabled: true,
        cast_shadows: false,
        kind: LightKind::Directional,
        color: Vec3::one(),
        intensity: Real::one(),
        mask: 1,
    }
}

fn ground() -> Terrain {
    Terrain {
        rows: 2,
        cols: 2,
        heights: 1,
        scale: Vec3::one(),
        collider_offset: Vec3::zero(),
    }
}

fn limb() -> RagdollLimb {
    RagdollLimb { bone: Handle::none(), body: Handle::none(), children: Vec::new() }
}

#[test]
fn a_bare_node_has_nothing() {
    let node = Node::new("bare");
    assert_eq!(node.name, "bare");
    assert_eq!(node.transform, Transform::identity());
    assert!(node.visible && node.receives_decals);
    assert!(node.mesh().is_none() && node.light().is_none() && node.camera().is_none());
    assert!(node.children().is_empty() && node.parent().is_none());
    assert_eq!(node.global_transform(), Mat4::identity());
}

#[test]
fn what_is_put_on_a_node_can_be_changed_there() {
    let mut node = Node::new("n");
    node.set_mesh(Mesh::new(3, Vec::new(), Vec::new()));
    node.set_material(Material {
        id: 1,
        revision: 0,
        properties: 0,
        blend_mode: BlendMode::Opaque,
    });
    node.set_light(light());
    node.set_camera(camera());
    node.set_collider(Collider::capsule_y(single(1.0), single(0.5)));
    node.set_ragdoll(Ragdoll::new(limb()));
    node.set_terrain(ground());
    node.set_sound(SoundSource::new(1));
    node.set_script(ScriptSlot::new("a.js"));

    *node.mesh_mut().unwrap() = Mesh::new(4, Vec::new(), Vec::new());
    node.material_mut().unwrap().set_blend_mode(BlendMode::Alpha);
    node.light_mut().unwrap().mask = 2;
    node.camera_mut().unwrap().enabled = false;
    node.collider_mut().unwrap().set_sensor(true);
    node.ragdoll_mut().unwrap().set_active(true);
    node.terrain_mut().unwrap().rows = 9;
    node.script_mut().unwrap().set_path("b.js");

    assert_eq!(node.mesh().unwrap().id(), 4);
    assert_eq!(node.material().unwrap().blend_mode, BlendMode::Alpha);
    assert_eq!(node.light().unwrap().mask, 2);
    assert!(!node.camera().unwrap().enabled);
    assert!(node.collider().unwrap().is_sensor());
    assert!(node.ragdoll().unwrap().is_active());
    assert_eq!(node.terrain().unwrap().rows, 9);
    assert_eq!(node.sound().unwrap().buffer(), 1);
    assert_eq!(node.script().unwrap().path, "b.js");
}

#[test]
fn builders_build() {
    let node = Node::new("n")
        .with_light_mask(6)
        .with_particles(ParticleSystem {
            playing: true,
            rate: single(1.0),
            alive: 0,
            scene_collision: false,
        })
        .with_animator(AnimationPlayer::new(Vec::new(), Vec::new()))
        .with_skin(Skin::new(Vec::new(), Vec::new()))
        .with_ragdoll(Ragdoll::new(limb()))
        .with_joint(Joint::new(
            Handle::none(),
            Handle::none(),
            JointDesc::new(JointKind::Fixed, Vec3::zero(), Vec3::zero()),
        ));
    let mut node = node;
    node.particles_mut().unwrap().playing = false;
    node.animator_mut().unwrap().speed = single(2.0);
    node.skin_mut().unwrap().set_matrices(vec![Mat4::identity()]);
    node.joint_mut().unwrap().set_bodies(Handle { index: 1, generation: 1 }, Handle::none());
    node.morph_weights_mut().push(single(0.5));

    assert_eq!(node.light_mask, 6);
    assert!(!node.particles().unwrap().playing);
    assert_eq!(node.animator().unwrap().speed, single(2.0));
    assert_eq!(node.joint().unwrap().body1().index, 1);
    assert_eq!(*node.morph_weights(), [single(0.5)]);
}

#[test]
fn a_sound_becomes_spatial_only_where_there_is_one() {
    let spatial =
        Spatial { radius: single(1.0), max_distance: single(9.0), rolloff: single(1.0) };
    let quiet = Node::new("quiet").with_sound_spatial(spatial);
    let loud = Node::new("loud")
        .with_sound(SoundSource::new(1).with_gain(single(0.5)).with_pitch(single(2.0)))
        .with_sound_spatial(spatial);

    assert!(quiet.sound().is_none());
    let sound = loud.sound().unwrap();
    assert_eq!((sound.gain, sound.pitch), (single(0.5), single(2.0)));
    assert_eq!(sound.spatial, Some(spatial));
}

#[test]
fn other_samples_start_from_the_beginning() {
    let mut sound = SoundSource::new(1);
    sound.finished = true;
    sound.set_buffer(2);

    assert_eq!(sound.buffer(), 2);
    assert!(!sound.is_finished() && sound.native().is_none());
}

// Bodies.

#[test]
fn everything_asked_of_a_body_waits_in_order() {
    let mut body = RigidBody::dynamic();
    let v = vector(1.0, 2.0, 3.0);
    body.apply_impulse(v);
    body.apply_torque_impulse(v);
    body.apply_impulse_at_point(v, Vec3::zero());
    body.add_force(v);
    body.add_torque(v);
    body.set_linvel(v);
    body.set_angvel(v);
    body.teleport(v, Quat::identity());
    body.wake_up();
    body.sleep();

    assert_eq!(
        body.actions,
        [
            BodyAction::ApplyImpulse(v),
            BodyAction::ApplyTorqueImpulse(v),
            BodyAction::ApplyImpulseAtPoint(v, Vec3::zero()),
            BodyAction::AddForce(v),
            BodyAction::AddTorque(v),
            BodyAction::SetLinvel(v),
            BodyAction::SetAngvel(v),
            BodyAction::Teleport(v, Quat::identity()),
            BodyAction::WakeUp,
            BodyAction::Sleep,
        ]
    );
    assert!(!body.is_sleeping());
    assert_eq!(RigidBody::kinematic().body_type(), RigidBodyType::KinematicPositionBased);
}

#[test]
fn another_shape_asks_for_another_collider() {
    let mut collider = Collider::ball(single(1.0));
    assert!(!collider.take_shape_dirty());
    collider.set_shape(ColliderShape::Cuboid { half_extents: Vec3::one() });
    assert!(collider.take_shape_dirty());
    assert!(!collider.take_shape_dirty());
}

#[test]
fn nodes_are_listed_by_what_they_carry() {
    let mut scene = Scene::new();
    let lamp = scene.add_node(Node::new("lamp").with_light(light()));
    let eye = scene.add_node(Node::new("eye").with_camera(camera()));
    scene.update();

    assert_eq!(scene.light_nodes(), &[lamp]);
    assert_eq!(scene.camera_nodes(), &[eye]);
    assert_eq!(scene.active_camera_node(), Some(eye));
    assert!(scene.skinned_nodes().is_empty() && scene.drawable_nodes().is_empty());
}
