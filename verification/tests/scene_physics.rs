//! Bodies, colliders, joints and ragdolls, with a small solver that knows gravity and floors.

use kengine::numbers::{Pose, Quat, Real, Transform, Vec3};
use kengine::pool::Handle;
use kengine::scene::graph::Scene;
use kengine::scene::node::Node;
use kengine::scene::physics::{
    BodyAction, BodyHandle, Collider, ColliderDesc, ColliderShape, CollisionEvent,
    InteractionGroups, Joint, JointDesc, JointKind, Limits, PhysicsWorld, RigidBody,
    RigidBodyDesc, RigidBodyType,
};
use kengine::scene::physics2d::FlatBody;
use kengine::scene::ragdoll::{hinge_limits, RagdollLimb};
use kengine::scene::ragdoll_builder::{LimbDesc, LimbPlace, RagdollBuilder};
use kengine::scene::sync::{RayHit, SceneRayHit};

fn single(value: f32) -> Real {
    Real::from_bits(value.to_bits())
}

fn float(value: Real) -> f32 {
    f32::from_bits(value.bits)
}

fn vector(x: f32, y: f32, z: f32) -> Vec3 {
    Vec3::new(single(x), single(y), single(z))
}

fn floats(v: Vec3) -> [f32; 3] {
    [v.x, v.y, v.z].map(float)
}

fn of(v: [f32; 3]) -> Vec3 {
    vector(v[0], v[1], v[2])
}

fn pose(position: [f32; 3]) -> Pose {
    Pose { position: of(position), rotation: Quat::identity() }
}

/// Where a node is. Nothing is turned in these tests.
fn world(scene: &Scene, handle: Handle) -> [f32; 3] {
    let mut place = [0.0; 3];
    for transform in scene.world_chain(handle) {
        let (at, scale) = (floats(transform.position), floats(transform.scale));
        for axis in 0..3 {
            place[axis] = at[axis] + scale[axis] * place[axis];
        }
    }
    place
}

fn minus(a: [f32; 3], b: [f32; 3]) -> [f32; 3] {
    [a[0] - b[0], a[1] - b[1], a[2] - b[2]]
}

fn plus(a: [f32; 3], b: [f32; 3]) -> [f32; 3] {
    [a[0] + b[0], a[1] + b[1], a[2] + b[2]]
}

fn length(a: [f32; 3]) -> f32 {
    (a[0] * a[0] + a[1] * a[1] + a[2] * a[2]).sqrt()
}

fn above(scene: &Scene, handle: Handle) -> [f32; 3] {
    world(scene, scene.try_get(handle).unwrap().parent())
}

// The solver.

fn half_height(shape: &ColliderShape) -> f32 {
    match *shape {
        ColliderShape::Ball { radius } => float(radius),
        ColliderShape::Cuboid { half_extents } => float(half_extents.y),
        ColliderShape::CapsuleY { half_height, radius } => float(half_height) + float(radius),
        ColliderShape::Heightfield { .. } => 0.0,
    }
}

fn volume(shape: &ColliderShape) -> f32 {
    match *shape {
        ColliderShape::Ball { radius } => 4.0 / 3.0 * std::f32::consts::PI * float(radius).powi(3),
        ColliderShape::Cuboid { half_extents } => floats(half_extents).iter().product::<f32>() * 8.0,
        _ => 1.0,
    }
}

fn interact(a: InteractionGroups, b: InteractionGroups) -> bool {
    a.memberships & b.filter != 0 && b.memberships & a.filter != 0
}

struct Solid {
    body: Option<BodyHandle>,
    at: [f32; 3],
    desc: ColliderDesc,
    user_data: u128,
}

fn solids(world: &PhysicsWorld) -> Vec<Solid> {
    let place = |handle: &Handle| {
        let record = world.colliders.try_borrow(*handle).unwrap();
        let base = match record.parent {
            Some(body) => floats(world.bodies.try_borrow(body.raw).unwrap().pose.position),
            None => [0.0; 3],
        };
        Solid {
            body: record.parent,
            at: plus(base, floats(record.desc.position)),
            desc: record.desc,
            user_data: record.user_data,
        }
    };
    world.colliders.handles().iter().map(place).collect()
}

fn is_dynamic(world: &PhysicsWorld, body: Option<BodyHandle>) -> bool {
    body.is_some_and(|body| {
        world.bodies.try_borrow(body.raw).unwrap().desc.body_type == RigidBodyType::Dynamic
    })
}

/// The lowest that a body may be, given what stands under it.
fn floor_under(world: &PhysicsWorld, body: BodyHandle) -> Option<f32> {
    let all = solids(world);
    let at = floats(world.bodies.try_borrow(body.raw).unwrap().pose.position);
    let mut floor: Option<f32> = None;
    for own in all.iter().filter(|solid| solid.body == Some(body) && !solid.desc.is_sensor) {
        for other in all.iter().filter(|solid| !is_dynamic(world, solid.body)) {
            let ColliderShape::Cuboid { half_extents } = other.desc.shape else {
                continue;
            };
            let half = floats(half_extents);
            let inside = (other.at[0] - own.at[0]).abs() <= half[0]
                && (other.at[2] - own.at[2]).abs() <= half[2];
            if other.desc.is_sensor
                || !inside
                || !interact(own.desc.collision_groups, other.desc.collision_groups)
            {
                continue;
            }
            let least = other.at[1] + half[1] + half_height(&own.desc.shape) + at[1] - own.at[1];
            floor = Some(floor.map_or(least, |floor| floor.max(least)));
        }
    }
    floor
}

fn solve(world: &mut PhysicsWorld, dt: f32) {
    for handle in world.bodies.handles() {
        let body = BodyHandle { raw: handle };
        let mut mass = float(world.bodies.try_borrow(handle).unwrap().desc.additional_mass);
        for solid in solids(world).iter().filter(|solid| solid.body == Some(body)) {
            mass += volume(&solid.desc.shape);
        }
        let record = world.bodies.try_borrow_mut(handle).unwrap();
        let mut velocity = floats(record.linvel);
        let mut at = floats(record.pose.position);
        for action in std::mem::take(&mut record.inbox) {
            match action {
                BodyAction::ApplyImpulse(impulse) if mass > 0.0 => {
                    velocity = plus(velocity, floats(impulse).map(|part| part / mass));
                }
                BodyAction::SetLinvel(linvel) => velocity = floats(linvel),
                BodyAction::Teleport(position, _) => at = floats(position),
                _ => {}
            }
        }
        match record.desc.body_type {
            RigidBodyType::Dynamic => {
                velocity[1] -= 9.81 * dt * float(record.desc.gravity_scale);
                at = plus(at, velocity.map(|part| part * dt));
            }
            _ => {
                velocity = [0.0; 3];
                if let Some(target) = record.target.take() {
                    at = floats(target.position);
                }
            }
        }
        record.pose.position = of(at);
        record.linvel = of(velocity);
        if record.desc.body_type == RigidBodyType::Dynamic {
            if let Some(floor) = floor_under(world, body) {
                let record = world.bodies.try_borrow_mut(handle).unwrap();
                if at[1] < floor {
                    at[1] = floor;
                    velocity[1] = velocity[1].max(0.0);
                    record.pose.position = of(at);
                    record.linvel = of(velocity);
                }
            }
        }
    }
    report_touching(world);
}

/// Events of those that overlap and want to be told.
fn report_touching(world: &mut PhysicsWorld) {
    let all = solids(world);
    world.events.clear();
    for sensor in all.iter().filter(|solid| solid.desc.is_sensor) {
        for other in all.iter().filter(|solid| !solid.desc.is_sensor) {
            let reach = half_height(&sensor.desc.shape) + half_height(&other.desc.shape);
            let near = minus(sensor.at, other.at).iter().all(|part| part.abs() < reach);
            if near && sensor.desc.collision_events {
                world.events.push(CollisionEvent {
                    started: true,
                    user_data1: sensor.user_data,
                    user_data2: other.user_data,
                });
            }
        }
    }
}

/// The first thing that a ray straight down hits.
fn drop_ray(scene: &Scene, from: [f32; 3], except: Option<BodyHandle>) -> Option<SceneRayHit> {
    let world = scene.physics();
    let mut best: Option<(f32, Solid)> = None;
    for solid in solids(world) {
        let top = solid.at[1] + half_height(&solid.desc.shape);
        let hit = top < from[1] && (solid.body.is_none() || solid.body != except);
        if hit && best.as_ref().is_none_or(|(height, _)| top > *height) {
            best = Some((top, solid));
        }
    }
    scene.cast_ray(best.map(|(top, solid)| RayHit {
        collider_user_data: solid.user_data,
        body_user_data: solid
            .body
            .map_or(0, |body| world.bodies.try_borrow(body.raw).unwrap().user_data),
        point: vector(from[0], top, from[2]),
        normal: vector(0.0, 1.0, 0.0),
        distance: single(from[1] - top),
    }))
}

/// One step of the whole: ragdolls that follow, the table, the solver, and back.
fn step(scene: &mut Scene, dt: f32) {
    for doll in scene.index.ragdolls.clone() {
        if let Some(limbs) = scene.following_limbs(doll) {
            for limb in limbs {
                let local = minus(world(scene, limb.bone), world(scene, doll));
                scene.hold_limb(limb.body, pose(local));
            }
            scene.end_follow(doll);
        }
    }

    let bodies = scene.index.rigid_bodies.iter().map(|h| pose(world(scene, *h))).collect();
    scene.sync_bodies_to_physics(&bodies);
    let place = |handle: &Handle| {
        let Some(collider) = scene.try_get(*handle).and_then(Node::collider) else {
            return pose([0.0; 3]);
        };
        let own = plus(world(scene, *handle), floats(collider.desc().position));
        match scene.nearest_body_node(*handle) {
            Some((owner, _)) => pose(minus(own, world(scene, owner))),
            None => pose(own),
        }
    };
    let colliders = scene.index.colliders.iter().map(place).collect();
    scene.sync_colliders_to_physics(&colliders);
    scene.finish_sync();

    solve(scene.physics_mut(), dt);

    for handle in scene.index.rigid_bodies.clone() {
        if let Some(simulated) = scene.simulated_pose(handle) {
            let local = minus(floats(simulated.position), above(scene, handle));
            scene.sync_from_physics(handle, pose(local));
        }
    }

    for doll in scene.index.ragdolls.clone() {
        let root = scene.try_get(doll).unwrap().ragdoll().unwrap().root().body;
        if let Some(mut drive) = scene.begin_drive(doll) {
            while let Some(limb) = scene.drive_limb(&mut drive) {
                let local = minus(world(scene, limb.body), above(scene, limb.bone));
                scene.place_bone(limb.bone, pose(local));
            }
        }
        let place = of(world(scene, root));
        scene.end_drive(doll, place);
    }
}

fn run(scene: &mut Scene, seconds: f32) {
    let dt = 1.0 / 60.0;
    for _ in 0..(seconds / dt) as usize {
        step(scene, dt);
        scene.update();
    }
}

fn position(scene: &Scene, handle: Handle) -> [f32; 3] {
    floats(scene.try_get(handle).unwrap().transform.position)
}

fn body_mut(scene: &mut Scene, handle: Handle) -> &mut RigidBody {
    scene.try_get_mut(handle).unwrap().rigid_body_mut().unwrap()
}

// Components.

#[test]
fn actions_survive_until_a_native_body_exists() {
    let mut world = PhysicsWorld::new();
    let mut body = RigidBody::dynamic();
    body.apply_impulse(vector(1.0, 0.0, 0.0));

    body.flush(&mut world);
    assert_eq!(body.actions.len(), 1);

    let native = world.add_body(&RigidBodyDesc::of_type(RigidBodyType::Dynamic), 0);
    world
        .add_collider(
            &ColliderDesc::new(ColliderShape::Ball { radius: single(0.5) }),
            Some(native),
            0,
        )
        .unwrap();
    body.set_native(Some(native));
    body.flush(&mut world);

    assert!(body.actions.is_empty());
    solve(&mut world, 0.0);
    assert!(float(world.bodies.try_borrow(native.raw).unwrap().linvel.x) > 0.0);
}

#[test]
fn changing_the_body_type_marks_the_desc_dirty_only_when_it_actually_changes() {
    let mut body = RigidBody::dynamic();
    body.set_body_type(RigidBodyType::Dynamic);
    assert!(!body.desc_dirty);

    body.set_body_type(RigidBodyType::Fixed);
    assert!(body.desc_dirty);
}

#[test]
fn desc_mut_marks_dirty() {
    let mut body = RigidBody::dynamic();
    body.desc_mut().gravity_scale = single(0.0);
    assert!(body.desc_dirty);
}

#[test]
fn a_dirty_desc_is_pushed_to_the_native_body() {
    let mut world = PhysicsWorld::new();
    let native = world.add_body(&RigidBodyDesc::of_type(RigidBodyType::Dynamic), 0);
    let mut body = RigidBody::dynamic();
    body.set_native(Some(native));

    body.desc_mut().gravity_scale = single(0.0);
    body.set_body_type(RigidBodyType::Fixed);
    body.flush(&mut world);

    let record = world.bodies.try_borrow(native.raw).unwrap();
    assert_eq!(record.desc.body_type, RigidBodyType::Fixed);
    assert_eq!(record.desc.gravity_scale, single(0.0));
    assert!(!body.desc_dirty);
}

#[test]
fn joint_desc_edits_request_a_rebuild() {
    let mut joint = Joint::new(
        Handle::none(),
        Handle::none(),
        JointDesc::new(JointKind::Fixed, Vec3::zero(), Vec3::zero()),
    );
    assert!(!joint.take_dirty());

    joint.desc_mut().local_anchor1 = vector(1.0, 0.0, 0.0);
    assert!(joint.take_dirty());
    assert!(!joint.take_dirty());
}

#[test]
fn setting_the_same_sensor_flag_is_a_no_op() {
    let mut collider = Collider::ball(single(1.0));
    collider.set_sensor(false);
    assert!(!collider.take_desc_dirty());

    collider.set_sensor(true);
    assert!(collider.take_desc_dirty());
}

#[test]
fn a_collider_of_a_missing_body_is_refused() {
    let mut world = PhysicsWorld::new();
    let body = world.add_body(&RigidBodyDesc::of_type(RigidBodyType::Fixed), 7);
    world.remove_body(body);
    let desc = ColliderDesc::new(ColliderShape::Ball { radius: single(1.0) });

    assert!(world.add_collider(&desc, Some(body), 7).is_none());
    assert!(world.add_collider(&desc, None, 7).is_some());
}

// In a scene.

/// A floor whose upper side is at zero.
fn add_ground(scene: &mut Scene) -> Handle {
    scene.add_node(
        Node::new("ground")
            .with_position(vector(0.0, -0.5, 0.0))
            .with_rigid_body(RigidBody::fixed())
            .with_collider(Collider::cuboid(vector(50.0, 0.5, 50.0))),
    )
}

fn ball_node(at: Vec3) -> Node {
    Node::new("ball")
        .with_position(at)
        .with_rigid_body(RigidBody::dynamic())
        .with_collider(Collider::ball(single(0.5)))
}

fn add_ball(scene: &mut Scene, at: Vec3) -> Handle {
    scene.add_node(ball_node(at))
}

fn body_count(scene: &Scene) -> usize {
    scene.physics().bodies.alive_count()
}

fn collider_count(scene: &Scene) -> usize {
    scene.physics().colliders.alive_count()
}

#[test]
fn a_body_added_this_frame_reaches_physics_on_the_same_step() {
    let mut scene = Scene::new();
    add_ground(&mut scene);
    add_ball(&mut scene, vector(0.0, 5.0, 0.0));

    step(&mut scene, 1.0 / 60.0);

    assert_eq!(body_count(&scene), 2);
    assert_eq!(collider_count(&scene), 2);
}

#[test]
fn a_dynamic_body_writes_its_pose_back_into_the_node() {
    let mut scene = Scene::new();
    add_ground(&mut scene);
    let ball = add_ball(&mut scene, vector(0.0, 10.0, 0.0));

    run(&mut scene, 3.0);

    assert!((position(&scene, ball)[1] - 0.5).abs() < 0.1);
}

#[test]
fn a_static_body_is_driven_by_the_node_not_the_other_way_around() {
    let mut scene = Scene::new();
    let ground = add_ground(&mut scene);
    step(&mut scene, 1.0 / 60.0);

    let before = float(drop_ray(&scene, [0.0, 20.0, 0.0], None).unwrap().point.y);
    assert!(before.abs() < 1e-3);

    scene.try_get_mut(ground).unwrap().transform.position = vector(0.0, 2.5, 0.0);
    step(&mut scene, 1.0 / 60.0);

    let after = float(drop_ray(&scene, [0.0, 20.0, 0.0], None).unwrap().point.y);
    assert!((after - 3.0).abs() < 1e-3);
}

#[test]
fn a_static_body_never_falls_under_gravity() {
    let mut scene = Scene::new();
    let ground = add_ground(&mut scene);
    run(&mut scene, 2.0);

    assert_eq!(position(&scene, ground), [0.0, -0.5, 0.0]);
}

#[test]
fn changing_a_dynamic_body_transform_directly_has_no_effect() {
    let mut scene = Scene::new();
    add_ground(&mut scene);
    let ball = add_ball(&mut scene, vector(0.0, 5.0, 0.0));
    run(&mut scene, 0.5);

    scene.try_get_mut(ball).unwrap().transform.position = vector(20.0, 20.0, 20.0);
    run(&mut scene, 0.2);

    let [x, y, _] = position(&scene, ball);
    assert!(x.abs() < 1.0 && y < 10.0);
}

#[test]
fn teleport_is_the_way_to_move_a_dynamic_body() {
    let mut scene = Scene::new();
    add_ground(&mut scene);
    let ball = add_ball(&mut scene, vector(0.0, 5.0, 0.0));
    run(&mut scene, 0.5);

    body_mut(&mut scene, ball).teleport(vector(10.0, 8.0, 0.0), Quat::identity());
    step(&mut scene, 1.0 / 60.0);
    scene.update();

    assert!((position(&scene, ball)[0] - 10.0).abs() < 0.01);
}

#[test]
fn an_impulse_from_the_node_api_reaches_the_body() {
    let mut scene = Scene::new();
    add_ground(&mut scene);
    let ball = add_ball(&mut scene, vector(0.0, 5.0, 0.0));
    run(&mut scene, 0.5);

    body_mut(&mut scene, ball).apply_impulse(vector(2.0, 0.0, 0.0));
    run(&mut scene, 0.5);

    assert!(position(&scene, ball)[0] > 0.5);
}

#[test]
fn an_impulse_works_on_the_very_frame_the_body_is_created() {
    let mut scene = Scene::new();
    let ball = scene.add_node(
        Node::new("projectile")
            .with_rigid_body(RigidBody::new(RigidBodyDesc {
                gravity_scale: single(0.0),
                ..RigidBodyDesc::of_type(RigidBodyType::Dynamic)
            }))
            .with_collider(Collider::ball(single(0.5))),
    );

    body_mut(&mut scene, ball).apply_impulse(vector(0.0, 10.0, 0.0));
    step(&mut scene, 1.0 / 60.0);

    let mass = 4.0 / 3.0 * std::f32::consts::PI * 0.5f32.powi(3);
    let velocity = float(scene.try_get(ball).unwrap().rigid_body().unwrap().linvel().y);
    assert!((velocity - 10.0 / mass).abs() < 0.5);
}

#[test]
fn velocities_are_read_back_onto_the_component() {
    let mut scene = Scene::new();
    add_ground(&mut scene);
    let ball = add_ball(&mut scene, vector(0.0, 10.0, 0.0));
    run(&mut scene, 0.5);

    let linvel = scene.try_get(ball).unwrap().rigid_body().unwrap().linvel();
    assert!(float(linvel.y) < -3.0);
}

#[test]
fn a_collider_on_a_child_node_binds_to_the_ancestor_body() {
    let mut scene = Scene::new();
    add_ground(&mut scene);
    let body = scene.add_node(
        Node::new("dumbbell")
            .with_position(vector(0.0, 6.0, 0.0))
            .with_rigid_body(RigidBody::dynamic()),
    );
    for (name, x) in [("left", -0.6), ("right", 0.6)] {
        scene.add_node_with_parent(
            Node::new(name)
                .with_position(vector(x, 0.0, 0.0))
                .with_collider(Collider::ball(single(0.3))),
            body,
        );
    }

    step(&mut scene, 1.0 / 60.0);

    assert_eq!(body_count(&scene), 2);
    assert_eq!(collider_count(&scene), 3);
    let native = scene.try_get(body).unwrap().rigid_body().unwrap().native();
    assert!(native.is_some());
    let bound = solids(scene.physics()).iter().filter(|solid| solid.body == native).count();
    assert_eq!(bound, 2);

    run(&mut scene, 3.0);
    assert!((position(&scene, body)[1] - 0.3).abs() < 0.15);
}

#[test]
fn a_collider_without_any_body_is_static_geometry() {
    let mut scene = Scene::new();
    scene.add_node(Node::new("wall").with_collider(Collider::cuboid(vector(1.0, 1.0, 1.0))));
    let ball = add_ball(&mut scene, vector(0.0, 5.0, 0.0));

    run(&mut scene, 3.0);

    assert!(position(&scene, ball)[1] > 1.0);
}

#[test]
fn removing_a_node_removes_its_physics_objects() {
    let mut scene = Scene::new();
    add_ground(&mut scene);
    let ball = add_ball(&mut scene, vector(0.0, 5.0, 0.0));
    step(&mut scene, 1.0 / 60.0);
    assert_eq!(body_count(&scene), 2);

    scene.remove_node(ball);
    step(&mut scene, 1.0 / 60.0);

    assert_eq!(body_count(&scene), 1);
    assert_eq!(collider_count(&scene), 1);
}

#[test]
fn a_joint_waits_for_both_bodies_to_exist() {
    let mut scene = Scene::new();
    let missing = Handle { index: 999, generation: 1 };
    scene.add_node(Node::new("early").with_joint(Joint::new(
        missing,
        missing,
        JointDesc::new(JointKind::Fixed, Vec3::zero(), Vec3::zero()),
    )));

    step(&mut scene, 1.0 / 60.0);
    assert_eq!(scene.physics().joints.alive_count(), 0);
}

#[test]
fn a_ray_resolves_back_to_the_scene_node_it_hit() {
    let mut scene = Scene::new();
    add_ground(&mut scene);
    let ball = add_ball(&mut scene, vector(0.0, 5.0, 0.0));
    step(&mut scene, 1.0 / 60.0);

    let hit = drop_ray(&scene, [0.0, 20.0, 0.0], None).expect("a hit");

    assert_eq!(hit.body_node, Some(ball));
    assert_eq!(hit.collider_node, Some(ball));
    assert!(float(hit.normal.y) > 0.9);
}

#[test]
fn a_ray_can_exclude_the_body_it_starts_inside() {
    let mut scene = Scene::new();
    let ground = add_ground(&mut scene);
    let ball = add_ball(&mut scene, vector(0.0, 5.0, 0.0));
    step(&mut scene, 1.0 / 60.0);

    let native = scene.try_get(ball).unwrap().rigid_body().unwrap().native();
    let hit = drop_ray(&scene, [0.0, 20.0, 0.0], native).expect("the floor");

    assert_eq!(hit.body_node, Some(ground));
}

#[test]
fn sensors_report_collisions_as_node_handles() {
    let mut scene = Scene::new();
    let shape = ColliderShape::Cuboid { half_extents: vector(1.0, 1.0, 1.0) };
    let trigger = scene.add_node(
        Node::new("trigger").with_position(vector(0.0, 3.0, 0.0)).with_collider(Collider::new(
            ColliderDesc { is_sensor: true, collision_events: true, ..ColliderDesc::new(shape) },
        )),
    );
    let ball = add_ball(&mut scene, vector(0.0, 8.0, 0.0));

    let mut seen = None;
    for _ in 0..180 {
        step(&mut scene, 1.0 / 60.0);
        scene.update();
        for event in scene.collision_events() {
            if event.started {
                seen = Some(scene.collision_nodes(event));
            }
        }
        if seen.is_some() {
            break;
        }
    }

    let (a, b) = seen.expect("an event");
    let pair = [a, b];
    assert!(pair.contains(&Some(trigger)));
    assert!(pair.contains(&Some(ball)));
}

#[test]
fn interaction_groups_keep_two_objects_from_colliding() {
    let mut scene = Scene::new();
    let groups = |bits: u32| InteractionGroups { memberships: bits, filter: bits };
    let floor = ColliderShape::Cuboid { half_extents: vector(50.0, 0.5, 50.0) };
    scene.add_node(
        Node::new("ground")
            .with_position(vector(0.0, -0.5, 0.0))
            .with_rigid_body(RigidBody::fixed())
            .with_collider(Collider::new(ColliderDesc {
                collision_groups: groups(0b01),
                ..ColliderDesc::new(floor)
            })),
    );
    let round = ColliderShape::Ball { radius: single(0.5) };
    let ball = scene.add_node(
        Node::new("ball")
            .with_position(vector(0.0, 5.0, 0.0))
            .with_rigid_body(RigidBody::dynamic())
            .with_collider(Collider::new(ColliderDesc {
                collision_groups: groups(0b10),
                ..ColliderDesc::new(round)
            })),
    );

    run(&mut scene, 2.0);

    assert!(position(&scene, ball)[1] < -1.0);
}

#[test]
fn a_kinematic_body_is_driven_by_its_node_and_pushes_dynamic_ones() {
    let mut scene = Scene::new();
    let platform = scene.add_node(
        Node::new("platform")
            .with_rigid_body(RigidBody::kinematic())
            .with_collider(Collider::cuboid(vector(2.0, 0.5, 2.0))),
    );
    let crate_node = scene.add_node(
        Node::new("crate")
            .with_position(vector(0.0, 1.0, 0.0))
            .with_rigid_body(RigidBody::dynamic())
            .with_collider(Collider::cuboid(vector(0.5, 0.5, 0.5))),
    );

    for i in 0..120 {
        scene.try_get_mut(platform).unwrap().transform.position =
            vector(0.0, i as f32 * (1.0 / 60.0), 0.0);
        step(&mut scene, 1.0 / 60.0);
        scene.update();
    }

    let platform_y = position(&scene, platform)[1];
    let crate_y = position(&scene, crate_node)[1];
    assert!((platform_y - 2.0).abs() < 0.05);
    assert!(crate_y > platform_y);
}

#[test]
fn a_body_under_a_moving_parent_still_lands_correctly() {
    let mut scene = Scene::new();
    add_ground(&mut scene);
    let pivot = scene.add_node(Node::new("pivot").with_position(vector(10.0, 0.0, 0.0)));
    let ball = scene.add_node_with_parent(ball_node(vector(0.0, 6.0, 0.0)), pivot);

    run(&mut scene, 3.0);

    let place = world(&scene, ball);
    assert!((place[1] - 0.5).abs() < 0.1);
    assert!((place[0] - 10.0).abs() < 0.1);
}

#[test]
fn node_scale_survives_the_write_back() {
    let mut scene = Scene::new();
    add_ground(&mut scene);
    let ball = scene.add_node(ball_node(Vec3::zero()).with_transform(Transform {
        position: vector(0.0, 5.0, 0.0),
        rotation: Quat::identity(),
        scale: vector(2.0, 2.0, 2.0),
    }));

    run(&mut scene, 1.0);

    assert_eq!(scene.try_get(ball).unwrap().transform.scale, vector(2.0, 2.0, 2.0));
}

#[test]
fn switching_a_body_to_fixed_stops_it_in_place() {
    let mut scene = Scene::new();
    add_ground(&mut scene);
    let ball = add_ball(&mut scene, vector(0.0, 10.0, 0.0));
    run(&mut scene, 0.5);

    let frozen_at = position(&scene, ball);
    body_mut(&mut scene, ball).set_body_type(RigidBodyType::Fixed);
    run(&mut scene, 1.0);

    assert!(length(minus(position(&scene, ball), frozen_at)) < 0.05);
}

#[test]
fn changing_a_collider_shape_rebuilds_it() {
    let mut scene = Scene::new();
    add_ground(&mut scene);
    let ball = add_ball(&mut scene, vector(0.0, 5.0, 0.0));
    run(&mut scene, 3.0);

    let collider = scene.try_get_mut(ball).unwrap().collider_mut().unwrap();
    collider.set_shape(ColliderShape::Ball { radius: single(2.0) });
    run(&mut scene, 2.0);

    assert!((position(&scene, ball)[1] - 2.0).abs() < 0.15);
    assert_eq!(collider_count(&scene), 2);
}

#[test]
fn simulation_through_the_scene_graph_is_deterministic() {
    fn run_once() -> [f32; 3] {
        let mut scene = Scene::new();
        add_ground(&mut scene);
        let ball = add_ball(&mut scene, vector(0.1, 6.0, -0.2));
        body_mut(&mut scene, ball).apply_impulse(vector(0.3, 0.0, 0.15));
        run(&mut scene, 4.0);
        position(&scene, ball)
    }

    assert_eq!(run_once(), run_once());
}

#[test]
fn a_saved_scene_keeps_simulating_the_same_way() {
    fn build() -> Scene {
        let mut scene = Scene::new();
        scene.add_node(
            Node::new("ground")
                .with_position(vector(0.0, -0.5, 0.0))
                .with_rigid_body(RigidBody::fixed())
                .with_collider(Collider::cuboid(vector(20.0, 0.5, 20.0))),
        );
        add_ball(&mut scene, vector(0.3, 6.0, -0.2));
        scene
    }
    fn settle(scene: &mut Scene) -> [f32; 3] {
        for _ in 0..180 {
            step(scene, 1.0 / 60.0);
            scene.update();
        }
        let ball = scene.find_by_name("ball").unwrap();
        position(scene, ball)
    }

    let mut original = build();
    let (document, _) = build().write_document();
    let mut restored = document.read(&Vec::new()).expect("a scene");

    assert_eq!(settle(&mut restored), settle(&mut original));
}

// The flat world.

fn flat(x: f32, y: f32, angle: f32) -> FlatBody {
    FlatBody { x: single(x), y: single(y), angle: single(angle), user_data: 0 }
}

/// A turn in the plane.
fn turned(angle: f32) -> Quat {
    Quat {
        x: single(0.0),
        y: single(0.0),
        z: single((angle / 2.0).sin()),
        w: single((angle / 2.0).cos()),
    }
}

fn sync_2d(scene: &mut Scene, node: Handle, body: Handle) -> bool {
    let angle = scene.physics2d().try_borrow(body).map_or(0.0, |body| float(body.angle));
    scene.sync_node_from_2d_body(node, body, turned(angle))
}

#[test]
fn a_fresh_scene_has_an_empty_2d_world() {
    let scene = Scene::new();
    assert_eq!(scene.physics2d().alive_count(), 0);
}

#[test]
fn the_2d_world_steps_independently_of_the_3d_one() {
    let mut scene = Scene::new();
    let body = scene.physics2d_mut().spawn(flat(0.0, 10.0, 0.0));

    step(&mut scene, 1.0 / 60.0);

    let record = scene.physics2d().try_borrow(body).unwrap();
    assert_eq!((float(record.x), float(record.y)), (0.0, 10.0));
}

#[test]
fn syncing_writes_x_and_y_to_the_node() {
    let mut scene = Scene::new();
    let node = scene.add_node(Node::new("Sprite"));
    let body = scene.physics2d_mut().spawn(flat(3.0, 4.0, 0.0));

    assert!(sync_2d(&mut scene, node, body));
    assert_eq!(position(&scene, node)[..2], [3.0, 4.0]);
}

#[test]
fn syncing_leaves_z_alone() {
    let mut scene = Scene::new();
    let node = scene.add_node(Node::new("Sprite"));
    scene.try_get_mut(node).unwrap().transform.position = vector(0.0, 0.0, -7.5);

    let body = scene.physics2d_mut().spawn(flat(3.0, 4.0, 0.0));
    sync_2d(&mut scene, node, body);

    assert_eq!(position(&scene, node)[2], -7.5);
}

#[test]
fn syncing_maps_the_angle_to_a_z_rotation() {
    let mut scene = Scene::new();
    let node = scene.add_node(Node::new("Sprite"));
    let body = scene.physics2d_mut().spawn(flat(0.0, 0.0, 0.5));
    sync_2d(&mut scene, node, body);

    let rotation = scene.try_get(node).unwrap().transform.rotation;
    let (z, w) = (float(rotation.z), float(rotation.w));
    let (x, y) = (1.0 - 2.0 * z * z, 2.0 * z * w);
    assert!((x - 0.5f32.cos()).abs() < 1e-4);
    assert!((y - 0.5f32.sin()).abs() < 1e-4);
    assert_eq!((float(rotation.x), float(rotation.y)), (0.0, 0.0));
}

#[test]
fn syncing_a_missing_body_or_node_does_nothing() {
    let mut scene = Scene::new();
    let node = scene.add_node(Node::new("Sprite"));
    let body = scene.physics2d_mut().spawn(flat(0.0, 0.0, 0.0));

    scene.physics2d_mut().free(body);
    assert!(!sync_2d(&mut scene, node, body));

    let live = scene.physics2d_mut().spawn(flat(0.0, 0.0, 0.0));
    scene.remove_node(node);
    assert!(!sync_2d(&mut scene, node, live));
}

// Ragdolls.

fn capsule(half: f32, radius: f32) -> ColliderShape {
    ColliderShape::CapsuleY { half_height: single(half), radius: single(radius) }
}

/// A chain of three bones that hangs down, with a ragdoll round it.
fn build_leg(scene: &mut Scene) -> (Handle, [Handle; 3]) {
    let hip = scene.add_node(Node::new("hip").with_position(vector(0.0, 3.0, 0.0)));
    let thigh = scene
        .add_node_with_parent(Node::new("thigh").with_position(vector(0.0, -0.5, 0.0)), hip);
    let shin = scene
        .add_node_with_parent(Node::new("shin").with_position(vector(0.0, -0.5, 0.0)), thigh);
    scene.update();

    let range = Some(Limits { min: single(-0.6), max: single(0.6) });
    let ball = JointDesc::new(
        JointKind::Spherical { x: range, y: range, z: range },
        Vec3::zero(),
        Vec3::zero(),
    );
    let hinge = JointDesc::new(
        JointKind::Revolute { limits: hinge_limits(single(-2.0), single(0.0)) },
        Vec3::zero(),
        Vec3::zero(),
    );
    let desc = LimbDesc::new(hip, capsule(0.15, 0.12)).with_child(
        LimbDesc::new(thigh, capsule(0.15, 0.1))
            .with_joint(ball)
            .with_child(LimbDesc::new(shin, capsule(0.15, 0.09)).with_joint(hinge)),
    );

    let builder = RagdollBuilder::new(desc);
    let limbs = builder.limbs();
    let places = limbs
        .iter()
        .map(|limb| {
            let at = world(scene, limb.bone);
            let anchor = match limb.parent {
                Some(parent) => minus(at, world(scene, limbs[parent].bone)),
                None => [0.0; 3],
            };
            LimbPlace { pose: pose(at), anchor: of(anchor) }
        })
        .collect();
    let root = scene.root();
    let ragdoll = builder.build(scene, root, &places);
    (ragdoll, [hip, thigh, shin])
}

fn set_active(scene: &mut Scene, ragdoll: Handle, active: bool) {
    scene.try_get_mut(ragdoll).unwrap().ragdoll_mut().unwrap().set_active(active);
}

fn root_gap(scene: &Scene, ragdoll: Handle) -> f32 {
    let root = scene.try_get(ragdoll).unwrap().ragdoll().unwrap().root();
    length(minus(world(scene, root.bone), world(scene, root.body)))
}

#[test]
fn the_builder_creates_one_body_per_limb_and_one_joint_per_link() {
    let mut scene = Scene::new();
    let (ragdoll, _) = build_leg(&mut scene);
    scene.update();

    assert_eq!(scene.try_get(ragdoll).unwrap().ragdoll().unwrap().limb_count(), 3);

    step(&mut scene, 1.0 / 60.0);
    assert_eq!(body_count(&scene), 3);
    assert_eq!(collider_count(&scene), 3);
    assert_eq!(scene.physics().joints.alive_count(), 2);
}

#[test]
fn limb_bodies_start_at_their_bones() {
    let mut scene = Scene::new();
    let (ragdoll, bones) = build_leg(&mut scene);

    let mut pairs = Vec::new();
    scene.try_get(ragdoll).unwrap().ragdoll().unwrap().root().for_each(&mut pairs);

    for pair in pairs {
        assert!(length(minus(world(&scene, pair.bone), world(&scene, pair.body))) < 1e-4);
    }
    assert_eq!(bones.len(), 3);
}

#[test]
fn an_inactive_ragdoll_follows_the_bones_instead_of_falling() {
    let mut scene = Scene::new();
    let (_, bones) = build_leg(&mut scene);

    for _ in 0..60 {
        step(&mut scene, 1.0 / 60.0);
        scene.update();
    }

    assert!(length(minus(position(&scene, bones[0]), [0.0, 3.0, 0.0])) < 1e-4);
}

#[test]
fn an_inactive_ragdoll_keeps_its_bodies_glued_to_moving_bones() {
    let mut scene = Scene::new();
    let (ragdoll, bones) = build_leg(&mut scene);

    for i in 0..60 {
        scene.try_get_mut(bones[0]).unwrap().transform.position =
            vector(i as f32 * 0.05, 3.0, 0.0);
        step(&mut scene, 1.0 / 60.0);
        scene.update();
    }

    assert!(root_gap(&scene, ragdoll) < 0.05);
}

#[test]
fn an_active_ragdoll_drives_the_bones_downward() {
    let mut scene = Scene::new();
    let (ragdoll, bones) = build_leg(&mut scene);
    set_active(&mut scene, ragdoll, true);

    for _ in 0..90 {
        step(&mut scene, 1.0 / 60.0);
        scene.update();
    }

    assert!(world(&scene, bones[0])[1] < 2.0);
}

#[test]
fn toggling_back_to_inactive_snaps_the_bodies_home_again() {
    let mut scene = Scene::new();
    let (ragdoll, bones) = build_leg(&mut scene);
    set_active(&mut scene, ragdoll, true);
    for _ in 0..60 {
        step(&mut scene, 1.0 / 60.0);
        scene.update();
    }

    scene.try_get_mut(bones[0]).unwrap().transform =
        Transform::from_position(vector(0.0, 3.0, 0.0));
    set_active(&mut scene, ragdoll, false);
    for _ in 0..5 {
        step(&mut scene, 1.0 / 60.0);
        scene.update();
    }

    assert!(root_gap(&scene, ragdoll) < 0.05);
}

#[test]
fn limbs_are_visited_parents_before_children() {
    let limb = |index: u32, children: Vec<RagdollLimb>| RagdollLimb {
        bone: Handle { index, generation: if index == 0 { 0 } else { 1 } },
        body: Handle::none(),
        children,
    };
    let chain = limb(0, vec![limb(1, vec![limb(2, vec![])])]);

    let mut visited = Vec::new();
    chain.for_each(&mut visited);

    let order: Vec<u32> = visited.iter().map(|pair| pair.bone.index).collect();
    assert_eq!(order, vec![0, 1, 2]);
}

#[test]
fn hinges_take_their_limits_in_any_order() {
    let limits = hinge_limits(single(2.0), single(-1.0)).unwrap();
    assert_eq!((float(limits.min), float(limits.max)), (-1.0, 2.0));
}

#[test]
fn an_active_ragdoll_takes_over_its_character_and_gives_it_back() {
    let mut scene = Scene::new();
    let character = add_ball(&mut scene, vector(0.0, 3.0, 0.0));
    let bone = scene.add_node(Node::new("hip").with_position(vector(0.0, 3.0, 0.0)));
    let builder = RagdollBuilder::new(LimbDesc::new(bone, capsule(0.1, 0.1)))
        .with_name("Doll")
        .with_limb_mass(single(1.0))
        .with_character_body(character);
    let places = vec![LimbPlace { pose: pose([0.0, 3.0, 0.0]), anchor: Vec3::zero() }];
    let root = scene.root();
    let ragdoll = builder.build(&mut scene, root, &places);
    assert_eq!(scene.find_by_name("Doll"), Some(ragdoll));

    set_active(&mut scene, ragdoll, true);
    step(&mut scene, 1.0 / 60.0);
    let kind = |scene: &Scene| {
        scene.try_get(character).unwrap().rigid_body().unwrap().body_type()
    };
    assert_eq!(kind(&scene), RigidBodyType::KinematicPositionBased);

    set_active(&mut scene, ragdoll, false);
    step(&mut scene, 1.0 / 60.0);
    assert_eq!(kind(&scene), RigidBodyType::Dynamic);
}

#[test]
fn a_joint_that_lost_a_body_leaves_the_solver() {
    let mut scene = Scene::new();
    let one = add_ball(&mut scene, vector(0.0, 5.0, 0.0));
    let two = add_ball(&mut scene, vector(0.0, 8.0, 0.0));
    let node = scene.add_node(Node::new("link").with_joint(Joint::new(
        one,
        two,
        JointDesc::new(JointKind::Fixed, Vec3::zero(), Vec3::zero()),
    )));
    step(&mut scene, 1.0 / 60.0);
    assert_eq!(scene.physics().joints.alive_count(), 1);

    let joint = scene.try_get_mut(node).and_then(|node| node.joint_mut()).unwrap();
    joint.set_bodies(one, Handle { index: 999, generation: 1 });
    step(&mut scene, 1.0 / 60.0);

    assert_eq!(scene.physics().joints.alive_count(), 0);
}

#[test]
fn every_collider_node_has_one_collider() {
    let mut scene = Scene::new();
    add_ground(&mut scene);
    let ball = add_ball(&mut scene, vector(0.0, 5.0, 0.0));
    add_ball(&mut scene, vector(4.0, 5.0, 0.0));
    for _ in 0..3 {
        step(&mut scene, 1.0 / 60.0);
        assert_eq!(collider_count(&scene), scene.index.colliders.len());
    }
    assert_eq!(collider_count(&scene), 3);

    scene.remove_node(ball);
    step(&mut scene, 1.0 / 60.0);
    assert_eq!(collider_count(&scene), 2);
}
