//! What the solver is told of the scene, and what the scene reads back.

use crate::numbers::Pose;
use crate::pool::Handle;
use crate::scene::graph;
use crate::scene::graph::Scene;
use crate::scene::node::Node;
use crate::scene::physics::{BodyAction, BodyHandle, RigidBody, RigidBodyType};
use crate::scene::sync;
use crate::scene::sync::SyncState;
use crate::tree;
use vstd::prelude::*;

verus! {

/// A body that the solver did not know is entered under a name that was free, where its node stands,
/// at rest, with all the settings of its description, and says whose it is. The component is told the
/// name and keeps everything else; nothing else in the scene or the table changes.
pub proof fn lemma_new_body_is_entered(a: SyncState, b: SyncState, h: Handle, pose: Pose)
    requires
        sync::body_synced(a, b, h, pose),
        a.nodes.contains_key(h),
        a.nodes[h].rigid_body is Some,
        a.nodes[h].rigid_body->0.native is None,
    ensures
        b.nodes.contains_key(h),
        b.nodes[h].rigid_body is Some,
        b.nodes[h].rigid_body->0.native is Some,
        ({
            let desc = a.nodes[h].rigid_body->0.desc;
            let native = b.nodes[h].rigid_body->0.native->0.raw;
            let record = b.world.bodies[native];
            &&& !a.world.bodies.contains_key(native)
            &&& b.world.bodies.contains_key(native)
            &&& record.pose.position == pose.position
            &&& record.pose.rotation == pose.rotation
            &&& record.desc.position == pose.position
            &&& record.desc.rotation == pose.rotation
            &&& record.desc.body_type == desc.body_type
            &&& record.desc.gravity_scale == desc.gravity_scale
            &&& record.desc.linear_damping == desc.linear_damping
            &&& record.desc.angular_damping == desc.angular_damping
            &&& record.desc.additional_mass == desc.additional_mass
            &&& record.desc.ccd_enabled == desc.ccd_enabled
            &&& record.desc.can_sleep == desc.can_sleep
            &&& record.desc.locked_rotations == desc.locked_rotations
            &&& record.desc.locked_translations == desc.locked_translations
            &&& record.desc.enabled == desc.enabled
            &&& record.target is None
            &&& record.linvel.x.bits == 0 && record.linvel.y.bits == 0 && record.linvel.z.bits == 0
            &&& record.angvel.x.bits == 0 && record.angvel.y.bits == 0 && record.angvel.z.bits == 0
            &&& !record.sleeping
            &&& record.inbox@.len() == 0
            &&& record.user_data == h.index + h.generation * 0x1_0000_0000
        }),
        ({
            let before = a.nodes[h].rigid_body->0;
            let after = b.nodes[h].rigid_body->0;
            &&& after.desc == before.desc
            &&& after.actions == before.actions
            &&& after.desc_dirty == before.desc_dirty
        }),
        b.nodes[h].transform == a.nodes[h].transform,
        b.nodes.dom() == a.nodes.dom(),
        forall|x: Handle| #[trigger] a.nodes.contains_key(x) && x != h ==> b.nodes[x] == a.nodes[x],
        forall|x: Handle| #[trigger]
            a.world.bodies.contains_key(x) ==> b.world.bodies.contains_key(x) && b.world.bodies[x]
                == a.world.bodies[x],
        b.world.colliders == a.world.colliders,
        b.world.joints == a.world.joints,
{
    assert(b.nodes.dom() =~= a.nodes.dom());
}

/// A body that the solver knows is moved by its node only if it is one that stays, and is given a
/// target only if it is one that its node moves by position. One that the solver moves is left to
/// the solver.
pub proof fn lemma_known_body_is_driven(a: SyncState, b: SyncState, h: Handle, pose: Pose)
    requires
        sync::body_synced(a, b, h, pose),
        a.nodes.contains_key(h),
        a.nodes[h].rigid_body is Some,
        a.nodes[h].rigid_body->0.native is Some,
        a.world.bodies.contains_key(a.nodes[h].rigid_body->0.native->0.raw),
    ensures
        b.nodes == a.nodes,
        ({
            let body = a.nodes[h].rigid_body->0;
            let native = body.native->0.raw;
            let was = a.world.bodies[native];
            let is = b.world.bodies[native];
            &&& b.world.bodies.contains_key(native)
            &&& body.desc.body_type == RigidBodyType::Fixed ==> {
                &&& is.pose == pose || is.pose == was.pose && was.pose.position.x.equals(
                    pose.position.x,
                ) && was.pose.position.y.equals(pose.position.y) && was.pose.position.z.equals(
                    pose.position.z,
                ) && was.pose.rotation.equals(pose.rotation)
                &&& is.target == was.target
            }
            &&& body.desc.body_type == RigidBodyType::KinematicPositionBased ==> is.target == Some(
                pose,
            ) && is.pose == was.pose
            &&& body.desc.body_type == RigidBodyType::Dynamic || body.desc.body_type
                == RigidBodyType::KinematicVelocityBased ==> is == was
            &&& is.desc == was.desc
            &&& is.linvel == was.linvel
            &&& is.angvel == was.angvel
            &&& is.sleeping == was.sleeping
            &&& is.inbox == was.inbox
            &&& is.user_data == was.user_data
        }),
        b.world.bodies.dom() == a.world.bodies.dom(),
        forall|x: Handle| #[trigger]
            a.world.bodies.contains_key(x) && x != a.nodes[h].rigid_body->0.native->0.raw
                ==> b.world.bodies[x] == a.world.bodies[x],
        b.world.colliders == a.world.colliders,
        b.world.joints == a.world.joints,
{
    assert(b.world.bodies.dom() =~= a.world.bodies.dom());
}

/// A changed description reaches the solver with every setting but the pose and the sleep setting,
/// which a body keeps as it was built; what waits is handed over behind what the solver has yet to
/// do. Then nothing waits any more, and the component is otherwise as before.
pub proof fn lemma_changed_body_is_told(a: SyncState, b: SyncState, h: Handle)
    requires
        sync::body_flushed(a, b, h),
        a.nodes.contains_key(h),
        a.nodes[h].rigid_body is Some,
        a.nodes[h].rigid_body->0.native is Some,
        a.world.bodies.contains_key(a.nodes[h].rigid_body->0.native->0.raw),
    ensures
        ({
            let body = a.nodes[h].rigid_body->0;
            let native = body.native->0.raw;
            let was = a.world.bodies[native];
            let is = b.world.bodies[native];
            &&& b.world.bodies.contains_key(native)
            &&& body.desc_dirty ==> {
                &&& is.desc.body_type == body.desc.body_type
                &&& is.desc.gravity_scale == body.desc.gravity_scale
                &&& is.desc.linear_damping == body.desc.linear_damping
                &&& is.desc.angular_damping == body.desc.angular_damping
                &&& is.desc.additional_mass == body.desc.additional_mass
                &&& is.desc.ccd_enabled == body.desc.ccd_enabled
                &&& is.desc.locked_rotations == body.desc.locked_rotations
                &&& is.desc.locked_translations == body.desc.locked_translations
                &&& is.desc.enabled == body.desc.enabled
                &&& is.desc.position == was.desc.position
                &&& is.desc.rotation == was.desc.rotation
                &&& is.desc.can_sleep == was.desc.can_sleep
            }
            &&& !body.desc_dirty ==> is.desc == was.desc
            &&& is.inbox@.len() == was.inbox@.len() + body.actions@.len()
            &&& forall|i: int|
                0 <= i < was.inbox@.len() ==> #[trigger] is.inbox@[i] == was.inbox@[i]
            &&& forall|i: int|
                0 <= i < body.actions@.len() ==> is.inbox@[was.inbox@.len() + i]
                    == #[trigger] body.actions@[i]
            &&& is.pose == was.pose
            &&& is.target == was.target
            &&& is.linvel == was.linvel
            &&& is.angvel == was.angvel
            &&& is.sleeping == was.sleeping
            &&& is.user_data == was.user_data
        }),
        b.nodes.contains_key(h),
        b.nodes[h].rigid_body is Some,
        ({
            let before = a.nodes[h].rigid_body->0;
            let after = b.nodes[h].rigid_body->0;
            &&& after.desc == before.desc
            &&& after.native == before.native
            &&& after.actions@.len() == 0
            &&& !after.desc_dirty
            &&& after.linvel == before.linvel
            &&& after.angvel == before.angvel
            &&& after.sleeping == before.sleeping
        }),
        b.nodes.dom() == a.nodes.dom(),
        forall|x: Handle| #[trigger] a.nodes.contains_key(x) && x != h ==> b.nodes[x] == a.nodes[x],
        b.world.bodies.dom() == a.world.bodies.dom(),
        forall|x: Handle| #[trigger]
            a.world.bodies.contains_key(x) && x != a.nodes[h].rigid_body->0.native->0.raw
                ==> b.world.bodies[x] == a.world.bodies[x],
        b.world.colliders == a.world.colliders,
        b.world.joints == a.world.joints,
{
    assert(b.nodes.dom() =~= a.nodes.dom());
    assert(b.world.bodies.dom() =~= a.world.bodies.dom());
}

/// The body that a collider of a node belongs to: that of the nearest node at or above it whose body
/// the solver knows.
pub open spec fn belongs_to(nodes: Map<Handle, Node>, h: Handle, body: BodyHandle) -> bool {
    exists|n: nat|
        {
            let up = #[trigger] tree::ancestor(graph::links_of(nodes), h, n);
            &&& nodes.contains_key(up)
            &&& nodes[up].rigid_body is Some
            &&& nodes[up].rigid_body->0.native == Some(body)
            &&& forall|m: nat|
                m < n ==> {
                    let between = #[trigger] tree::ancestor(graph::links_of(nodes), h, m);
                    nodes.contains_key(between) && (nodes[between].rigid_body is None
                        || nodes[between].rigid_body->0.native is None)
                }
        }
}

/// The body that owns a node's collider.
spec fn owner(nodes: Map<Handle, Node>, h: Handle) -> Option<BodyHandle> {
    match sync::owner_of(nodes, h) {
        Some((_, body)) => Some(body),
        None => None,
    }
}

/// What binds a collider: the body it belongs to, or the world.
proof fn lemma_owner(nodes: Map<Handle, Node>, h: Handle, body: BodyHandle)
    ensures
        belongs_to(nodes, h, body) ==> (owner(nodes, h) is Some && owner(nodes, h)->0 == body),
        owner(nodes, h) is Some && owner(nodes, h)->0 == body ==> belongs_to(
            nodes,
            h,
            body,
        ),
{
    let t = graph::links_of(nodes);
    if belongs_to(nodes, h, body) {
        let n = choose|n: nat|
            {
                let up = #[trigger] tree::ancestor(t, h, n);
                &&& nodes.contains_key(up)
                &&& nodes[up].rigid_body is Some
                &&& nodes[up].rigid_body->0.native == Some(body)
                &&& forall|m: nat|
                    m < n ==> {
                        let between = #[trigger] tree::ancestor(t, h, m);
                        nodes.contains_key(between) && (nodes[between].rigid_body is None
                            || nodes[between].rigid_body->0.native is None)
                    }
            };
        assert(sync::first_native(nodes, h, n));
        let c = choose|n: nat| sync::first_native(nodes, h, n);
        assert(sync::first_native(nodes, h, c));
        if n < c {
            assert(sync::native_of(nodes, tree::ancestor(t, h, n)) is None);
        }
        if c < n {
            assert(sync::native_of(nodes, tree::ancestor(t, h, c)) is None);
        }
        assert(n == c);
    }
    if owner(nodes, h) is Some && owner(nodes, h)->0 == body {
        let c = choose|n: nat| sync::first_native(nodes, h, n);
        assert(sync::first_native(nodes, h, c));
        let up = tree::ancestor(t, h, c);
        assert(sync::native_of(nodes, up) is Some);
        assert forall|m: nat| m < c implies {
            let between = #[trigger] tree::ancestor(t, h, m);
            nodes.contains_key(between) && (nodes[between].rigid_body is None
                || nodes[between].rigid_body->0.native is None)
        } by {
            assert(sync::native_of(nodes, tree::ancestor(t, h, m)) is None);
        }
    }
}

/// A collider that the solver does not know, whose shape was changed, or which belongs to another
/// body than it was built on, is built anew with its whole description, where it now is, on the body
/// that it belongs to; its old counterpart is out of the table.
pub proof fn lemma_collider_is_built_as_described(
    a: SyncState,
    b: SyncState,
    h: Handle,
    pose: Pose,
)
    requires
        sync::collider_synced(a, b, h, pose),
        a.nodes.contains_key(h),
        a.nodes[h].collider is Some,
        a.nodes[h].collider->0.native is None || a.nodes[h].collider->0.shape_dirty || (
        a.nodes[h].collider->0.bound_to matches Some(body) && !belongs_to(a.nodes, h, body)) || (
        a.nodes[h].collider->0.bound_to is None && exists|body: BodyHandle|
            belongs_to(a.nodes, h, body)),
        forall|body: BodyHandle| #[trigger]
            belongs_to(a.nodes, h, body) ==> a.world.bodies.contains_key(body.raw),
    ensures
        b.nodes.contains_key(h),
        b.nodes[h].collider is Some,
        b.nodes[h].collider->0.native is Some,
        ({
            let desc = a.nodes[h].collider->0.desc;
            let native = b.nodes[h].collider->0.native->0.raw;
            let record = b.world.colliders[native];
            &&& b.world.colliders.contains_key(native)
            &&& !a.used.contains(native)
            &&& record.desc.shape == desc.shape
            &&& record.desc.position == pose.position
            &&& record.desc.rotation == pose.rotation
            &&& record.desc.friction == desc.friction
            &&& record.desc.restitution == desc.restitution
            &&& record.desc.is_sensor == desc.is_sensor
            &&& record.desc.collision_groups == desc.collision_groups
            &&& record.desc.collision_events == desc.collision_events
            &&& record.user_data == h.index + h.generation * 0x1_0000_0000
            &&& forall|body: BodyHandle| #[trigger]
                belongs_to(a.nodes, h, body) <==> record.parent == Some(body)
            &&& b.nodes[h].collider->0.bound_to == record.parent
            &&& a.nodes[h].collider->0.native matches Some(old) ==> old.raw == native
                || !b.world.colliders.contains_key(old.raw)
        }),
        b.nodes[h].collider->0.desc == a.nodes[h].collider->0.desc,
        !b.nodes[h].collider->0.desc_dirty,
        !b.nodes[h].collider->0.shape_dirty,
        b.nodes.dom() == a.nodes.dom(),
        forall|x: Handle| #[trigger] a.nodes.contains_key(x) && x != h ==> b.nodes[x] == a.nodes[x],
        forall|x: Handle| #[trigger]
            a.world.colliders.contains_key(x) && (a.nodes[h].collider->0.native is None || x
                != a.nodes[h].collider->0.native->0.raw) ==> b.world.colliders.contains_key(x)
                && b.world.colliders[x] == a.world.colliders[x],
        b.world.bodies == a.world.bodies,
        b.world.joints == a.world.joints,
{
    assert(b.nodes.dom() =~= a.nodes.dom());
    assert forall|body: BodyHandle| #[trigger] belongs_to(a.nodes, h, body) <==> (owner(
        a.nodes,
        h,
    ) is Some && owner(a.nodes, h)->0 == body) by {
        lemma_owner(a.nodes, h, body);
    }
    if owner(a.nodes, h) is Some {
        assert(belongs_to(a.nodes, h, owner(a.nodes, h)->0));
    }
}

/// A collider that the solver knows, still on its body and with its shape, follows its node; if its
/// description was changed, friction, restitution, whether it is a sensor, and the groups it meets
/// reach the solver too, and if not they stay. Shape, events, body and name stay in any case.
pub proof fn lemma_changed_collider_is_told(a: SyncState, b: SyncState, h: Handle, pose: Pose)
    requires
        sync::collider_synced(a, b, h, pose),
        a.nodes.contains_key(h),
        a.nodes[h].collider is Some,
        a.nodes[h].collider->0.native is Some,
        !a.nodes[h].collider->0.shape_dirty,
        forall|body: BodyHandle| #[trigger]
            belongs_to(a.nodes, h, body) <==> a.nodes[h].collider->0.bound_to == Some(body),
        a.world.colliders.contains_key(a.nodes[h].collider->0.native->0.raw),
    ensures
        b.nodes.contains_key(h),
        b.nodes[h].collider is Some,
        b.nodes[h].collider->0.native == a.nodes[h].collider->0.native,
        b.nodes[h].collider->0.bound_to == a.nodes[h].collider->0.bound_to,
        b.nodes[h].collider->0.desc == a.nodes[h].collider->0.desc,
        !b.nodes[h].collider->0.desc_dirty,
        ({
            let collider = a.nodes[h].collider->0;
            let native = collider.native->0.raw;
            let was = a.world.colliders[native];
            let is = b.world.colliders[native];
            &&& is.desc.position == pose.position
            &&& is.desc.rotation == pose.rotation
            &&& collider.desc_dirty ==> {
                &&& is.desc.friction == collider.desc.friction
                &&& is.desc.restitution == collider.desc.restitution
                &&& is.desc.is_sensor == collider.desc.is_sensor
                &&& is.desc.collision_groups == collider.desc.collision_groups
            }
            &&& !collider.desc_dirty ==> {
                &&& is.desc.friction == was.desc.friction
                &&& is.desc.restitution == was.desc.restitution
                &&& is.desc.is_sensor == was.desc.is_sensor
                &&& is.desc.collision_groups == was.desc.collision_groups
            }
            &&& is.desc.shape == was.desc.shape
            &&& is.desc.collision_events == was.desc.collision_events
            &&& is.parent == was.parent
            &&& is.user_data == was.user_data
        }),
        b.nodes.dom() == a.nodes.dom(),
        forall|x: Handle| #[trigger] a.nodes.contains_key(x) && x != h ==> b.nodes[x] == a.nodes[x],
        b.world.colliders.dom() == a.world.colliders.dom(),
        forall|x: Handle| #[trigger]
            a.world.colliders.contains_key(x) && x != a.nodes[h].collider->0.native->0.raw
                ==> b.world.colliders[x] == a.world.colliders[x],
        b.world.bodies == a.world.bodies,
        b.world.joints == a.world.joints,
{
    assert(b.nodes.dom() =~= a.nodes.dom());
    if owner(a.nodes, h) is Some {
        lemma_owner(a.nodes, h, owner(a.nodes, h)->0);
        assert(belongs_to(a.nodes, h, owner(a.nodes, h)->0));
    }
    if a.nodes[h].collider->0.bound_to is Some {
        lemma_owner(a.nodes, h, a.nodes[h].collider->0.bound_to->0);
        assert(belongs_to(a.nodes, h, a.nodes[h].collider->0.bound_to->0));
    }
    assert(b.world.colliders.dom() =~= a.world.colliders.dom());
}

/// A joint that is new or was changed stands in the table, between the bodies of the two nodes that
/// it names, in that order, with its whole description, as soon as the solver knows both. One that is
/// old and unchanged is left alone. While the solver does not know both, there is no counterpart, and
/// the one that a changed joint had is out of the table.
pub proof fn lemma_joint_is_built_as_described(a: SyncState, b: SyncState, h: Handle)
    requires
        sync::joint_synced(a, b, h),
        a.nodes.contains_key(h),
        a.nodes[h].joint is Some,
    ensures
        b.nodes.contains_key(h),
        b.nodes[h].joint is Some,
        b.nodes[h].joint->0.desc == a.nodes[h].joint->0.desc,
        b.nodes[h].joint->0.body1 == a.nodes[h].joint->0.body1,
        b.nodes[h].joint->0.body2 == a.nodes[h].joint->0.body2,
        !b.nodes[h].joint->0.dirty,
        a.nodes[h].joint->0.native is Some && !a.nodes[h].joint->0.dirty ==> b == a,
        a.nodes[h].joint->0.native is None || a.nodes[h].joint->0.dirty ==> {
            let joint = a.nodes[h].joint->0;
            let known = |x: Handle|
                a.nodes.contains_key(x) && a.nodes[x].rigid_body is Some
                    && a.nodes[x].rigid_body->0.native is Some;
            &&& known(joint.body1) && known(joint.body2) ==> {
                let native = b.nodes[h].joint->0.native->0.raw;
                let record = b.world.joints[native];
                &&& b.nodes[h].joint->0.native is Some
                &&& b.world.joints.contains_key(native)
                &&& record.desc.kind == joint.desc.kind
                &&& record.desc.local_anchor1 == joint.desc.local_anchor1
                &&& record.desc.local_anchor2 == joint.desc.local_anchor2
                &&& record.desc.local_basis1 == joint.desc.local_basis1
                &&& record.desc.local_basis2 == joint.desc.local_basis2
                &&& record.desc.contacts_enabled == joint.desc.contacts_enabled
                &&& Some(record.body1) == a.nodes[joint.body1].rigid_body->0.native
                &&& Some(record.body2) == a.nodes[joint.body2].rigid_body->0.native
                &&& joint.native matches Some(old) ==> old.raw == native
                    || !b.world.joints.contains_key(old.raw)
            }
            &&& !known(joint.body1) || !known(joint.body2) ==> {
                &&& b.nodes[h].joint->0.native is None
                &&& joint.native matches Some(old) ==> !b.world.joints.contains_key(old.raw)
            }
        },
        b.nodes.dom() == a.nodes.dom(),
        forall|x: Handle| #[trigger] a.nodes.contains_key(x) && x != h ==> b.nodes[x] == a.nodes[x],
        forall|x: Handle| #[trigger]
            a.world.joints.contains_key(x) && (a.nodes[h].joint->0.native is None || x
                != a.nodes[h].joint->0.native->0.raw) ==> b.world.joints.contains_key(x)
                && b.world.joints[x] == a.world.joints[x],
        b.world.bodies == a.world.bodies,
        b.world.colliders == a.world.colliders,
{
    assert(b.nodes.dom() =~= a.nodes.dom());
}

/// The bodies that nodes have in the table are there, and no two nodes have the same.
pub open spec fn bodies_apart(s: SyncState) -> bool {
    &&& forall|x: Handle|
        (#[trigger] sync::native_of(s.nodes, x)) matches Some(native) ==> s.world.bodies.contains_key(
            native.raw,
        )
    &&& forall|x: Handle, y: Handle|
        x != y && (#[trigger] sync::native_of(s.nodes, x)) is Some ==> sync::native_of(s.nodes, x)
            != #[trigger] sync::native_of(s.nodes, y)
}

proof fn lemma_bodies_spare(
    states: Seq<SyncState>,
    list: Seq<Handle>,
    poses: Seq<Pose>,
    h: Handle,
    from: int,
    to: int,
)
    requires
        sync::bodies_synced(states, list, poses),
        list.no_duplicates(),
        0 <= from <= to <= list.len(),
        bodies_apart(states[from]),
        forall|i: int| from <= i < to ==> #[trigger] list[i] != h,
    ensures
        bodies_apart(states[to]),
        states[to].nodes.contains_key(h) == states[from].nodes.contains_key(h),
        states[to].nodes[h] == states[from].nodes[h],
        sync::native_of(states[from].nodes, h) matches Some(native)
            ==> states[to].world.bodies.contains_key(native.raw)
            && states[to].world.bodies[native.raw] == states[from].world.bodies[native.raw],
    decreases to - from,
{
    if from < to {
        lemma_bodies_spare(states, list, poses, h, from, to - 1);
        let x = list[to - 1];
        let a = states[to - 1];
        let b = states[to];
        assert(sync::body_synced(a, b, x, poses[to - 1]));
        assert(sync::native_of(a.nodes, x) is Some || sync::native_of(a.nodes, x) is None);
        assert(sync::native_of(a.nodes, h) is Some || sync::native_of(a.nodes, h) is None);
        assert(bodies_apart(b)) by {
            lemma_bodies_stay_apart(a, b, x, poses[to - 1]);
        }
    }
}

proof fn lemma_bodies_stay_apart(a: SyncState, b: SyncState, x: Handle, pose: Pose)
    requires
        sync::body_synced(a, b, x, pose),
        bodies_apart(a),
    ensures
        bodies_apart(b),
{
    assert forall|y: Handle| y != x implies #[trigger] sync::native_of(b.nodes, y)
        == sync::native_of(a.nodes, y) by {}
    assert forall|y: Handle| (#[trigger] sync::native_of(b.nodes, y)) is Some implies
        b.world.bodies.contains_key(sync::native_of(b.nodes, y)->0.raw) by {
        assert(sync::native_of(a.nodes, y) is Some || sync::native_of(a.nodes, y) is None);
    }
    assert forall|y: Handle, z: Handle|
        y != z && (#[trigger] sync::native_of(b.nodes, y)) is Some implies sync::native_of(
        b.nodes,
        y,
    ) != #[trigger] sync::native_of(b.nodes, z) by {
        assert(sync::native_of(a.nodes, y) is Some || sync::native_of(a.nodes, y) is None);
        assert(sync::native_of(a.nodes, z) is Some || sync::native_of(a.nodes, z) is None);
    }
}

/// Once all bodies are in step, each of them agrees with where its own node stands: one that is new
/// to the solver or stays is there, one that its node moves is to be there after the next step, and
/// one that the solver moves is where the solver had it.
pub proof fn lemma_every_body_agrees(
    states: Seq<SyncState>,
    list: Seq<Handle>,
    poses: Seq<Pose>,
    k: int,
)
    requires
        sync::bodies_synced(states, list, poses),
        list.no_duplicates(),
        bodies_apart(states[0]),
        0 <= k < list.len(),
        states[0].nodes.contains_key(list[k]),
        states[0].nodes[list[k]].rigid_body is Some,
    ensures
        states.last().nodes.contains_key(list[k]),
        states.last().nodes[list[k]].rigid_body is Some,
        states.last().nodes[list[k]].rigid_body->0.native is Some,
        ({
            let body = states[0].nodes[list[k]].rigid_body->0;
            let native = states.last().nodes[list[k]].rigid_body->0.native->0.raw;
            let is = states.last().world.bodies[native];
            let was = states[0].world.bodies[native];
            &&& states.last().world.bodies.contains_key(native)
            &&& body.native is None ==> {
                &&& is.pose.position == poses[k].position
                &&& is.pose.rotation == poses[k].rotation
                &&& is.desc.body_type == body.desc.body_type
                &&& is.user_data == list[k].index + list[k].generation * 0x1_0000_0000
            }
            &&& body.native is Some && body.desc.body_type == RigidBodyType::Fixed ==> is.pose
                == poses[k] || is.pose == was.pose && was.pose.equals(poses[k])
            &&& body.native is Some && body.desc.body_type == RigidBodyType::KinematicPositionBased
                ==> is.target == Some(poses[k])
            &&& body.native is Some && body.desc.body_type == RigidBodyType::Dynamic ==> is == was
            &&& body.native is Some ==> body.native->0.raw == native
        }),
{
    let h = list[k];
    let n = list.len() as int;
    assert forall|i: int| 0 <= i < n && i != k implies #[trigger] list[i] != h by {}
    assert(sync::native_of(states[0].nodes, h) == states[0].nodes[h].rigid_body->0.native);
    lemma_bodies_spare(states, list, poses, h, 0, k);
    assert(sync::body_synced(states[k], states[k + 1], list[k], poses[k]));
    if states[0].nodes[h].rigid_body->0.native is None {
        lemma_new_body_is_entered(states[k], states[k + 1], h, poses[k]);
    } else {
        lemma_known_body_is_driven(states[k], states[k + 1], h, poses[k]);
    }
    lemma_bodies_stay_apart(states[k], states[k + 1], h, poses[k]);
    assert(sync::native_of(states[k + 1].nodes, h) == states[k + 1].nodes[h].rigid_body->0.native);
    lemma_bodies_spare(states, list, poses, h, k + 1, n);
}

/// A node whose body moves stands, after reading back, where the solver put the body, with the scale
/// that it had, and knows how fast the body moves and whether it sleeps. A node whose body stays is
/// where it was. Nothing else changes.
pub proof fn lemma_body_is_read_back(a: SyncState, b: SyncState, h: Handle, local: Pose)
    requires
        sync::body_read(a, b, h, local),
        a.nodes.contains_key(h),
        a.nodes[h].rigid_body is Some,
        a.nodes[h].rigid_body->0.native is Some,
        a.world.bodies.contains_key(a.nodes[h].rigid_body->0.native->0.raw),
    ensures
        ({
            let body = a.nodes[h].rigid_body->0;
            let record = a.world.bodies[body.native->0.raw];
            &&& body.desc.body_type == RigidBodyType::Fixed ==> b.nodes[h] == a.nodes[h]
            &&& body.desc.body_type != RigidBodyType::Fixed ==> {
                &&& b.nodes[h].transform.position == local.position
                &&& b.nodes[h].transform.rotation == local.rotation
                &&& b.nodes[h].transform.scale == a.nodes[h].transform.scale
                &&& b.nodes[h].rigid_body is Some
                &&& b.nodes[h].rigid_body->0.linvel == record.linvel
                &&& b.nodes[h].rigid_body->0.angvel == record.angvel
                &&& b.nodes[h].rigid_body->0.sleeping == record.sleeping
                &&& b.nodes[h].rigid_body->0.desc == body.desc
                &&& b.nodes[h].rigid_body->0.native == body.native
                &&& b.nodes[h].rigid_body->0.actions == body.actions
                &&& b.nodes[h].rigid_body->0.desc_dirty == body.desc_dirty
            }
        }),
        b.nodes[h].visible == a.nodes[h].visible,
        b.nodes[h].name == a.nodes[h].name,
        b.nodes[h].collider == a.nodes[h].collider,
        b.nodes.dom() == a.nodes.dom(),
        forall|x: Handle| #[trigger] a.nodes.contains_key(x) && x != h ==> b.nodes[x] == a.nodes[x],
        b.world == a.world,
{
}

/// The pose that is read back for a node is the one that the solver has for its body; there is none
/// for a body that stays or that the solver does not know.
pub proof fn lemma_simulated_is_the_solvers(scene: &Scene, h: Handle)
    requires
        scene.nodes@.contains_key(h),
        scene.nodes@[h].rigid_body is Some,
    ensures
        ({
            let body = scene.nodes@[h].rigid_body->0;
            &&& body.desc.body_type == RigidBodyType::Fixed || body.native is None ==> scene.simulated(
                h,
            ) is None
            &&& body.desc.body_type != RigidBodyType::Fixed && body.native is Some
                && scene.physics.bodies@.contains_key(body.native->0.raw) ==> {
                &&& scene.simulated(h) is Some
                &&& scene.simulated(h)->0.position
                    == scene.physics.bodies@[body.native->0.raw].pose.position
                &&& scene.simulated(h)->0.rotation
                    == scene.physics.bodies@[body.native->0.raw].pose.rotation
            }
        }),
{
}

/// The word that a body or a collider of a node bears leads back to that node, for as long as it is
/// there, and to none after.
pub proof fn lemma_user_word_leads_back(scene: &Scene, h: Handle, word: u128)
    requires
        word == h.index + h.generation * 0x1_0000_0000,
    ensures
        scene.nodes@.contains_key(h) ==> scene.named(word) == Some(h),
        !scene.nodes@.contains_key(h) ==> scene.named(word) is None,
{
    assert(h.encoded() == word);
    assert forall|x: Handle| #[trigger] x.encoded() == word implies x == h by {
        crate::pool::lemma_encoding_is_injective(x, h);
    }
}

/// What is asked of a body waits behind what was asked of it before; nothing else of it changes.
pub proof fn lemma_action_waits(after: RigidBody, before: RigidBody, action: BodyAction)
    requires
        after.queued(before, action),
    ensures
        after.actions@.len() == before.actions@.len() + 1,
        after.actions@[before.actions@.len() as int] == action,
        forall|i: int|
            0 <= i < before.actions@.len() ==> #[trigger] after.actions@[i] == before.actions@[i],
        after.desc == before.desc,
        after.native == before.native,
        after.desc_dirty == before.desc_dirty,
        after.linvel == before.linvel,
        after.angvel == before.angvel,
        after.sleeping == before.sleeping,
{
}

/// A body that is given another type has that type, which is to be pushed; given the one that it has,
/// it stays as it is.
pub proof fn lemma_type_is_changed(body: RigidBody, body_type: RigidBodyType)
    ensures
        body.retyped(body_type).desc.body_type == body_type,
        body.desc.body_type == body_type ==> body.retyped(body_type) == body,
        body.desc.body_type != body_type ==> body.retyped(body_type).desc_dirty,
        body.retyped(body_type).desc.gravity_scale == body.desc.gravity_scale,
        body.retyped(body_type).actions == body.actions,
        body.retyped(body_type).native == body.native,
{
}

} // verus!
