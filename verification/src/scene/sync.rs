//! Keeping the scene and the solver's table in step.
//!
//! A frame runs [`Scene::sync_bodies_to_physics`], [`Scene::sync_colliders_to_physics`] and [`Scene::finish_sync`], lets
//! the solver step, and then reads each body back. Poses are handed in by the caller, who
//! multiplies the matrices along [`Scene::ancestry`].

use crate::numbers::{Pose, Real, Transform, Vec3};
use crate::pool::Handle;
use crate::scene::graph;
use crate::scene::graph::{Scene, WorldModel};
use crate::scene::node::Node;
use crate::scene::physics::{
    BodyHandle, BodyRecord, Collider, ColliderDesc, ColliderHandle, ColliderRecord, CollisionEvent,
    Joint, JointRecord, PhysicsWorld, RigidBody, RigidBodyDesc, RigidBodyType,
};
use crate::tree;
use vstd::prelude::*;

verus! {

/// What synchronising reads and writes.
#[verifier::ext_equal]
pub struct SyncState {
    pub nodes: Map<Handle, Node>,
    pub world: WorldModel,
    /// The names of all colliders that there are or have been in the table.
    pub used: Set<Handle>,
}

/// The counterpart of a node's body in the solver's table.
pub open spec fn native_of(nodes: Map<Handle, Node>, h: Handle) -> Option<BodyHandle> {
    if nodes.contains_key(h) {
        match nodes[h].rigid_body {
            Some(body) => body.native,
            None => None,
        }
    } else {
        None
    }
}

/// Going up from `h`, the node after `n` steps is the first whose body has a counterpart.
pub open spec fn first_native(nodes: Map<Handle, Node>, h: Handle, n: nat) -> bool {
    let t = graph::links_of(nodes);
    &&& native_of(nodes, tree::ancestor(t, h, n)) is Some
    &&& forall|m: nat|
        m < n ==> nodes.contains_key(#[trigger] tree::ancestor(t, h, m)) && native_of(
            nodes,
            tree::ancestor(t, h, m),
        ) is None
}

/// The nearest node at or above `h` whose body has a counterpart, with that counterpart.
pub open spec fn owner_of(nodes: Map<Handle, Node>, h: Handle) -> Option<(Handle, BodyHandle)> {
    if exists|n: nat| first_native(nodes, h, n) {
        let n = choose|n: nat| first_native(nodes, h, n);
        let node = tree::ancestor(graph::links_of(nodes), h, n);
        Some((node, native_of(nodes, node)->0))
    } else {
        None
    }
}

proof fn lemma_first_is_unique(nodes: Map<Handle, Node>, h: Handle, m: nat, n: nat)
    requires
        first_native(nodes, h, m),
        first_native(nodes, h, n),
    ensures
        m == n,
{
    let t = graph::links_of(nodes);
    if m < n {
        assert(native_of(nodes, tree::ancestor(t, h, m)) is None);
    }
    if n < m {
        assert(native_of(nodes, tree::ancestor(t, h, n)) is None);
    }
}

impl WorldModel {
    /// The table once a node has told the body that it drives where to be. A body that stays is
    /// moved only where that is a change; one that its node moves gets a target; any other is
    /// left to the solver.
    pub open spec fn driven(self, body: BodyHandle, body_type: RigidBodyType, pose: Pose) -> WorldModel {
        if self.bodies.contains_key(body.raw) {
            let record = self.bodies[body.raw];
            match body_type {
                RigidBodyType::Fixed if !record.pose.equals(pose) => WorldModel {
                    bodies: self.bodies.insert(body.raw, BodyRecord { pose, ..record }),
                    ..self
                },
                RigidBodyType::KinematicPositionBased => WorldModel {
                    bodies: self.bodies.insert(
                        body.raw,
                        BodyRecord { target: Some(pose), ..record },
                    ),
                    ..self
                },
                _ => self,
            }
        } else {
            self
        }
    }
}

/// One body brought in step.
pub open spec fn body_synced(a: SyncState, b: SyncState, h: Handle, pose: Pose) -> bool {
    if a.nodes.contains_key(h) && a.nodes[h].rigid_body is Some {
        let body = a.nodes[h].rigid_body->0;
        match body.native {
            None => {
                let native = native_of(b.nodes, h);
                &&& native is Some
                &&& !a.world.bodies.contains_key(native->0.raw)
                &&& b.nodes == a.nodes.insert(
                    h,
                    Node { rigid_body: Some(RigidBody { native, ..body }), ..a.nodes[h] },
                )
                &&& b.world == (WorldModel {
                    bodies: a.world.bodies.insert(
                        native->0.raw,
                        b.world.bodies[native->0.raw],
                    ),
                    ..a.world
                })
                &&& b.world.bodies[native->0.raw].fresh(
                    RigidBodyDesc { position: pose.position, rotation: pose.rotation, ..body.desc },
                    h.encoded() as u128,
                )
                &&& b.used == a.used
            },
            Some(native) => {
                &&& b.nodes == a.nodes
                &&& b.world == a.world.driven(native, body.desc.body_type, pose)
                &&& b.used == a.used
            },
        }
    } else {
        b == a
    }
}

/// One collider brought in step. It is built anew if it has no counterpart, if it belongs to
/// another body now, or if its shape was changed.
pub open spec fn collider_synced(a: SyncState, b: SyncState, h: Handle, pose: Pose) -> bool {
    if a.nodes.contains_key(h) && a.nodes[h].collider is Some {
        let node = a.nodes[h];
        let collider = node.collider->0;
        let desc = ColliderDesc {
            position: pose.position,
            rotation: pose.rotation,
            ..collider.desc
        };
        let parent = match owner_of(a.nodes, h) {
            Some((_, body)) => Some(body),
            None => None,
        };
        if collider.native is None || collider.bound_to != parent || collider.shape_dirty {
            let cleared = a.world.without_collider(collider.native);
            let native = b.nodes[h].collider->0.native;
            &&& native is None <==> (parent matches Some(body) && !a.world.bodies.contains_key(
                body.raw,
            ))
            &&& b.nodes == a.nodes.insert(
                h,
                Node {
                    collider: Some(
                        Collider {
                            native,
                            bound_to: parent,
                            desc_dirty: false,
                            shape_dirty: false,
                            ..collider
                        },
                    ),
                    ..node
                },
            )
            &&& match native {
                Some(native) => {
                    &&& !a.used.contains(native.raw)
                    &&& b.used == a.used.insert(native.raw)
                    &&& !cleared.colliders.contains_key(native.raw)
                    &&& b.world == (WorldModel {
                        colliders: cleared.colliders.insert(
                            native.raw,
                            ColliderRecord { desc, parent, user_data: h.encoded() as u128 },
                        ),
                        ..cleared
                    })
                },
                None => b.world == cleared && b.used == a.used,
            }
        } else {
            &&& b.used == a.used
            &&& b.nodes == a.nodes.insert(
                h,
                Node { collider: Some(Collider { desc_dirty: false, ..collider }), ..node },
            )
            &&& b.world == a.world.collider_told(collider.native->0, desc, collider.desc_dirty)
        }
    } else {
        b == a
    }
}

impl WorldModel {
    /// The table once a collider was moved and, if `all`, told its surface too.
    pub open spec fn collider_told(
        self,
        collider: ColliderHandle,
        desc: ColliderDesc,
        all: bool,
    ) -> WorldModel {
        if self.colliders.contains_key(collider.raw) {
            let record = self.colliders[collider.raw];
            let moved = ColliderDesc {
                position: desc.position,
                rotation: desc.rotation,
                ..record.desc
            };
            let told = ColliderDesc {
                friction: desc.friction,
                restitution: desc.restitution,
                is_sensor: desc.is_sensor,
                collision_groups: desc.collision_groups,
                ..moved
            };
            WorldModel {
                colliders: self.colliders.insert(
                    collider.raw,
                    ColliderRecord {
                        desc: if all {
                            told
                        } else {
                            moved
                        },
                        ..record
                    },
                ),
                ..self
            }
        } else {
            self
        }
    }
}

/// One joint brought in step. It is built once both of its bodies have counterparts, and built
/// anew after it was changed; while one of its bodies has none, there is no counterpart of it.
pub open spec fn joint_synced(a: SyncState, b: SyncState, h: Handle) -> bool {
    if a.nodes.contains_key(h) && a.nodes[h].joint is Some {
        let node = a.nodes[h];
        let joint = node.joint->0;
        let body1 = native_of(a.nodes, joint.body1);
        let body2 = native_of(a.nodes, joint.body2);
        let old = if joint.dirty {
            joint.native
        } else {
            None
        };
        if joint.native is Some && !joint.dirty {
            b == a
        } else if body1 is None || body2 is None {
            &&& b.world == a.world.without_joint(old)
            &&& b.used == a.used
            &&& b.nodes == a.nodes.insert(
                h,
                Node { joint: Some(Joint { dirty: false, native: None, ..joint }), ..node },
            )
        } else {
            let native = b.nodes[h].joint->0.native;
            let cleared = a.world.without_joint(old);
            &&& native is Some
            &&& b.used == a.used
            &&& !cleared.joints.contains_key(native->0.raw)
            &&& b.nodes == a.nodes.insert(
                h,
                Node { joint: Some(Joint { dirty: false, native, ..joint }), ..node },
            )
            &&& b.world == (WorldModel {
                joints: cleared.joints.insert(
                    native->0.raw,
                    JointRecord { desc: joint.desc, body1: body1->0, body2: body2->0 },
                ),
                ..cleared
            })
        }
    } else {
        b == a
    }
}

/// What waits at one body handed over.
pub open spec fn body_flushed(a: SyncState, b: SyncState, h: Handle) -> bool {
    if a.nodes.contains_key(h) && a.nodes[h].rigid_body is Some {
        let body = a.nodes[h].rigid_body->0;
        let after = b.nodes[h].rigid_body;
        &&& after is Some
        &&& after->0.flushed(body)
        &&& b.used == a.used
        &&& b.nodes == a.nodes.insert(h, Node { rigid_body: after, ..a.nodes[h] })
        &&& match body.native {
            Some(native) if a.world.bodies.contains_key(native.raw) => {
                let record = b.world.bodies[native.raw];
                &&& b.world == (WorldModel {
                    bodies: a.world.bodies.insert(native.raw, record),
                    ..a.world
                })
                &&& record.told(a.world.bodies[native.raw], body)
            },
            _ => b.world == a.world,
        }
    } else {
        b == a
    }
}

/// What the solver made of a body written back to its node: `local` is where it put it, relative to
/// what the node hangs under. A body that stays, or that the solver does not know, writes nothing.
pub open spec fn body_read(a: SyncState, b: SyncState, h: Handle, local: Pose) -> bool {
    let known = a.nodes.contains_key(h) && a.nodes[h].rigid_body is Some && (
    a.nodes[h].rigid_body->0.native matches Some(native) && a.world.bodies.contains_key(
        native.raw,
    )) && a.nodes[h].rigid_body->0.desc.body_type != RigidBodyType::Fixed;
    &&& b.world == a.world
    &&& b.nodes.dom() == a.nodes.dom()
    &&& forall|x: Handle|
        (x != h || !known) && #[trigger] a.nodes.contains_key(x) ==> b.nodes[x] == a.nodes[x]
    &&& known ==> {
        let body = a.nodes[h].rigid_body->0;
        let record = a.world.bodies[body.native->0.raw];
        b.nodes[h] == (Node {
            transform: a.nodes[h].transform.moved_to(local),
            rigid_body: Some(
                RigidBody {
                    linvel: record.linvel,
                    angvel: record.angvel,
                    sleeping: record.sleeping,
                    ..body
                },
            ),
            ..a.nodes[h]
        })
    }
}

/// The bodies in `list` brought in step one after the other; `states` holds what there was before
/// each of them, and what there is at the end.
pub open spec fn bodies_synced(states: Seq<SyncState>, list: Seq<Handle>, poses: Seq<Pose>) -> bool {
    &&& states.len() == list.len() + 1
    &&& forall|i: int|
        0 <= i < list.len() ==> body_synced(states[i], states[i + 1], #[trigger] list[i], poses[i])
}

/// As [`bodies_synced`], for colliders.
pub open spec fn colliders_synced(
    states: Seq<SyncState>,
    list: Seq<Handle>,
    poses: Seq<Pose>,
) -> bool {
    &&& states.len() == list.len() + 1
    &&& forall|i: int|
        0 <= i < list.len() ==> collider_synced(
            states[i],
            states[i + 1],
            #[trigger] list[i],
            poses[i],
        )
}

/// As [`bodies_synced`], for joints.
pub open spec fn joints_synced(states: Seq<SyncState>, list: Seq<Handle>) -> bool {
    &&& states.len() == list.len() + 1
    &&& forall|i: int|
        0 <= i < list.len() ==> joint_synced(states[i], states[i + 1], #[trigger] list[i])
}

/// As [`bodies_synced`], for what waits at the bodies.
pub open spec fn bodies_flushed(states: Seq<SyncState>, list: Seq<Handle>) -> bool {
    &&& states.len() == list.len() + 1
    &&& forall|i: int|
        0 <= i < list.len() ==> body_flushed(states[i], states[i + 1], #[trigger] list[i])
}

impl Scene {
    pub open spec fn sync_state(&self) -> SyncState {
        SyncState {
            nodes: self.nodes@,
            world: self.physics.model(),
            used: Set::new(|h: Handle| self.physics.colliders.issued(h)),
        }
    }

    /// Everything that synchronising leaves alone is as in `before`.
    pub open spec fn sync_kept(&self, before: &Scene) -> bool {
        &&& self.tree() == before.tree()
        &&& self.nodes.capacity() == before.nodes.capacity()
        &&& forall|h: Handle| self.nodes.issued(h) == before.nodes.issued(h)
        &&& self.index == before.index
        &&& self.rest_same(before)
        &&& self.physics.events == before.physics.events
        &&& self.physics.succeeds(&before.physics)
    }

    /// The transforms that take a node into the world, its own first and the root's last, as they
    /// are at this moment; none if the node is not there.
    pub fn world_chain(&self, handle: Handle) -> (result: Vec<Transform>)
        requires
            self.wf(),
        ensures
            result@.len() == 0 <==> !self.nodes@.contains_key(handle),
            forall|i: int|
                0 <= i < result@.len() ==> #[trigger] result@[i] == self.nodes@[tree::ancestor(
                    self.tree(),
                    handle,
                    i as nat,
                )].transform,
            result@.len() > 0 ==> tree::ancestor(
                self.tree(),
                handle,
                (result@.len() - 1) as nat,
            ) == self.root,
    {
        let line = self.ancestry(handle);
        let mut result: Vec<Transform> = Vec::new();
        let mut i: usize = 0;
        while i < line.len()
            invariant
                self.wf(),
                i <= line@.len(),
                result@.len() == i,
                forall|j: int| 0 <= j < line@.len() ==> self.nodes@.contains_key(#[trigger] line@[j]),
                forall|j: int|
                    0 <= j < i ==> #[trigger] result@[j] == self.nodes@[line@[j]].transform,
            decreases line@.len() - i,
        {
            assert(self.nodes@.contains_key(line@[i as int]));
            result.push(self.nodes.borrow(line[i]).transform);
            i += 1;
        }
        assert forall|j: int| 0 <= j < result@.len() implies #[trigger] result@[j]
            == self.nodes@[tree::ancestor(self.tree(), handle, j as nat)].transform by {
            assert(line@[j] == tree::ancestor(self.tree(), handle, j as nat));
        }
        proof {
            if line@.len() > 0 {
                assert(line@[line@.len() - 1] == tree::ancestor(
                    self.tree(),
                    handle,
                    (line@.len() - 1) as nat,
                ));
            }
        }
        result
    }

    /// The node and everything above it, ending at the root; empty if the node is not there.
    pub fn ancestry(&self, handle: Handle) -> (result: Vec<Handle>)
        requires
            self.wf(),
        ensures
            !self.nodes@.contains_key(handle) ==> result@.len() == 0,
            self.nodes@.contains_key(handle) ==> result@.len() > 0 && result@.last() == self.root,
            forall|i: int|
                0 <= i < result@.len() ==> #[trigger] result@[i] == tree::ancestor(
                    self.tree(),
                    handle,
                    i as nat,
                ) && self.nodes@.contains_key(result@[i]),
            forall|i: int| 0 <= i < result@.len() - 1 ==> #[trigger] result@[i] != self.root,
    {
        let mut result: Vec<Handle> = Vec::new();
        if !self.nodes.is_valid_handle(handle) {
            return result;
        }
        let ghost t = self.tree();
        let ghost (rank, bound) = choose|rank: Map<Handle, nat>, bound: nat| tree::ranked(t, rank, bound);
        let mut current = handle;
        loop
            invariant
                self.wf(),
                t == self.tree(),
                tree::ranked(t, rank, bound),
                self.nodes@.contains_key(handle),
                self.nodes@.contains_key(current),
                current == tree::ancestor(t, handle, result@.len()),
                forall|i: int|
                    0 <= i < result@.len() ==> #[trigger] result@[i] == tree::ancestor(
                        t,
                        handle,
                        i as nat,
                    ) && self.nodes@.contains_key(result@[i]) && result@[i] != self.root,
            decreases bound - rank[current],
        {
            result.push(current);
            if current == self.root {
                return result;
            }
            let next = self.nodes.borrow(current).parent;
            proof {
                assert(t[current].parent == next);
                assert(t[next].children.contains(current));
                let k = choose|k: int|
                    0 <= k < t[next].children.len() && t[next].children[k] == current;
                assert(rank[t[next].children[k]] < rank[next]);
                assert(rank[next] < bound);
            }
            current = next;
        }
    }

    /// The nearest node at or above this one whose body has a counterpart, with that counterpart.
    pub fn nearest_body_node(&self, handle: Handle) -> (result: Option<(Handle, BodyHandle)>)
        requires
            self.wf(),
        ensures
            result == owner_of(self.nodes@, handle),
    {
        let path = self.ancestry(handle);
        let ghost t = self.tree();
        let ghost nodes = self.nodes@;
        let mut i: usize = 0;
        while i < path.len()
            invariant
                self.wf(),
                nodes == self.nodes@,
                t == graph::links_of(nodes),
                i <= path@.len(),
                forall|j: int|
                    0 <= j < path@.len() ==> #[trigger] path@[j] == tree::ancestor(
                        t,
                        handle,
                        j as nat,
                    ) && nodes.contains_key(path@[j]),
                forall|j: int| 0 <= j < i ==> native_of(nodes, #[trigger] path@[j]) is None,
            decreases path@.len() - i,
        {
            let current = path[i];
            assert(path@[i as int] == current);
            if let Some(body) = &self.nodes.borrow(current).rigid_body {
                if let Some(native) = body.native {
                    proof {
                        let n = i as nat;
                        assert forall|m: nat| m < n implies nodes.contains_key(
                            #[trigger] tree::ancestor(t, handle, m),
                        ) && native_of(nodes, tree::ancestor(t, handle, m)) is None by {
                            assert(path@[m as int] == tree::ancestor(t, handle, m));
                        }
                        assert(first_native(nodes, handle, n));
                        let c = choose|n: nat| first_native(nodes, handle, n);
                        lemma_first_is_unique(nodes, handle, n, c);
                    }
                    return Some((current, native));
                }
            }
            i += 1;
        }
        proof {
            if exists|n: nat| first_native(nodes, handle, n) {
                let n = choose|n: nat| first_native(nodes, handle, n);
                if path@.len() == 0 {
                    if n > 0 {
                        assert(nodes.contains_key(tree::ancestor(t, handle, 0)));
                    }
                } else if n < path@.len() {
                    assert(path@[n as int] == tree::ancestor(t, handle, n));
                } else {
                    let top = (path@.len() - 1) as nat;
                    assert(path@[top as int] == tree::ancestor(t, handle, top));
                    assert(tree::ancestor(t, handle, path@.len()) == t[self.root].parent);
                    assert(tree::ancestor(t, handle, path@.len()) == Handle::none());
                    assert(!t.contains_key(Handle::none()));
                    if n > path@.len() {
                        assert(nodes.contains_key(tree::ancestor(t, handle, path@.len())));
                    }
                }
            }
        }
        None
    }

    /// Brings one body in step: without a counterpart it gets one that stands at `pose`, and a body
    /// that its node drives is told where to be.
    pub fn sync_body(&mut self, handle: Handle, pose: Pose)
        requires
            old(self).wf(),
            old(self).physics.bodies.capacity() < u32::MAX,
        ensures
            final(self).wf(),
            body_synced(old(self).sync_state(), final(self).sync_state(), handle, pose),
            final(self).sync_kept(old(self)),
            final(self).physics.bodies.capacity() <= old(self).physics.bodies.capacity() + 1,
            final(self).physics.colliders == old(self).physics.colliders,
            final(self).physics.joints == old(self).physics.joints,
    {
        let (native, desc) = match self.nodes.try_borrow(handle) {
            Some(node) => match &node.rigid_body {
                Some(body) => (body.native, body.desc),
                None => {
                    return;
                },
            },
            None => {
                return;
            },
        };
        proof {
            graph::lemma_place_kept(self.nodes@, handle);
            self.physics.bodies.lemma_live_is_issued();
        }
        match native {
            None => {
                let mut desc = desc;
                desc.position = pose.position;
                desc.rotation = pose.rotation;
                let native = self.physics.add_body(&desc, handle.encode_to_u128());
                match &mut self.nodes.borrow_mut(handle).rigid_body {
                    Some(body) => {
                        body.set_native(Some(native));
                    },
                    None => {},
                }
            },
            Some(native) => match desc.body_type {
                RigidBodyType::Fixed => {
                    if let Some(record) = self.physics.bodies.try_borrow_mut(native.raw) {
                        if !record.pose.same_value(pose) {
                            record.pose = pose;
                        }
                    }
                },
                RigidBodyType::KinematicPositionBased => {
                    if let Some(record) = self.physics.bodies.try_borrow_mut(native.raw) {
                        record.target = Some(pose);
                    }
                },
                _ => {},
            },
        }
        proof {
            if native is Some {
                let told = old(self).physics.model().driven(native->0, desc.body_type, pose);
                assert(self.physics.bodies@ =~= told.bodies);
            }
        }
    }

    /// Brings one collider in step. `pose` is relative to the body that owns it, or in the world
    /// if none does.
    pub fn sync_collider(&mut self, handle: Handle, pose: Pose)
        requires
            old(self).wf(),
            old(self).physics.colliders.capacity() < u32::MAX,
        ensures
            final(self).wf(),
            collider_synced(old(self).sync_state(), final(self).sync_state(), handle, pose),
            final(self).sync_kept(old(self)),
            final(self).physics.colliders.capacity() <= old(self).physics.colliders.capacity() + 1,
            final(self).physics.bodies == old(self).physics.bodies,
            final(self).physics.joints == old(self).physics.joints,
    {
        let collider = match self.nodes.try_borrow(handle) {
            Some(node) => match node.collider {
                Some(collider) => collider,
                None => {
                    return;
                },
            },
            None => {
                return;
            },
        };
        let parent = match self.nearest_body_node(handle) {
            Some((_, body)) => Some(body),
            None => None,
        };
        proof {
            graph::lemma_place_kept(self.nodes@, handle);
            self.physics.colliders.lemma_live_is_issued();
        }
        let ghost node = self.nodes@[handle];
        let mut collider = collider;
        let ghost before = collider;
        let shape_changed = collider.take_shape_dirty();
        let desc_changed = collider.take_desc_dirty();
        let mut desc = collider.desc;
        desc.position = pose.position;
        desc.rotation = pose.rotation;
        match collider.native {
            Some(native) if collider.bound_to == parent && !shape_changed => {
                if let Some(record) = self.physics.colliders.try_borrow_mut(native.raw) {
                    if desc_changed {
                        record.desc.friction = desc.friction;
                        record.desc.restitution = desc.restitution;
                        record.desc.is_sensor = desc.is_sensor;
                        record.desc.collision_groups = desc.collision_groups;
                    }
                    record.desc.position = desc.position;
                    record.desc.rotation = desc.rotation;
                }
                proof {
                    assert(self.physics.colliders@ =~= old(self).physics.model().collider_told(
                        native,
                        desc,
                        before.desc_dirty,
                    ).colliders);
                }
            },
            _ => {
                if let Some(native) = collider.native {
                    self.physics.remove_collider(native);
                }
                collider.native = self.physics.add_collider(
                    &desc,
                    parent,
                    handle.encode_to_u128(),
                );
                collider.bound_to = parent;
            },
        }
        self.nodes.borrow_mut(handle).collider = Some(collider);
        proof {
            let now = self.sync_state().used;
            let was = old(self).sync_state().used;
            if before.native is None || before.bound_to != parent || before.shape_dirty {
                match collider.native {
                    Some(native) => {
                        assert(now =~= was.insert(native.raw));
                    },
                    None => {
                        assert(now =~= was);
                    },
                }
            } else {
                assert(now =~= was);
            }
        }
    }

    fn native_body(&self, handle: Handle) -> (result: Option<BodyHandle>)
        ensures
            result == native_of(self.nodes@, handle),
    {
        match self.nodes.try_borrow(handle) {
            Some(node) => match &node.rigid_body {
                Some(body) => body.native,
                None => None,
            },
            None => None,
        }
    }

    /// Brings one joint in step. While one of its bodies has no counterpart it waits.
    pub fn sync_joint(&mut self, handle: Handle)
        requires
            old(self).wf(),
            old(self).physics.joints.capacity() < u32::MAX,
        ensures
            final(self).wf(),
            joint_synced(old(self).sync_state(), final(self).sync_state(), handle),
            final(self).sync_kept(old(self)),
            final(self).physics.joints.capacity() <= old(self).physics.joints.capacity() + 1,
            final(self).physics.bodies == old(self).physics.bodies,
            final(self).physics.colliders == old(self).physics.colliders,
    {
        let joint = match self.nodes.try_borrow(handle) {
            Some(node) => match node.joint {
                Some(joint) => joint,
                None => {
                    return;
                },
            },
            None => {
                return;
            },
        };
        if joint.native.is_some() && !joint.dirty {
            return;
        }
        proof {
            graph::lemma_place_kept(self.nodes@, handle);
            self.physics.joints.lemma_live_is_issued();
        }
        let native1 = self.native_body(joint.body1);
        let native2 = self.native_body(joint.body2);
        let mut changed = joint;
        changed.dirty = false;
        changed.native = None;
        if let Some(native) = joint.native {
            self.physics.remove_joint(native);
        }
        if let Some(body1) = native1 {
            if let Some(body2) = native2 {
                changed.native = Some(self.physics.add_joint(body1, body2, &joint.desc));
            }
        }
        self.nodes.borrow_mut(handle).joint = Some(changed);
    }

    /// Hands over what waits at one body.
    pub fn flush_body(&mut self, handle: Handle)
        requires
            old(self).wf(),
        ensures
            final(self).wf(),
            body_flushed(old(self).sync_state(), final(self).sync_state(), handle),
            final(self).sync_kept(old(self)),
            final(self).physics.bodies.capacity() == old(self).physics.bodies.capacity(),
            final(self).physics.colliders == old(self).physics.colliders,
            final(self).physics.joints == old(self).physics.joints,
    {
        proof {
            graph::lemma_place_kept(self.nodes@, handle);
            self.physics.bodies.lemma_live_is_issued();
        }
        if let Some(node) = self.nodes.try_borrow_mut(handle) {
            if let Some(body) = &mut node.rigid_body {
                body.flush(&mut self.physics);
            }
        }
        proof {
            if old(self).nodes@.contains_key(handle) {
                assert(self.nodes@ =~= old(self).nodes@.insert(handle, self.nodes@[handle]));
                if old(self).nodes@[handle].rigid_body is None {
                    assert(self.nodes@ =~= old(self).nodes@);
                }
            }
        }
    }

    /// Brings all bodies in step; `poses` holds where the node of each stands in the world.
    pub fn sync_bodies_to_physics(&mut self, poses: &Vec<Pose>)
        requires
            old(self).wf(),
            poses@.len() == old(self).index.rigid_bodies@.len(),
            old(self).physics.bodies.capacity() + poses@.len() <= u32::MAX,
        ensures
            final(self).wf(),
            exists|states: Seq<SyncState>|
                {
                    &&& #[trigger] bodies_synced(
                        states,
                        old(self).index.rigid_bodies@,
                        poses@,
                    )
                    &&& states[0] == old(self).sync_state()
                    &&& states.last() == final(self).sync_state()
                },
            final(self).sync_kept(old(self)),
            final(self).physics.bodies.capacity() <= old(self).physics.bodies.capacity()
                + poses@.len(),
            final(self).physics.colliders == old(self).physics.colliders,
            final(self).physics.joints == old(self).physics.joints,
    {
        let ghost mut states: Seq<SyncState> = seq![self.sync_state()];
        let mut i: usize = 0;
        while i < self.index.rigid_bodies.len()
            invariant
                self.wf(),
                i <= poses@.len(),
                self.index == old(self).index,
                poses@.len() == self.index.rigid_bodies@.len(),
                states.len() == i + 1,
                states[0] == old(self).sync_state(),
                states[i as int] == self.sync_state(),
                forall|j: int|
                    0 <= j < i ==> body_synced(
                        states[j],
                        states[j + 1],
                        #[trigger] self.index.rigid_bodies@[j],
                        poses@[j],
                    ),
                self.sync_kept(old(self)),
                self.physics.bodies.capacity() <= old(self).physics.bodies.capacity() + i,
                old(self).physics.bodies.capacity() + poses@.len() <= u32::MAX,
                self.physics.colliders == old(self).physics.colliders,
                self.physics.joints == old(self).physics.joints,
            decreases poses@.len() - i,
        {
            let handle = self.index.rigid_bodies[i];
            self.sync_body(handle, poses[i]);
            proof {
                states = states.push(self.sync_state());
            }
            i += 1;
        }
        assert(bodies_synced(states, old(self).index.rigid_bodies@, poses@));
    }

    /// Brings all colliders in step; `poses` holds where each is, relative to the body that owns it
    /// or in the world if none does.
    pub fn sync_colliders_to_physics(&mut self, poses: &Vec<Pose>)
        requires
            old(self).wf(),
            poses@.len() == old(self).index.colliders@.len(),
            old(self).physics.colliders.capacity() + poses@.len() <= u32::MAX,
        ensures
            final(self).wf(),
            exists|states: Seq<SyncState>|
                {
                    &&& #[trigger] colliders_synced(states, old(self).index.colliders@, poses@)
                    &&& states[0] == old(self).sync_state()
                    &&& states.last() == final(self).sync_state()
                },
            final(self).sync_kept(old(self)),
            final(self).physics.colliders.capacity() <= old(self).physics.colliders.capacity()
                + poses@.len(),
            final(self).physics.bodies == old(self).physics.bodies,
            final(self).physics.joints == old(self).physics.joints,
    {
        let ghost mut states: Seq<SyncState> = seq![self.sync_state()];
        let mut i: usize = 0;
        while i < self.index.colliders.len()
            invariant
                self.wf(),
                i <= poses@.len(),
                self.index == old(self).index,
                poses@.len() == self.index.colliders@.len(),
                states.len() == i + 1,
                states[0] == old(self).sync_state(),
                states[i as int] == self.sync_state(),
                forall|j: int|
                    0 <= j < i ==> collider_synced(
                        states[j],
                        states[j + 1],
                        #[trigger] self.index.colliders@[j],
                        poses@[j],
                    ),
                self.sync_kept(old(self)),
                self.physics.colliders.capacity() <= old(self).physics.colliders.capacity() + i,
                old(self).physics.colliders.capacity() + poses@.len() <= u32::MAX,
                self.physics.bodies == old(self).physics.bodies,
                self.physics.joints == old(self).physics.joints,
            decreases poses@.len() - i,
        {
            let handle = self.index.colliders[i];
            self.sync_collider(handle, poses[i]);
            proof {
                states = states.push(self.sync_state());
            }
            i += 1;
        }
        assert(colliders_synced(states, old(self).index.colliders@, poses@));
    }

    fn sync_joints_to_physics(&mut self)
        requires
            old(self).wf(),
            old(self).physics.joints.capacity() + old(self).index.joints@.len() <= u32::MAX,
        ensures
            final(self).wf(),
            exists|states: Seq<SyncState>|
                {
                    &&& #[trigger] joints_synced(states, old(self).index.joints@)
                    &&& states[0] == old(self).sync_state()
                    &&& states.last() == final(self).sync_state()
                },
            final(self).sync_kept(old(self)),
            final(self).physics.joints.capacity() <= old(self).physics.joints.capacity() + old(
                self,
            ).index.joints@.len(),
            final(self).physics.bodies == old(self).physics.bodies,
            final(self).physics.colliders == old(self).physics.colliders,
    {
        let ghost mut states: Seq<SyncState> = seq![self.sync_state()];
        let mut i: usize = 0;
        while i < self.index.joints.len()
            invariant
                self.wf(),
                self.index == old(self).index,
                i <= self.index.joints@.len(),
                states.len() == i + 1,
                states[0] == old(self).sync_state(),
                states[i as int] == self.sync_state(),
                forall|j: int|
                    0 <= j < i ==> joint_synced(
                        states[j],
                        states[j + 1],
                        #[trigger] self.index.joints@[j],
                    ),
                self.sync_kept(old(self)),
                self.physics.joints.capacity() <= old(self).physics.joints.capacity() + i,
                old(self).physics.joints.capacity() + self.index.joints@.len() <= u32::MAX,
                self.physics.bodies == old(self).physics.bodies,
                self.physics.colliders == old(self).physics.colliders,
            decreases self.index.joints@.len() - i,
        {
            let handle = self.index.joints[i];
            self.sync_joint(handle);
            proof {
                states = states.push(self.sync_state());
            }
            i += 1;
        }
        assert(joints_synced(states, old(self).index.joints@));
    }

    fn flush_body_actions(&mut self)
        requires
            old(self).wf(),
        ensures
            final(self).wf(),
            exists|states: Seq<SyncState>|
                {
                    &&& #[trigger] bodies_flushed(states, old(self).index.rigid_bodies@)
                    &&& states[0] == old(self).sync_state()
                    &&& states.last() == final(self).sync_state()
                },
            final(self).sync_kept(old(self)),
            final(self).physics.bodies.capacity() == old(self).physics.bodies.capacity(),
            final(self).physics.colliders == old(self).physics.colliders,
            final(self).physics.joints == old(self).physics.joints,
    {
        let ghost mut states: Seq<SyncState> = seq![self.sync_state()];
        let mut i: usize = 0;
        while i < self.index.rigid_bodies.len()
            invariant
                self.wf(),
                self.index == old(self).index,
                i <= self.index.rigid_bodies@.len(),
                states.len() == i + 1,
                states[0] == old(self).sync_state(),
                states[i as int] == self.sync_state(),
                forall|j: int|
                    0 <= j < i ==> body_flushed(
                        states[j],
                        states[j + 1],
                        #[trigger] self.index.rigid_bodies@[j],
                    ),
                self.sync_kept(old(self)),
                self.physics.bodies.capacity() == old(self).physics.bodies.capacity(),
                self.physics.colliders == old(self).physics.colliders,
                self.physics.joints == old(self).physics.joints,
            decreases self.index.rigid_bodies@.len() - i,
        {
            let handle = self.index.rigid_bodies[i];
            self.flush_body(handle);
            proof {
                states = states.push(self.sync_state());
            }
            i += 1;
        }
        assert(bodies_flushed(states, old(self).index.rigid_bodies@));
    }

    /// Brings all joints in step, and then hands over what waits at the bodies. That comes last: a
    /// body has its mass from its colliders, and a push on a body without mass would be lost.
    pub fn finish_sync(&mut self)
        requires
            old(self).wf(),
            old(self).physics.joints.capacity() + old(self).index.joints@.len() <= u32::MAX,
        ensures
            final(self).wf(),
            exists|joints: Seq<SyncState>, bodies: Seq<SyncState>|
                {
                    &&& #[trigger] joints_synced(joints, old(self).index.joints@)
                    &&& #[trigger] bodies_flushed(bodies, old(self).index.rigid_bodies@)
                    &&& joints[0] == old(self).sync_state()
                    &&& joints.last() == bodies[0]
                    &&& bodies.last() == final(self).sync_state()
                },
            final(self).sync_kept(old(self)),
            final(self).physics.joints.capacity() <= old(self).physics.joints.capacity() + old(
                self,
            ).index.joints@.len(),
            final(self).physics.bodies.capacity() == old(self).physics.bodies.capacity(),
            final(self).physics.colliders == old(self).physics.colliders,
    {
        self.sync_joints_to_physics();
        self.flush_body_actions();
    }

    /// Where the solver has put the body of a node, if it is a body that the solver or the caller
    /// moves and its counterpart is there.
    pub open spec fn simulated(&self, h: Handle) -> Option<Pose> {
        if self.nodes@.contains_key(h) {
            match self.nodes@[h].rigid_body {
                Some(body) if body.desc.body_type != RigidBodyType::Fixed => match body.native {
                    Some(native) if self.physics.bodies@.contains_key(native.raw) => Some(
                        self.physics.bodies@[native.raw].pose,
                    ),
                    _ => None,
                },
                _ => None,
            }
        } else {
            None
        }
    }

    /// Where the solver has put the body of a node, in the world. `None` if there is nothing to
    /// read back.
    pub fn simulated_pose(&self, handle: Handle) -> (result: Option<Pose>)
        ensures
            result == self.simulated(handle),
    {
        match self.nodes.try_borrow(handle) {
            Some(node) => match &node.rigid_body {
                Some(body) => {
                    if body.desc.body_type == RigidBodyType::Fixed {
                        return None;
                    }
                    match body.native {
                        Some(native) => match self.physics.bodies.try_borrow(native.raw) {
                            Some(record) => Some(record.pose),
                            None => None,
                        },
                        None => None,
                    }
                },
                None => None,
            },
            None => None,
        }
    }

    /// Writes what the solver made of a body back to its node. `local` is the body's pose relative
    /// to the node's parent. The node's scale stays; where there is nothing to read back, nothing
    /// happens.
    pub fn sync_from_physics(&mut self, handle: Handle, local: Pose)
        requires
            old(self).wf(),
        ensures
            final(self).wf(),
            final(self).physics == old(self).physics,
            final(self).sync_kept(old(self)),
            body_read(old(self).sync_state(), final(self).sync_state(), handle, local),
            match old(self).simulated(handle) {
                Some(_) => {
                    let node = old(self).nodes@[handle];
                    let body = node.rigid_body->0;
                    let record = old(self).physics.bodies@[body.native->0.raw];
                    final(self).nodes@ == old(self).nodes@.insert(
                        handle,
                        Node {
                            transform: node.transform.moved_to(local),
                            rigid_body: Some(
                                RigidBody {
                                    linvel: record.linvel,
                                    angvel: record.angvel,
                                    sleeping: record.sleeping,
                                    ..body
                                },
                            ),
                            ..node
                        },
                    )
                },
                None => final(self).nodes@ == old(self).nodes@,
            },
    {
        if self.simulated_pose(handle).is_none() {
            return;
        }
        proof {
            graph::lemma_place_kept(self.nodes@, handle);
            assert(self.nodes@.insert(handle, self.nodes@[handle]).dom() =~= self.nodes@.dom());
        }
        let node = self.nodes.borrow_mut(handle);
        node.transform.position = local.position;
        node.transform.rotation = local.rotation;
        if let Some(body) = &mut node.rigid_body {
            if let Some(native) = body.native {
                let record = self.physics.bodies.borrow(native.raw);
                body.read_back(record.linvel, record.angvel, record.sleeping);
            }
        }
        assert(self.nodes@.dom() =~= old(self).nodes@.dom());
        assert(self.sync_state().used =~= old(self).sync_state().used);
    }

    /// The node that a user word names, if it is still there.
    pub open spec fn named(&self, user_data: u128) -> Option<Handle> {
        if exists|h: Handle| self.nodes@.contains_key(h) && #[trigger] h.encoded() == user_data {
            Some(choose|h: Handle| self.nodes@.contains_key(h) && #[trigger] h.encoded() == user_data)
        } else {
            None
        }
    }

    fn node_named(&self, user_data: u128) -> (result: Option<Handle>)
        requires
            self.wf(),
        ensures
            result == self.named(user_data),
    {
        let handle = Handle::decode_from_u128(user_data);
        proof {
            self.nodes.lemma_live_is_issued();
            if exists|h: Handle| self.nodes@.contains_key(h) && #[trigger] h.encoded() == user_data {
                let h = choose|h: Handle|
                    self.nodes@.contains_key(h) && #[trigger] h.encoded() == user_data;
                crate::pool::lemma_encoding_is_injective(h, handle);
            }
        }
        if self.nodes.is_valid_handle(handle) {
            Some(handle)
        } else {
            None
        }
    }

    /// What a ray hit, in terms of nodes; `hit` is what the solver reports.
    pub fn cast_ray(&self, hit: Option<RayHit>) -> (result: Option<SceneRayHit>)
        requires
            self.wf(),
        ensures
            result == match hit {
                Some(hit) => Some(
                    SceneRayHit {
                        collider_node: self.named(hit.collider_user_data),
                        body_node: self.named(hit.body_user_data),
                        point: hit.point,
                        normal: hit.normal,
                        distance: hit.distance,
                    },
                ),
                None => None,
            },
    {
        match hit {
            Some(hit) => Some(
                SceneRayHit {
                    collider_node: self.node_named(hit.collider_user_data),
                    body_node: self.node_named(hit.body_user_data),
                    point: hit.point,
                    normal: hit.normal,
                    distance: hit.distance,
                },
            ),
            None => None,
        }
    }

    /// What began or ceased to touch in the last step.
    pub fn collision_events(&self) -> (result: &[CollisionEvent])
        ensures
            result@ == self.physics.events@,
    {
        self.physics.events.as_slice()
    }

    /// The nodes of the two colliders of an event; `None` for one that is gone.
    pub fn collision_nodes(&self, event: &CollisionEvent) -> (result: (
        Option<Handle>,
        Option<Handle>,
    ))
        requires
            self.wf(),
        ensures
            result.0 == self.named(event.user_data1),
            result.1 == self.named(event.user_data2),
    {
        (self.node_named(event.user_data1), self.node_named(event.user_data2))
    }

    pub fn physics(&self) -> (result: &PhysicsWorld)
        ensures
            *result == self.physics,
    {
        &self.physics
    }

    /// The solver's table for writing. The scene stays well formed as long as the table does.
    pub fn physics_mut(&mut self) -> (result: &mut PhysicsWorld)
        ensures
            *result == old(self).physics,
            final(self).physics == *final(result),
            final(self).nodes == old(self).nodes,
            final(self).index == old(self).index,
            final(self).rest_same(old(self)),
            old(self).wf() && final(result).wf() ==> final(self).wf(),
    {
        &mut self.physics
    }
}

/// What a ray hit, as the solver reports it.
#[derive(Debug, Clone, Copy, PartialEq, Eq, Structural)]
pub struct RayHit {
    pub collider_user_data: u128,
    pub body_user_data: u128,
    pub point: Vec3,
    pub normal: Vec3,
    pub distance: Real,
}

/// What a ray hit.
#[derive(Debug, Clone, Copy, PartialEq, Eq, Structural)]
pub struct SceneRayHit {
    /// The node with the collider, if it is still there.
    pub collider_node: Option<Handle>,
    /// The node with the body that the collider belongs to, if there is one.
    pub body_node: Option<Handle>,
    pub point: Vec3,
    pub normal: Vec3,
    pub distance: Real,
}

proof fn lemma_body_step(a: SyncState, b: SyncState, h: Handle, pose: Pose, x: Handle)
    requires
        body_synced(a, b, h, pose),
    ensures
        a.nodes.contains_key(x) == b.nodes.contains_key(x),
        a.nodes.contains_key(x) ==> (a.nodes[x].rigid_body is Some) == (b.nodes[x].rigid_body
            is Some),
        native_of(a.nodes, x) is Some ==> native_of(b.nodes, x) == native_of(a.nodes, x),
        x == h && a.nodes.contains_key(h) && a.nodes[h].rigid_body is Some ==> native_of(b.nodes, h)
            is Some,
{
}

proof fn lemma_body_steps(
    states: Seq<SyncState>,
    list: Seq<Handle>,
    poses: Seq<Pose>,
    i: int,
    j: int,
    x: Handle,
)
    requires
        bodies_synced(states, list, poses),
        0 <= i <= j <= list.len(),
    ensures
        states[i].nodes.contains_key(x) == states[j].nodes.contains_key(x),
        states[i].nodes.contains_key(x) ==> (states[i].nodes[x].rigid_body is Some) == (
        states[j].nodes[x].rigid_body is Some),
        native_of(states[i].nodes, x) is Some ==> native_of(states[j].nodes, x) == native_of(
            states[i].nodes,
            x,
        ),
    decreases j - i,
{
    if i < j {
        lemma_body_steps(states, list, poses, i, j - 1, x);
        assert(body_synced(states[j - 1], states[j], list[j - 1], poses[j - 1]));
        lemma_body_step(states[j - 1], states[j], list[j - 1], poses[j - 1], x);
    }
}

/// Once all bodies are in step, every listed node with a body has a counterpart in the table, and
/// one that had a counterpart before still has the same.
pub proof fn lemma_every_body_is_built(
    states: Seq<SyncState>,
    list: Seq<Handle>,
    poses: Seq<Pose>,
    i: int,
)
    requires
        bodies_synced(states, list, poses),
        0 <= i < list.len(),
        states[0].nodes.contains_key(list[i]),
        states[0].nodes[list[i]].rigid_body is Some,
    ensures
        native_of(states.last().nodes, list[i]) is Some,
        native_of(states[0].nodes, list[i]) is Some ==> native_of(states.last().nodes, list[i])
            == native_of(states[0].nodes, list[i]),
{
    let h = list[i];
    let n = list.len() as int;
    lemma_body_steps(states, list, poses, 0, i, h);
    assert(body_synced(states[i], states[i + 1], list[i], poses[i]));
    lemma_body_step(states[i], states[i + 1], h, poses[i], h);
    lemma_body_steps(states, list, poses, i + 1, n, h);
    lemma_body_steps(states, list, poses, 0, n, h);
}

proof fn lemma_same_owner(a: Map<Handle, Node>, b: Map<Handle, Node>, h: Handle)
    requires
        graph::links_of(a) == graph::links_of(b),
        forall|x: Handle| a.contains_key(x) == b.contains_key(x),
        forall|x: Handle| native_of(a, x) == native_of(b, x),
    ensures
        owner_of(a, h) == owner_of(b, h),
{
    assert forall|n: nat| first_native(a, h, n) == first_native(b, h, n) by {}
    if exists|n: nat| first_native(a, h, n) {
        let n = choose|n: nat| first_native(a, h, n);
        assert(first_native(b, h, n));
        let m = choose|n: nat| first_native(b, h, n);
        lemma_first_is_unique(b, h, n, m);
    }
    if exists|n: nat| first_native(b, h, n) {
        let n = choose|n: nat| first_native(b, h, n);
        assert(first_native(a, h, n));
    }
}

/// A collider that was brought in step and has a counterpart is not built anew the next time,
/// however it moves: the counterpart stays the same.
pub proof fn lemma_collider_settles(
    a: SyncState,
    b: SyncState,
    c: SyncState,
    h: Handle,
    first: Pose,
    second: Pose,
)
    requires
        collider_synced(a, b, h, first),
        collider_synced(b, c, h, second),
        a.nodes.contains_key(h),
        a.nodes[h].collider is Some,
        b.nodes[h].collider->0.native is Some,
    ensures
        c.nodes[h].collider->0.native == b.nodes[h].collider->0.native,
        c.world.colliders.dom() == b.world.colliders.dom(),
{
    graph::lemma_place_kept(a.nodes, h);
    assert(graph::links_of(a.nodes) == graph::links_of(b.nodes));
    assert forall|x: Handle| a.nodes.contains_key(x) == b.nodes.contains_key(x) by {}
    assert forall|x: Handle| native_of(a.nodes, x) == native_of(b.nodes, x) by {}
    lemma_same_owner(a.nodes, b.nodes, h);
    assert(c.world.colliders.dom() =~= b.world.colliders.dom());
}

/// The collider of a node has this counterpart.
pub open spec fn owns(s: SyncState, h: Handle, raw: Handle) -> bool {
    &&& s.nodes.contains_key(h)
    &&& s.nodes[h].collider is Some
    &&& s.nodes[h].collider->0.native is Some
    &&& s.nodes[h].collider->0.native->0.raw == raw
}

/// No two nodes have one counterpart, and a counterpart that is in the table says whose it is.
pub open spec fn accounted(s: SyncState) -> bool {
    &&& forall|raw: Handle| #[trigger]
        s.world.colliders.contains_key(raw) ==> s.used.contains(raw)
    &&& forall|h: Handle, raw: Handle| #[trigger]
        owns(s, h, raw) ==> s.used.contains(raw) && (s.world.colliders.contains_key(raw)
            ==> s.world.colliders[raw].user_data == h.encoded() as u128)
    &&& forall|g: Handle, h: Handle, raw: Handle| #[trigger]
        owns(s, g, raw) && #[trigger] owns(s, h, raw) ==> g == h
}

/// Every collider of the table is some node's.
pub open spec fn no_orphans(s: SyncState) -> bool {
    forall|raw: Handle| #[trigger]
        s.world.colliders.contains_key(raw) ==> exists|h: Handle| #[trigger] owns(s, h, raw)
}

/// The collider of a node need not be built anew, or its counterpart is in the table.
pub open spec fn up_to_date(s: SyncState, h: Handle) -> bool {
    let collider = s.nodes[h].collider->0;
    let parent = match owner_of(s.nodes, h) {
        Some((_, body)) => Some(body),
        None => None,
    };
    collider.native is Some && collider.bound_to == parent && !collider.shape_dirty
        ==> s.world.colliders.contains_key(collider.native->0.raw)
}

/// The collider of a node can stand in the table: it belongs to no body, or to one that is there.
pub open spec fn can_stand(s: SyncState, h: Handle) -> bool {
    owner_of(s.nodes, h) matches Some((_, body)) ==> s.world.bodies.contains_key(body.raw)
}

/// The collider of a node stands in the table.
pub open spec fn stands(s: SyncState, h: Handle) -> bool {
    let native = s.nodes[h].collider->0.native;
    &&& native is Some
    &&& s.world.colliders.contains_key(native->0.raw)
    &&& s.world.colliders[native->0.raw].user_data == h.encoded() as u128
}

proof fn lemma_collider_step(a: SyncState, b: SyncState, g: Handle, pose: Pose)
    requires
        collider_synced(a, b, g, pose),
        accounted(a),
    ensures
        accounted(b),
        no_orphans(a) ==> no_orphans(b),
        b.nodes.dom() == a.nodes.dom(),
        b.world.bodies == a.world.bodies,
        forall|x: Handle| x != g ==> #[trigger] b.nodes[x] == a.nodes[x],
        a.nodes.contains_key(g) ==> (b.nodes[g].collider is Some) == (a.nodes[g].collider is Some),
        forall|x: Handle| #[trigger] owner_of(b.nodes, x) == owner_of(a.nodes, x),
        forall|x: Handle, raw: Handle| #[trigger]
            owns(a, x, raw) && x != g && a.world.colliders.contains_key(raw)
                ==> b.world.colliders.contains_key(raw) && b.world.colliders[raw]
                == a.world.colliders[raw],
        a.nodes.contains_key(g) && a.nodes[g].collider is Some && up_to_date(a, g) && can_stand(
            a,
            g,
        ) ==> stands(b, g),
{
    if a.nodes.contains_key(g) && a.nodes[g].collider is Some {
        graph::lemma_place_kept(a.nodes, g);
        assert(graph::links_of(a.nodes) == graph::links_of(b.nodes));
        assert forall|x: Handle| a.nodes.contains_key(x) == b.nodes.contains_key(x) by {}
        assert forall|x: Handle| native_of(a.nodes, x) == native_of(b.nodes, x) by {}
        assert forall|x: Handle| #[trigger] owner_of(b.nodes, x) == owner_of(a.nodes, x) by {
            lemma_same_owner(a.nodes, b.nodes, x);
        }
        assert(b.nodes.dom() =~= a.nodes.dom());
        assert forall|x: Handle, raw: Handle| x != g implies #[trigger] owns(b, x, raw) == owns(
            a,
            x,
            raw,
        ) by {}
        let was = a.nodes[g].collider->0.native;
        let is = b.nodes[g].collider->0.native;
        assert forall|x: Handle, raw: Handle| #[trigger]
            owns(a, x, raw) && x != g && a.world.colliders.contains_key(raw) implies
            b.world.colliders.contains_key(raw) && b.world.colliders[raw]
            == a.world.colliders[raw] by {
            if was is Some && was->0.raw == raw {
                assert(owns(a, g, raw));
            }
        }
        assert forall|h: Handle, raw: Handle| #[trigger] owns(b, h, raw) implies b.used.contains(raw)
            && (b.world.colliders.contains_key(raw) ==> b.world.colliders[raw].user_data
            == h.encoded() as u128) by {
            if h != g {
                assert(owns(a, h, raw));
                if was is Some && was->0.raw == raw {
                    assert(owns(a, g, raw));
                }
            } else if is == was {
                assert(owns(a, g, raw));
            }
        }
        assert forall|x: Handle, h: Handle, raw: Handle| #[trigger]
            owns(b, x, raw) && #[trigger] owns(b, h, raw) implies x == h by {
            if x != g {
                assert(owns(a, x, raw));
            }
            if h != g {
                assert(owns(a, h, raw));
            }
            if (x == g || h == g) && is == was {
                assert(owns(a, g, raw));
            }
        }
        if no_orphans(a) {
            assert forall|raw: Handle| #[trigger] b.world.colliders.contains_key(raw) implies exists|
                h: Handle,
            | #[trigger] owns(b, h, raw) by {
                if is is Some && is->0.raw == raw {
                    assert(owns(b, g, raw));
                } else {
                    assert(a.world.colliders.contains_key(raw));
                    let h = choose|h: Handle| #[trigger] owns(a, h, raw);
                    assert(h != g);
                    assert(owns(b, h, raw));
                }
            }
        }
        if up_to_date(a, g) && can_stand(a, g) {
            if is == was && is is Some {
                assert(owns(a, g, is->0.raw));
            }
        }
    }
}

proof fn lemma_collider_steps(
    states: Seq<SyncState>,
    list: Seq<Handle>,
    poses: Seq<Pose>,
    i: int,
    j: int,
    h: Handle,
)
    requires
        colliders_synced(states, list, poses),
        0 <= i <= j <= list.len(),
        accounted(states[i]),
        forall|k: int| i <= k < j ==> #[trigger] list[k] != h,
    ensures
        accounted(states[j]),
        no_orphans(states[i]) ==> no_orphans(states[j]),
        states[j].nodes.dom() == states[i].nodes.dom(),
        states[j].nodes[h] == states[i].nodes[h],
        states[j].world.bodies == states[i].world.bodies,
        owner_of(states[j].nodes, h) == owner_of(states[i].nodes, h),
        forall|raw: Handle| #[trigger]
            owns(states[i], h, raw) && states[i].world.colliders.contains_key(raw)
                ==> states[j].world.colliders.contains_key(raw) && states[j].world.colliders[raw]
                == states[i].world.colliders[raw],
    decreases j - i,
{
    if i < j {
        lemma_collider_steps(states, list, poses, i, j - 1, h);
        let g = list[j - 1];
        assert(g != h);
        assert(collider_synced(states[j - 1], states[j - 1 + 1], g, poses[j - 1]));
        lemma_collider_step(states[j - 1], states[j], g, poses[j - 1]);
        assert(owner_of(states[j].nodes, h) == owner_of(states[j - 1].nodes, h));
        assert(states[j].nodes[h] == states[j - 1].nodes[h]);
        assert forall|raw: Handle| #[trigger]
            owns(states[i], h, raw) && states[i].world.colliders.contains_key(raw) implies
            states[j].world.colliders.contains_key(raw) && states[j].world.colliders[raw]
            == states[i].world.colliders[raw] by {
            assert(states[j - 1].nodes.dom().contains(h) == states[i].nodes.dom().contains(h));
            assert(owns(states[j - 1], h, raw));
        }
    }
}

/// Once all colliders are in step, the table holds one collider for each node with a collider: its
/// counterpart is there, says whose it is, and is nobody else's. It is where the node has it, and
/// what was changed of its description has reached it. That holds of every collider that
/// belongs to no body or to one that is in the table. Where all colliders of the table were some
/// node's before, they still are.
pub proof fn lemma_every_collider_is_built(
    states: Seq<SyncState>,
    list: Seq<Handle>,
    poses: Seq<Pose>,
    h: Handle,
)
    requires
        colliders_synced(states, list, poses),
        list.no_duplicates(),
        accounted(states[0]),
        list.contains(h),
        states[0].nodes.contains_key(h),
        states[0].nodes[h].collider is Some,
        up_to_date(states[0], h),
        can_stand(states[0], h),
    ensures
        states.last().nodes.contains_key(h),
        states.last().nodes[h].collider is Some,
        stands(states.last(), h),
        accounted(states.last()),
        no_orphans(states[0]) ==> no_orphans(states.last()),
        forall|k: int|
            0 <= k < list.len() && #[trigger] list[k] == h ==> {
                let collider = states[0].nodes[h].collider->0;
                let told = states.last().world.colliders[states.last().nodes[h].collider->0.native->0.raw];
                let built = collider.native is None || collider.shape_dirty;
                &&& told.desc.position == poses[k].position
                &&& told.desc.rotation == poses[k].rotation
                &&& built || collider.desc_dirty ==> {
                    &&& told.desc.friction == collider.desc.friction
                    &&& told.desc.restitution == collider.desc.restitution
                    &&& told.desc.is_sensor == collider.desc.is_sensor
                    &&& told.desc.collision_groups == collider.desc.collision_groups
                }
                &&& built ==> {
                    &&& told.desc.shape == collider.desc.shape
                    &&& told.desc.collision_events == collider.desc.collision_events
                }
            },
{
    let i = list.index_of(h);
    let n = list.len() as int;
    assert(list[i] == h);
    assert forall|k: int| 0 <= k < n && k != i implies #[trigger] list[k] != h by {}
    lemma_collider_steps(states, list, poses, 0, i, h);
    assert(states[i].nodes.dom().contains(h));
    let before = states[0].nodes[h].collider->0.native;
    if before is Some {
        assert(owns(states[0], h, before->0.raw));
    }
    assert(collider_synced(states[i], states[i + 1], list[i], poses[i]));
    lemma_collider_step(states[i], states[i + 1], h, poses[i]);
    let native = states[i + 1].nodes[h].collider->0.native;
    assert(states[i + 1].nodes.dom().contains(h));
    assert(owns(states[i + 1], h, native->0.raw));
    lemma_collider_steps(states, list, poses, i + 1, n, h);
    assert(states[n].nodes.dom().contains(h));
    assert(owns(states[n], h, native->0.raw));
}

} // verus!
