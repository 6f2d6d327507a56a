//! Physics components, and the table through which they talk to the solver.
//!
//! The table holds what the solver is told (bodies, colliders, joints and the actions queued for
//! them) and what it reports back (poses, velocities, sleep). The solver itself reads and writes
//! the table between two synchronisations.

use crate::numbers::{Pose, Quat, Real, Vec3};
use crate::pool;
use crate::pool::{Handle, Pool};
use vstd::prelude::*;

verus! {

/// A body of the solver.
#[derive(Debug, Clone, Copy, PartialEq, Eq, Hash, Structural)]
pub struct BodyHandle {
    pub raw: Handle,
}

/// A collider of the solver.
#[derive(Debug, Clone, Copy, PartialEq, Eq, Hash, Structural)]
pub struct ColliderHandle {
    pub raw: Handle,
}

/// A joint of the solver.
#[derive(Debug, Clone, Copy, PartialEq, Eq, Hash, Structural)]
pub struct JointHandle {
    pub raw: Handle,
}

/// Who moves a body.
#[derive(Debug, Clone, Copy, PartialEq, Eq, Hash, Structural)]
pub enum RigidBodyType {
    /// The solver does.
    Dynamic,
    /// Nobody does, unless its node is moved.
    Fixed,
    /// Its node does, by position.
    KinematicPositionBased,
    /// Its node does, by velocity.
    KinematicVelocityBased,
}

/// One flag for each axis.
#[derive(Debug, Clone, Copy, PartialEq, Eq, Hash, Structural)]
pub struct Axes {
    pub x: bool,
    pub y: bool,
    pub z: bool,
}

/// How to build a body.
#[derive(Debug, Clone, Copy, PartialEq, Eq, Hash, Structural)]
pub struct RigidBodyDesc {
    pub body_type: RigidBodyType,
    pub position: Vec3,
    pub rotation: Quat,
    pub gravity_scale: Real,
    pub linear_damping: Real,
    pub angular_damping: Real,
    pub additional_mass: Real,
    pub ccd_enabled: bool,
    pub can_sleep: bool,
    pub locked_rotations: Axes,
    pub locked_translations: Axes,
    pub enabled: bool,
}

impl RigidBodyDesc {
    /// A body of the given type at the origin, with everything else at rest.
    #[verifier::allow_in_spec]
    pub fn of_type(body_type: RigidBodyType) -> RigidBodyDesc
        returns
            (RigidBodyDesc {
                body_type,
                position: Vec3::zero(),
                rotation: Quat::identity(),
                gravity_scale: Real::one(),
                linear_damping: Real::zero(),
                angular_damping: Real::zero(),
                additional_mass: Real::zero(),
                ccd_enabled: false,
                can_sleep: true,
                locked_rotations: Axes { x: false, y: false, z: false },
                locked_translations: Axes { x: false, y: false, z: false },
                enabled: true,
            }),
    {
        RigidBodyDesc {
            body_type,
            position: Vec3::zero(),
            rotation: Quat::identity(),
            gravity_scale: Real::one(),
            linear_damping: Real::zero(),
            angular_damping: Real::zero(),
            additional_mass: Real::zero(),
            ccd_enabled: false,
            can_sleep: true,
            locked_rotations: Axes { x: false, y: false, z: false },
            locked_translations: Axes { x: false, y: false, z: false },
            enabled: true,
        }
    }

    /// This description with the pose and the sleep setting that `built` was built with: those
    /// two are not pushed to a body that exists.
    pub open spec fn pushed_over(self, built: RigidBodyDesc) -> RigidBodyDesc {
        RigidBodyDesc {
            position: built.position,
            rotation: built.rotation,
            can_sleep: built.can_sleep,
            ..self
        }
    }
}

/// What a collider looks like.
#[derive(Debug, Clone, Copy, PartialEq, Eq, Hash, Structural)]
pub enum ColliderShape {
    Ball { radius: Real },
    Cuboid { half_extents: Vec3 },
    CapsuleY { half_height: Real, radius: Real },
    /// A grid of heights; `heights` names the shared grid.
    Heightfield { rows: usize, cols: usize, heights: u64, scale: Vec3 },
}

/// Which groups a collider is in, and which it meets.
#[derive(Debug, Clone, Copy, PartialEq, Eq, Hash, Structural)]
pub struct InteractionGroups {
    pub memberships: u32,
    pub filter: u32,
}

/// How to build a collider.
#[derive(Debug, Clone, Copy, PartialEq, Eq, Hash, Structural)]
pub struct ColliderDesc {
    pub shape: ColliderShape,
    pub position: Vec3,
    pub rotation: Quat,
    pub friction: Real,
    pub restitution: Real,
    pub is_sensor: bool,
    pub collision_groups: InteractionGroups,
    pub collision_events: bool,
}

impl ColliderDesc {
    /// A solid collider of the given shape that meets everything.
    #[verifier::allow_in_spec]
    pub fn new(shape: ColliderShape) -> ColliderDesc
        returns
            (ColliderDesc {
                shape,
                position: Vec3::zero(),
                rotation: Quat::identity(),
                friction: Real { bits: 0x3f00_0000 },
                restitution: Real::zero(),
                is_sensor: false,
                collision_groups: InteractionGroups { memberships: u32::MAX, filter: u32::MAX },
                collision_events: false,
            }),
    {
        ColliderDesc {
            shape,
            position: Vec3::zero(),
            rotation: Quat::identity(),
            friction: Real { bits: 0x3f00_0000 },
            restitution: Real::zero(),
            is_sensor: false,
            collision_groups: InteractionGroups { memberships: u32::MAX, filter: u32::MAX },
            collision_events: false,
        }
    }

    /// The same collider, moved and turned relative to its node.
    #[verifier::allow_in_spec]
    pub fn with_offset(self, position: Vec3, rotation: Quat) -> ColliderDesc
        returns
            (ColliderDesc { position, rotation, ..self }),
    {
        ColliderDesc { position, rotation, ..self }
    }
}

/// How far a joint lets its bodies move along or about an axis.
#[derive(Debug, Clone, Copy, PartialEq, Eq, Hash, Structural)]
pub struct Limits {
    pub min: Real,
    pub max: Real,
}

/// Which movements a joint leaves free.
#[derive(Debug, Clone, Copy, PartialEq, Eq, Hash, Structural)]
pub enum JointKind {
    Fixed,
    Revolute { limits: Option<Limits> },
    Prismatic { limits: Option<Limits> },
    Spherical { x: Option<Limits>, y: Option<Limits>, z: Option<Limits> },
}

/// How to build a joint.
#[derive(Debug, Clone, Copy, PartialEq, Eq, Hash)]
pub struct JointDesc {
    pub kind: JointKind,
    pub local_anchor1: Vec3,
    pub local_anchor2: Vec3,
    pub local_basis1: Quat,
    pub local_basis2: Quat,
    pub contacts_enabled: bool,
}

impl JointDesc {
    /// A joint of the given kind between two anchors.
    #[verifier::allow_in_spec]
    pub fn new(kind: JointKind, local_anchor1: Vec3, local_anchor2: Vec3) -> JointDesc
        returns
            (JointDesc {
                kind,
                local_anchor1,
                local_anchor2,
                local_basis1: Quat::identity(),
                local_basis2: Quat::identity(),
                contacts_enabled: true,
            }),
    {
        JointDesc {
            kind,
            local_anchor1,
            local_anchor2,
            local_basis1: Quat::identity(),
            local_basis2: Quat::identity(),
            contacts_enabled: true,
        }
    }
}

/// Something to be done to a body at the next synchronisation.
#[derive(Debug, Clone, Copy, PartialEq, Eq, Hash, Structural)]
pub enum BodyAction {
    ApplyImpulse(Vec3),
    ApplyTorqueImpulse(Vec3),
    ApplyImpulseAtPoint(Vec3, Vec3),
    AddForce(Vec3),
    AddTorque(Vec3),
    SetLinvel(Vec3),
    SetAngvel(Vec3),
    Teleport(Vec3, Quat),
    WakeUp,
    Sleep,
}

/// A body as the solver holds it.
#[derive(Debug)]
pub struct BodyRecord {
    /// What it was built with, and told since.
    pub desc: RigidBodyDesc,
    /// Where it is.
    pub pose: Pose,
    /// Where a kinematic body is to be after the next step.
    pub target: Option<Pose>,
    pub linvel: Vec3,
    pub angvel: Vec3,
    pub sleeping: bool,
    /// What the solver has yet to do, oldest first.
    pub inbox: Vec<BodyAction>,
    /// The node it belongs to, packed.
    pub user_data: u128,
}

/// A collider as the solver holds it.
#[derive(Debug, Clone, Copy)]
pub struct ColliderRecord {
    pub desc: ColliderDesc,
    pub parent: Option<BodyHandle>,
    /// The node it belongs to, packed.
    pub user_data: u128,
}

/// A joint as the solver holds it.
#[derive(Debug, Clone, Copy)]
pub struct JointRecord {
    pub desc: JointDesc,
    pub body1: BodyHandle,
    pub body2: BodyHandle,
}

/// Two colliders began or ceased to touch.
#[derive(Debug, Clone, Copy, PartialEq, Eq, Structural)]
pub struct CollisionEvent {
    pub started: bool,
    pub user_data1: u128,
    pub user_data2: u128,
}

/// The table between the scene and the solver.
pub struct PhysicsWorld {
    pub bodies: Pool<BodyRecord>,
    pub colliders: Pool<ColliderRecord>,
    pub joints: Pool<JointRecord>,
    pub events: Vec<CollisionEvent>,
}

impl PhysicsWorld {
    pub open spec fn wf(&self) -> bool {
        self.bodies.wf() && self.colliders.wf() && self.joints.wf()
    }

    /// Room for `n` more of each.
    pub open spec fn room(&self, n: nat) -> bool {
        &&& self.bodies.capacity() + n <= u32::MAX
        &&& self.colliders.capacity() + n <= u32::MAX
        &&& self.joints.capacity() + n <= u32::MAX
    }

    /// This table came out of `before`: what was handed out stays handed out, and what was taken
    /// out does not come back.
    pub open spec fn succeeds(&self, before: &PhysicsWorld) -> bool {
        &&& forall|h: Handle| #[trigger] before.bodies.issued(h) ==> self.bodies.issued(h)
        &&& forall|h: Handle| #[trigger] before.colliders.issued(h) ==> self.colliders.issued(h)
        &&& forall|h: Handle| #[trigger] before.joints.issued(h) ==> self.joints.issued(h)
        &&& forall|h: Handle|
            #![trigger self.bodies@.contains_key(h)]
            before.bodies.issued(h) && self.bodies@.contains_key(h) ==> before.bodies@.contains_key(h)
        &&& forall|h: Handle|
            #![trigger self.colliders@.contains_key(h)]
            before.colliders.issued(h) && self.colliders@.contains_key(h)
                ==> before.colliders@.contains_key(h)
        &&& forall|h: Handle|
            #![trigger self.joints@.contains_key(h)]
            before.joints.issued(h) && self.joints@.contains_key(h) ==> before.joints@.contains_key(h)
    }

    /// An empty table.
    pub fn new() -> (result: Self)
        ensures
            result.wf(),
            result.bodies@ == Map::<Handle, BodyRecord>::empty(),
            result.colliders@ == Map::<Handle, ColliderRecord>::empty(),
            result.joints@ == Map::<Handle, JointRecord>::empty(),
            result.events@ == Seq::<CollisionEvent>::empty(),
            result.bodies.capacity() == 0,
            result.colliders.capacity() == 0,
            result.joints.capacity() == 0,
    {
        PhysicsWorld {
            bodies: Pool::new(),
            colliders: Pool::new(),
            joints: Pool::new(),
            events: Vec::new(),
        }
    }

    /// Enters a body. It stands where its description says.
    pub fn add_body(&mut self, desc: &RigidBodyDesc, user_data: u128) -> (result: BodyHandle)
        requires
            old(self).wf(),
            old(self).bodies.capacity() < u32::MAX,
        ensures
            final(self).wf(),
            !old(self).bodies.issued(result.raw),
            final(self).bodies@.contains_key(result.raw),
            final(self).bodies@ == old(self).bodies@.insert(
                result.raw,
                final(self).bodies@[result.raw],
            ),
            final(self).bodies@[result.raw].fresh(*desc, user_data),
            final(self).succeeds(old(self)),
            final(self).bodies.capacity() <= old(self).bodies.capacity() + 1,
            final(self).colliders == old(self).colliders,
            final(self).joints == old(self).joints,
            final(self).events == old(self).events,
    {
        let record = BodyRecord {
            desc: *desc,
            pose: Pose { position: desc.position, rotation: desc.rotation },
            target: None,
            linvel: Vec3::zero(),
            angvel: Vec3::zero(),
            sleeping: false,
            inbox: Vec::new(),
            user_data,
        };
        BodyHandle { raw: self.bodies.spawn(record) }
    }

    /// Enters a collider, on a body or on its own. Nothing is entered, and `None` comes back, when
    /// the body is not there.
    pub fn add_collider(
        &mut self,
        desc: &ColliderDesc,
        parent: Option<BodyHandle>,
        user_data: u128,
    ) -> (result: Option<ColliderHandle>)
        requires
            old(self).wf(),
            old(self).colliders.capacity() < u32::MAX,
        ensures
            final(self).wf(),
            final(self).bodies == old(self).bodies,
            final(self).joints == old(self).joints,
            final(self).events == old(self).events,
            final(self).colliders.capacity() <= old(self).colliders.capacity() + 1,
            final(self).succeeds(old(self)),
            result is None <==> (parent matches Some(body) && !old(self).bodies@.contains_key(
                body.raw,
            )),
            match result {
                None => *final(self) == *old(self),
                Some(collider) => {
                    &&& !old(self).colliders.issued(collider.raw)
                    &&& forall|h: Handle|
                        final(self).colliders.issued(h) == (old(self).colliders.issued(h) || h
                            == collider.raw)
                    &&& final(self).colliders@ == old(self).colliders@.insert(
                        collider.raw,
                        ColliderRecord { desc: *desc, parent, user_data },
                    )
                },
            },
    {
        if let Some(body) = parent {
            if !self.bodies.is_valid_handle(body.raw) {
                return None;
            }
        }
        let record = ColliderRecord { desc: *desc, parent, user_data };
        Some(ColliderHandle { raw: self.colliders.spawn(record) })
    }

    /// Enters a joint between two bodies.
    pub fn add_joint(&mut self, body1: BodyHandle, body2: BodyHandle, desc: &JointDesc) -> (result:
        JointHandle)
        requires
            old(self).wf(),
            old(self).joints.capacity() < u32::MAX,
        ensures
            final(self).wf(),
            !old(self).joints.issued(result.raw),
            final(self).joints@ == old(self).joints@.insert(
                result.raw,
                JointRecord { desc: *desc, body1, body2 },
            ),
            final(self).joints.capacity() <= old(self).joints.capacity() + 1,
            final(self).succeeds(old(self)),
            final(self).bodies == old(self).bodies,
            final(self).colliders == old(self).colliders,
            final(self).events == old(self).events,
    {
        JointHandle { raw: self.joints.spawn(JointRecord { desc: *desc, body1, body2 }) }
    }

    /// Takes a joint out; one that is gone is ignored.
    pub fn remove_joint(&mut self, joint: JointHandle)
        requires
            old(self).wf(),
        ensures
            final(self).wf(),
            final(self).joints@ == old(self).joints@.remove(joint.raw),
            final(self).joints.capacity() == old(self).joints.capacity(),
            final(self).succeeds(old(self)),
            final(self).bodies == old(self).bodies,
            final(self).colliders == old(self).colliders,
            final(self).events == old(self).events,
    {
        let _ = self.joints.free(joint.raw);
    }

    /// Takes a collider out; one that is gone is ignored.
    pub fn remove_collider(&mut self, collider: ColliderHandle)
        requires
            old(self).wf(),
        ensures
            final(self).wf(),
            final(self).colliders@ == old(self).colliders@.remove(collider.raw),
            forall|h: Handle| final(self).colliders.issued(h) == old(self).colliders.issued(h),
            final(self).colliders.capacity() == old(self).colliders.capacity(),
            final(self).succeeds(old(self)),
            final(self).bodies == old(self).bodies,
            final(self).joints == old(self).joints,
            final(self).events == old(self).events,
    {
        let _ = self.colliders.free(collider.raw);
    }

    /// The colliders that stay when a body goes.
    pub open spec fn colliders_off(
        colliders: Map<Handle, ColliderRecord>,
        body: BodyHandle,
    ) -> Map<Handle, ColliderRecord> {
        colliders.restrict(
            Set::new(|h: Handle| colliders.contains_key(h) && colliders[h].parent != Some(body)),
        )
    }

    /// The joints that stay when a body goes.
    pub open spec fn joints_off(joints: Map<Handle, JointRecord>, body: BodyHandle) -> Map<
        Handle,
        JointRecord,
    > {
        joints.restrict(
            Set::new(
                |h: Handle|
                    joints.contains_key(h) && joints[h].body1 != body && joints[h].body2 != body,
            ),
        )
    }

    /// Takes a body out, and with it the colliders and joints that are fixed to it.
    pub fn remove_body(&mut self, body: BodyHandle)
        requires
            old(self).wf(),
        ensures
            final(self).wf(),
            final(self).bodies@ == old(self).bodies@.remove(body.raw),
            final(self).bodies.capacity() == old(self).bodies.capacity(),
            final(self).colliders.capacity() == old(self).colliders.capacity(),
            final(self).joints.capacity() == old(self).joints.capacity(),
            !old(self).bodies@.contains_key(body.raw) ==> final(self).colliders@
                == old(self).colliders@ && final(self).joints@ == old(self).joints@,
            old(self).bodies@.contains_key(body.raw) ==> final(self).colliders@
                == Self::colliders_off(old(self).colliders@, body) && final(self).joints@
                == Self::joints_off(old(self).joints@, body),
            final(self).events == old(self).events,
    {
        if self.bodies.free(body.raw).is_none() {
            return;
        }
        let colliders = self.colliders.handles();
        proof {
            self.colliders.lemma_order();
            assert(colliders@.skip(0) =~= colliders@);
        }
        let mut i: usize = 0;
        while i < colliders.len()
            invariant
                self.wf(),
                i <= colliders@.len(),
                forall|h: Handle|
                    old(self).colliders@.contains_key(h) ==> #[trigger] colliders@.contains(h),
                forall|h: Handle|
                    #[trigger] self.colliders@.contains_key(h) <==> old(
                        self,
                    ).colliders@.contains_key(h) && (old(self).colliders@[h].parent != Some(body)
                        || colliders@.skip(i as int).contains(h)),
                forall|h: Handle| #[trigger]
                    self.colliders@.contains_key(h) ==> self.colliders@[h] == old(
                        self,
                    ).colliders@[h],
                self.colliders.capacity() == old(self).colliders.capacity(),
                self.bodies@ == old(self).bodies@.remove(body.raw),
                self.bodies.capacity() == old(self).bodies.capacity(),
                self.joints == old(self).joints,
                self.events == old(self).events,
                colliders@.no_duplicates(),
            decreases colliders@.len() - i,
        {
            let h = colliders[i];
            let attached: bool = match self.colliders.try_borrow(h) {
                Some(record) => match record.parent {
                    Some(parent) => parent == body,
                    None => false,
                },
                None => false,
            };
            let ghost before = self.colliders@;
            if attached {
                let _ = self.colliders.free(h);
            }
            proof {
                pool::lemma_skip_one(colliders@, i as int);
                let now = colliders@.skip(i as int);
                let next = colliders@.skip(i + 1);
                assert forall|x: Handle|
                    #[trigger] self.colliders@.contains_key(x) <==> old(
                        self,
                    ).colliders@.contains_key(x) && (old(self).colliders@[x].parent != Some(body)
                        || next.contains(x)) by {
                    assert(before.contains_key(x) <==> old(self).colliders@.contains_key(x) && (old(
                        self,
                    ).colliders@[x].parent != Some(body) || now.contains(x)));
                }
            }
            i += 1;
        }
        assert(self.colliders@ =~= Self::colliders_off(old(self).colliders@, body));
        let joints = self.joints.handles();
        proof {
            self.joints.lemma_order();
            assert(joints@.skip(0) =~= joints@);
        }
        let mut i: usize = 0;
        while i < joints.len()
            invariant
                self.wf(),
                i <= joints@.len(),
                forall|h: Handle|
                    old(self).joints@.contains_key(h) ==> #[trigger] joints@.contains(h),
                forall|h: Handle|
                    #[trigger] self.joints@.contains_key(h) <==> old(self).joints@.contains_key(h)
                        && ((old(self).joints@[h].body1 != body && old(self).joints@[h].body2
                        != body) || joints@.skip(i as int).contains(h)),
                forall|h: Handle| #[trigger]
                    self.joints@.contains_key(h) ==> self.joints@[h] == old(self).joints@[h],
                self.joints.capacity() == old(self).joints.capacity(),
                self.bodies@ == old(self).bodies@.remove(body.raw),
                self.bodies.capacity() == old(self).bodies.capacity(),
                self.colliders.capacity() == old(self).colliders.capacity(),
                self.colliders@ == Self::colliders_off(old(self).colliders@, body),
                self.events == old(self).events,
                joints@.no_duplicates(),
            decreases joints@.len() - i,
        {
            let h = joints[i];
            let attached: bool = match self.joints.try_borrow(h) {
                Some(record) => record.body1 == body || record.body2 == body,
                None => false,
            };
            let ghost before = self.joints@;
            if attached {
                let _ = self.joints.free(h);
            }
            proof {
                pool::lemma_skip_one(joints@, i as int);
                let now = joints@.skip(i as int);
                let next = joints@.skip(i + 1);
                assert forall|x: Handle|
                    #[trigger] self.joints@.contains_key(x) <==> old(self).joints@.contains_key(x)
                        && ((old(self).joints@[x].body1 != body && old(self).joints@[x].body2
                        != body) || next.contains(x)) by {
                    assert(before.contains_key(x) <==> old(self).joints@.contains_key(x) && ((old(
                        self,
                    ).joints@[x].body1 != body && old(self).joints@[x].body2 != body)
                        || now.contains(x)));
                }
            }
            i += 1;
        }
        assert(self.joints@ =~= Self::joints_off(old(self).joints@, body));
    }
}

impl BodyRecord {
    /// A record as it is entered.
    pub open spec fn fresh(self, desc: RigidBodyDesc, user_data: u128) -> bool {
        &&& self.desc == desc
        &&& self.pose == (Pose { position: desc.position, rotation: desc.rotation })
        &&& self.target is None
        &&& self.linvel == Vec3::zero()
        &&& self.angvel == Vec3::zero()
        &&& !self.sleeping
        &&& self.inbox@ == Seq::<BodyAction>::empty()
        &&& self.user_data == user_data
    }
}

/// A body as a component of a node.
#[derive(Debug)]
pub struct RigidBody {
    pub desc: RigidBodyDesc,
    /// Its counterpart in the solver's table, once there is one.
    pub native: Option<BodyHandle>,
    /// Actions waiting for the next synchronisation, oldest first.
    pub actions: Vec<BodyAction>,
    /// The description was changed and has to be pushed.
    pub desc_dirty: bool,
    /// Read back from the solver.
    pub linvel: Vec3,
    /// Read back from the solver.
    pub angvel: Vec3,
    /// Read back from the solver.
    pub sleeping: bool,
}

impl RigidBody {
    /// A component that is not yet known to the solver.
    pub open spec fn fresh(self, desc: RigidBodyDesc) -> bool {
        &&& self.desc == desc
        &&& self.native is None
        &&& self.actions@ == Seq::<BodyAction>::empty()
        &&& !self.desc_dirty
        &&& self.linvel == Vec3::zero()
        &&& self.angvel == Vec3::zero()
        &&& !self.sleeping
    }

    /// Everything but the queue of actions is as in `other`.
    pub open spec fn same_but_actions(self, other: RigidBody) -> bool {
        &&& self.desc == other.desc
        &&& self.native == other.native
        &&& self.desc_dirty == other.desc_dirty
        &&& self.linvel == other.linvel
        &&& self.angvel == other.angvel
        &&& self.sleeping == other.sleeping
    }

    /// `other` with one action queued behind the others.
    pub open spec fn queued(self, other: RigidBody, action: BodyAction) -> bool {
        self.same_but_actions(other) && self.actions@ == other.actions@.push(action)
    }

    /// A body built from a description. Its pose is taken from the node.
    pub fn new(desc: RigidBodyDesc) -> (result: Self)
        ensures
            result.fresh(desc),
    {
        RigidBody {
            desc,
            native: None,
            actions: Vec::new(),
            desc_dirty: false,
            linvel: Vec3::zero(),
            angvel: Vec3::zero(),
            sleeping: false,
        }
    }

    /// A body that the solver moves.
    pub fn dynamic() -> (result: Self)
        ensures
            result.fresh(RigidBodyDesc::of_type(RigidBodyType::Dynamic)),
    {
        RigidBody::new(RigidBodyDesc::of_type(RigidBodyType::Dynamic))
    }

    /// A body that stays.
    pub fn fixed() -> (result: Self)
        ensures
            result.fresh(RigidBodyDesc::of_type(RigidBodyType::Fixed)),
    {
        RigidBody::new(RigidBodyDesc::of_type(RigidBodyType::Fixed))
    }

    /// A body that its node moves.
    pub fn kinematic() -> (result: Self)
        ensures
            result.fresh(RigidBodyDesc::of_type(RigidBodyType::KinematicPositionBased)),
    {
        RigidBody::new(RigidBodyDesc::of_type(RigidBodyType::KinematicPositionBased))
    }

    pub fn desc(&self) -> (result: &RigidBodyDesc)
        ensures
            *result == self.desc,
    {
        &self.desc
    }

    /// The description for writing; it is pushed at the next synchronisation.
    pub fn desc_mut(&mut self) -> (result: &mut RigidBodyDesc)
        ensures
            *result == old(self).desc,
            *final(self) == (RigidBody { desc: *final(result), desc_dirty: true, ..*old(self) }),
    {
        self.desc_dirty = true;
        &mut self.desc
    }

    pub fn body_type(&self) -> (result: RigidBodyType)
        ensures
            result == self.desc.body_type,
    {
        self.desc.body_type
    }

    /// This body with another type, to be pushed only if that is a change.
    pub open spec fn retyped(self, body_type: RigidBodyType) -> RigidBody {
        if self.desc.body_type == body_type {
            self
        } else {
            RigidBody {
                desc: RigidBodyDesc { body_type, ..self.desc },
                desc_dirty: true,
                ..self
            }
        }
    }

    /// Changes who moves the body.
    pub fn set_body_type(&mut self, body_type: RigidBodyType)
        ensures
            *final(self) == old(self).retyped(body_type),
    {
        if self.desc.body_type != body_type {
            self.desc.body_type = body_type;
            self.desc_dirty = true;
        }
    }

    pub fn linvel(&self) -> (result: Vec3)
        ensures
            result == self.linvel,
    {
        self.linvel
    }

    pub fn angvel(&self) -> (result: Vec3)
        ensures
            result == self.angvel,
    {
        self.angvel
    }

    pub fn is_sleeping(&self) -> (result: bool)
        ensures
            result == self.sleeping,
    {
        self.sleeping
    }

    pub fn native(&self) -> (result: Option<BodyHandle>)
        ensures
            result == self.native,
    {
        self.native
    }

    pub fn set_linvel(&mut self, linvel: Vec3)
        ensures
            final(self).queued(*old(self), BodyAction::SetLinvel(linvel)),
    {
        self.actions.push(BodyAction::SetLinvel(linvel));
    }

    pub fn set_angvel(&mut self, angvel: Vec3)
        ensures
            final(self).queued(*old(self), BodyAction::SetAngvel(angvel)),
    {
        self.actions.push(BodyAction::SetAngvel(angvel));
    }

    pub fn apply_impulse(&mut self, impulse: Vec3)
        ensures
            final(self).queued(*old(self), BodyAction::ApplyImpulse(impulse)),
    {
        self.actions.push(BodyAction::ApplyImpulse(impulse));
    }

    pub fn apply_torque_impulse(&mut self, impulse: Vec3)
        ensures
            final(self).queued(*old(self), BodyAction::ApplyTorqueImpulse(impulse)),
    {
        self.actions.push(BodyAction::ApplyTorqueImpulse(impulse));
    }

    pub fn apply_impulse_at_point(&mut self, impulse: Vec3, point: Vec3)
        ensures
            final(self).queued(*old(self), BodyAction::ApplyImpulseAtPoint(impulse, point)),
    {
        self.actions.push(BodyAction::ApplyImpulseAtPoint(impulse, point));
    }

    pub fn add_force(&mut self, force: Vec3)
        ensures
            final(self).queued(*old(self), BodyAction::AddForce(force)),
    {
        self.actions.push(BodyAction::AddForce(force));
    }

    pub fn add_torque(&mut self, torque: Vec3)
        ensures
            final(self).queued(*old(self), BodyAction::AddTorque(torque)),
    {
        self.actions.push(BodyAction::AddTorque(torque));
    }

    /// Moves the body; the only way to move one that the solver drives.
    pub fn teleport(&mut self, position: Vec3, rotation: Quat)
        ensures
            final(self).queued(*old(self), BodyAction::Teleport(position, rotation)),
    {
        self.actions.push(BodyAction::Teleport(position, rotation));
    }

    pub fn wake_up(&mut self)
        ensures
            final(self).queued(*old(self), BodyAction::WakeUp),
    {
        self.actions.push(BodyAction::WakeUp);
    }

    pub fn sleep(&mut self)
        ensures
            final(self).queued(*old(self), BodyAction::Sleep),
    {
        self.actions.push(BodyAction::Sleep);
    }

    pub fn set_native(&mut self, native: Option<BodyHandle>)
        ensures
            *final(self) == (RigidBody { native, ..*old(self) }),
    {
        self.native = native;
    }

    /// Takes over what the solver reports.
    pub fn read_back(&mut self, linvel: Vec3, angvel: Vec3, sleeping: bool)
        ensures
            *final(self) == (RigidBody { linvel, angvel, sleeping, ..*old(self) }),
    {
        self.linvel = linvel;
        self.angvel = angvel;
        self.sleeping = sleeping;
    }

    /// What the body has become once everything waiting was handed over.
    pub open spec fn flushed(self, before: RigidBody) -> bool {
        if before.native is None {
            self == before
        } else {
            &&& self.desc == before.desc
            &&& self.native == before.native
            &&& self.linvel == before.linvel
            &&& self.angvel == before.angvel
            &&& self.sleeping == before.sleeping
            &&& !self.desc_dirty
            &&& self.actions@ == Seq::<BodyAction>::empty()
        }
    }

    /// Hands the changed description and the waiting actions over to the solver's table. Without a
    /// counterpart there nothing happens, and the actions keep waiting. What waits for a counterpart
    /// that is gone is dropped.
    pub fn flush(&mut self, world: &mut PhysicsWorld)
        requires
            old(world).wf(),
        ensures
            final(world).wf(),
            final(self).flushed(*old(self)),
            final(world).bodies.capacity() == old(world).bodies.capacity(),
            forall|h: Handle|
                final(world).bodies.issued(h) == old(world).bodies.issued(h),
            final(world).colliders == old(world).colliders,
            final(world).joints == old(world).joints,
            final(world).events == old(world).events,
            match old(self).native {
                Some(body) if old(world).bodies@.contains_key(body.raw) => {
                    let after = final(world).bodies@[body.raw];
                    &&& final(world).bodies@ == old(world).bodies@.insert(body.raw, after)
                    &&& after.told(old(world).bodies@[body.raw], *old(self))
                },
                _ => final(world).bodies@ == old(world).bodies@,
            },
    {
        let handle = match self.native {
            Some(handle) => handle,
            None => {
                return;
            },
        };
        let dirty: bool = self.desc_dirty;
        self.desc_dirty = false;
        let mut actions: Vec<BodyAction> = Vec::new();
        std::mem::swap(&mut actions, &mut self.actions);
        match world.bodies.try_borrow_mut(handle.raw) {
            Some(record) => {
                if dirty {
                    record.desc.body_type = self.desc.body_type;
                    record.desc.gravity_scale = self.desc.gravity_scale;
                    record.desc.linear_damping = self.desc.linear_damping;
                    record.desc.angular_damping = self.desc.angular_damping;
                    record.desc.additional_mass = self.desc.additional_mass;
                    record.desc.ccd_enabled = self.desc.ccd_enabled;
                    record.desc.locked_rotations = self.desc.locked_rotations;
                    record.desc.locked_translations = self.desc.locked_translations;
                    record.desc.enabled = self.desc.enabled;
                }
                record.inbox.append(&mut actions);
            },
            None => {},
        }
    }
}

impl BodyRecord {
    /// This record is `before` after `body` has handed over what was waiting.
    pub open spec fn told(self, before: BodyRecord, body: RigidBody) -> bool {
        &&& self.desc == if body.desc_dirty {
            body.desc.pushed_over(before.desc)
        } else {
            before.desc
        }
        &&& self.inbox@ == before.inbox@ + body.actions@
        &&& self.pose == before.pose
        &&& self.target == before.target
        &&& self.linvel == before.linvel
        &&& self.angvel == before.angvel
        &&& self.sleeping == before.sleeping
        &&& self.user_data == before.user_data
    }
}

/// A collider as a component of a node.
#[derive(Debug, Clone, Copy)]
pub struct Collider {
    pub desc: ColliderDesc,
    /// Its counterpart in the solver's table, once there is one.
    pub native: Option<ColliderHandle>,
    /// The body that the counterpart was built on.
    pub bound_to: Option<BodyHandle>,
    pub desc_dirty: bool,
    pub shape_dirty: bool,
}

impl Collider {
    #[verifier::allow_in_spec]
    pub fn new(desc: ColliderDesc) -> Collider
        returns
            (Collider { desc, native: None, bound_to: None, desc_dirty: false, shape_dirty: false }),
    {
        Collider { desc, native: None, bound_to: None, desc_dirty: false, shape_dirty: false }
    }

    #[verifier::allow_in_spec]
    pub fn ball(radius: Real) -> Collider
        returns
            Collider::new(ColliderDesc::new(ColliderShape::Ball { radius })),
    {
        Collider::new(ColliderDesc::new(ColliderShape::Ball { radius }))
    }

    #[verifier::allow_in_spec]
    pub fn cuboid(half_extents: Vec3) -> Collider
        returns
            Collider::new(ColliderDesc::new(ColliderShape::Cuboid { half_extents })),
    {
        Collider::new(ColliderDesc::new(ColliderShape::Cuboid { half_extents }))
    }

    #[verifier::allow_in_spec]
    pub fn capsule_y(half_height: Real, radius: Real) -> Collider
        returns
            Collider::new(ColliderDesc::new(ColliderShape::CapsuleY { half_height, radius })),
    {
        Collider::new(ColliderDesc::new(ColliderShape::CapsuleY { half_height, radius }))
    }

    pub fn desc(&self) -> (result: &ColliderDesc)
        ensures
            *result == self.desc,
    {
        &self.desc
    }

    /// The description for writing; it takes effect at the next synchronisation.
    pub fn desc_mut(&mut self) -> (result: &mut ColliderDesc)
        ensures
            *result == old(self).desc,
            *final(self) == (Collider { desc: *final(result), desc_dirty: true, ..*old(self) }),
    {
        self.desc_dirty = true;
        &mut self.desc
    }

    /// Changes the shape, which makes the counterpart be rebuilt.
    pub fn set_shape(&mut self, shape: ColliderShape)
        ensures
            *final(self) == (Collider {
                desc: ColliderDesc { shape, ..old(self).desc },
                shape_dirty: true,
                ..*old(self)
            }),
    {
        self.desc.shape = shape;
        self.shape_dirty = true;
    }

    pub fn is_sensor(&self) -> (result: bool)
        ensures
            result == self.desc.is_sensor,
    {
        self.desc.is_sensor
    }

    /// Makes the collider a sensor or solid; setting what it is already changes nothing.
    pub fn set_sensor(&mut self, is_sensor: bool)
        ensures
            *final(self) == if old(self).desc.is_sensor == is_sensor {
                *old(self)
            } else {
                Collider {
                    desc: ColliderDesc { is_sensor, ..old(self).desc },
                    desc_dirty: true,
                    ..*old(self)
                }
            },
    {
        if self.desc.is_sensor != is_sensor {
            self.desc.is_sensor = is_sensor;
            self.desc_dirty = true;
        }
    }

    pub fn native(&self) -> (result: Option<ColliderHandle>)
        ensures
            result == self.native,
    {
        self.native
    }

    pub fn bound_to(&self) -> (result: Option<BodyHandle>)
        ensures
            result == self.bound_to,
    {
        self.bound_to
    }

    /// Whether the description was changed since this was last asked.
    pub fn take_desc_dirty(&mut self) -> (result: bool)
        ensures
            result == old(self).desc_dirty,
            *final(self) == (Collider { desc_dirty: false, ..*old(self) }),
    {
        let result: bool = self.desc_dirty;
        self.desc_dirty = false;
        result
    }

    /// Whether the shape was changed since this was last asked.
    pub fn take_shape_dirty(&mut self) -> (result: bool)
        ensures
            result == old(self).shape_dirty,
            *final(self) == (Collider { shape_dirty: false, ..*old(self) }),
    {
        let result: bool = self.shape_dirty;
        self.shape_dirty = false;
        result
    }
}

/// A joint as a component of a node; it connects the bodies of two other nodes.
#[derive(Debug, Clone, Copy)]
pub struct Joint {
    pub desc: JointDesc,
    pub body1: Handle,
    pub body2: Handle,
    /// Its counterpart in the solver's table, once there is one.
    pub native: Option<JointHandle>,
    /// Description or ends were changed, so the counterpart has to be rebuilt.
    pub dirty: bool,
}

impl Joint {
    #[verifier::allow_in_spec]
    pub fn new(body1: Handle, body2: Handle, desc: JointDesc) -> Joint
        returns
            (Joint { desc, body1, body2, native: None, dirty: false }),
    {
        Joint { desc, body1, body2, native: None, dirty: false }
    }

    pub fn desc(&self) -> (result: &JointDesc)
        ensures
            *result == self.desc,
    {
        &self.desc
    }

    /// The description for writing; the joint is rebuilt at the next synchronisation.
    pub fn desc_mut(&mut self) -> (result: &mut JointDesc)
        ensures
            *result == old(self).desc,
            *final(self) == (Joint { desc: *final(result), dirty: true, ..*old(self) }),
    {
        self.dirty = true;
        &mut self.desc
    }

    pub fn body1(&self) -> (result: Handle)
        ensures
            result == self.body1,
    {
        self.body1
    }

    pub fn body2(&self) -> (result: Handle)
        ensures
            result == self.body2,
    {
        self.body2
    }

    /// Connects two other nodes; the joint is rebuilt at the next synchronisation.
    pub fn set_bodies(&mut self, body1: Handle, body2: Handle)
        ensures
            *final(self) == (Joint { body1, body2, dirty: true, ..*old(self) }),
    {
        self.body1 = body1;
        self.body2 = body2;
        self.dirty = true;
    }

    pub fn native(&self) -> (result: Option<JointHandle>)
        ensures
            result == self.native,
    {
        self.native
    }

    /// Whether the joint was changed since this was last asked.
    pub fn take_dirty(&mut self) -> (result: bool)
        ensures
            result == old(self).dirty,
            *final(self) == (Joint { dirty: false, ..*old(self) }),
    {
        let result: bool = self.dirty;
        self.dirty = false;
        result
    }
}

} // verus!
