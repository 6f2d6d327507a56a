//! What ragdolls do to bodies and bones, and how they are built.

use crate::numbers::{Pose, Real, Vec3};
use crate::pool::Handle;
use crate::scene::graph::Scene;
use crate::scene::node::Node;
use crate::scene::physics::{BodyAction, JointDesc, RigidBody, RigidBodyType};
use crate::scene::ragdoll;
use crate::scene::ragdoll::{Ragdoll, RagdollLimb};
use crate::scene::ragdoll_builder;
use crate::scene::ragdoll_builder::{FlatLimb, LimbDesc, LimbPlace, RagdollBuilder};
use crate::text;
use vstd::prelude::*;

verus! {

/// A vector without length.
pub open spec fn nil(v: Vec3) -> bool {
    v.x.bits == 0 && v.y.bits == 0 && v.z.bits == 0
}

/// Apart from its type and what waits at it, a body is as it was; a new type is to be pushed.
pub open spec fn only_retyped(after: RigidBody, before: RigidBody, body_type: RigidBodyType) -> bool {
    &&& after.desc.body_type == body_type
    &&& after.desc.position == before.desc.position
    &&& after.desc.rotation == before.desc.rotation
    &&& after.desc.gravity_scale == before.desc.gravity_scale
    &&& after.desc.linear_damping == before.desc.linear_damping
    &&& after.desc.angular_damping == before.desc.angular_damping
    &&& after.desc.additional_mass == before.desc.additional_mass
    &&& after.desc.ccd_enabled == before.desc.ccd_enabled
    &&& after.desc.can_sleep == before.desc.can_sleep
    &&& after.desc.enabled == before.desc.enabled
    &&& after.desc.locked_rotations == before.desc.locked_rotations
    &&& after.desc.locked_translations == before.desc.locked_translations
    &&& after.native == before.native
    &&& after.linvel == before.linvel
    &&& after.angvel == before.angvel
    &&& after.sleeping == before.sleeping
    &&& before.desc.body_type != body_type ==> after.desc_dirty
    &&& before.desc.body_type == body_type ==> after.desc_dirty == before.desc_dirty
}

/// A body that is held is moved by its node and told to stand still.
pub proof fn lemma_held_body_stands_still(after: RigidBody, before: RigidBody)
    requires
        ragdoll::held(after, before),
    ensures
        only_retyped(after, before, RigidBodyType::KinematicPositionBased),
        after.actions@.len() == before.actions@.len() + 2,
        forall|i: int|
            0 <= i < before.actions@.len() ==> #[trigger] after.actions@[i] == before.actions@[i],
        after.actions@[before.actions@.len() as int] matches BodyAction::SetLinvel(v) && nil(v),
        after.actions@[before.actions@.len() as int + 1] matches BodyAction::SetAngvel(v) && nil(v),
{
}

/// A body that is released is moved by the solver. It starts with the velocity that it inherits, if
/// there is one, and is told nothing otherwise.
pub proof fn lemma_released_body_is_dynamic(
    after: RigidBody,
    before: RigidBody,
    velocity: Option<(Vec3, Vec3)>,
)
    requires
        ragdoll::released(after, before, velocity),
    ensures
        only_retyped(after, before, RigidBodyType::Dynamic),
        forall|i: int|
            0 <= i < before.actions@.len() ==> #[trigger] after.actions@[i] == before.actions@[i],
        velocity is None ==> after.actions@.len() == before.actions@.len(),
        velocity matches Some((linvel, angvel)) ==> {
            &&& after.actions@.len() == before.actions@.len() + 2
            &&& after.actions@[before.actions@.len() as int] == BodyAction::SetLinvel(linvel)
            &&& after.actions@[before.actions@.len() as int + 1] == BodyAction::SetAngvel(angvel)
        },
{
}

/// What a node carries besides its transform, its body and its ragdoll is the same.
pub open spec fn rest_kept(after: Node, before: Node) -> bool {
    &&& after.name == before.name
    &&& after.visible == before.visible
    &&& after.mesh == before.mesh
    &&& after.material == before.material
    &&& after.collider == before.collider
    &&& after.joint == before.joint
    &&& after.parent == before.parent
    &&& after.children == before.children
    &&& after.sound == before.sound
    &&& after.script == before.script
    &&& after.global_transform == before.global_transform
}

/// Once an active ragdoll has ended its step, the character's body is moved by its node, stands still
/// and is where the root limb is; what moved it before is remembered, once. The ragdoll knows that it
/// was active. No other node changes.
pub proof fn lemma_active_ragdoll_takes_over(
    after: Map<Handle, Node>,
    before: Map<Handle, Node>,
    h: Handle,
    position: Vec3,
)
    requires
        ragdoll::taken_over(after, before, h, position),
        before.contains_key(h),
        before[h].ragdoll is Some,
        before[h].ragdoll->0.active,
        before[h].ragdoll->0.character_body != h,
    ensures
        after.dom() == before.dom(),
        after[h].ragdoll is Some,
        after[h].ragdoll->0.active,
        after[h].ragdoll->0.prev_active,
        after[h].ragdoll->0.root == before[h].ragdoll->0.root,
        after[h].ragdoll->0.character_body == before[h].ragdoll->0.character_body,
        rest_kept(after[h], before[h]),
        ({
            let doll = before[h].ragdoll->0;
            let character = doll.character_body;
            let had = before.contains_key(character) && before[character].rigid_body is Some;
            &&& had ==> {
                &&& after[character].rigid_body is Some
                &&& only_retyped(
                    after[character].rigid_body->0,
                    before[character].rigid_body->0,
                    RigidBodyType::KinematicPositionBased,
                )
                &&& after[character].transform.position == position
                &&& after[character].transform.rotation == before[character].transform.rotation
                &&& after[character].transform.scale == before[character].transform.scale
                &&& rest_kept(after[character], before[character])
            }
            &&& doll.character_body_type is Some ==> after[h].ragdoll->0.character_body_type
                == doll.character_body_type
            &&& doll.character_body_type is None && had ==> after[h].ragdoll->0.character_body_type
                == Some(before[character].rigid_body->0.desc.body_type)
            &&& !had ==> after[h].ragdoll->0.character_body_type == doll.character_body_type
        }),
        forall|x: Handle|
            x != h && x != before[h].ragdoll->0.character_body && #[trigger] before.contains_key(x)
                ==> after[x] == before[x],
{
    let doll = before[h].ragdoll->0;
    let middle = choose|middle: Map<Handle, Node>|
        {
            &&& #[trigger] ragdoll::character_moved(middle, before, doll, position)
            &&& after == middle.insert(
                h,
                Node {
                    ragdoll: Some(
                        Ragdoll {
                            prev_active: doll.active,
                            character_body_type: if doll.active && (before.contains_key(
                                doll.character_body,
                            ) && before[doll.character_body].rigid_body is Some)
                                && doll.character_body_type is None {
                                Some(before[doll.character_body].rigid_body->0.desc.body_type)
                            } else {
                                doll.character_body_type
                            },
                            ..doll
                        },
                    ),
                    ..middle[h]
                },
            )
        };
    assert(middle.dom() =~= before.dom());
    assert(after.dom() =~= before.dom());
    if before.contains_key(doll.character_body) && before[doll.character_body].rigid_body is Some {
        lemma_held_body_stands_still(
            middle[doll.character_body].rigid_body->0,
            before[doll.character_body].rigid_body->0,
        );
    }
}

/// A ragdoll that is not active gives the character's body back to what moved it, if it had taken it
/// over, and forgets what that was. No other node changes.
pub proof fn lemma_idle_ragdoll_gives_back(before: Map<Handle, Node>, h: Handle)
    requires
        before.contains_key(h),
        before[h].ragdoll is Some,
        !before[h].ragdoll->0.active,
        before[h].ragdoll->0.character_body != h,
    ensures
        ({
            let after = ragdoll::character_restored(before, h);
            let doll = before[h].ragdoll->0;
            let character = doll.character_body;
            &&& after.dom() == before.dom()
            &&& after[h].ragdoll is Some
            &&& after[h].ragdoll->0.character_body_type is None
            &&& after[h].ragdoll->0.root == doll.root
            &&& after[h].ragdoll->0.active == doll.active
            &&& after[h].ragdoll->0.prev_active == doll.prev_active
            &&& after[h].ragdoll->0.character_body == doll.character_body
            &&& rest_kept(after[h], before[h])
            &&& doll.character_body_type is None ==> forall|x: Handle|
                x != h && #[trigger] before.contains_key(x) ==> after[x] == before[x]
            &&& doll.character_body_type is Some && before.contains_key(character)
                && before[character].rigid_body is Some ==> {
                &&& after[character].rigid_body is Some
                &&& only_retyped(
                    after[character].rigid_body->0,
                    before[character].rigid_body->0,
                    doll.character_body_type->0,
                )
                &&& after[character].rigid_body->0.actions
                    == before[character].rigid_body->0.actions
                &&& after[character].transform == before[character].transform
                &&& rest_kept(after[character], before[character])
            }
            &&& forall|x: Handle|
                x != h && x != character && #[trigger] before.contains_key(x) ==> after[x]
                    == before[x]
        }),
{
    assert(ragdoll::character_restored(before, h).dom() =~= before.dom());
}

/// A limb comes before everything that hangs on it, and each of its children brings its own limbs.
pub proof fn lemma_limbs_are_listed(limb: RagdollLimb, i: int)
    requires
        0 <= i < limb.children@.len(),
    ensures
        limb.pairs().len() > 0,
        limb.pairs()[0].bone == limb.bone,
        limb.pairs()[0].body == limb.body,
        exists|at: int|
            {
                &&& 0 < at
                &&& at + limb.children@[i].pairs().len() <= limb.pairs().len()
                &&& #[trigger] limb.pairs().subrange(
                    at,
                    at + limb.children@[i].pairs().len(),
                ) == limb.children@[i].pairs()
            },
{
    let at = lemma_pairs_of(limb.children@, i);
    let first = seq![ragdoll::LimbPair { bone: limb.bone, body: limb.body }];
    let rest = RagdollLimb::pairs_of(limb.children@);
    let n = limb.children@[i].pairs().len();
    assert(limb.pairs() =~= first + rest);
    assert(limb.pairs().subrange(at + 1, at + 1 + n) =~= rest.subrange(at, at + n as int));
}

proof fn lemma_pairs_of(list: Seq<RagdollLimb>, i: int) -> (at: int)
    requires
        0 <= i < list.len(),
    ensures
        0 <= at,
        at + list[i].pairs().len() <= RagdollLimb::pairs_of(list).len(),
        RagdollLimb::pairs_of(list).subrange(at, at + list[i].pairs().len()) == list[i].pairs(),
    decreases list.len(),
{
    let front = RagdollLimb::pairs_of(list.drop_last());
    let all = RagdollLimb::pairs_of(list);
    assert(all =~= front + list.last().pairs());
    if i < list.len() - 1 {
        assert(list.drop_last()[i] == list[i]);
        let at = lemma_pairs_of(list.drop_last(), i);
        assert(all.subrange(at, at + list[i].pairs().len()) =~= front.subrange(
            at,
            at + list[i].pairs().len(),
        ));
        at
    } else {
        let at = front.len() as int;
        assert(all.subrange(at, at + list[i].pairs().len()) =~= list[i].pairs());
        at
    }
}

/// The body of a limb stands where its bone has its place, unscaled, is moved by the solver, never
/// sleeps, has the mass that each limb is to have, and wears the shape of the limb where the limb has
/// it.
pub proof fn lemma_limb_is_built_as_described(
    node: Node,
    limb: FlatLimb,
    place: LimbPlace,
    mass: Real,
)
    requires
        ragdoll_builder::limb_node(node, limb, place.pose, mass),
    ensures
        node.name@ == "Limb:"@ + text::decimal(limb.bone.index as nat),
        node.transform.position == place.pose.position,
        node.transform.rotation == place.pose.rotation,
        node.transform.scale.x.bits == 0x3f80_0000,
        node.transform.scale.y.bits == 0x3f80_0000,
        node.transform.scale.z.bits == 0x3f80_0000,
        node.rigid_body is Some,
        node.rigid_body->0.desc.body_type == RigidBodyType::Dynamic,
        node.rigid_body->0.desc.additional_mass == mass,
        !node.rigid_body->0.desc.can_sleep,
        node.rigid_body->0.desc.enabled,
        node.rigid_body->0.desc.gravity_scale.bits == 0x3f80_0000,
        node.rigid_body->0.native is None,
        node.rigid_body->0.actions@.len() == 0,
        node.collider is Some,
        node.collider->0.desc.shape == limb.shape,
        node.collider->0.desc.position == limb.offset,
        node.collider->0.desc.rotation == limb.rotation,
        !node.collider->0.desc.is_sensor,
        node.collider->0.native is None,
        node.joint is None,
        node.mesh is None,
        node.visible,
{
}

/// The joint of a limb connects the body of the limb that it hangs on with its own, in that order, at
/// the anchor in the one and at the bone in the other, and is otherwise as described.
pub proof fn lemma_limb_hangs_by_its_joint(
    node: Node,
    desc: JointDesc,
    parent: Handle,
    body: Handle,
    anchor: Vec3,
)
    requires
        ragdoll_builder::joint_node(node, desc, parent, body, anchor),
    ensures
        node.joint is Some,
        node.joint->0.body1 == parent,
        node.joint->0.body2 == body,
        node.joint->0.desc.local_anchor1 == anchor,
        nil(node.joint->0.desc.local_anchor2),
        node.joint->0.desc.kind == desc.kind,
        node.joint->0.desc.local_basis1 == desc.local_basis1,
        node.joint->0.desc.local_basis2 == desc.local_basis2,
        node.joint->0.desc.contacts_enabled == desc.contacts_enabled,
        node.joint->0.native is None,
        node.rigid_body is None,
        node.collider is None,
{
}

/// A limb that was built has its body under the ragdoll's node. If it hangs on another limb by a
/// joint, there is a node with that joint, between the body of the limb that it hangs on and its own.
pub proof fn lemma_limb_is_connected(
    before: &Scene,
    after: &Scene,
    limb: FlatLimb,
    place: LimbPlace,
    mass: Real,
    container: Handle,
    bodies: Seq<Handle>,
    k: int,
)
    requires
        ragdoll_builder::limb_built(before, after, limb, place, mass, container, bodies, k),
    ensures
        limb.parent is None || limb.joint is None ==> after.nodes@.contains_key(bodies[k])
            && after.nodes@[bodies[k]].parent == container
            && after.nodes@[bodies[k]].transform.position == place.pose.position,
        limb.parent is Some && limb.joint is Some ==> exists|h: Handle|
            {
                &&& #[trigger] after.nodes@.contains_key(h)
                &&& after.nodes@[h].parent == container
                &&& after.nodes@[h].joint is Some
                &&& after.nodes@[h].joint->0.body1 == bodies[limb.parent->0 as int]
                &&& after.nodes@[h].joint->0.body2 == bodies[k]
                &&& after.nodes@[h].joint->0.desc.local_anchor1 == place.anchor
                &&& after.nodes@[h].joint->0.desc.kind == limb.joint->0.kind
            },
{
    let (middle, node) = choose|middle: Scene, node: Node|
        {
            &&& #[trigger] middle.gained(before, bodies[k], node, container)
            &&& ragdoll_builder::limb_node(node, limb, place.pose, mass)
            &&& match (limb.parent, limb.joint) {
                (Some(parent), Some(desc)) => exists|h: Handle, joint: Node|
                    {
                        &&& #[trigger] after.gained(&middle, h, joint, container)
                        &&& ragdoll_builder::joint_node(
                            joint,
                            desc,
                            bodies[parent as int],
                            bodies[k],
                            place.anchor,
                        )
                    },
                _ => *after == middle,
            }
        };
    if limb.parent is Some && limb.joint is Some {
        let (h, joint) = choose|h: Handle, joint: Node|
            {
                &&& #[trigger] after.gained(&middle, h, joint, container)
                &&& ragdoll_builder::joint_node(
                    joint,
                    limb.joint->0,
                    bodies[limb.parent->0 as int],
                    bodies[k],
                    place.anchor,
                )
            };
        assert(after.nodes@.dom().contains(h));
        assert(after.nodes@.contains_key(h));
    } else {
        assert(middle.nodes@.dom().contains(bodies[k]));
    }
}

/// The limbs of a ragdoll that was built have the bones that were described, in their order, each with
/// the body that was built for it; it is not active, and knows the character's body.
pub proof fn lemma_ragdoll_is_put_on(
    after: &Scene,
    before: &Scene,
    h: Handle,
    builder: &RagdollBuilder,
    bodies: Seq<Handle>,
    i: int,
)
    requires
        ragdoll_builder::finished(after, before, h, builder, bodies),
        0 <= i < builder.root.bones().len(),
    ensures
        after.nodes@.contains_key(h),
        after.nodes@[h].ragdoll is Some,
        after.nodes@[h].ragdoll->0.root.pairs()[i].bone == builder.root.bones()[i],
        after.nodes@[h].ragdoll->0.root.pairs()[i].body == bodies[i],
        after.nodes@[h].ragdoll->0.root.bone == builder.root.bone,
        after.nodes@[h].ragdoll->0.root.children@.len() == builder.root.children@.len(),
        after.nodes@[h].ragdoll->0.character_body == builder.character_body,
        !after.nodes@[h].ragdoll->0.active,
        !after.nodes@[h].ragdoll->0.prev_active,
        after.nodes@[h].transform == before.nodes@[h].transform,
        after.nodes@[h].name == before.nodes@[h].name,
        forall|x: Handle|
            x != h && #[trigger] before.nodes@.contains_key(x) ==> after.nodes@[x]
                == before.nodes@[x],
        after.index.ragdolls@.contains(h),
{
    let list = before.index.ragdolls@;
    if !list.contains(h) {
        assert(after.index.ragdolls@[list.len() as int] == h);
    }
}

/// Flattening keeps every limb as it is described, and each child hangs on its own parent.
pub proof fn lemma_limbs_are_flattened(limb: LimbDesc, parent: Option<usize>, start: nat, i: int)
    requires
        0 <= i < limb.children@.len(),
        start + limb.flat(parent, start).len() <= usize::MAX,
    ensures
        limb.flat(parent, start).len() > 0,
        ({
            let own = limb.flat(parent, start)[0];
            &&& own.bone == limb.bone
            &&& own.shape == limb.shape
            &&& own.offset == limb.offset
            &&& own.rotation == limb.rotation
            &&& own.joint == limb.joint
            &&& own.parent == parent
        }),
        exists|at: int|
            {
                &&& 0 < at < limb.flat(parent, start).len()
                &&& (#[trigger] limb.flat(parent, start)[at]).bone == limb.children@[i].bone
                &&& limb.flat(parent, start)[at].shape == limb.children@[i].shape
                &&& limb.flat(parent, start)[at].joint == limb.children@[i].joint
                &&& limb.flat(parent, start)[at].parent == Some(start as usize)
            },
{
    let rest = LimbDesc::flat_of(limb.children@, Some(start as usize), start + 1);
    assert(limb.flat(parent, start) =~= seq![limb.alone(parent)] + rest);
    let at = lemma_flat_of(limb.children@, Some(start as usize), start + 1, i);
    assert(limb.flat(parent, start)[at + 1] == rest[at]);
}

proof fn lemma_flat_of(list: Seq<LimbDesc>, parent: Option<usize>, start: nat, i: int) -> (at: int)
    requires
        0 <= i < list.len(),
    ensures
        0 <= at < LimbDesc::flat_of(list, parent, start).len(),
        LimbDesc::flat_of(list, parent, start)[at] == list[i].alone(parent),
    decreases list.len(),
{
    let front = LimbDesc::flat_of(list.drop_last(), parent, start);
    let last = list.last().flat(parent, start + front.len());
    let all = LimbDesc::flat_of(list, parent, start);
    assert(all =~= front + last);
    if i < list.len() - 1 {
        assert(list.drop_last()[i] == list[i]);
        let at = lemma_flat_of(list.drop_last(), parent, start, i);
        assert(all[at] == front[at]);
        at
    } else {
        assert(last[0] == list.last().alone(parent));
        assert(all[front.len() as int] == last[0]);
        front.len() as int
    }
}

/// The limbs of a ragdoll that is not active follow their bones: the body of a limb is where its bone
/// is, with its own scale, is moved by its node and stands still.
pub proof fn lemma_limb_follows_its_bone(
    before: Map<Handle, Node>,
    after: Map<Handle, Node>,
    body: Handle,
    pose: Pose,
)
    requires
        ragdoll::limb_held(before, after, body, pose),
        before.contains_key(body),
    ensures
        after[body].transform.position == pose.position,
        after[body].transform.rotation == pose.rotation,
        after[body].transform.scale == before[body].transform.scale,
        rest_kept(after[body], before[body]),
        before[body].rigid_body is Some ==> {
            &&& after[body].rigid_body is Some
            &&& only_retyped(
                after[body].rigid_body->0,
                before[body].rigid_body->0,
                RigidBodyType::KinematicPositionBased,
            )
        },
        forall|x: Handle|
            x != body && #[trigger] before.contains_key(x) ==> after[x] == before[x],
{
    if before[body].rigid_body is Some {
        lemma_held_body_stands_still(after[body].rigid_body->0, before[body].rigid_body->0);
    }
}

/// The limbs of an active ragdoll are the solver's: the body of a limb is moved by the solver, where it
/// is, and starts with the velocity that it inherits.
pub proof fn lemma_limb_is_let_go(
    before: Map<Handle, Node>,
    after: Map<Handle, Node>,
    body: Handle,
    inherited: Option<(Vec3, Vec3)>,
)
    requires
        ragdoll::limb_let_go(before, after, body, inherited),
        before.contains_key(body),
        before[body].rigid_body is Some,
    ensures
        after[body].transform == before[body].transform,
        rest_kept(after[body], before[body]),
        after[body].rigid_body is Some,
        only_retyped(
            after[body].rigid_body->0,
            before[body].rigid_body->0,
            RigidBodyType::Dynamic,
        ),
        inherited matches Some((linvel, angvel)) ==> {
            let actions = after[body].rigid_body->0.actions@;
            &&& actions.len() >= 2
            &&& actions[actions.len() - 2] == BodyAction::SetLinvel(linvel)
            &&& actions[actions.len() - 1] == BodyAction::SetAngvel(angvel)
        },
        inherited is None ==> after[body].rigid_body->0.actions@
            == before[body].rigid_body->0.actions@,
        forall|x: Handle|
            x != body && #[trigger] before.contains_key(x) ==> after[x] == before[x],
{
    lemma_released_body_is_dynamic(
        after[body].rigid_body->0,
        before[body].rigid_body->0,
        inherited,
    );
}

/// The bones of an active ragdoll follow their bodies: a bone is where its body is, with its own
/// scale, and carries what it carried.
pub proof fn lemma_bone_follows_its_body(
    before: Map<Handle, Node>,
    after: Map<Handle, Node>,
    bone: Handle,
    pose: Pose,
)
    requires
        ragdoll::bone_put(before, after, bone, pose),
        before.contains_key(bone),
    ensures
        after[bone].transform.position == pose.position,
        after[bone].transform.rotation == pose.rotation,
        after[bone].transform.scale == before[bone].transform.scale,
        after[bone].rigid_body == before[bone].rigid_body,
        rest_kept(after[bone], before[bone]),
        forall|x: Handle|
            x != bone && #[trigger] before.contains_key(x) ==> after[x] == before[x],
{
}

} // verus!
