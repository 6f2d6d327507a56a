//! Building ragdolls.

use crate::numbers::{Pose, Quat, Real, Transform, Vec3};
use crate::pool::Handle;
use crate::scene::graph;
use crate::scene::graph::Scene;
use crate::scene::node::Node;
use crate::scene::physics::{
    Collider, ColliderDesc, ColliderShape, Joint, JointDesc, RigidBody, RigidBodyDesc,
    RigidBodyType,
};
use crate::scene::ragdoll::{LimbPair, Ragdoll, RagdollLimb};
use crate::text;
use vstd::prelude::*;

verus! {

/// How one limb is to be built, with the limbs that hang on it.
#[derive(Debug)]
pub struct LimbDesc {
    pub bone: Handle,
    pub shape: ColliderShape,
    /// Where the shape is, relative to the bone.
    pub offset: Vec3,
    pub rotation: Quat,
    /// How the limb hangs on its parent. The anchors are worked out.
    pub joint: Option<JointDesc>,
    pub children: Vec<LimbDesc>,
}

/// One limb of a list of limbs, parents first.
#[derive(Debug, Clone, Copy)]
pub struct FlatLimb {
    pub bone: Handle,
    pub shape: ColliderShape,
    pub offset: Vec3,
    pub rotation: Quat,
    pub joint: Option<JointDesc>,
    /// The number of the limb that it hangs on.
    pub parent: Option<usize>,
}

impl LimbDesc {
    pub fn new(bone: Handle, shape: ColliderShape) -> (result: Self)
        ensures
            result.bone == bone,
            result.shape == shape,
            result.offset == Vec3::zero(),
            result.rotation == Quat::identity(),
            result.joint is None,
            result.children@ == Seq::<LimbDesc>::empty(),
    {
        LimbDesc {
            bone,
            shape,
            offset: Vec3::zero(),
            rotation: Quat::identity(),
            joint: None,
            children: Vec::new(),
        }
    }

    pub fn with_offset(self, offset: Vec3, rotation: Quat) -> (result: Self)
        ensures
            result == (LimbDesc { offset, rotation, ..self }),
    {
        LimbDesc { offset, rotation, ..self }
    }

    pub fn with_joint(self, joint: JointDesc) -> (result: Self)
        ensures
            result == (LimbDesc { joint: Some(joint), ..self }),
    {
        LimbDesc { joint: Some(joint), ..self }
    }

    /// Hangs one more limb on it.
    pub fn with_child(self, child: LimbDesc) -> (result: Self)
        ensures
            result.children@ == self.children@.push(child),
            result == (LimbDesc { children: result.children, ..self }),
    {
        let mut result = self;
        result.children.push(child);
        result
    }

    /// The limb alone.
    pub open spec fn alone(self, parent: Option<usize>) -> FlatLimb {
        FlatLimb {
            bone: self.bone,
            shape: self.shape,
            offset: self.offset,
            rotation: self.rotation,
            joint: self.joint,
            parent,
        }
    }

    /// The limb and everything that hangs on it, parents first. `start` is how many there are
    /// before.
    pub open spec fn flat(self, parent: Option<usize>, start: nat) -> Seq<FlatLimb>
        decreases self, 0nat,
    {
        seq![self.alone(parent)] + Self::flat_of(self.children@, Some(start as usize), start + 1)
    }

    pub open spec fn flat_of(list: Seq<LimbDesc>, parent: Option<usize>, start: nat) -> Seq<FlatLimb>
        decreases list, list.len(),
    {
        if list.len() == 0 {
            Seq::empty()
        } else {
            let front = Self::flat_of(list.drop_last(), parent, start);
            front + list.last().flat(parent, start + front.len())
        }
    }

    /// The bones of the limb and of everything that hangs on it, parents first.
    pub open spec fn bones(self) -> Seq<Handle>
        decreases self, 0nat,
    {
        seq![self.bone] + Self::bones_of(self.children@)
    }

    pub open spec fn bones_of(list: Seq<LimbDesc>) -> Seq<Handle>
        decreases list, list.len(),
    {
        if list.len() == 0 {
            Seq::empty()
        } else {
            Self::bones_of(list.drop_last()) + list.last().bones()
        }
    }

    /// Whether a limb has the bones of the description, in the same arrangement.
    pub open spec fn shapes(self, limb: RagdollLimb) -> bool
        decreases self,
    {
        &&& limb.bone == self.bone
        &&& limb.children@.len() == self.children@.len()
        &&& forall|i: int|
            0 <= i < self.children@.len() ==> (#[trigger] self.children@[i]).shapes(
                limb.children@[i],
            )
    }

    proof fn lemma_flat(self, parent: Option<usize>, start: nat)
        ensures
            self.flat(parent, start).len() == self.bones().len(),
            forall|i: int|
                0 <= i < self.bones().len() ==> (#[trigger] self.flat(parent, start)[i]).bone
                    == self.bones()[i],
        decreases self, 0nat,
    {
        Self::lemma_flat_of(self.children@, Some(start as usize), start + 1);
    }

    proof fn lemma_flat_of(list: Seq<LimbDesc>, parent: Option<usize>, start: nat)
        ensures
            Self::flat_of(list, parent, start).len() == Self::bones_of(list).len(),
            forall|i: int|
                0 <= i < Self::bones_of(list).len() ==> (#[trigger] Self::flat_of(
                    list,
                    parent,
                    start,
                )[i]).bone == Self::bones_of(list)[i],
        decreases list, list.len(),
    {
        if list.len() > 0 {
            Self::lemma_flat_of(list.drop_last(), parent, start);
            let front = Self::flat_of(list.drop_last(), parent, start);
            list.last().lemma_flat(parent, start + front.len());
        }
    }

    fn flatten(&self, parent: Option<usize>, out: &mut Vec<FlatLimb>)
        requires
            limbs_ok(old(out)@),
            parent matches Some(j) ==> j < old(out)@.len(),
        ensures
            final(out)@ == old(out)@ + self.flat(parent, old(out)@.len()),
            limbs_ok(final(out)@),
        decreases self,
    {
        let ghost begin = out@;
        let me: usize = out.len();
        out.push(
            FlatLimb {
                bone: self.bone,
                shape: self.shape,
                offset: self.offset,
                rotation: self.rotation,
                joint: self.joint,
                parent,
            },
        );
        let ghost head = out@;
        let mut i: usize = 0;
        while i < self.children.len()
            invariant
                i <= self.children@.len(),
                me < head.len(),
                head.len() <= out@.len(),
                limbs_ok(out@),
                out@ == head + Self::flat_of(self.children@.take(i as int), Some(me), head.len()),
            decreases self.children@.len() - i,
        {
            let ghost front = Self::flat_of(self.children@.take(i as int), Some(me), head.len());
            self.children[i].flatten(Some(me), out);
            i += 1;
            proof {
                let next = self.children@.take(i as int);
                assert(next.drop_last() =~= self.children@.take(i - 1));
                assert(out@ =~= head + Self::flat_of(next, Some(me), head.len()));
            }
        }
        assert(self.children@.take(i as int) =~= self.children@);
        assert(out@ =~= begin + self.flat(parent, begin.len()));
    }

    fn assemble(&self, bodies: &Vec<Handle>, next: &mut usize) -> (result: RagdollLimb)
        requires
            *old(next) + self.bones().len() <= bodies@.len(),
        ensures
            *final(next) == *old(next) + self.bones().len(),
            self.shapes(result),
            result.pairs().len() == self.bones().len(),
            forall|i: int|
                0 <= i < self.bones().len() ==> #[trigger] result.pairs()[i] == (LimbPair {
                    bone: self.bones()[i],
                    body: bodies@[*old(next) + i],
                }),
        decreases self,
    {
        let ghost start = *next as int;
        assert(self.bones().len() >= 1);
        assert(*next + 1 <= bodies.len());
        let body = bodies[*next];
        *next = *next + 1;
        let mut children: Vec<RagdollLimb> = Vec::new();
        let mut i: usize = 0;
        while i < self.children.len()
            invariant
                i <= self.children@.len(),
                children@.len() == i,
                start + self.bones().len() <= bodies@.len(),
                *next == start + 1 + Self::bones_of(self.children@.take(i as int)).len(),
                RagdollLimb::pairs_of(children@).len() == Self::bones_of(
                    self.children@.take(i as int),
                ).len(),
                forall|k: int|
                    0 <= k < RagdollLimb::pairs_of(children@).len()
                        ==> #[trigger] RagdollLimb::pairs_of(children@)[k] == (LimbPair {
                        bone: Self::bones_of(self.children@.take(i as int))[k],
                        body: bodies@[start + 1 + k],
                    }),
                forall|k: int|
                    0 <= k < i ==> (#[trigger] self.children@[k]).shapes(children@[k]),
            decreases self.children@.len() - i,
        {
            let ghost front = children@;
            proof {
                lemma_fewer_bones(self.children@, i + 1);
                assert(self.children@.take(i + 1).drop_last() =~= self.children@.take(i as int));
                assert(self.children@.take(i + 1).last() == self.children@[i as int]);
            }
            let child = self.children[i].assemble(bodies, next);
            children.push(child);
            proof {
                assert(children@.drop_last() =~= front);
                let before = RagdollLimb::pairs_of(front);
                let now = RagdollLimb::pairs_of(children@);
                assert(now == before + child.pairs());
                let bones = Self::bones_of(self.children@.take(i + 1));
                assert forall|k: int| 0 <= k < now.len() implies #[trigger] now[k] == (LimbPair {
                    bone: bones[k],
                    body: bodies@[start + 1 + k],
                }) by {
                    if k < before.len() {
                        assert(now[k] == before[k]);
                    } else {
                        let j = k - before.len();
                        assert(now[k] == child.pairs()[j]);
                    }
                }
            }
            i += 1;
        }
        assert(self.children@.take(i as int) =~= self.children@);
        let result = RagdollLimb { bone: self.bone, body, children };
        proof {
            assert forall|k: int| 0 <= k < self.bones().len() implies #[trigger] result.pairs()[k]
                == (LimbPair { bone: self.bones()[k], body: bodies@[start + k] }) by {
                if k > 0 {
                    assert(result.pairs()[k] == RagdollLimb::pairs_of(result.children@)[k - 1]);
                    assert(self.bones()[k] == Self::bones_of(self.children@)[k - 1]);
                }
            }
        }
        result
    }
}

proof fn lemma_fewer_bones(list: Seq<LimbDesc>, n: int)
    requires
        0 <= n <= list.len(),
    ensures
        LimbDesc::bones_of(list.take(n)).len() <= LimbDesc::bones_of(list).len(),
    decreases list.len() - n,
{
    if n < list.len() {
        lemma_fewer_bones(list, n + 1);
        assert(list.take(n + 1).drop_last() =~= list.take(n));
    } else {
        assert(list.take(n) =~= list);
    }
}

/// Each limb hangs on an earlier one, or on none.
pub open spec fn limbs_ok(limbs: Seq<FlatLimb>) -> bool {
    forall|k: int|
        0 <= k < limbs.len() ==> ((#[trigger] limbs[k]).parent matches Some(j) ==> j < k)
}

/// Builds a ragdoll into a scene.
#[derive(Debug)]
pub struct RagdollBuilder {
    pub root: LimbDesc,
    pub name: String,
    pub character_body: Handle,
    /// Mass that each limb has besides what its shape gives it.
    pub mass: Real,
}

/// What a limb's body is built from.
pub open spec fn limb_body(mass: Real) -> RigidBodyDesc {
    RigidBodyDesc {
        additional_mass: mass,
        can_sleep: false,
        ..RigidBodyDesc::of_type(RigidBodyType::Dynamic)
    }
}

/// The node of a limb's body.
pub open spec fn limb_node(node: Node, limb: FlatLimb, pose: Pose, mass: Real) -> bool {
    &&& node.name@ == "Limb:"@ + text::decimal(limb.bone.index as nat)
    &&& node.transform == (Transform {
        position: pose.position,
        rotation: pose.rotation,
        scale: Vec3::one(),
    })
    &&& node.rigid_body is Some
    &&& node.rigid_body->0.fresh(limb_body(mass))
    &&& node.collider == Some(
        Collider::new(ColliderDesc::new(limb.shape).with_offset(limb.offset, limb.rotation)),
    )
    &&& (Node {
        transform: Transform::identity(),
        rigid_body: None,
        collider: None,
        ..node
    }).bare(node.name@)
}

/// The node of the joint that a limb hangs by: in the limb it is at the bone, in the parent at
/// `anchor`.
pub open spec fn joint_node(
    node: Node,
    desc: JointDesc,
    parent: Handle,
    body: Handle,
    anchor: Vec3,
) -> bool {
    &&& node.joint == Some(
        Joint::new(
            parent,
            body,
            JointDesc { local_anchor1: anchor, local_anchor2: Vec3::zero(), ..desc },
        ),
    )
    &&& (Node { joint: None, ..node }).bare("Joint"@)
}

/// What is given for each limb.
#[derive(Debug, Clone, Copy, PartialEq, Eq, Structural)]
pub struct LimbPlace {
    /// Where its bone stands, relative to the node that the ragdoll is built under. The limb's body
    /// hangs there, so it starts at its bone wherever that node is.
    pub pose: Pose,
    /// Where its bone stands, relative to the parent's body.
    pub anchor: Vec3,
}

/// One limb was built: its body, and then the joint that it hangs by, if there is one.
pub open spec fn limb_built(
    before: &Scene,
    after: &Scene,
    limb: FlatLimb,
    place: LimbPlace,
    mass: Real,
    container: Handle,
    bodies: Seq<Handle>,
    k: int,
) -> bool {
    exists|middle: Scene, node: Node|
        {
            &&& #[trigger] middle.gained(before, bodies[k], node, container)
            &&& limb_node(node, limb, place.pose, mass)
            &&& match (limb.parent, limb.joint) {
                (Some(parent), Some(desc)) => exists|h: Handle, joint: Node|
                    {
                        &&& #[trigger] after.gained(&middle, h, joint, container)
                        &&& joint_node(
                            joint,
                            desc,
                            bodies[parent as int],
                            bodies[k],
                            place.anchor,
                        )
                    },
                _ => *after == middle,
            }
        }
}

/// The limbs of a list were built one after the other.
pub open spec fn limbs_built(
    scenes: Seq<Scene>,
    limbs: Seq<FlatLimb>,
    places: Seq<LimbPlace>,
    mass: Real,
    container: Handle,
    bodies: Seq<Handle>,
) -> bool {
    &&& scenes.len() == limbs.len() + 1
    &&& bodies.len() == limbs.len()
    &&& forall|k: int|
        0 <= k < limbs.len() ==> limb_built(
            &scenes[k],
            &scenes[k + 1],
            #[trigger] limbs[k],
            places[k],
            mass,
            container,
            bodies,
            k,
        )
}

impl RagdollBuilder {
    pub fn new(root: LimbDesc) -> (result: Self)
        ensures
            result.root == root,
            result.name@ == "Ragdoll"@,
            result.character_body == Handle::none(),
            result.mass == Real::zero(),
    {
        RagdollBuilder {
            root,
            name: "Ragdoll".to_owned(),
            character_body: Handle::none(),
            mass: Real::zero(),
        }
    }

    pub fn with_name(self, name: &str) -> (result: Self)
        ensures
            result.name@ == name@,
            result == (RagdollBuilder { name: result.name, ..self }),
    {
        RagdollBuilder { name: name.to_owned(), ..self }
    }

    pub fn with_character_body(self, body: Handle) -> (result: Self)
        ensures
            result == (RagdollBuilder { character_body: body, ..self }),
    {
        RagdollBuilder { character_body: body, ..self }
    }

    pub fn with_limb_mass(self, mass: Real) -> (result: Self)
        ensures
            result == (RagdollBuilder { mass, ..self }),
    {
        RagdollBuilder { mass, ..self }
    }

    /// The limbs, parents first, for their places to be worked out.
    pub fn limbs(&self) -> (result: Vec<FlatLimb>)
        ensures
            result@ == self.root.flat(None, 0),
            limbs_ok(result@),
    {
        let mut result: Vec<FlatLimb> = Vec::new();
        self.root.flatten(None, &mut result);
        assert(result@ =~= self.root.flat(None, 0));
        result
    }

    fn add_limb(
        scene: &mut Scene,
        limb: FlatLimb,
        place: LimbPlace,
        mass: Real,
        container: Handle,
        bodies: &mut Vec<Handle>,
    )
        requires
            old(scene).wf(),
            old(scene).nodes@.contains_key(container),
            old(scene).nodes.capacity() + 2 <= u32::MAX,
            limb.parent matches Some(j) ==> j < old(bodies)@.len(),
        ensures
            final(scene).wf(),
            final(scene).nodes@.contains_key(container),
            final(scene).nodes.capacity() <= old(scene).nodes.capacity() + 2,
            final(bodies)@.len() == old(bodies)@.len() + 1,
            final(bodies)@.drop_last() == old(bodies)@,
            limb_built(
                old(scene),
                final(scene),
                limb,
                place,
                mass,
                container,
                final(bodies)@,
                old(bodies)@.len() as int,
            ),
    {
        let mut desc = RigidBodyDesc::of_type(RigidBodyType::Dynamic);
        desc.additional_mass = mass;
        desc.can_sleep = false;
        let name = text::joined("Limb:", text::number(limb.bone.index as u64).as_str());
        let mut node = Node::new(name.as_str());
        node.transform =
        Transform { position: place.pose.position, rotation: place.pose.rotation, scale: Vec3::one(
        ) };
        node.rigid_body = Some(RigidBody::new(desc));
        node.collider =
        Some(Collider::new(ColliderDesc::new(limb.shape).with_offset(limb.offset, limb.rotation)));
        let ghost body_node = node;
        let body = scene.add_node_with_parent(node, container);
        let ghost middle = *scene;
        let ghost earlier = bodies@;
        bodies.push(body);
        assert(bodies@.drop_last() =~= earlier);
        if let Some(parent) = limb.parent {
            if let Some(joint) = limb.joint {
                let mut joint_desc = joint;
                joint_desc.local_anchor1 = place.anchor;
                joint_desc.local_anchor2 = Vec3::zero();
                let mut holder = Node::new("Joint");
                holder.joint = Some(Joint::new(bodies[parent], body, joint_desc));
                let ghost joint_holder = holder;
                let h = scene.add_node_with_parent(holder, container);
                proof {
                    assert(scene.gained(&middle, h, joint_holder, container));
                    assert(joint_node(
                        joint_holder,
                        joint,
                        bodies@[parent as int],
                        body,
                        place.anchor,
                    ));
                }
            }
        }
        proof {
            let k = earlier.len() as int;
            assert(bodies@[k] == body);
            assert(middle.gained(old(scene), bodies@[k], body_node, container));
            assert(limb_node(body_node, limb, place.pose, mass));
            if limb.parent is None || limb.joint is None {
                assert(*scene == middle);
            }
            assert(limb_built(
                old(scene),
                scene,
                limb,
                place,
                mass,
                container,
                bodies@,
                k,
            ));
        }
    }

    fn add_limbs(
        scene: &mut Scene,
        limbs: &Vec<FlatLimb>,
        places: &Vec<LimbPlace>,
        mass: Real,
        container: Handle,
    ) -> (result: Vec<Handle>)
        requires
            old(scene).wf(),
            old(scene).nodes@.contains_key(container),
            places@.len() == limbs@.len(),
            limbs_ok(limbs@),
            old(scene).nodes.capacity() + 2 * limbs@.len() <= u32::MAX,
        ensures
            final(scene).wf(),
            final(scene).nodes@.contains_key(container),
            final(scene).nodes.capacity() <= old(scene).nodes.capacity() + 2 * limbs@.len(),
            result@.len() == limbs@.len(),
            exists|scenes: Seq<Scene>|
                {
                    &&& #[trigger] limbs_built(scenes, limbs@, places@, mass, container, result@)
                    &&& scenes[0] == *old(scene)
                    &&& scenes.last() == *final(scene)
                },
    {
        let mut bodies: Vec<Handle> = Vec::new();
        let ghost mut scenes: Seq<Scene> = seq![*scene];
        let mut i: usize = 0;
        while i < limbs.len()
            invariant
                scene.wf(),
                scene.nodes@.contains_key(container),
                places@.len() == limbs@.len(),
                limbs_ok(limbs@),
                i <= limbs@.len(),
                bodies@.len() == i,
                scenes.len() == i + 1,
                scenes[0] == *old(scene),
                scenes[i as int] == *scene,
                forall|k: int|
                    0 <= k < i ==> limb_built(
                        &scenes[k],
                        &scenes[k + 1],
                        #[trigger] limbs@[k],
                        places@[k],
                        mass,
                        container,
                        bodies@,
                        k,
                    ),
                scene.nodes.capacity() <= old(scene).nodes.capacity() + 2 * i,
                old(scene).nodes.capacity() + 2 * limbs@.len() <= u32::MAX,
            decreases limbs@.len() - i,
        {
            let ghost before = *scene;
            let ghost earlier = bodies@;
            assert(limbs@[i as int].parent matches Some(j) ==> j < i);
            Self::add_limb(scene, limbs[i], places[i], mass, container, &mut bodies);
            proof {
                scenes = scenes.push(*scene);
                assert forall|k: int| 0 <= k < i + 1 implies limb_built(
                    &scenes[k],
                    &scenes[k + 1],
                    #[trigger] limbs@[k],
                    places@[k],
                    mass,
                    container,
                    bodies@,
                    k,
                ) by {
                    if k < i {
                        assert forall|j: int| 0 <= j <= k implies bodies@[j] == earlier[j] by {
                            assert(bodies@.drop_last()[j] == earlier[j]);
                        }
                        assert(limbs@[k].parent matches Some(j) ==> j < k);
                        lemma_same_bodies(
                            &scenes[k],
                            &scenes[k + 1],
                            limbs@[k],
                            places@[k],
                            mass,
                            container,
                            earlier,
                            bodies@,
                            k,
                        );
                    }
                }
            }
            i += 1;
        }
        assert(limbs_built(scenes, limbs@, places@, mass, container, bodies@));
        bodies
    }

    /// Builds the ragdoll's node under `parent`, or under the root if that is not there, and under
    /// it all bodies and joints: the ragdoll's node stands where the one above it does, and each body
    /// where `places` has its bone, relative to that. Gives the handle of the ragdoll's node.
    pub fn build(self, scene: &mut Scene, parent: Handle, places: &Vec<LimbPlace>) -> (result:
        Handle)
        requires
            old(scene).wf(),
            places@.len() == self.root.flat(None, 0).len(),
            old(scene).nodes.capacity() + 1 + 2 * places@.len() <= u32::MAX,
        ensures
            final(scene).wf(),
            !old(scene).nodes.issued(result),
            final(scene).nodes@.contains_key(result),
            exists|scenes: Seq<Scene>, bodies: Seq<Handle>, holder: Node|
                {
                    &&& #[trigger] limbs_built(
                        scenes,
                        self.root.flat(None, 0),
                        places@,
                        self.mass,
                        result,
                        bodies,
                    )
                    &&& #[trigger] scenes[0].gained(
                        old(scene),
                        result,
                        holder,
                        old(scene).or_root(parent),
                    )
                    &&& holder.bare(self.name@)
                    &&& finished(final(scene), &scenes.last(), result, &self, bodies)
                },
            final(scene).nodes.capacity() <= old(scene).nodes.capacity() + 1 + 2 * places@.len(),
    {
        let limbs = self.limbs();
        proof {
            self.root.lemma_flat(None, 0);
        }
        let holder = Node::new(self.name.as_str());
        let ghost made = holder;
        let ragdoll_node = scene.add_node_with_parent(holder, parent);
        let ghost first = *scene;
        let bodies = Self::add_limbs(scene, &limbs, places, self.mass, ragdoll_node);
        let ghost scenes = choose|scenes: Seq<Scene>|
            {
                &&& #[trigger] limbs_built(
                    scenes,
                    limbs@,
                    places@,
                    self.mass,
                    ragdoll_node,
                    bodies@,
                )
                &&& scenes[0] == first
                &&& scenes.last() == *scene
            };
        let ghost last = *scene;
        let mut next: usize = 0;
        let root = self.root.assemble(&bodies, &mut next);
        let mut ragdoll = Ragdoll::new(root);
        if self.character_body.is_some() {
            ragdoll = ragdoll.with_character_body(self.character_body);
        }
        proof {
            graph::lemma_place_kept(scene.nodes@, ragdoll_node);
        }
        scene.nodes.borrow_mut(ragdoll_node).ragdoll = Some(ragdoll);
        scene.reindex_physics(ragdoll_node);
        proof {
            assert(scenes[0].gained(old(scene), ragdoll_node, made, old(scene).or_root(parent)));
            assert(finished(scene, &last, ragdoll_node, &self, bodies@));
        }
        ragdoll_node
    }
}

/// The ragdoll was put onto its node: its limbs are those that were built.
pub open spec fn finished(
    after: &Scene,
    before: &Scene,
    h: Handle,
    builder: &RagdollBuilder,
    bodies: Seq<Handle>,
) -> bool {
    let ragdoll = after.nodes@[h].ragdoll->0;
    let bones = builder.root.bones();
    &&& after.nodes@ == before.nodes@.insert(
        h,
        Node { ragdoll: Some(ragdoll), ..before.nodes@[h] },
    )
    &&& builder.root.shapes(ragdoll.root)
    &&& ragdoll.root.pairs().len() == bones.len()
    &&& forall|i: int|
        0 <= i < bones.len() ==> #[trigger] ragdoll.root.pairs()[i] == (LimbPair {
            bone: bones[i],
            body: bodies[i],
        })
    &&& !ragdoll.active
    &&& !ragdoll.prev_active
    &&& ragdoll.character_body == builder.character_body
    &&& ragdoll.character_body_type is None
    &&& after.index.registers(before.index, h, after.nodes@[h])
    &&& after.physics == before.physics
    &&& after.rest_same(before)
}

proof fn lemma_same_bodies(
    before: &Scene,
    after: &Scene,
    limb: FlatLimb,
    place: LimbPlace,
    mass: Real,
    container: Handle,
    a: Seq<Handle>,
    b: Seq<Handle>,
    k: int,
)
    requires
        limb_built(before, after, limb, place, mass, container, a, k),
        0 <= k,
        limb.parent matches Some(j) ==> j < k,
        forall|j: int| 0 <= j <= k ==> b[j] == a[j],
    ensures
        limb_built(before, after, limb, place, mass, container, b, k),
{
}

/// A node that was there stays where it is, under the same node and with the same transform.
spec fn stays_put(before: &Scene, after: &Scene) -> bool {
    forall|x: Handle| #[trigger]
        before.nodes@.contains_key(x) ==> {
            &&& after.nodes@.contains_key(x)
            &&& after.nodes@[x].parent == before.nodes@[x].parent
            &&& after.nodes@[x].transform == before.nodes@[x].transform
        }
}

proof fn lemma_limb_built_stays_put(
    before: &Scene,
    after: &Scene,
    limb: FlatLimb,
    place: LimbPlace,
    mass: Real,
    container: Handle,
    bodies: Seq<Handle>,
    k: int,
)
    requires
        limb_built(before, after, limb, place, mass, container, bodies, k),
    ensures
        stays_put(before, after),
        after.nodes@.contains_key(bodies[k]),
        after.nodes@[bodies[k]].parent == container,
        after.nodes@[bodies[k]].transform == (Transform {
            position: place.pose.position,
            rotation: place.pose.rotation,
            scale: Vec3::one(),
        }),
{
    let (middle, node) = choose|middle: Scene, node: Node|
        {
            &&& #[trigger] middle.gained(before, bodies[k], node, container)
            &&& limb_node(node, limb, place.pose, mass)
            &&& match (limb.parent, limb.joint) {
                (Some(parent), Some(desc)) => exists|h: Handle, joint: Node|
                    {
                        &&& #[trigger] after.gained(&middle, h, joint, container)
                        &&& joint_node(
                            joint,
                            desc,
                            bodies[parent as int],
                            bodies[k],
                            place.anchor,
                        )
                    },
                _ => *after == middle,
            }
        };
    assert(middle.nodes@.dom().contains(bodies[k]));
    assert forall|x: Handle| #[trigger] before.nodes@.contains_key(x) implies {
        &&& middle.nodes@.contains_key(x)
        &&& middle.nodes@[x].parent == before.nodes@[x].parent
        &&& middle.nodes@[x].transform == before.nodes@[x].transform
    } by {
        assert(middle.nodes@.dom().contains(x));
    }
    if limb.parent is Some && limb.joint is Some {
        let (h, joint) = choose|h: Handle, joint: Node| #[trigger]
            after.gained(&middle, h, joint, container);
        assert forall|x: Handle| #[trigger] middle.nodes@.contains_key(x) implies {
            &&& after.nodes@.contains_key(x)
            &&& after.nodes@[x].parent == middle.nodes@[x].parent
            &&& after.nodes@[x].transform == middle.nodes@[x].transform
        } by {
            assert(after.nodes@.dom().contains(x));
        }
    }
}

proof fn lemma_limbs_stay_put(
    scenes: Seq<Scene>,
    limbs: Seq<FlatLimb>,
    places: Seq<LimbPlace>,
    mass: Real,
    container: Handle,
    bodies: Seq<Handle>,
    from: int,
    to: int,
)
    requires
        limbs_built(scenes, limbs, places, mass, container, bodies),
        0 <= from <= to <= limbs.len(),
    ensures
        stays_put(&scenes[from], &scenes[to]),
    decreases to - from,
{
    if from < to {
        lemma_limbs_stay_put(scenes, limbs, places, mass, container, bodies, from, to - 1);
        assert(limb_built(
            &scenes[to - 1],
            &scenes[to - 1 + 1],
            limbs[to - 1],
            places[to - 1],
            mass,
            container,
            bodies,
            to - 1,
        ));
        lemma_limb_built_stays_put(
            &scenes[to - 1],
            &scenes[to],
            limbs[to - 1],
            places[to - 1],
            mass,
            container,
            bodies,
            to - 1,
        );
    }
}

/// Every body of a ragdoll starts at its bone: the ragdoll's node stands exactly where the node does
/// that it was built under, and the body's transform is the pose of its bone relative to that node.
pub proof fn lemma_bodies_start_at_their_bones(
    before: &Scene,
    scenes: Seq<Scene>,
    after: &Scene,
    builder: &RagdollBuilder,
    places: Seq<LimbPlace>,
    h: Handle,
    bodies: Seq<Handle>,
    holder: Node,
    parent: Handle,
    k: int,
)
    requires
        limbs_built(scenes, builder.root.flat(None, 0), places, builder.mass, h, bodies),
        scenes[0].gained(before, h, holder, parent),
        holder.bare(builder.name@),
        finished(after, &scenes.last(), h, builder, bodies),
        0 <= k < bodies.len(),
    ensures
        after.nodes@[h].parent == parent,
        after.nodes@[h].transform == Transform::identity(),
        after.nodes@.contains_key(bodies[k]),
        after.nodes@[bodies[k]].parent == h,
        after.nodes@[bodies[k]].transform == (Transform {
            position: places[k].pose.position,
            rotation: places[k].pose.rotation,
            scale: Vec3::one(),
        }),
{
    let limbs = builder.root.flat(None, 0);
    assert(scenes[0].nodes@.dom().contains(h));
    lemma_limbs_stay_put(
        scenes,
        limbs,
        places,
        builder.mass,
        h,
        bodies,
        0,
        limbs.len() as int,
    );
    assert(scenes[0].nodes@.contains_key(h));
    assert(limb_built(
        &scenes[k],
        &scenes[k + 1],
        limbs[k],
        places[k],
        builder.mass,
        h,
        bodies,
        k,
    ));
    lemma_limb_built_stays_put(
        &scenes[k],
        &scenes[k + 1],
        limbs[k],
        places[k],
        builder.mass,
        h,
        bodies,
        k,
    );
    lemma_limbs_stay_put(
        scenes,
        limbs,
        places,
        builder.mass,
        h,
        bodies,
        k + 1,
        limbs.len() as int,
    );
    assert(scenes[k + 1].nodes@.contains_key(bodies[k]));
}

} // verus!
