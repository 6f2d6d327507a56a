//! Ragdolls: bodies that follow bones, and bones that follow bodies.
//!
//! While a ragdoll is not active its bodies are put where the bones are, before each step of the
//! solver. While it is active the bones are put where the bodies are, after each step, parents
//! first. The caller works out the poses, one limb at a time.

use crate::numbers::{Pose, Real, Transform, Vec3};
use crate::pool::Handle;
use crate::scene::graph;
use crate::scene::graph::Scene;
use crate::scene::node::Node;
use crate::scene::physics::{BodyAction, Limits, RigidBody, RigidBodyType};
use vstd::prelude::*;

verus! {

/// One limb: a bone, the body that stands for it, and the limbs that hang on it.
#[derive(Debug)]
pub struct RagdollLimb {
    pub bone: Handle,
    pub body: Handle,
    pub children: Vec<RagdollLimb>,
}

/// A bone and the body that stands for it.
#[derive(Debug, Clone, Copy, PartialEq, Eq, Structural)]
pub struct LimbPair {
    pub bone: Handle,
    pub body: Handle,
}

impl RagdollLimb {
    /// The limb and everything that hangs on it, parents first.
    pub open spec fn pairs(self) -> Seq<LimbPair>
        decreases self, 0nat,
    {
        seq![LimbPair { bone: self.bone, body: self.body }] + Self::pairs_of(self.children@)
    }

    pub open spec fn pairs_of(list: Seq<RagdollLimb>) -> Seq<LimbPair>
        decreases list, list.len(),
    {
        if list.len() == 0 {
            Seq::empty()
        } else {
            Self::pairs_of(list.drop_last()) + list.last().pairs()
        }
    }

    /// Visits the limb and everything that hangs on it, parents first, by listing them.
    pub fn for_each(&self, visited: &mut Vec<LimbPair>)
        ensures
            final(visited)@ == old(visited)@ + self.pairs(),
        decreases self,
    {
        let ghost start = visited@;
        visited.push(LimbPair { bone: self.bone, body: self.body });
        let ghost head = visited@;
        let mut i: usize = 0;
        while i < self.children.len()
            invariant
                i <= self.children@.len(),
                visited@ == head + Self::pairs_of(self.children@.take(i as int)),
            decreases self.children@.len() - i,
        {
            let ghost before = visited@;
            self.children[i].for_each(visited);
            i += 1;
            proof {
                let next = self.children@.take(i as int);
                assert(next.drop_last() =~= self.children@.take(i - 1));
                assert(next.last() == self.children@[i - 1]);
                assert(visited@ =~= head + Self::pairs_of(next));
            }
        }
        assert(self.children@.take(i as int) =~= self.children@);
        assert(visited@ =~= start + self.pairs());
    }
}

/// A ragdoll.
#[derive(Debug)]
pub struct Ragdoll {
    pub root: RagdollLimb,
    /// Whether the solver drives the bones.
    pub active: bool,
    /// Whether it did so a step ago.
    pub prev_active: bool,
    /// The body of the whole character, if there is one.
    pub character_body: Handle,
    /// What moved the character's body before the ragdoll took over.
    pub character_body_type: Option<RigidBodyType>,
}

impl Ragdoll {
    /// A ragdoll that is not active.
    pub fn new(root: RagdollLimb) -> (result: Self)
        ensures
            result == (Ragdoll {
                root,
                active: false,
                prev_active: false,
                character_body: Handle::none(),
                character_body_type: None,
            }),
    {
        Ragdoll {
            root,
            active: false,
            prev_active: false,
            character_body: Handle::none(),
            character_body_type: None,
        }
    }

    pub fn with_character_body(self, body: Handle) -> (result: Self)
        ensures
            result == (Ragdoll { character_body: body, ..self }),
    {
        Ragdoll { character_body: body, ..self }
    }

    pub fn root(&self) -> (result: &RagdollLimb)
        ensures
            *result == self.root,
    {
        &self.root
    }

    pub fn is_active(&self) -> (result: bool)
        ensures
            result == self.active,
    {
        self.active
    }

    pub fn set_active(&mut self, active: bool)
        ensures
            *final(self) == (Ragdoll { active, ..*old(self) }),
    {
        self.active = active;
    }

    /// All limbs, parents first.
    pub fn limbs(&self) -> (result: Vec<LimbPair>)
        ensures
            result@ == self.root.pairs(),
    {
        let mut result: Vec<LimbPair> = Vec::new();
        self.root.for_each(&mut result);
        assert(result@ =~= self.root.pairs());
        result
    }

    pub fn limb_count(&self) -> (result: usize)
        ensures
            result == self.root.pairs().len(),
    {
        let limbs = self.limbs();
        limbs.len()
    }
}

/// The limits of a joint that bends one way only, given in any order.
pub fn hinge_limits(min: Real, max: Real) -> (result: Option<Limits>)
    ensures
        result == Some(Limits { min: min.smaller(max), max: min.larger(max) }),
{
    Some(Limits { min: min.min(max), max: min.max(max) })
}

/// A body that was told to stand still and be moved by its node.
pub open spec fn held(after: RigidBody, before: RigidBody) -> bool {
    let kinematic = before.retyped(RigidBodyType::KinematicPositionBased);
    &&& after.same_but_actions(kinematic)
    &&& after.actions@ == before.actions@.push(BodyAction::SetLinvel(Vec3::zero())).push(
        BodyAction::SetAngvel(Vec3::zero()),
    )
}

/// A body that was given to the solver, with a velocity to begin with if there is one.
pub open spec fn released(
    after: RigidBody,
    before: RigidBody,
    velocity: Option<(Vec3, Vec3)>,
) -> bool {
    let dynamic = before.retyped(RigidBodyType::Dynamic);
    &&& after.same_but_actions(dynamic)
    &&& after.actions@ == match velocity {
        Some((linvel, angvel)) => before.actions@.push(BodyAction::SetLinvel(linvel)).push(
            BodyAction::SetAngvel(angvel),
        ),
        None => before.actions@,
    }
}

/// What has become of a node's body.
pub open spec fn body_told(
    after: Option<RigidBody>,
    before: Option<RigidBody>,
    told: spec_fn(RigidBody, RigidBody) -> bool,
) -> bool {
    match (after, before) {
        (Some(after), Some(before)) => told(after, before),
        (None, None) => true,
        _ => false,
    }
}

/// A ragdoll that drives its bones, on the way through its limbs.
#[derive(Debug)]
pub struct RagdollDrive {
    pub limbs: Vec<LimbPair>,
    pub next: usize,
    /// What the limbs have from the character, in the step in which the ragdoll became active.
    pub inherited: Option<(Vec3, Vec3)>,
}

/// A bone or a limb was put at a pose, with the scale that it had.
pub open spec fn posed(before: Node, after: Node, pose: Pose) -> bool {
    after.transform == before.transform.moved_to(pose)
}

/// The body of a limb was put where its bone is and told to stay there.
pub open spec fn limb_held(
    before: Map<Handle, Node>,
    after: Map<Handle, Node>,
    body: Handle,
    pose: Pose,
) -> bool {
    &&& after.dom() == before.dom()
    &&& forall|x: Handle|
        x != body && #[trigger] before.contains_key(x) ==> after[x] == before[x]
    &&& before.contains_key(body) ==> {
        &&& posed(before[body], after[body], pose)
        &&& after[body].rigid_body is Some == before[body].rigid_body is Some
        &&& before[body].rigid_body is Some ==> held(
            after[body].rigid_body->0,
            before[body].rigid_body->0,
        )
        &&& after[body] == (Node {
            transform: after[body].transform,
            rigid_body: after[body].rigid_body,
            ..before[body]
        })
    }
}

/// The body of a limb was given to the solver.
pub open spec fn limb_let_go(
    before: Map<Handle, Node>,
    after: Map<Handle, Node>,
    body: Handle,
    inherited: Option<(Vec3, Vec3)>,
) -> bool {
    &&& after.dom() == before.dom()
    &&& forall|x: Handle|
        x != body && #[trigger] before.contains_key(x) ==> after[x] == before[x]
    &&& before.contains_key(body) ==> {
        &&& after[body].rigid_body is Some == before[body].rigid_body is Some
        &&& before[body].rigid_body is Some ==> released(
            after[body].rigid_body->0,
            before[body].rigid_body->0,
            inherited,
        )
        &&& after[body] == (Node { rigid_body: after[body].rigid_body, ..before[body] })
    }
}

/// A bone was put where its body is.
pub open spec fn bone_put(
    before: Map<Handle, Node>,
    after: Map<Handle, Node>,
    bone: Handle,
    pose: Pose,
) -> bool {
    &&& after.dom() == before.dom()
    &&& forall|x: Handle|
        x != bone && #[trigger] before.contains_key(x) ==> after[x] == before[x]
    &&& before.contains_key(bone) ==> {
        &&& posed(before[bone], after[bone], pose)
        &&& after[bone] == (Node { transform: after[bone].transform, ..before[bone] })
    }
}

impl Scene {
    /// Everything but the nodes is as in `before`, and so is the tree.
    pub open spec fn limbs_kept(&self, before: &Scene) -> bool {
        &&& self.tree() == before.tree()
        &&& self.nodes.capacity() == before.nodes.capacity()
        &&& self.index == before.index
        &&& self.physics == before.physics
        &&& self.rest_same(before)
    }

    /// The limbs of a ragdoll that is not active, parents first: their bodies follow the bones.
    pub fn following_limbs(&self, handle: Handle) -> (result: Option<Vec<LimbPair>>)
        ensures
            result is Some <==> self.nodes@.contains_key(handle) && (
            self.nodes@[handle].ragdoll matches Some(ragdoll) && !ragdoll.active),
            result matches Some(limbs) ==> limbs@ == self.nodes@[handle].ragdoll->0.root.pairs(),
    {
        match self.nodes.try_borrow(handle) {
            Some(node) => match &node.ragdoll {
                Some(ragdoll) => {
                    if ragdoll.active {
                        None
                    } else {
                        Some(ragdoll.limbs())
                    }
                },
                None => None,
            },
            None => None,
        }
    }

    /// Puts the body of a limb where its bone is. `pose` is relative to the ragdoll's node.
    pub fn hold_limb(&mut self, body: Handle, pose: Pose)
        requires
            old(self).wf(),
        ensures
            limb_held(old(self).nodes@, final(self).nodes@, body, pose),
            final(self).wf(),
            final(self).limbs_kept(old(self)),
            if old(self).nodes@.contains_key(body) {
                let before = old(self).nodes@[body];
                let after = final(self).nodes@[body];
                &&& final(self).nodes@ == old(self).nodes@.insert(body, after)
                &&& after == (Node {
                    transform: before.transform.moved_to(pose),
                    rigid_body: after.rigid_body,
                    ..before
                })
                &&& body_told(
                    after.rigid_body,
                    before.rigid_body,
                    |a: RigidBody, b: RigidBody| held(a, b),
                )
            } else {
                final(self).nodes@ == old(self).nodes@
            },
    {
        proof {
            graph::lemma_place_kept(self.nodes@, body);
            if self.nodes@.contains_key(body) {
                assert(forall|it: Node|
                    #[trigger] self.nodes@.insert(body, it).dom() =~= self.nodes@.dom());
            }
        }
        if let Some(node) = self.nodes.try_borrow_mut(body) {
            node.transform.position = pose.position;
            node.transform.rotation = pose.rotation;
            if let Some(component) = &mut node.rigid_body {
                component.set_body_type(RigidBodyType::KinematicPositionBased);
                component.set_linvel(Vec3::zero());
                component.set_angvel(Vec3::zero());
            }
        }
    }

    /// What ends a step of a ragdoll that is not active: what moved the character's body before is
    /// put back, if the ragdoll had taken over.
    pub fn end_follow(&mut self, handle: Handle)
        requires
            old(self).wf(),
        ensures
            final(self).wf(),
            final(self).limbs_kept(old(self)),
            final(self).nodes@ == character_restored(old(self).nodes@, handle),
    {
        proof {
            graph::lemma_place_kept(self.nodes@, handle);
        }
        let (character, previous) = match self.nodes.try_borrow_mut(handle) {
            Some(node) => match &mut node.ragdoll {
                Some(ragdoll) => {
                    if ragdoll.active {
                        (Handle::none(), None)
                    } else {
                        let previous = ragdoll.character_body_type;
                        ragdoll.character_body_type = None;
                        (ragdoll.character_body, previous)
                    }
                },
                None => (Handle::none(), None),
            },
            None => (Handle::none(), None),
        };
        let ghost middle = self.nodes@;
        proof {
            graph::lemma_place_kept(middle, character);
        }
        if let Some(previous) = previous {
            if let Some(node) = self.nodes.try_borrow_mut(character) {
                if let Some(body) = &mut node.rigid_body {
                    body.set_body_type(previous);
                }
            }
        }
        assert(self.nodes@ =~= character_restored(old(self).nodes@, handle));
    }

    /// Begins a step of an active ragdoll. In the step in which it became active its limbs inherit
    /// the velocity of the character.
    pub fn begin_drive(&self, handle: Handle) -> (result: Option<RagdollDrive>)
        ensures
            result is Some <==> self.nodes@.contains_key(handle) && (
            self.nodes@[handle].ragdoll matches Some(ragdoll) && ragdoll.active),
            result matches Some(drive) ==> {
                let ragdoll = self.nodes@[handle].ragdoll->0;
                let character = ragdoll.character_body;
                &&& drive.limbs@ == ragdoll.root.pairs()
                &&& drive.next == 0
                &&& drive.inherited == if !ragdoll.prev_active && self.nodes@.contains_key(
                    character,
                ) && self.nodes@[character].rigid_body is Some {
                    let body = self.nodes@[character].rigid_body->0;
                    Some((body.linvel, body.angvel))
                } else {
                    None
                }
            },
    {
        let ragdoll = match self.nodes.try_borrow(handle) {
            Some(node) => match &node.ragdoll {
                Some(ragdoll) => ragdoll,
                None => {
                    return None;
                },
            },
            None => {
                return None;
            },
        };
        if !ragdoll.active {
            return None;
        }
        let inherited = if ragdoll.prev_active {
            None
        } else {
            match self.nodes.try_borrow(ragdoll.character_body) {
                Some(node) => match &node.rigid_body {
                    Some(body) => Some((body.linvel, body.angvel)),
                    None => None,
                },
                None => None,
            }
        };
        Some(RagdollDrive { limbs: ragdoll.limbs(), next: 0, inherited })
    }

    /// Goes on to the next limb: its body is given to the solver. The bone of the limb that comes
    /// back is to be placed before the next one.
    pub fn drive_limb(&mut self, drive: &mut RagdollDrive) -> (result: Option<LimbPair>)
        requires
            old(self).wf(),
        ensures
            old(drive).next < old(drive).limbs@.len() ==> limb_let_go(
                old(self).nodes@,
                final(self).nodes@,
                old(drive).limbs@[old(drive).next as int].body,
                old(drive).inherited,
            ),
            final(self).wf(),
            final(self).limbs_kept(old(self)),
            final(drive).limbs == old(drive).limbs,
            final(drive).inherited == old(drive).inherited,
            if old(drive).next < old(drive).limbs@.len() {
                let limb = old(drive).limbs@[old(drive).next as int];
                &&& result == Some(limb)
                &&& final(drive).next == old(drive).next + 1
                &&& if old(self).nodes@.contains_key(limb.body) {
                    let before = old(self).nodes@[limb.body];
                    let after = final(self).nodes@[limb.body];
                    &&& final(self).nodes@ == old(self).nodes@.insert(limb.body, after)
                    &&& after == (Node { rigid_body: after.rigid_body, ..before })
                    &&& body_told(
                        after.rigid_body,
                        before.rigid_body,
                        |a: RigidBody, b: RigidBody| released(a, b, old(drive).inherited),
                    )
                } else {
                    final(self).nodes@ == old(self).nodes@
                }
            } else {
                &&& result is None
                &&& *final(drive) == *old(drive)
                &&& final(self).nodes@ == old(self).nodes@
            },
    {
        if drive.next >= drive.limbs.len() {
            return None;
        }
        let limb = drive.limbs[drive.next];
        drive.next += 1;
        proof {
            graph::lemma_place_kept(self.nodes@, limb.body);
        }
        if let Some(node) = self.nodes.try_borrow_mut(limb.body) {
            if let Some(body) = &mut node.rigid_body {
                body.set_body_type(RigidBodyType::Dynamic);
                if let Some((linvel, angvel)) = drive.inherited {
                    body.set_linvel(linvel);
                    body.set_angvel(angvel);
                }
            }
        }
        assert(self.nodes@.dom() =~= old(self).nodes@.dom());
        Some(limb)
    }

    /// Puts a bone where its body is. `pose` is relative to the bone's parent; the bone's scale
    /// stays.
    pub fn place_bone(&mut self, bone: Handle, pose: Pose)
        requires
            old(self).wf(),
        ensures
            bone_put(old(self).nodes@, final(self).nodes@, bone, pose),
            final(self).wf(),
            final(self).limbs_kept(old(self)),
            final(self).nodes@ == if old(self).nodes@.contains_key(bone) {
                let node = old(self).nodes@[bone];
                old(self).nodes@.insert(
                    bone,
                    Node { transform: node.transform.moved_to(pose), ..node },
                )
            } else {
                old(self).nodes@
            },
    {
        proof {
            graph::lemma_place_kept(self.nodes@, bone);
            if self.nodes@.contains_key(bone) {
                assert(forall|it: Node|
                    #[trigger] self.nodes@.insert(bone, it).dom() =~= self.nodes@.dom());
            }
        }
        if let Some(node) = self.nodes.try_borrow_mut(bone) {
            node.transform.position = pose.position;
            node.transform.rotation = pose.rotation;
        }
    }

    /// What ends a step of a ragdoll, active or not. An active one takes over the character's body:
    /// it stands still, is moved by its node, and goes where the root limb is. What moved it before
    /// is remembered.
    pub fn end_drive(&mut self, handle: Handle, root_position: Vec3)
        requires
            old(self).wf(),
        ensures
            final(self).wf(),
            final(self).limbs_kept(old(self)),
            taken_over(final(self).nodes@, old(self).nodes@, handle, root_position),
    {
        proof {
            graph::lemma_place_kept(self.nodes@, handle);
        }
        let (active, character) = match self.nodes.try_borrow(handle) {
            Some(node) => match &node.ragdoll {
                Some(ragdoll) => (ragdoll.active, ragdoll.character_body),
                None => {
                    return;
                },
            },
            None => {
                return;
            },
        };
        let previous = if active {
            self.seize(character, root_position)
        } else {
            None
        };
        let ghost middle = self.nodes@;
        proof {
            graph::lemma_place_kept(middle, handle);
        }
        match &mut self.nodes.borrow_mut(handle).ragdoll {
            Some(ragdoll) => {
                if ragdoll.character_body_type.is_none() {
                    ragdoll.character_body_type = previous;
                }
                ragdoll.prev_active = ragdoll.active;
            },
            None => {},
        }
        assert(character_moved(
            middle,
            old(self).nodes@,
            old(self).nodes@[handle].ragdoll->0,
            root_position,
        ));
    }

    /// Makes a body stand still, be moved by its node, and go to a place. Says what moved it.
    fn seize(&mut self, character: Handle, position: Vec3) -> (result: Option<RigidBodyType>)
        requires
            old(self).wf(),
        ensures
            final(self).wf(),
            final(self).limbs_kept(old(self)),
            seized(final(self).nodes@, old(self).nodes@, character, position),
            result == if old(self).nodes@.contains_key(character) {
                match old(self).nodes@[character].rigid_body {
                    Some(body) => Some(body.desc.body_type),
                    None => None,
                }
            } else {
                None
            },
    {
        proof {
            graph::lemma_place_kept(self.nodes@, character);
        }
        let mut previous: Option<RigidBodyType> = None;
        if let Some(node) = self.nodes.try_borrow_mut(character) {
            if let Some(body) = &mut node.rigid_body {
                previous = Some(body.body_type());
                body.set_body_type(RigidBodyType::KinematicPositionBased);
                body.set_linvel(Vec3::zero());
                body.set_angvel(Vec3::zero());
                node.transform.position = position;
            }
        }
        proof {
            if !(old(self).nodes@.contains_key(character) && old(self).nodes@[character].rigid_body
                is Some) {
                assert(self.nodes@ =~= old(self).nodes@);
            }
        }
        previous
    }
}

/// The nodes after a ragdoll that is not active has put back what moved the character's body.
pub open spec fn character_restored(nodes: Map<Handle, Node>, h: Handle) -> Map<Handle, Node> {
    if nodes.contains_key(h) && (nodes[h].ragdoll matches Some(ragdoll) && !ragdoll.active) {
        let ragdoll = nodes[h].ragdoll->0;
        let forgot = nodes.insert(
            h,
            Node { ragdoll: Some(Ragdoll { character_body_type: None, ..ragdoll }), ..nodes[h] },
        );
        let character = ragdoll.character_body;
        match ragdoll.character_body_type {
            Some(previous) if forgot.contains_key(character) && forgot[character].rigid_body
                is Some => forgot.insert(
                character,
                Node {
                    rigid_body: Some(forgot[character].rigid_body->0.retyped(previous)),
                    ..forgot[character]
                },
            ),
            _ => forgot,
        }
    } else {
        nodes
    }
}

/// The nodes after a body was seized.
pub open spec fn seized(
    after: Map<Handle, Node>,
    before: Map<Handle, Node>,
    character: Handle,
    position: Vec3,
) -> bool {
    if before.contains_key(character) && before[character].rigid_body is Some {
        let node = before[character];
        &&& after == before.insert(character, after[character])
        &&& after[character] == (Node {
            transform: Transform { position, ..node.transform },
            rigid_body: after[character].rigid_body,
            ..node
        })
        &&& after[character].rigid_body is Some
        &&& held(after[character].rigid_body->0, node.rigid_body->0)
    } else {
        after == before
    }
}

/// The nodes after an active ragdoll has seized the character's body.
pub open spec fn character_moved(
    after: Map<Handle, Node>,
    before: Map<Handle, Node>,
    ragdoll: Ragdoll,
    position: Vec3,
) -> bool {
    if ragdoll.active {
        seized(after, before, ragdoll.character_body, position)
    } else {
        after == before
    }
}

/// The nodes after a step of a ragdoll has ended.
pub open spec fn taken_over(
    after: Map<Handle, Node>,
    before: Map<Handle, Node>,
    h: Handle,
    position: Vec3,
) -> bool {
    if before.contains_key(h) && before[h].ragdoll is Some {
        let ragdoll = before[h].ragdoll->0;
        let character = ragdoll.character_body;
        let had = before.contains_key(character) && before[character].rigid_body is Some;
        exists|middle: Map<Handle, Node>|
            {
                &&& #[trigger] character_moved(middle, before, ragdoll, position)
                &&& after == middle.insert(
                    h,
                    Node {
                        ragdoll: Some(
                            Ragdoll {
                                prev_active: ragdoll.active,
                                character_body_type: if ragdoll.active && had
                                    && ragdoll.character_body_type is None {
                                    Some(before[character].rigid_body->0.desc.body_type)
                                } else {
                                    ragdoll.character_body_type
                                },
                                ..ragdoll
                            },
                        ),
                        ..middle[h]
                    },
                )
            }
    } else {
        after == before
    }
}

} // verus!
