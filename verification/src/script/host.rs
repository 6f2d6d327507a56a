//! What scripts can reach while they run: the scene itself, not a copy of it. What a script writes
//! is there at once, and its next line can read it.
//!
//! Every function here is one that scripts call. They know nodes by number, and a number that
//! stands for nothing is no failure: reading gives something harmless, writing does nothing. A
//! number that is not finite never gets into the scene, for a node whose place is not a number
//! would vanish without a trace.

use crate::numbers::{Double, Quat, Real, Transform, Vec3};
use crate::pool::Handle;
use crate::scene::audio::{SoundSource, Status};
use crate::scene::components::ParticleSystem;
use crate::scene::graph::Scene;
use crate::scene::node::Node;
use crate::scene::physics::BodyAction;
use crate::scene::skin::AnimationPlayer;
use crate::scene::sync::{RayHit, SceneRayHit};
use crate::script::input::{Input, MouseButton, Vec2};
use crate::script::registry::{Prototypes, Registry};
use vstd::prelude::*;

verus! {

/// How many signals are taken in a frame. A script that never stops sending them would otherwise
/// use up all memory before it is stopped.
pub const MAX_SIGNALS: usize = 4096;

/// How many nodes scripts may make in a frame.
pub const MAX_SPAWNS: usize = 1024;

/// A message from a script to the game.
#[derive(Debug)]
pub struct Signal {
    pub name: String,
    pub value: Double,
    /// The node whose script sent it.
    pub source: Handle,
}

/// What a ray hit, as a script sees it.
#[derive(Debug, Clone, Copy, PartialEq, Eq, Structural)]
pub struct ScriptHit {
    /// The number of the node that was hit, or -1.
    pub node: Double,
    pub point: Vec3,
    pub normal: Vec3,
    pub distance: Real,
}

/// Everything that scripts can reach.
pub struct Host {
    /// The scene, while scripts run.
    pub scene: Option<Scene>,
    /// The input, while scripts run.
    pub input: Option<Input>,
    pub registry: Registry,
    pub prototypes: Prototypes,
    /// The node of the script that is running.
    pub current: Handle,
    /// How many nodes were made in this frame.
    pub spawned: usize,
    pub dt: Real,
    pub elapsed: Real,
    pub signals: Vec<Signal>,
}

/// One of the two vectors of a transform: 1 stands for the scale, anything else for the position.
pub open spec fn field_of(transform: Transform, field: Double) -> Vec3 {
    if field.counts(1) {
        transform.scale
    } else {
        transform.position
    }
}

/// `transform` with one of its two vectors replaced.
pub open spec fn with_field(transform: Transform, field: Double, value: Vec3) -> Transform {
    if field.counts(1) {
        Transform { scale: value, ..transform }
    } else {
        Transform { position: value, ..transform }
    }
}

/// One of the three numbers of a vector: 1 stands for y, 2 for z, anything else for x.
pub open spec fn axis_of(vector: Vec3, axis: Double) -> Real {
    if axis.counts(1) {
        vector.y
    } else if axis.counts(2) {
        vector.z
    } else {
        vector.x
    }
}

/// `vector` with one of its three numbers replaced.
pub open spec fn with_axis(vector: Vec3, axis: Double, value: Real) -> Vec3 {
    if axis.counts(1) {
        Vec3 { y: value, ..vector }
    } else if axis.counts(2) {
        Vec3 { z: value, ..vector }
    } else {
        Vec3 { x: value, ..vector }
    }
}

impl Host {
    pub open spec fn wf(self) -> bool {
        &&& self.registry.wf()
        &&& self.prototypes.wf()
        &&& self.spawned <= MAX_SPAWNS
        &&& self.signals@.len() <= MAX_SIGNALS
        &&& self.scene matches Some(scene) ==> scene.wf()
    }

    /// No script has run yet.
    pub open spec fn fresh(self) -> bool {
        &&& self.scene is None
        &&& self.input is None
        &&& self.registry@ == Seq::<Handle>::empty()
        &&& self.prototypes@ == Seq::<Seq<char>>::empty()
        &&& self.current == Handle::none()
        &&& self.spawned == 0
        &&& self.dt == Real::zero()
        &&& self.elapsed == Real::zero()
        &&& self.signals@ == Seq::<Signal>::empty()
    }

    /// The handle that a number was given out for.
    pub open spec fn named(self, id: Double) -> Option<Handle> {
        if id.finite() && !id.below_zero() && id.whole() < self.registry@.len() {
            Some(self.registry@[id.whole() as int])
        } else {
            None
        }
    }

    /// The node that a number stands for, if it is still there.
    pub open spec fn target(self, id: Double) -> Option<Handle> {
        match (self.named(id), self.scene) {
            (Some(h), Some(scene)) => if scene.nodes@.contains_key(h) {
                Some(h)
            } else {
                None
            },
            _ => None,
        }
    }

    /// A node of the scene.
    pub open spec fn node(self, h: Handle) -> Node
        recommends
            self.scene is Some,
    {
        self.scene->Some_0.nodes@[h]
    }

    /// `before` with one node of its scene replaced, and nothing else changed.
    pub open spec fn touched(self, before: Host, h: Handle, node: Node) -> bool {
        &&& self == (Host { scene: self.scene, ..before })
        &&& self.scene is Some
        &&& self.scene->Some_0.nodes@ == before.scene->Some_0.nodes@.insert(h, node)
        &&& self.scene->Some_0.nodes.capacity() == before.scene->Some_0.nodes.capacity()
        &&& self.scene->Some_0.index == before.scene->Some_0.index
        &&& self.scene->Some_0.physics == before.scene->Some_0.physics
        &&& self.scene->Some_0.rest_same(&before.scene->Some_0)
    }

    /// `id` is the number of `h`, which got one if it had none. Only once all numbers are given
    /// out, there is none for it.
    pub open spec fn introduces(self, before: Host, h: Handle, id: Double) -> bool {
        &&& self == (Host { registry: self.registry, ..before })
        &&& self.registry@ == if before.registry@.contains(h) || before.registry@.len()
            >= 0xffff_ffff {
            before.registry@
        } else {
            before.registry@.push(h)
        }
        &&& if self.registry@.contains(h) {
            self.named(id) == Some(h) && id.exactly(id.whole() as u32)
        } else {
            id == Double::minus_one()
        }
    }

    pub fn new() -> (result: Self)
        ensures
            result.wf(),
            result.fresh(),
    {
        Host {
            scene: None,
            input: None,
            registry: Registry::new(),
            prototypes: Prototypes::new(),
            current: Handle::none(),
            spawned: 0,
            dt: Real::zero(),
            elapsed: Real::zero(),
            signals: Vec::new(),
        }
    }

    /// The number of a handle.
    pub fn id_of(&mut self, handle: Handle) -> (result: Double)
        requires
            old(self).wf(),
        ensures
            final(self).wf(),
            final(self).introduces(*old(self), handle, result),
    {
        let id = self.registry.id_of(handle);
        match id {
            Some(id) => {
                proof {
                    self.registry.lemma_numbers_are_unique();
                    assert(self.registry@[id as int] == handle);
                    assert(self.registry@.contains(handle));
                }
                Double::from_index(id)
            },
            None => Double::minus_one(),
        }
    }

    /// The handle that a number was given out for.
    pub fn handle_of(&self, id: Double) -> (result: Option<Handle>)
        requires
            self.wf(),
        ensures
            result == self.named(id),
    {
        proof {
            self.registry.lemma_numbers_are_unique();
        }
        match id.to_index() {
            Some(n) => self.registry.handle_of(n),
            None => None,
        }
    }

    /// The node that a number stands for, if it is still there.
    pub fn lookup(&self, id: Double) -> (result: Option<Handle>)
        requires
            self.wf(),
        ensures
            result == self.target(id),
    {
        match self.handle_of(id) {
            Some(handle) => match &self.scene {
                Some(scene) => if scene.try_get(handle).is_some() {
                    Some(handle)
                } else {
                    None
                },
                None => None,
            },
            None => None,
        }
    }

    fn node_of(&self, id: Double) -> (result: Option<&Node>)
        requires
            self.wf(),
        ensures
            result is Some <==> self.target(id) is Some,
            result matches Some(node) ==> *node == self.node(self.target(id)->Some_0),
    {
        match self.handle_of(id) {
            Some(handle) => match &self.scene {
                Some(scene) => scene.try_get(handle),
                None => None,
            },
            None => None,
        }
    }

    fn node_mut(&mut self, id: Double) -> (result: Option<&mut Node>)
        requires
            old(self).wf(),
        ensures
            match result {
                Some(node) => {
                    &&& old(self).target(id) matches Some(h)
                    &&& *node == old(self).node(h)
                    &&& final(node).links() == node.links() ==> {
                        &&& final(self).wf()
                        &&& final(self).touched(*old(self), h, *final(node))
                    }
                },
                None => old(self).target(id) is None && *final(self) == *old(self),
            },
    {
        match self.lookup(id) {
            Some(handle) => match &mut self.scene {
                Some(scene) => scene.try_get_mut(handle),
                None => None,
            },
            None => None,
        }
    }

    // Time.

    pub fn time(&self) -> (result: Real)
        ensures
            result == self.elapsed,
    {
        self.elapsed
    }

    pub fn delta(&self) -> (result: Real)
        ensures
            result == self.dt,
    {
        self.dt
    }

    // Finding nodes.

    /// The number of the node whose script is running.
    pub fn self_id(&mut self) -> (result: Double)
        requires
            old(self).wf(),
        ensures
            final(self).wf(),
            final(self).introduces(*old(self), old(self).current, result),
    {
        let current = self.current;
        self.id_of(current)
    }

    /// `id` is the number of the first node of a name, or -1 if there is none.
    pub open spec fn found(self, before: Host, name: Seq<char>, id: Double) -> bool {
        match before.scene {
            Some(scene) => exists|found: Option<Handle>|
                {
                    &&& #[trigger] scene.finds(name, found)
                    &&& match found {
                        Some(h) => self.introduces(before, h, id),
                        None => id == Double::minus_one() && self == before,
                    }
                },
            None => id == Double::minus_one() && self == before,
        }
    }

    /// The number of the first node of a name, or -1.
    pub fn find(&mut self, name: &str) -> (result: Double)
        requires
            old(self).wf(),
        ensures
            final(self).wf(),
            final(self).found(*old(self), name@, result),
    {
        let found = match &self.scene {
            Some(scene) => scene.find_by_name(name),
            None => None,
        };
        match found {
            Some(handle) => self.id_of(handle),
            None => Double::minus_one(),
        }
    }

    pub fn is_valid(&self, id: Double) -> (result: bool)
        requires
            self.wf(),
        ensures
            result == (self.target(id) is Some),
    {
        self.lookup(id).is_some()
    }

    // Reading nodes.

    pub fn get_name(&self, id: Double) -> (result: Option<String>)
        requires
            self.wf(),
        ensures
            result is Some <==> self.target(id) is Some,
            result matches Some(name) ==> name@ == self.node(self.target(id)->Some_0).name@,
    {
        match self.node_of(id) {
            Some(node) => Some(node.name.clone()),
            None => None,
        }
    }

    /// The place of a node in its parent's space.
    pub fn transform_of(&self, id: Double) -> (result: Option<Transform>)
        requires
            self.wf(),
        ensures
            result == match self.target(id) {
                Some(h) => Some(self.node(h).transform),
                None => None,
            },
    {
        match self.node_of(id) {
            Some(node) => Some(node.transform),
            None => None,
        }
    }

    /// One number of a node's position or scale.
    pub fn get_component(&self, id: Double, field: Double, axis: Double) -> (result: Real)
        requires
            self.wf(),
        ensures
            result == match self.target(id) {
                Some(h) => axis_of(field_of(self.node(h).transform, field), axis),
                None => Real::zero(),
            },
    {
        match self.node_of(id) {
            Some(node) => {
                let vector = if field.is_count(1) {
                    node.transform.scale
                } else {
                    node.transform.position
                };
                if axis.is_count(1) {
                    vector.y
                } else if axis.is_count(2) {
                    vector.z
                } else {
                    vector.x
                }
            },
            None => Real::zero(),
        }
    }

    /// Where a node is in the world, as of the last update.
    pub fn get_global_position(&self, id: Double) -> (result: Vec3)
        requires
            self.wf(),
        ensures
            result == match self.target(id) {
                Some(h) => self.node(h).global_transform.w_axis.truncate(),
                None => Vec3::zero(),
            },
    {
        match self.node_of(id) {
            Some(node) => node.global_position(),
            None => Vec3::zero(),
        }
    }

    /// Which way a node's z axis points in the world, as of the last update.
    pub fn z_axis_of(&self, id: Double) -> (result: Option<Vec3>)
        requires
            self.wf(),
        ensures
            result == match self.target(id) {
                Some(h) => Some(self.node(h).global_transform.z_axis.truncate()),
                None => None,
            },
    {
        match self.node_of(id) {
            Some(node) => Some(node.global_transform.z_axis.truncate()),
            None => None,
        }
    }

    /// Which way a node looks. `forward` is its z axis turned round and brought to length 1; a node
    /// that is not there looks along the negative z axis.
    pub fn get_forward(&self, id: Double, forward: Vec3) -> (result: Vec3)
        requires
            self.wf(),
        ensures
            result == if self.target(id) is Some {
                forward
            } else {
                Vec3::neg_z()
            },
    {
        if self.lookup(id).is_some() {
            forward
        } else {
            Vec3::neg_z()
        }
    }

    pub fn get_visible(&self, id: Double) -> (result: bool)
        requires
            self.wf(),
        ensures
            result == (self.target(id) matches Some(h) && self.node(h).visible),
    {
        match self.node_of(id) {
            Some(node) => node.visible,
            None => false,
        }
    }

    /// How fast a node's body moves; not at all, if it has none.
    pub fn get_linvel(&self, id: Double) -> (result: Vec3)
        requires
            self.wf(),
        ensures
            result == match self.target(id) {
                Some(h) => match self.node(h).rigid_body {
                    Some(body) => body.linvel,
                    None => Vec3::zero(),
                },
                None => Vec3::zero(),
            },
    {
        match self.node_of(id) {
            Some(node) => match &node.rigid_body {
                Some(body) => body.linvel(),
                None => Vec3::zero(),
            },
            None => Vec3::zero(),
        }
    }

    // Writing nodes.

    /// `id`'s node is now `change` of what it was; without a node nothing happened.
    pub open spec fn rewritten(self, before: Host, id: Double, change: spec_fn(Node) -> Node) -> bool {
        match before.target(id) {
            Some(h) => self.touched(before, h, change(before.node(h))),
            None => self == before,
        }
    }

    /// Sets one number of a node's position or scale.
    pub fn set_component(&mut self, id: Double, field: Double, axis: Double, value: Real)
        requires
            old(self).wf(),
        ensures
            final(self).wf(),
            !value.finite() ==> *final(self) == *old(self),
            value.finite() ==> final(self).rewritten(
                *old(self),
                id,
                |node: Node|
                    Node {
                        transform: with_field(
                            node.transform,
                            field,
                            with_axis(field_of(node.transform, field), axis, value),
                        ),
                        ..node
                    },
            ),
    {
        if !value.is_finite() {
            return;
        }
        if let Some(node) = self.node_mut(id) {
            let mut vector = if field.is_count(1) {
                node.transform.scale
            } else {
                node.transform.position
            };
            if axis.is_count(1) {
                vector.y = value;
            } else if axis.is_count(2) {
                vector.z = value;
            } else {
                vector.x = value;
            }
            if field.is_count(1) {
                node.transform.scale = vector;
            } else {
                node.transform.position = vector;
            }
        }
    }

    /// Sets a node's position or scale.
    pub fn set_vec(&mut self, id: Double, field: Double, value: Vec3)
        requires
            old(self).wf(),
        ensures
            final(self).wf(),
            !value.finite() ==> *final(self) == *old(self),
            value.finite() ==> final(self).rewritten(
                *old(self),
                id,
                |node: Node| Node { transform: with_field(node.transform, field, value), ..node },
            ),
    {
        if !value.is_finite() {
            return;
        }
        if let Some(node) = self.node_mut(id) {
            if field.is_count(1) {
                node.transform.scale = value;
            } else {
                node.transform.position = value;
            }
        }
    }

    pub fn set_visible(&mut self, id: Double, visible: bool)
        requires
            old(self).wf(),
        ensures
            final(self).wf(),
            final(self).rewritten(*old(self), id, |node: Node| Node { visible, ..node }),
    {
        if let Some(node) = self.node_mut(id) {
            node.visible = visible;
        }
    }

    /// `id`'s node stands at `position` since; without a node nothing happened.
    pub open spec fn put_at(self, before: Host, id: Double, position: Vec3) -> bool {
        match before.target(id) {
            Some(h) => self.touched(
                before,
                h,
                Node {
                    transform: Transform { position, ..before.node(h).transform },
                    ..before.node(h)
                },
            ),
            None => self == before,
        }
    }

    /// `id`'s node is turned to `rotation` since; without a node nothing happened.
    pub open spec fn turned_to(self, before: Host, id: Double, rotation: Quat) -> bool {
        match before.target(id) {
            Some(h) => self.touched(
                before,
                h,
                Node {
                    transform: Transform { rotation, ..before.node(h).transform },
                    ..before.node(h)
                },
            ),
            None => self == before,
        }
    }

    /// `told` is what a script is told of a hit that the solver reports.
    pub open spec fn hit_told(self, before: Host, hit: RayHit, told: ScriptHit) -> bool {
        let scene = before.scene->Some_0;
        let body = scene.named(hit.body_user_data);
        let collider = scene.named(hit.collider_user_data);
        &&& told.point == hit.point
        &&& told.normal == hit.normal
        &&& told.distance == hit.distance
        &&& body matches Some(h) ==> self.introduces(before, h, told.node)
        &&& body is None && collider is Some ==> self.introduces(before, collider->Some_0, told.node)
        &&& body is None && collider is None ==> told.node == Double::minus_one() && self == before
    }

    /// Moves a node by `offset`; `sum` is where it then is.
    pub fn translate(&mut self, id: Double, offset: Vec3, sum: Vec3)
        requires
            old(self).wf(),
        ensures
            offset.finite() ==> final(self).put_at(*old(self), id, sum),
            final(self).wf(),
            !offset.finite() ==> *final(self) == *old(self),
            offset.finite() ==> final(self).rewritten(
                *old(self),
                id,
                |node: Node|
                    Node { transform: Transform { position: sum, ..node.transform }, ..node },
            ),
    {
        if !offset.is_finite() {
            return;
        }
        if let Some(node) = self.node_mut(id) {
            node.transform.position = sum;
        }
    }

    /// Turns a node about its y axis by `angle`; `turned` is its rotation then.
    pub fn rotate_y(&mut self, id: Double, angle: Real, turned: Quat)
        requires
            old(self).wf(),
        ensures
            angle.finite() ==> final(self).turned_to(*old(self), id, turned),
            final(self).wf(),
            !angle.finite() ==> *final(self) == *old(self),
            angle.finite() ==> final(self).rewritten(
                *old(self),
                id,
                |node: Node|
                    Node { transform: Transform { rotation: turned, ..node.transform }, ..node },
            ),
    {
        if !angle.is_finite() {
            return;
        }
        if let Some(node) = self.node_mut(id) {
            node.transform.rotation = turned;
        }
    }

    /// Turns a node towards a point; `facing` is its rotation then, or nothing if the point is too
    /// close to be looked at.
    pub fn look_at(&mut self, id: Double, goal: Vec3, facing: Option<Quat>)
        requires
            old(self).wf(),
        ensures
            goal.finite() && facing is Some ==> final(self).turned_to(
                *old(self),
                id,
                facing->Some_0,
            ),
            final(self).wf(),
            match facing {
                Some(rotation) if goal.finite() => final(self).rewritten(
                    *old(self),
                    id,
                    |node: Node|
                        Node { transform: Transform { rotation, ..node.transform }, ..node },
                ),
                _ => *final(self) == *old(self),
            },
    {
        if !goal.is_finite() {
            return;
        }
        if let Some(rotation) = facing {
            if let Some(node) = self.node_mut(id) {
                node.transform.rotation = rotation;
            }
        }
    }

    /// `id`'s node has a body, and something more was asked of it; without a body nothing happened.
    pub open spec fn pushed(self, before: Host, id: Double, action: BodyAction) -> bool {
        match before.target(id) {
            Some(h) if before.node(h).rigid_body is Some => exists|node: Node|
                {
                    &&& #[trigger] self.touched(before, h, node)
                    &&& node == (Node { rigid_body: node.rigid_body, ..before.node(h) })
                    &&& node.rigid_body is Some
                    &&& node.rigid_body->Some_0.queued(before.node(h).rigid_body->Some_0, action)
                },
            _ => self == before,
        }
    }

    pub fn apply_impulse(&mut self, id: Double, impulse: Vec3)
        requires
            old(self).wf(),
        ensures
            final(self).wf(),
            !impulse.finite() ==> *final(self) == *old(self),
            impulse.finite() ==> final(self).pushed(
                *old(self),
                id,
                BodyAction::ApplyImpulse(impulse),
            ),
    {
        if !impulse.is_finite() || !self.has_body(id) {
            return;
        }
        if let Some(node) = self.node_mut(id) {
            if let Some(body) = &mut node.rigid_body {
                body.apply_impulse(impulse);
            }
        }
    }

    pub fn set_linvel(&mut self, id: Double, velocity: Vec3)
        requires
            old(self).wf(),
        ensures
            final(self).wf(),
            !velocity.finite() ==> *final(self) == *old(self),
            velocity.finite() ==> final(self).pushed(
                *old(self),
                id,
                BodyAction::SetLinvel(velocity),
            ),
    {
        if !velocity.is_finite() || !self.has_body(id) {
            return;
        }
        if let Some(node) = self.node_mut(id) {
            if let Some(body) = &mut node.rigid_body {
                body.set_linvel(velocity);
            }
        }
    }

    fn has_body(&self, id: Double) -> (result: bool)
        requires
            self.wf(),
        ensures
            result == (self.target(id) matches Some(h) && self.node(h).rigid_body is Some),
    {
        match self.node_of(id) {
            Some(node) => node.rigid_body.is_some(),
            None => false,
        }
    }

    // Sounds, animations and particles.

    /// The node of `id` has a sound, now `change` of what there was; else nothing happened.
    pub open spec fn sound_set(
        self,
        before: Host,
        id: Double,
        change: spec_fn(SoundSource) -> SoundSource,
    ) -> bool {
        match before.target(id) {
            Some(h) => match before.node(h).sound {
                Some(it) => self.touched(
                    before,
                    h,
                    Node { sound: Some(change(it)), ..before.node(h) },
                ),
                None => self == before,
            },
            None => self == before,
        }
    }

    fn has_sound(&self, id: Double) -> (result: bool)
        requires
            self.wf(),
        ensures
            result == (self.target(id) matches Some(h) && self.node(h).sound is Some),
    {
        match self.node_of(id) {
            Some(node) => node.sound.is_some(),
            None => false,
        }
    }

    /// Plays a node's sound from the beginning.
    pub fn play_sound(&mut self, id: Double)
        requires
            old(self).wf(),
        ensures
            final(self).wf(),
            final(self).sound_set(
                *old(self),
                id,
                |it: SoundSource| SoundSource { finished: false, desired: Status::Playing, ..it.voiceless() },
            ),
    {
        if !self.has_sound(id) {
            return;
        }
        if let Some(node) = self.node_mut(id) {
            if let Some(it) = &mut node.sound {
                it.restart();
            }
        }
    }

    pub fn stop_sound(&mut self, id: Double)
        requires
            old(self).wf(),
        ensures
            final(self).wf(),
            final(self).sound_set(
                *old(self),
                id,
                |it: SoundSource| SoundSource { desired: Status::Stopped, ..it },
            ),
    {
        if !self.has_sound(id) {
            return;
        }
        if let Some(node) = self.node_mut(id) {
            if let Some(it) = &mut node.sound {
                it.stop();
            }
        }
    }

    /// Sets how loud a node's sound is. It is never less than silent: a negative gain would cancel
    /// other sounds.
    pub fn set_sound_gain(&mut self, id: Double, gain: Real)
        requires
            old(self).wf(),
        ensures
            final(self).wf(),
            final(self).sound_set(
                *old(self),
                id,
                |it: SoundSource| SoundSource { gain: gain.larger(Real::zero()), ..it },
            ),
    {
        if !self.has_sound(id) {
            return;
        }
        if let Some(node) = self.node_mut(id) {
            if let Some(it) = &mut node.sound {
                it.gain = gain.max(Real::zero());
            }
        }
    }

    /// Sets how fast a node's sound is played. It never stands still: it would keep its voice for
    /// ever.
    pub fn set_sound_pitch(&mut self, id: Double, pitch: Real)
        requires
            old(self).wf(),
        ensures
            final(self).wf(),
            final(self).sound_set(
                *old(self),
                id,
                |it: SoundSource| SoundSource { pitch: pitch.larger(least_pitch()), ..it },
            ),
    {
        if !self.has_sound(id) {
            return;
        }
        if let Some(node) = self.node_mut(id) {
            if let Some(it) = &mut node.sound {
                it.pitch = pitch.max(least_pitch());
            }
        }
    }

    pub fn set_sound_looping(&mut self, id: Double, looping: bool)
        requires
            old(self).wf(),
        ensures
            final(self).wf(),
            final(self).sound_set(
                *old(self),
                id,
                |it: SoundSource| SoundSource { looping, ..it },
            ),
    {
        if !self.has_sound(id) {
            return;
        }
        if let Some(node) = self.node_mut(id) {
            if let Some(it) = &mut node.sound {
                it.looping = looping;
            }
        }
    }

    /// The node of `id` has an animator, now `change` of what there was; else nothing happened.
    pub open spec fn animator_set(
        self,
        before: Host,
        id: Double,
        change: spec_fn(AnimationPlayer) -> AnimationPlayer,
    ) -> bool {
        match before.target(id) {
            Some(h) => match before.node(h).animator {
                Some(it) => self.touched(
                    before,
                    h,
                    Node { animator: Some(change(it)), ..before.node(h) },
                ),
                None => self == before,
            },
            None => self == before,
        }
    }

    fn has_animator(&self, id: Double) -> (result: bool)
        requires
            self.wf(),
        ensures
            result == (self.target(id) matches Some(h) && self.node(h).animator is Some),
    {
        match self.node_of(id) {
            Some(node) => node.animator.is_some(),
            None => false,
        }
    }

    /// Lets time pass for a node's animations, or holds them.
    pub fn set_animation_playing(&mut self, id: Double, playing: bool)
        requires
            old(self).wf(),
        ensures
            final(self).wf(),
            final(self).animator_set(
                *old(self),
                id,
                |it: AnimationPlayer| AnimationPlayer { running: playing, ..it },
            ),
    {
        if !self.has_animator(id) {
            return;
        }
        if let Some(node) = self.node_mut(id) {
            if let Some(it) = &mut node.animator {
                it.running = playing;
            }
        }
    }

    pub fn set_animation_speed(&mut self, id: Double, speed: Real)
        requires
            old(self).wf(),
        ensures
            final(self).wf(),
            final(self).animator_set(
                *old(self),
                id,
                |it: AnimationPlayer| AnimationPlayer { speed, ..it },
            ),
    {
        if !self.has_animator(id) {
            return;
        }
        if let Some(node) = self.node_mut(id) {
            if let Some(it) = &mut node.animator {
                it.speed = speed;
            }
        }
    }

    /// The node of `id` has particles, now `change` of what there was; else nothing happened.
    pub open spec fn particles_set(
        self,
        before: Host,
        id: Double,
        change: spec_fn(ParticleSystem) -> ParticleSystem,
    ) -> bool {
        match before.target(id) {
            Some(h) => match before.node(h).particles {
                Some(it) => self.touched(
                    before,
                    h,
                    Node { particles: Some(change(it)), ..before.node(h) },
                ),
                None => self == before,
            },
            None => self == before,
        }
    }

    fn has_particles(&self, id: Double) -> (result: bool)
        requires
            self.wf(),
        ensures
            result == (self.target(id) matches Some(h) && self.node(h).particles is Some),
    {
        match self.node_of(id) {
            Some(node) => node.particles.is_some(),
            None => false,
        }
    }

    pub fn set_particles_playing(&mut self, id: Double, playing: bool)
        requires
            old(self).wf(),
        ensures
            final(self).wf(),
            final(self).particles_set(
                *old(self),
                id,
                |it: ParticleSystem| ParticleSystem { playing, ..it },
            ),
    {
        if !self.has_particles(id) {
            return;
        }
        if let Some(node) = self.node_mut(id) {
            if let Some(it) = &mut node.particles {
                it.playing = playing;
            }
        }
    }

    /// Sets how many particles come in a second. They never come back: the debt would have to be
    /// paid off first.
    pub fn set_emission_rate(&mut self, id: Double, rate: Real)
        requires
            old(self).wf(),
        ensures
            final(self).wf(),
            final(self).particles_set(
                *old(self),
                id,
                |it: ParticleSystem| ParticleSystem { rate: rate.larger(Real::zero()), ..it },
            ),
    {
        if !self.has_particles(id) {
            return;
        }
        if let Some(node) = self.node_mut(id) {
            if let Some(it) = &mut node.particles {
                it.rate = rate.max(Real::zero());
            }
        }
    }

    /// Lets a node's particles burst out; `after` is the system once they did.
    pub fn burst_particles(&mut self, id: Double, after: ParticleSystem)
        requires
            old(self).wf(),
        ensures
            final(self).wf(),
            final(self).particles_set(
                *old(self),
                id,
                |it: ParticleSystem| after,
            ),
    {
        if !self.has_particles(id) {
            return;
        }
        if let Some(node) = self.node_mut(id) {
            if let Some(it) = &mut node.particles {
                *it = after;
            }
        }
    }

    /// `id`'s node has an animation of that name, which was started; else nothing happened.
    pub open spec fn animation_started(
        self,
        before: Host,
        id: Double,
        name: Seq<char>,
        started: bool,
    ) -> bool {
        &&& started == (before.target(id) matches Some(h) && before.node(h).animator matches Some(
            player,
        ) && player.knows(name))
        &&& !started ==> self == before
        &&& started ==> exists|node: Node|
            {
                &&& #[trigger] self.touched(before, before.target(id)->Some_0, node)
                &&& node == (Node {
                    animator: node.animator,
                    ..before.node(before.target(id)->Some_0)
                })
                &&& node.animator is Some
                &&& node.animator->Some_0.started(
                    before.node(before.target(id)->Some_0).animator->Some_0,
                    name,
                )
            }
    }

    /// Starts an animation of a node by its name, and says whether it did. A name that there is not
    /// is no failure.
    pub fn play_animation(&mut self, id: Double, name: &str) -> (result: bool)
        requires
            old(self).wf(),
        ensures
            final(self).wf(),
            final(self).animation_started(*old(self), id, name@, result),
    {
        let known = match self.node_of(id) {
            Some(node) => match &node.animator {
                Some(player) => player.find_clip(name).is_some(),
                None => false,
            },
            None => false,
        };
        if !known {
            return false;
        }
        if let Some(node) = self.node_mut(id) {
            if let Some(player) = &mut node.animator {
                return player.play_by_name(name);
            }
        }
        false
    }

    pub fn is_animation_playing(&self, id: Double) -> (result: bool)
        requires
            self.wf(),
        ensures
            result == (self.target(id) matches Some(h) && self.node(h).animator matches Some(player)
                && player.running),
    {
        match self.node_of(id) {
            Some(node) => match &node.animator {
                Some(player) => player.running,
                None => false,
            },
            None => false,
        }
    }

    /// A node's particles, if it has some.
    pub fn particles_of(&self, id: Double) -> (result: Option<ParticleSystem>)
        requires
            self.wf(),
        ensures
            result == match self.target(id) {
                Some(h) => self.node(h).particles,
                None => None,
            },
    {
        match self.node_of(id) {
            Some(node) => node.particles,
            None => None,
        }
    }

    /// How many particles a node has.
    pub fn particle_count(&self, id: Double) -> (result: u32)
        requires
            self.wf(),
        ensures
            result == match self.target(id) {
                Some(h) => match self.node(h).particles {
                    Some(system) => system.alive,
                    None => 0,
                },
                None => 0,
            },
    {
        match self.particles_of(id) {
            Some(system) => system.alive,
            None => 0,
        }
    }

    // The scene as a whole.

    /// Takes a node out of the scene, at once, with everything below it.
    pub fn queue_free(&mut self, id: Double)
        requires
            old(self).wf(),
        ensures
            final(self).wf(),
            match old(self).target(id) {
                Some(h) => {
                    &&& *final(self) == (Host { scene: final(self).scene, ..*old(self) })
                    &&& final(self).scene is Some
                    &&& final(self).scene->Some_0.lost(&old(self).scene->Some_0, h)
                },
                None => *final(self) == *old(self),
            },
    {
        if let Some(handle) = self.lookup(id) {
            if let Some(scene) = &mut self.scene {
                scene.remove_node(handle);
            }
        }
    }

    /// The node that a ray is said to have hit: the one with the body, or else the one with the
    /// collider.
    pub open spec fn struck(hit: SceneRayHit) -> Option<Handle> {
        match hit.body_node {
            Some(h) => Some(h),
            None => hit.collider_node,
        }
    }

    /// What a ray hits, at once; `hit` is what the solver reports. A ray from nowhere or to nowhere
    /// hits nothing.
    pub fn raycast(&mut self, origin: Vec3, direction: Vec3, hit: Option<RayHit>) -> (result:
        Option<ScriptHit>)
        requires
            old(self).wf(),
        ensures
            result matches Some(told) ==> old(self).scene is Some && hit is Some
                && final(self).hit_told(*old(self), hit->Some_0, told),
            final(self).wf(),
            match (old(self).scene, hit) {
                (Some(scene), Some(hit)) if origin.finite() && direction.finite() => {
                    let seen = SceneRayHit {
                        collider_node: scene.named(hit.collider_user_data),
                        body_node: scene.named(hit.body_user_data),
                        point: hit.point,
                        normal: hit.normal,
                        distance: hit.distance,
                    };
                    &&& result matches Some(told)
                    &&& told.point == hit.point
                    &&& told.normal == hit.normal
                    &&& told.distance == hit.distance
                    &&& match Self::struck(seen) {
                        Some(h) => final(self).introduces(*old(self), h, told.node),
                        None => told.node == Double::minus_one() && *final(self) == *old(self),
                    }
                },
                _ => result is None && *final(self) == *old(self),
            },
    {
        if !origin.is_finite() || !direction.is_finite() {
            return None;
        }
        let seen = match &self.scene {
            Some(scene) => scene.cast_ray(hit),
            None => None,
        };
        match seen {
            Some(seen) => {
                let handle = match seen.body_node {
                    Some(handle) => Some(handle),
                    None => seen.collider_node,
                };
                let node = match handle {
                    Some(handle) => self.id_of(handle),
                    None => Double::minus_one(),
                };
                Some(
                    ScriptHit {
                        node,
                        point: seen.point,
                        normal: seen.normal,
                        distance: seen.distance,
                    },
                )
            },
            None => None,
        }
    }

    // Input.

    pub fn action_pressed(&self, name: &str) -> (result: bool)
        ensures
            result == (self.input matches Some(input) && input.action(name@) matches Some(state)
                && state.pressed),
    {
        match &self.input {
            Some(input) => input.action_pressed(name),
            None => false,
        }
    }

    pub fn action_just_pressed(&self, name: &str) -> (result: bool)
        ensures
            result == (self.input matches Some(input) && input.action(name@) matches Some(state)
                && state.just_pressed),
    {
        match &self.input {
            Some(input) => input.action_just_pressed(name),
            None => false,
        }
    }

    pub fn action_just_released(&self, name: &str) -> (result: bool)
        ensures
            result == (self.input matches Some(input) && input.action(name@) matches Some(state)
                && state.just_released),
    {
        match &self.input {
            Some(input) => input.action_just_released(name),
            None => false,
        }
    }

    pub fn axis(&self, name: &str) -> (result: Real)
        ensures
            result == match self.input {
                Some(input) => input.axis_value(name@),
                None => Real::zero(),
            },
    {
        match &self.input {
            Some(input) => input.axis(name),
            None => Real::zero(),
        }
    }

    pub fn mouse_pressed(&self, name: &str) -> (result: bool)
        ensures
            result == (self.input matches Some(input) && MouseButton::of(name@) matches Some(button)
                && input.button(button).pressed),
    {
        match (&self.input, MouseButton::named(name)) {
            (Some(input), Some(button)) => input.mouse_pressed(button),
            _ => false,
        }
    }

    pub fn mouse_just_pressed(&self, name: &str) -> (result: bool)
        ensures
            result == (self.input matches Some(input) && MouseButton::of(name@) matches Some(button)
                && input.button(button).just_pressed),
    {
        match (&self.input, MouseButton::named(name)) {
            (Some(input), Some(button)) => input.mouse_just_pressed(button),
            _ => false,
        }
    }

    /// Where the cursor is. Before it was in the window it is nowhere, not in the corner.
    pub fn mouse_position(&self) -> (result: Option<Vec2>)
        ensures
            result == match self.input {
                Some(input) => input.cursor,
                None => None,
            },
    {
        match &self.input {
            Some(input) => input.cursor_position(),
            None => None,
        }
    }

    pub fn mouse_delta(&self) -> (result: Vec2)
        ensures
            result == match self.input {
                Some(input) => input.moved,
                None => Vec2::zero(),
            },
    {
        match &self.input {
            Some(input) => input.mouse_delta(),
            None => Vec2::zero(),
        }
    }

    pub fn scroll_delta(&self) -> (result: Vec2)
        ensures
            result == match self.input {
                Some(input) => input.scrolled,
                None => Vec2::zero(),
            },
    {
        match &self.input {
            Some(input) => input.scroll_delta(),
            None => Vec2::zero(),
        }
    }

    // Making nodes and sending messages.

    /// A node of that name may be made there: the place is one, there is a prototype, the budget
    /// of this frame is not spent, and the scene has room.
    pub open spec fn may_spawn(self, name: Seq<char>, position: Vec3) -> bool {
        &&& position.finite()
        &&& self.spawned < MAX_SPAWNS
        &&& self.prototypes@.contains(name)
        &&& self.scene matches Some(scene) && scene.nodes.capacity() < u32::MAX
    }

    /// Which prototype a script asks for, if it may have it.
    pub fn wanted_prototype(&self, name: &str, position: Vec3) -> (result: Option<usize>)
        requires
            self.wf(),
        ensures
            result is Some <==> self.may_spawn(name@, position),
            result matches Some(place) ==> place < self.prototypes@.len()
                && self.prototypes@[place as int] == name@,
    {
        if !position.is_finite() || self.spawned >= MAX_SPAWNS {
            return None;
        }
        match &self.scene {
            Some(scene) => if scene.nodes.get_capacity() >= 0xffff_ffff {
                None
            } else {
                self.prototypes.find(name)
            },
            None => None,
        }
    }

    /// `made` was put at `position` under the root of the scene, which is `scene` since, as the
    /// node `h`, and its number is `id`.
    pub open spec fn hatched(
        self,
        before: Host,
        h: Handle,
        scene: Scene,
        made: Node,
        position: Vec3,
        id: Double,
    ) -> bool {
        &&& scene.gained(
            &before.scene->Some_0,
            h,
            Node { transform: Transform { position, ..made.transform }, ..made },
            before.scene->Some_0.root,
        )
        &&& self.introduces(
            Host { scene: Some(scene), spawned: (before.spawned + 1) as usize, ..before },
            h,
            id,
        )
    }

    /// Puts a node into the scene under its root, and gives its number, or -1 if a script may not
    /// have it. `made` is what the prototype of that name makes.
    pub fn spawn(&mut self, name: &str, position: Vec3, made: Node) -> (result: Double)
        requires
            old(self).wf(),
            made.children@.len() == 0,
        ensures
            final(self).wf(),
            !old(self).may_spawn(name@, position) ==> result == Double::minus_one() && *final(self)
                == *old(self),
            old(self).may_spawn(name@, position) ==> exists|h: Handle, scene: Scene| #[trigger]
                final(self).hatched(*old(self), h, scene, made, position, result),
    {
        if self.wanted_prototype(name, position).is_none() {
            return Double::minus_one();
        }
        let mut node = made;
        node.transform.position = position;
        let handle = match &mut self.scene {
            Some(scene) => scene.add_node(node),
            None => {
                return Double::minus_one();
            },
        };
        self.spawned += 1;
        let ghost with_node = *self;
        let result = self.id_of(handle);
        proof {
            assert(with_node == (Host {
                scene: Some(with_node.scene->Some_0),
                spawned: (old(self).spawned + 1) as usize,
                ..*old(self)
            }));
            assert(self.hatched(*old(self), handle, with_node.scene->Some_0, made, position, result));
        }
        result
    }

    /// Sends a message to the game, unless there are too many of them already.
    pub fn emit(&mut self, name: String, value: Double)
        requires
            old(self).wf(),
        ensures
            final(self).wf(),
            *final(self) == (Host { signals: final(self).signals, ..*old(self) }),
            final(self).signals@ == if old(self).signals@.len() < MAX_SIGNALS {
                old(self).signals@.push(Signal { name, value, source: old(self).current })
            } else {
                old(self).signals@
            },
    {
        if self.signals.len() < MAX_SIGNALS {
            let source = self.current;
            self.signals.push(Signal { name, value, source });
        }
    }

    // Coming and going.

    /// Moves the scene and the input in, and starts a frame. What stands in the scene's place
    /// meanwhile is the spare scene, which is made only if there is none.
    pub fn park(
        &mut self,
        scene: &mut Scene,
        input: &mut Input,
        spare: &mut Option<Scene>,
        dt: Real,
        elapsed: Real,
    )
        requires
            old(self).wf(),
            old(scene).wf(),
        ensures
            final(self).wf(),
            *final(self) == (Host {
                scene: Some(*old(scene)),
                input: Some(*old(input)),
                current: Handle::none(),
                spawned: 0,
                dt,
                elapsed,
                signals: final(self).signals,
                ..*old(self)
            }),
            final(self).signals@ == Seq::<Signal>::empty(),
            match *old(spare) {
                Some(shell) => *final(scene) == shell,
                None => final(scene).wf() && final(scene).fresh(),
            },
            final(input).idle(),
            *final(spare) is None,
    {
        let mut shell: Option<Scene> = None;
        std::mem::swap(&mut shell, spare);
        let mut inside = match shell {
            Some(shell) => shell,
            None => Scene::new(),
        };
        std::mem::swap(scene, &mut inside);
        let mut seen = Input::new();
        std::mem::swap(input, &mut seen);
        self.scene = Some(inside);
        self.input = Some(seen);
        self.current = Handle::none();
        self.spawned = 0;
        self.dt = dt;
        self.elapsed = elapsed;
        self.signals.clear();
    }

    /// Moves the scene and the input back out. What stood in the scene's place becomes the spare
    /// scene again.
    pub fn unpark(&mut self, scene: &mut Scene, input: &mut Input, spare: &mut Option<Scene>)
        requires
            old(self).wf(),
        ensures
            final(self).wf(),
            *final(self) == (Host { scene: None, input: None, ..*old(self) }),
            match old(self).scene {
                Some(inside) => *final(scene) == inside && *final(spare) == Some(*old(scene)),
                None => *final(scene) == *old(scene) && *final(spare) == *old(spare),
            },
            match old(self).input {
                Some(seen) => *final(input) == seen,
                None => *final(input) == *old(input),
            },
    {
        let mut inside: Option<Scene> = None;
        std::mem::swap(&mut inside, &mut self.scene);
        if let Some(inside) = inside {
            let mut shell = inside;
            std::mem::swap(scene, &mut shell);
            *spare = Some(shell);
        }
        let mut seen: Option<Input> = None;
        std::mem::swap(&mut seen, &mut self.input);
        if let Some(seen) = seen {
            *input = seen;
        }
    }

    /// Hands the messages of the frame out.
    pub fn take_signals(&mut self) -> (result: Vec<Signal>)
        requires
            old(self).wf(),
        ensures
            final(self).wf(),
            result@ == old(self).signals@,
            *final(self) == (Host { signals: final(self).signals, ..*old(self) }),
            final(self).signals@ == Seq::<Signal>::empty(),
    {
        let mut result: Vec<Signal> = Vec::new();
        std::mem::swap(&mut result, &mut self.signals);
        result
    }
}

/// The least pitch of a sound.
#[verifier::allow_in_spec]
pub fn least_pitch() -> Real
    returns
        (Real { bits: 0x3c23_d70a }),
{
    Real { bits: 0x3c23_d70a }
}

/// A host while scripts run. It is valid when it comes in, so it is valid when it goes out,
/// wherever it was kept meanwhile.
pub struct Seat {
    host: Host,
}

impl Seat {
    #[verifier::type_invariant]
    spec fn valid(self) -> bool {
        self.host.wf()
    }

    pub closed spec fn view(&self) -> Host {
        self.host
    }

    pub fn new(host: Host) -> (result: Self)
        requires
            host.wf(),
        ensures
            result@ == host,
    {
        Seat { host }
    }

    pub fn into_host(self) -> (result: Host)
        ensures
            result == self@,
            result.wf(),
    {
        proof {
            use_type_invariant(&self);
        }
        self.host
    }
}

/// The host in a seat, if there is a seat.
pub open spec fn seated(seat: Option<Seat>) -> Option<Host> {
    match seat {
        Some(seat) => Some(seat@),
        None => None,
    }
}

/// A scene that was moved in and moved out again untouched is as it was, and so are the input and
/// the spare scene.
pub proof fn lemma_everything_comes_back(
    before: Host,
    inside: Host,
    after: Host,
    scene: Scene,
    shell: Scene,
    input: Input,
    scene_after: Scene,
    input_after: Input,
    spare_after: Option<Scene>,
)
    requires
        inside == (Host {
            scene: Some(scene),
            input: Some(input),
            current: Handle::none(),
            spawned: 0,
            dt: inside.dt,
            elapsed: inside.elapsed,
            signals: inside.signals,
            ..before
        }),
        after == (Host { scene: None, input: None, ..inside }),
        match inside.scene {
            Some(kept) => scene_after == kept && spare_after == Some(shell),
            None => scene_after == shell && spare_after is None,
        },
        match inside.input {
            Some(kept) => input_after == kept,
            None => input_after.idle(),
        },
    ensures
        scene_after == scene,
        input_after == input,
        spare_after == Some(shell),
        after.registry == before.registry,
        after.prototypes == before.prototypes,
{
}

/// A number stands for the same node for as long as the scripts run: whatever is entered later,
/// what was entered stays where it is.
pub proof fn lemma_numbers_stay(before: Host, after: Host, newcomer: Handle, id: Double, other: Double)
    requires
        after.introduces(before, newcomer, other),
    ensures
        before.named(id) is Some ==> after.named(id) == before.named(id),
{
}

/// What a script writes, it reads back.
pub proof fn lemma_written_is_read(
    before: Host,
    after: Host,
    id: Double,
    field: Double,
    axis: Double,
    value: Real,
)
    requires
        before.target(id) is Some,
        after.rewritten(
            before,
            id,
            |node: Node|
                Node {
                    transform: with_field(
                        node.transform,
                        field,
                        with_axis(field_of(node.transform, field), axis, value),
                    ),
                    ..node
                },
        ),
    ensures
        after.target(id) == before.target(id),
        axis_of(field_of(after.node(after.target(id)->Some_0).transform, field), axis) == value,
{
}

/// A node that was taken out of the scene is gone for good, for every script that had its number.
pub proof fn lemma_freed_is_invalid(before: Host, after: Host, id: Double, h: Handle)
    requires
        before.wf(),
        before.target(id) == Some(h),
        h != before.scene->Some_0.root,
        after == (Host { scene: after.scene, ..before }),
        after.scene is Some,
        after.scene->Some_0.lost(&before.scene->Some_0, h),
    ensures
        after.target(id) is None,
{
    let scene = after.scene->Some_0;
    if scene.nodes@.contains_key(h) {
        assert(scene.tree().contains_key(h));
        crate::tree::lemma_below_self(before.scene->Some_0.tree(), before.scene->Some_0.root, h);
    }
}

} // verus!
