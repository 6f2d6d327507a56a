//! What scripts are told, and what their calls do.

use crate::numbers::{Double, Quat, Real, Transform, Vec3};
use crate::pool::Handle;
use crate::scene::audio::{SoundSource, Status};
use crate::scene::graph::Scene;
use crate::scene::node::Node;
use crate::scene::physics::BodyAction;
use crate::scene::sync::{RayHit, SceneRayHit};
use crate::script::bridge;
use crate::script::bridge::{Kind, Native, Reply, Value};
use crate::script::engine;
use crate::script::host::{Host, ScriptHit};
use crate::script::input::{ActionState, AxisState, ButtonState, Input};
use boa_engine::{Context, JsError, JsValue};
use vstd::prelude::*;

verus! {

/// The first argument of a call is the number of a node that is there.
pub open spec fn calls_on(values: Seq<Value>, host: Host, n: int, h: Handle) -> bool {
    &&& values.len() > 0
    &&& values[0] matches Value::Number(id) && id.finite() && !id.below_zero() && id.whole() == n
    &&& 0 <= n < host.registry@.len()
    &&& host.registry@[n] == h
    &&& host.scene is Some
    &&& host.scene->0.nodes@.contains_key(h)
}

/// The node of a host under a handle.
pub open spec fn node(host: Host, h: Handle) -> Node {
    host.scene->0.nodes@[h]
}

/// Nothing changed but, at most, what one node carries: the host, the rest of the scene and the
/// node's place in it are as before.
pub open spec fn only_touches(before: Host, after: Host, h: Handle) -> bool {
    &&& after.scene is Some
    &&& after.scene->0.nodes@.dom() == before.scene->0.nodes@.dom()
    &&& forall|x: Handle|
        x != h && #[trigger] before.scene->0.nodes@.contains_key(x) ==> after.scene->0.nodes@[x]
            == before.scene->0.nodes@[x]
    &&& after.scene->0.index == before.scene->0.index
    &&& after.scene->0.physics == before.scene->0.physics
    &&& after.scene->0.root == before.scene->0.root
    &&& after.registry == before.registry
    &&& after.prototypes == before.prototypes
    &&& after.input == before.input
    &&& after.current == before.current
    &&& after.spawned == before.spawned
    &&& after.dt == before.dt
    &&& after.elapsed == before.elapsed
    &&& after.signals == before.signals
    &&& node(after, h).name == node(before, h).name
    &&& node(after, h).receives_decals == node(before, h).receives_decals
    &&& node(after, h).light_mask == node(before, h).light_mask
    &&& node(after, h).mesh == node(before, h).mesh
    &&& node(after, h).material == node(before, h).material
    &&& node(after, h).camera == node(before, h).camera
    &&& node(after, h).light == node(before, h).light
    &&& node(after, h).skin == node(before, h).skin
    &&& node(after, h).morph_weights == node(before, h).morph_weights
    &&& node(after, h).collider == node(before, h).collider
    &&& node(after, h).joint == node(before, h).joint
    &&& node(after, h).ragdoll == node(before, h).ragdoll
    &&& node(after, h).terrain == node(before, h).terrain
    &&& node(after, h).script == node(before, h).script
    &&& node(after, h).lod == node(before, h).lod
    &&& node(after, h).parent == node(before, h).parent
    &&& node(after, h).children == node(before, h).children
    &&& node(after, h).global_transform == node(before, h).global_transform
    &&& node(after, h).global_visible == node(before, h).global_visible
    &&& node(after, h).global_aabb == node(before, h).global_aabb
}

/// What a script may change of a node.
pub enum Aspect {
    Place,
    Visibility,
    Body,
    Sound,
    Player,
    Particles,
}

/// Of what a script may change of a node, only one aspect did.
pub open spec fn only_changes(before: Host, after: Host, h: Handle, aspect: Aspect) -> bool {
    &&& only_touches(before, after, h)
    &&& aspect == Aspect::Place || node(after, h).transform == node(before, h).transform
    &&& aspect == Aspect::Visibility || node(after, h).visible == node(before, h).visible
    &&& aspect == Aspect::Body || node(after, h).rigid_body == node(before, h).rigid_body
    &&& aspect == Aspect::Sound || node(after, h).sound == node(before, h).sound
    &&& aspect == Aspect::Player || node(after, h).animator == node(before, h).animator
    &&& aspect == Aspect::Particles || node(after, h).particles == node(before, h).particles
}

/// A question about a node that is there changes nothing and is answered with what the node carries.
pub proof fn lemma_questions_tell_the_node(
    native: Native,
    values: Seq<Value>,
    before: Host,
    after: Host,
    reply: Reply,
    n: int,
    h: Handle,
)
    requires
        calls_on(values, before, n, h),
        bridge::performed(native, values, before, after, reply),
    ensures
        native == Native::IsValid ==> after == before && reply == Reply::Flag(true),
        native == Native::GetName ==> after == before && (reply matches Reply::Text(name) && name@
            == node(before, h).name@),
        native == Native::GetVisible ==> after == before && reply == Reply::Flag(
            node(before, h).visible,
        ),
        native == Native::GetGlobalPosition ==> after == before && (reply matches Reply::Triple(v)
            && v.x == node(before, h).global_transform.w_axis.x && v.y == node(
            before,
            h,
        ).global_transform.w_axis.y && v.z == node(before, h).global_transform.w_axis.z),
        native == Native::GetLinvel ==> after == before && (reply matches Reply::Triple(v) && match node(
            before,
            h,
        ).rigid_body {
            Some(body) => v.x == body.linvel.x && v.y == body.linvel.y && v.z == body.linvel.z,
            None => v.x.bits == 0 && v.y.bits == 0 && v.z.bits == 0,
        }),
        native == Native::IsAnimationPlaying ==> after == before && reply == Reply::Flag(
            node(before, h).animator is Some && node(before, h).animator->0.running,
        ),
        native == Native::ParticleCount ==> after == before && (reply matches Reply::Count(count)
            && match node(before, h).particles {
            Some(system) => count == system.alive,
            None => count == 0,
        }),
{
}

/// One number of a node's position or scale: the second argument is 1 for the scale, the third 1 for
/// y and 2 for z.
pub open spec fn part_of(transform: Transform, field: Double, axis: Double) -> Real {
    let vector = if field.finite() && !field.below_zero() && field.whole() == 1 {
        transform.scale
    } else {
        transform.position
    };
    if axis.finite() && !axis.below_zero() && axis.whole() == 1 {
        vector.y
    } else if axis.finite() && !axis.below_zero() && axis.whole() == 2 {
        vector.z
    } else {
        vector.x
    }
}

/// Two places in a transform are the same.
pub open spec fn same_part(field: Double, axis: Double, other_field: Double, other_axis: Double) -> bool {
    let number = |it: Double|
        if it.finite() && !it.below_zero() {
            it.whole() as int
        } else {
            -1
        };
    &&& (number(field) == 1) == (number(other_field) == 1)
    &&& (number(axis) == 1) == (number(other_axis) == 1)
    &&& (number(axis) == 2) == (number(other_axis) == 2)
}

/// One number of a node's place is told as it is.
pub proof fn lemma_component_is_told(
    native: Native,
    values: Seq<Value>,
    before: Host,
    after: Host,
    reply: Reply,
    n: int,
    h: Handle,
)
    requires
        calls_on(values, before, n, h),
        bridge::performed(native, values, before, after, reply),
        native == Native::GetComponent,
        values.len() == 3,
        values[1] is Number,
        values[2] is Number,
    ensures
        after == before,
        reply == Reply::Number(
            part_of(node(before, h).transform, values[1]->Number_0, values[2]->Number_0),
        ),
{
}

/// A finite number that is written is what is read there since; all other numbers of the node's
/// place, and its rotation, are as before.
pub proof fn lemma_component_is_written(
    native: Native,
    values: Seq<Value>,
    before: Host,
    after: Host,
    reply: Reply,
    n: int,
    h: Handle,
)
    requires
        calls_on(values, before, n, h),
        bridge::performed(native, values, before, after, reply),
        native == Native::SetComponent,
        values.len() == 4,
        values[1] is Number,
        values[2] is Number,
        values[3] is Single,
        values[3]->Single_0.finite(),
    ensures
        reply is Nothing,
        only_changes(before, after, h, Aspect::Place),
        part_of(node(after, h).transform, values[1]->Number_0, values[2]->Number_0)
            == values[3]->Single_0,
        node(after, h).transform.rotation == node(before, h).transform.rotation,
        forall|field: Double, axis: Double|
            !same_part(field, axis, values[1]->Number_0, values[2]->Number_0) ==> #[trigger] part_of(
                node(after, h).transform,
                field,
                axis,
            ) == part_of(node(before, h).transform, field, axis),
{
    assert(after.scene->0.nodes@.dom() =~= before.scene->0.nodes@.dom());
}

/// A position or scale of finite numbers that is written is the node's since, each number in its
/// place; the other one and the rotation are as before.
pub proof fn lemma_vector_is_written(
    native: Native,
    values: Seq<Value>,
    before: Host,
    after: Host,
    reply: Reply,
    n: int,
    h: Handle,
)
    requires
        calls_on(values, before, n, h),
        bridge::performed(native, values, before, after, reply),
        native == Native::SetVec,
        values.len() == 5,
        values[1] is Number,
        values[2] is Single,
        values[3] is Single,
        values[4] is Single,
        values[2]->Single_0.finite(),
        values[3]->Single_0.finite(),
        values[4]->Single_0.finite(),
    ensures
        reply is Nothing,
        only_changes(before, after, h, Aspect::Place),
        ({
            let field = values[1]->Number_0;
            let was = node(before, h).transform;
            let now = node(after, h).transform;
            let scales = field.finite() && !field.below_zero() && field.whole() == 1;
            let (told, kept, left) = if scales {
                (now.scale, now.position, was.position)
            } else {
                (now.position, now.scale, was.scale)
            };
            &&& told.x == values[2]->Single_0
            &&& told.y == values[3]->Single_0
            &&& told.z == values[4]->Single_0
            &&& kept == left
            &&& now.rotation == was.rotation
        }),
{
    assert(after.scene->0.nodes@.dom() =~= before.scene->0.nodes@.dom());
}

/// A node is shown or hidden as asked.
pub proof fn lemma_visibility_is_written(
    native: Native,
    values: Seq<Value>,
    before: Host,
    after: Host,
    reply: Reply,
    n: int,
    h: Handle,
)
    requires
        calls_on(values, before, n, h),
        bridge::performed(native, values, before, after, reply),
        native == Native::SetVisible,
        values.len() == 2,
        values[1] is Flag,
    ensures
        reply is Nothing,
        only_changes(before, after, h, Aspect::Visibility),
        node(after, h).visible == values[1]->Flag_0,
{
    assert(after.scene->0.nodes@.dom() =~= before.scene->0.nodes@.dom());
}

/// A push or a velocity of finite numbers waits at the node's body, behind what waits there already;
/// a node without a body is left alone.
pub proof fn lemma_push_waits_at_the_body(
    native: Native,
    values: Seq<Value>,
    before: Host,
    after: Host,
    reply: Reply,
    n: int,
    h: Handle,
)
    requires
        calls_on(values, before, n, h),
        bridge::performed(native, values, before, after, reply),
        native == Native::ApplyImpulse || native == Native::SetLinvel,
        values.len() == 4,
        values[1] is Single,
        values[2] is Single,
        values[3] is Single,
        values[1]->Single_0.finite(),
        values[2]->Single_0.finite(),
        values[3]->Single_0.finite(),
    ensures
        reply is Nothing,
        node(before, h).rigid_body is None ==> after == before,
        node(before, h).rigid_body is Some ==> {
            let was = node(before, h).rigid_body->0;
            let now = node(after, h).rigid_body->0;
            &&& only_changes(before, after, h, Aspect::Body)
            &&& node(after, h).rigid_body is Some
            &&& now.desc == was.desc
            &&& now.native == was.native
            &&& now.desc_dirty == was.desc_dirty
            &&& now.linvel == was.linvel
            &&& now.angvel == was.angvel
            &&& now.actions@.len() == was.actions@.len() + 1
            &&& forall|i: int|
                0 <= i < was.actions@.len() ==> #[trigger] now.actions@[i] == was.actions@[i]
            &&& native == Native::ApplyImpulse ==> (
            now.actions@[was.actions@.len() as int] matches BodyAction::ApplyImpulse(v) && v.x
                == values[1]->Single_0 && v.y == values[2]->Single_0 && v.z == values[3]->Single_0)
            &&& native == Native::SetLinvel ==> (
            now.actions@[was.actions@.len() as int] matches BodyAction::SetLinvel(v) && v.x
                == values[1]->Single_0 && v.y == values[2]->Single_0 && v.z == values[3]->Single_0)
        },
{
    if node(before, h).rigid_body is Some {
        assert(after.scene->0.nodes@.dom() =~= before.scene->0.nodes@.dom());
    }
}

/// Everything that is wanted of two sounds is the same, but perhaps what they are meant to do.
pub open spec fn same_settings(a: SoundSource, b: SoundSource) -> bool {
    &&& a.buffer == b.buffer
    &&& a.spatial == b.spatial
    &&& a.autoplay == b.autoplay
}

/// The number itself if it is at least `least`, and `least` if it is less or no number.
pub open spec fn at_least(asked: Real, least: Real, got: Real) -> bool {
    if asked.nan() || asked.less(least) {
        got == least
    } else {
        got == asked
    }
}

/// What is asked of a sound is what is wanted of it since, and nothing else of it changes: playing
/// starts it anew, with its voice given up; stopping keeps the voice; gain is never below zero and
/// pitch never below a hundredth. A node without a sound is left alone.
pub proof fn lemma_sound_does_as_asked(
    native: Native,
    values: Seq<Value>,
    before: Host,
    after: Host,
    reply: Reply,
    n: int,
    h: Handle,
)
    requires
        calls_on(values, before, n, h),
        bridge::performed(native, values, before, after, reply),
        native == Native::PlaySound || native == Native::StopSound || native
            == Native::SetSoundGain || native == Native::SetSoundPitch || native
            == Native::SetSoundLooping,
        native == Native::SetSoundGain || native == Native::SetSoundPitch ==> values.len() == 2
            && values[1] is Single,
        native == Native::SetSoundLooping ==> values.len() == 2 && values[1] is Flag,
    ensures
        reply is Nothing,
        node(before, h).sound is None ==> after == before,
        node(before, h).sound is Some ==> {
            let was = node(before, h).sound->0;
            let now = node(after, h).sound->0;
            &&& only_changes(before, after, h, Aspect::Sound)
            &&& node(after, h).sound is Some
            &&& same_settings(now, was)
            &&& native == Native::SetSoundGain ==> at_least(
                values[1]->Single_0,
                Real { bits: 0 },
                now.gain,
            )
            &&& native != Native::SetSoundGain ==> now.gain == was.gain
            &&& native == Native::SetSoundPitch ==> at_least(
                values[1]->Single_0,
                Real { bits: 0x3c23_d70a },
                now.pitch,
            )
            &&& native != Native::SetSoundPitch ==> now.pitch == was.pitch
            &&& native == Native::SetSoundLooping ==> now.looping == values[1]->Flag_0
            &&& native != Native::SetSoundLooping ==> now.looping == was.looping
            &&& native == Native::PlaySound ==> {
                &&& now.desired == Status::Playing
                &&& !now.finished
                &&& now.native is None
                &&& was.native is Some ==> now.outgoing == was.native
                &&& was.native is None ==> now.outgoing == was.outgoing
            }
            &&& native == Native::StopSound ==> now.desired == Status::Stopped
            &&& native != Native::PlaySound ==> {
                &&& now.finished == was.finished
                &&& now.native == was.native
                &&& now.outgoing == was.outgoing
            }
            &&& native != Native::PlaySound && native != Native::StopSound ==> now.desired
                == was.desired
        },
{
    if node(before, h).sound is Some {
        assert(after.scene->0.nodes@.dom() =~= before.scene->0.nodes@.dom());
    }
}

/// What is asked of a player is what it does since, and nothing else of it changes. A node without a
/// player is left alone. An animation is started exactly if the player knows its name, and the
/// script is told so.
pub proof fn lemma_player_does_as_asked(
    native: Native,
    values: Seq<Value>,
    before: Host,
    after: Host,
    reply: Reply,
    n: int,
    h: Handle,
)
    requires
        calls_on(values, before, n, h),
        bridge::performed(native, values, before, after, reply),
        native == Native::SetAnimationPlaying || native == Native::SetAnimationSpeed || native
            == Native::PlayAnimation,
        values.len() == 2,
        native == Native::SetAnimationPlaying ==> values[1] is Flag,
        native == Native::SetAnimationSpeed ==> values[1] is Single,
        native == Native::PlayAnimation ==> values[1] is Text,
    ensures
        native != Native::PlayAnimation ==> reply is Nothing,
        node(before, h).animator is None ==> after == before,
        native == Native::PlayAnimation && node(before, h).animator is None ==> reply
            == Reply::Flag(false),
        node(before, h).animator is Some ==> {
            let was = node(before, h).animator->0;
            let now = node(after, h).animator->0;
            &&& only_changes(before, after, h, Aspect::Player)
            &&& node(after, h).animator is Some
            &&& now.clips == was.clips
            &&& now.targets == was.targets
            &&& now.pose == was.pose
            &&& now.morphs == was.morphs
            &&& native == Native::SetAnimationPlaying ==> now.running == values[1]->Flag_0
            &&& native != Native::SetAnimationPlaying ==> now.running == was.running
            &&& native == Native::SetAnimationSpeed ==> now.speed == values[1]->Single_0
            &&& native != Native::SetAnimationSpeed ==> now.speed == was.speed
            &&& native != Native::PlayAnimation ==> now.playing == was.playing
            &&& native == Native::PlayAnimation ==> {
                let name = values[1]->Text_0@;
                let known = exists|j: int|
                    0 <= j < was.clips@.len() && (#[trigger] was.clips@[j])@ == name;
                &&& reply == Reply::Flag(known)
                &&& !known ==> after == before
                &&& known ==> {
                    &&& now.playing@.len() == was.playing@.len() + 1
                    &&& now.playing@.drop_last() == was.playing@
                    &&& now.playing@.last() < was.clips@.len()
                    &&& was.clips@[now.playing@.last() as int]@ == name
                    &&& forall|j: int|
                        0 <= j < now.playing@.last() ==> (#[trigger] was.clips@[j])@ != name
                }
            }
        },
{
    if node(before, h).animator is Some {
        assert(after.scene->0.nodes@.dom() =~= before.scene->0.nodes@.dom());
        if native == Native::PlayAnimation && reply == Reply::Flag(true) {
            let was = node(before, h).animator->0;
            let now = node(after, h).animator->0;
            assert(now.playing@.drop_last() =~= was.playing@);
        }
    }
}

/// What is asked of a node's particles is what they do since, and nothing else of them changes. The
/// rate is never below zero. A node without particles is left alone.
pub proof fn lemma_particles_do_as_asked(
    native: Native,
    values: Seq<Value>,
    before: Host,
    after: Host,
    reply: Reply,
    n: int,
    h: Handle,
)
    requires
        calls_on(values, before, n, h),
        bridge::performed(native, values, before, after, reply),
        native == Native::SetParticlesPlaying || native == Native::SetEmissionRate,
        values.len() == 2,
        native == Native::SetParticlesPlaying ==> values[1] is Flag,
        native == Native::SetEmissionRate ==> values[1] is Single,
    ensures
        reply is Nothing,
        node(before, h).particles is None ==> after == before,
        node(before, h).particles is Some ==> {
            let was = node(before, h).particles->0;
            let now = node(after, h).particles->0;
            &&& only_changes(before, after, h, Aspect::Particles)
            &&& node(after, h).particles is Some
            &&& now.alive == was.alive
            &&& now.scene_collision == was.scene_collision
            &&& native == Native::SetParticlesPlaying ==> now.playing == values[1]->Flag_0 && now.rate
                == was.rate
            &&& native == Native::SetEmissionRate ==> now.playing == was.playing && at_least(
                values[1]->Single_0,
                Real { bits: 0 },
                now.rate,
            )
        },
{
    if node(before, h).particles is Some {
        assert(after.scene->0.nodes@.dom() =~= before.scene->0.nodes@.dom());
    }
}

/// A node that a script frees is gone from the scene, with everything under it, and nothing of the
/// host changes but the scene.
pub proof fn lemma_free_takes_the_node_out(
    native: Native,
    values: Seq<Value>,
    before: Host,
    after: Host,
    reply: Reply,
    n: int,
    h: Handle,
)
    requires
        calls_on(values, before, n, h),
        bridge::performed(native, values, before, after, reply),
        native == Native::QueueFree,
        before.wf(),
        h != before.scene->0.root,
    ensures
        reply is Nothing,
        after.scene is Some,
        !after.scene->0.nodes@.contains_key(h),
        after.registry == before.registry,
        after.input == before.input,
        after.current == before.current,
        after.spawned == before.spawned,
        after.signals == before.signals,
        after.dt == before.dt,
        after.elapsed == before.elapsed,
{
    let scene = after.scene->0;
    if scene.nodes@.contains_key(h) {
        assert(scene.tree().contains_key(h));
        crate::tree::lemma_below_self(before.scene->0.tree(), before.scene->0.root, h);
    }
}

/// The time and the length of the frame are told as they are, each where it is asked for.
pub proof fn lemma_time_is_told(values: Seq<Value>, before: Host, after: Host, reply: Reply)
    ensures
        bridge::performed(Native::Time, values, before, after, reply) ==> after == before && reply
            == Reply::Number(before.elapsed),
        bridge::performed(Native::Delta, values, before, after, reply) ==> after == before && reply
            == Reply::Number(before.dt),
{
}

/// The action at a place is the first of its name.
pub open spec fn first_action(input: Input, place: int, name: Seq<char>) -> bool {
    &&& 0 <= place < input.actions@.len()
    &&& input.actions@[place].name@ == name
    &&& forall|j: int| 0 <= j < place ==> (#[trigger] input.actions@[j]).name@ != name
}

proof fn lemma_action_place(actions: Seq<ActionState>, name: Seq<char>, place: int)
    requires
        0 <= place < actions.len(),
        actions[place].name@ == name,
        forall|j: int| 0 <= j < place ==> (#[trigger] actions[j]).name@ != name,
    ensures
        Input::action_place(actions, name) == place,
    decreases actions.len(),
{
    if place > 0 {
        let rest = actions.drop_first();
        assert(actions[0].name@ != name);
        assert(rest[place - 1] == actions[place]);
        assert forall|j: int| 0 <= j < place - 1 implies (#[trigger] rest[j]).name@ != name by {
            assert(rest[j] == actions[j + 1]);
        }
        lemma_action_place(rest, name, place - 1);
    }
}

proof fn lemma_no_action_place(actions: Seq<ActionState>, name: Seq<char>)
    requires
        forall|j: int| 0 <= j < actions.len() ==> (#[trigger] actions[j]).name@ != name,
    ensures
        Input::action_place(actions, name) == actions.len(),
    decreases actions.len(),
{
    if actions.len() > 0 {
        let rest = actions.drop_first();
        assert(actions[0].name@ != name);
        assert forall|j: int| 0 <= j < rest.len() implies (#[trigger] rest[j]).name@ != name by {
            assert(rest[j] == actions[j + 1]);
        }
        lemma_no_action_place(rest, name);
    }
}

/// A script that asks for an action is told of the first one of that name: whether it is pressed,
/// whether it was pressed only now, or whether it was let go only now, as it asked.
pub proof fn lemma_action_is_told(
    native: Native,
    values: Seq<Value>,
    before: Host,
    after: Host,
    reply: Reply,
    place: int,
)
    requires
        values.len() == 1,
        values[0] is Text,
        before.input is Some,
        first_action(before.input->0, place, values[0]->Text_0@),
        bridge::performed(native, values, before, after, reply),
    ensures
        ({
            let state = before.input->0.actions@[place];
            &&& native == Native::ActionPressed ==> after == before && reply == Reply::Flag(
                state.pressed,
            )
            &&& native == Native::ActionJustPressed ==> after == before && reply == Reply::Flag(
                state.just_pressed,
            )
            &&& native == Native::ActionJustReleased ==> after == before && reply == Reply::Flag(
                state.just_released,
            )
        }),
{
    lemma_action_place(before.input->0.actions@, values[0]->Text_0@, place);
}

/// Of an action that there is not a script is told that it is neither pressed nor was let go.
pub proof fn lemma_unknown_action_is_idle(
    native: Native,
    values: Seq<Value>,
    before: Host,
    after: Host,
    reply: Reply,
)
    requires
        values.len() == 1,
        values[0] is Text,
        before.input is None || forall|j: int|
            0 <= j < before.input->0.actions@.len() ==> (
            #[trigger] before.input->0.actions@[j]).name@ != values[0]->Text_0@,
        native == Native::ActionPressed || native == Native::ActionJustPressed || native
            == Native::ActionJustReleased,
        bridge::performed(native, values, before, after, reply),
    ensures
        after == before,
        reply == Reply::Flag(false),
{
    if before.input is Some {
        lemma_no_action_place(before.input->0.actions@, values[0]->Text_0@);
    }
}

proof fn lemma_axis_place(axes: Seq<AxisState>, name: Seq<char>, place: int)
    requires
        0 <= place <= axes.len(),
        place < axes.len() ==> axes[place].name@ == name,
        forall|j: int| 0 <= j < place ==> (#[trigger] axes[j]).name@ != name,
    ensures
        Input::axis_place(axes, name) == place,
    decreases axes.len(),
{
    if place > 0 {
        let rest = axes.drop_first();
        assert(axes[0].name@ != name);
        if place < axes.len() {
            assert(rest[place - 1] == axes[place]);
        }
        assert forall|j: int| 0 <= j < place - 1 implies (#[trigger] rest[j]).name@ != name by {
            assert(rest[j] == axes[j + 1]);
        }
        lemma_axis_place(rest, name, place - 1);
    }
}

/// A script that asks for an axis is told how far the first one of that name is pushed, or zero if
/// there is none.
pub proof fn lemma_axis_is_told(
    values: Seq<Value>,
    before: Host,
    after: Host,
    reply: Reply,
    place: int,
)
    requires
        values.len() == 1,
        values[0] is Text,
        before.input is Some,
        0 <= place <= before.input->0.axes@.len(),
        place < before.input->0.axes@.len() ==> before.input->0.axes@[place].name@
            == values[0]->Text_0@,
        forall|j: int|
            0 <= j < place ==> (#[trigger] before.input->0.axes@[j]).name@ != values[0]->Text_0@,
        bridge::performed(Native::Axis, values, before, after, reply),
    ensures
        after == before,
        reply matches Reply::Number(value) && if place < before.input->0.axes@.len() {
            value == before.input->0.axes@[place].value
        } else {
            value.bits == 0
        },
{
    lemma_axis_place(before.input->0.axes@, values[0]->Text_0@, place);
}

/// The mouse is told as it is: each button under its own name, however that is written, where the
/// cursor is, how far it was moved, and how far the wheel was turned.
pub proof fn lemma_mouse_is_told(
    native: Native,
    values: Seq<Value>,
    before: Host,
    after: Host,
    reply: Reply,
)
    requires
        before.input is Some,
        bridge::performed(native, values, before, after, reply),
    ensures
        native == Native::MousePosition ==> after == before && match before.input->0.cursor {
            Some(place) => reply matches Reply::Pair(told) && told.x == place.x && told.y == place.y,
            None => reply is Null,
        },
        native == Native::MouseDelta ==> after == before && (reply matches Reply::Pair(told)
            && told.x == before.input->0.moved.x && told.y == before.input->0.moved.y),
        native == Native::ScrollDelta ==> after == before && (reply matches Reply::Pair(told)
            && told.x == before.input->0.scrolled.x && told.y == before.input->0.scrolled.y),
        (native == Native::MousePressed || native == Native::MouseJustPressed) && values.len() == 1
            && values[0] is Text ==> {
            let name = values[0]->Text_0@;
            let input = before.input->0;
            let asked = |button: ButtonState|
                if native == Native::MousePressed {
                    button.pressed
                } else {
                    button.just_pressed
                };
            &&& after == before
            &&& spells(name, "left"@) ==> reply == Reply::Flag(asked(input.left))
            &&& spells(name, "right"@) ==> reply == Reply::Flag(asked(input.right))
            &&& spells(name, "middle"@) ==> reply == Reply::Flag(asked(input.middle))
            &&& !spells(name, "left"@) && !spells(name, "right"@) && !spells(name, "middle"@)
                ==> reply == Reply::Flag(false)
        },
{
    reveal_strlit("left");
    reveal_strlit("right");
    reveal_strlit("middle");
    if values.len() == 1 && values[0] is Text {
        let name = values[0]->Text_0@;
        lemma_spells(name, "left"@);
        lemma_spells(name, "right"@);
        lemma_spells(name, "middle"@);
        assert("left"@.len() == 4 && "right"@.len() == 5 && "middle"@.len() == 6);
    }
}

/// A text is a word, but perhaps for capital letters.
pub open spec fn spells(text: Seq<char>, word: Seq<char>) -> bool {
    &&& text.len() == word.len()
    &&& forall|i: int|
        0 <= i < word.len() ==> #[trigger] text[i] == word[i] || ('A' <= text[i] <= 'Z' && text[i] as u32
            + 32 == word[i] as u32)
}

proof fn lemma_spells(text: Seq<char>, word: Seq<char>)
    requires
        forall|i: int| 0 <= i < word.len() ==> 'a' <= #[trigger] word[i] <= 'z',
    ensures
        spells(text, word) <==> crate::script::input::lowered(text) == word,
{
    let low = crate::script::input::lowered(text);
    if spells(text, word) {
        assert forall|i: int| 0 <= i < word.len() implies low[i] == word[i] by {
            assert(text[i] == word[i] || ('A' <= text[i] <= 'Z' && text[i] as u32 + 32
                == word[i] as u32));
        }
        assert(low =~= word);
    }
    if low == word {
        assert forall|i: int| 0 <= i < word.len() implies #[trigger] text[i] == word[i] || ('A'
            <= text[i] <= 'Z' && text[i] as u32 + 32 == word[i] as u32) by {
            assert(low[i] == word[i]);
        }
    }
}

/// A message is sent with the name and the number that the script gives, in the name of its node,
/// behind those that were sent before, unless there are too many; nothing else changes.
pub proof fn lemma_message_is_sent(values: Seq<Value>, before: Host, after: Host, reply: Reply)
    requires
        values.len() == 2,
        values[0] is Text,
        values[1] is Number,
        bridge::performed(Native::Emit, values, before, after, reply),
    ensures
        reply is Nothing,
        after.scene == before.scene,
        after.input == before.input,
        after.registry == before.registry,
        after.current == before.current,
        after.spawned == before.spawned,
        before.signals@.len() < 4096 ==> {
            &&& after.signals@.len() == before.signals@.len() + 1
            &&& forall|i: int|
                0 <= i < before.signals@.len() ==> #[trigger] after.signals@[i] == before.signals@[i]
            &&& after.signals@[before.signals@.len() as int].name@ == values[0]->Text_0@
            &&& after.signals@[before.signals@.len() as int].value == values[1]->Number_0
            &&& after.signals@[before.signals@.len() as int].source == before.current
        },
        before.signals@.len() >= 4096 ==> after.signals@ == before.signals@,
{
    if before.signals@.len() < 4096 {
        assert forall|i: int| 0 <= i < before.signals@.len() implies #[trigger] after.signals@[i]
            == before.signals@[i] by {
            assert(after.signals@.drop_last()[i] == before.signals@[i]);
        }
    }
}

/// A number that a script is given for a node is one that it can use: it stands for that node, and
/// the numbers that were given out before stand for what they stood for.
pub proof fn lemma_number_is_given(before: Host, after: Host, h: Handle, id: Double)
    requires
        after.introduces(before, h, id),
        before.registry@.contains(h) || before.registry@.len() < 0xffff_ffff,
    ensures
        after.registry@.contains(h),
        id.finite() && !id.below_zero() && id.whole() < after.registry@.len(),
        after.registry@[id.whole() as int] == h,
        id.exactly(id.whole() as u32),
        forall|i: int|
            0 <= i < before.registry@.len() ==> #[trigger] after.registry@[i] == before.registry@[i],
        after.scene == before.scene,
        after.input == before.input,
        after.current == before.current,
        after.signals == before.signals,
        after.spawned == before.spawned,
{
    if !before.registry@.contains(h) {
        assert(after.registry@[before.registry@.len() as int] == h);
    }
}

/// The node at a place of the order of slots is the first of a name.
pub open spec fn first_named(scene: Scene, k: int, name: Seq<char>) -> bool {
    &&& 0 <= k < scene.nodes.order().len()
    &&& scene.nodes@.contains_key(scene.nodes.order()[k])
    &&& scene.nodes@[scene.nodes.order()[k]].name@ == name
    &&& forall|j: int|
        0 <= j < k ==> scene.nodes@[#[trigger] scene.nodes.order()[j]].name@ != name
}

/// A script that asks who it is on is given the number of its node, and one that looks for a name
/// that of the first node of that name, in the order of the slots.
pub proof fn lemma_nodes_are_named(
    native: Native,
    values: Seq<Value>,
    before: Host,
    after: Host,
    reply: Reply,
)
    requires
        bridge::performed(native, values, before, after, reply),
    ensures
        native == Native::SelfId ==> (reply matches Reply::Id(id) && after.introduces(
            before,
            before.current,
            id,
        )),
        native == Native::Find && values.len() == 1 && values[0] is Text && before.scene is Some
            ==> forall|k: int| #[trigger]
            first_named(before.scene->0, k, values[0]->Text_0@) ==> (reply matches Reply::Id(id)
                && after.introduces(before, before.scene->0.nodes.order()[k], id)),
{
    if native == Native::Find && values.len() == 1 && values[0] is Text && before.scene is Some {
        let scene = before.scene->0;
        let order = scene.nodes.order();
        let name = values[0]->Text_0@;
        assert forall|k: int| #[trigger] first_named(scene, k, name) implies (reply matches Reply::Id(
            id,
        ) && after.introduces(before, order[k], id)) by {
            let id = reply->Id_0;
            let found = choose|found: Option<Handle>|
                {
                    &&& #[trigger] scene.finds(name, found)
                    &&& match found {
                        Some(h) => after.introduces(before, h, id),
                        None => id == Double::minus_one() && after == before,
                    }
                };
            assert(found is Some);
            let m = choose|m: int|
                {
                    &&& 0 <= m < order.len()
                    &&& #[trigger] order[m] == found->0
                    &&& scene.nodes@[found->0].name@ == name
                    &&& forall|j: int| 0 <= j < m ==> scene.nodes@[#[trigger] order[j]].name@ != name
                };
            if m < k {
                assert(scene.nodes@[order[m]].name@ != name);
            }
            if k < m {
                assert(scene.nodes@[order[k]].name@ != name);
            }
        }
    }
}

/// Scripts know each function under its own name.
pub proof fn lemma_functions_have_their_names(native: Native)
    ensures
        match native {
            Native::Time => native.named() == "time"@,
            Native::Delta => native.named() == "delta"@,
            Native::SelfId => native.named() == "selfId"@,
            Native::Find => native.named() == "find"@,
            Native::IsValid => native.named() == "isValid"@,
            Native::GetName => native.named() == "getName"@,
            Native::GetComponent => native.named() == "getComponent"@,
            Native::SetComponent => native.named() == "setComponent"@,
            Native::SetVec => native.named() == "setVec"@,
            Native::GetGlobalPosition => native.named() == "getGlobalPosition"@,
            Native::GetVisible => native.named() == "getVisible"@,
            Native::SetVisible => native.named() == "setVisible"@,
            Native::GetLinvel => native.named() == "getLinvel"@,
            Native::ApplyImpulse => native.named() == "applyImpulse"@,
            Native::SetLinvel => native.named() == "setLinvel"@,
            Native::PlaySound => native.named() == "playSound"@,
            Native::PlayAnimation => native.named() == "playAnimation"@,
            Native::SetAnimationPlaying => native.named() == "setAnimationPlaying"@,
            Native::SetAnimationSpeed => native.named() == "setAnimationSpeed"@,
            Native::IsAnimationPlaying => native.named() == "isAnimationPlaying"@,
            Native::SetParticlesPlaying => native.named() == "setParticlesPlaying"@,
            Native::SetEmissionRate => native.named() == "setEmissionRate"@,
            Native::ParticleCount => native.named() == "particleCount"@,
            Native::StopSound => native.named() == "stopSound"@,
            Native::SetSoundGain => native.named() == "setSoundGain"@,
            Native::SetSoundPitch => native.named() == "setSoundPitch"@,
            Native::SetSoundLooping => native.named() == "setSoundLooping"@,
            Native::QueueFree => native.named() == "queueFree"@,
            Native::ActionPressed => native.named() == "actionPressed"@,
            Native::ActionJustPressed => native.named() == "actionJustPressed"@,
            Native::ActionJustReleased => native.named() == "actionJustReleased"@,
            Native::Axis => native.named() == "axis"@,
            Native::MousePressed => native.named() == "mousePressed"@,
            Native::MouseJustPressed => native.named() == "mouseJustPressed"@,
            Native::MousePosition => native.named() == "mousePosition"@,
            Native::MouseDelta => native.named() == "mouseDelta"@,
            Native::ScrollDelta => native.named() == "scrollDelta"@,
            Native::Emit => native.named() == "emit"@,
        },
{
}

/// Every function takes as many arguments as it has use for: the node comes first, as a number, then
/// what it is asked for.
pub proof fn lemma_functions_take_their_arguments(native: Native)
    ensures
        native.wants().len() == match native {
            Native::SetVec => 5nat,
            Native::SetComponent | Native::ApplyImpulse | Native::SetLinvel => 4,
            Native::GetComponent => 3,
            Native::SetVisible
            | Native::SetAnimationPlaying
            | Native::SetParticlesPlaying
            | Native::SetSoundLooping
            | Native::PlayAnimation
            | Native::SetAnimationSpeed
            | Native::SetEmissionRate
            | Native::SetSoundGain
            | Native::SetSoundPitch
            | Native::Emit => 2,
            Native::Time
            | Native::Delta
            | Native::SelfId
            | Native::MousePosition
            | Native::MouseDelta
            | Native::ScrollDelta => 0,
            _ => 1,
        },
        native.wants().len() > 0 ==> native.wants()[0] == match native {
            Native::Find
            | Native::ActionPressed
            | Native::ActionJustPressed
            | Native::ActionJustReleased
            | Native::Axis
            | Native::MousePressed
            | Native::MouseJustPressed
            | Native::Emit => Kind::Text,
            _ => Kind::Number,
        },
        forall|i: int|
            0 < i < native.wants().len() ==> #[trigger] native.wants()[i] == match native {
                Native::SetComponent => if i == 3 {
                    Kind::Single
                } else {
                    Kind::Number
                },
                Native::GetComponent | Native::Emit => Kind::Number,
                Native::SetVec => if i == 1 {
                    Kind::Number
                } else {
                    Kind::Single
                },
                Native::SetVisible
                | Native::SetAnimationPlaying
                | Native::SetParticlesPlaying
                | Native::SetSoundLooping => Kind::Flag,
                Native::PlayAnimation => Kind::Name,
                _ => Kind::Single,
            },
{
}

/// While no script runs there is nothing to be had: numbers are zero, nodes -1, questions false, names
/// and the cursor null, and whatever writes gives nothing.
pub proof fn lemma_nothing_is_had_without_a_host(native: Native)
    ensures
        native == Native::Time || native == Native::Delta || native == Native::GetComponent || native
            == Native::Axis ==> bridge::absence(native) == Reply::Number(Real { bits: 0 }),
        native == Native::SelfId || native == Native::Find ==> bridge::absence(native) == Reply::Id(
            Double { bits: 0xbff0_0000_0000_0000 },
        ),
        native == Native::GetName || native == Native::MousePosition ==> bridge::absence(native)
            is Null,
        native == Native::IsValid || native == Native::GetVisible || native == Native::PlayAnimation
            || native == Native::IsAnimationPlaying || native == Native::ActionPressed || native
            == Native::ActionJustPressed || native == Native::ActionJustReleased || native
            == Native::MousePressed || native == Native::MouseJustPressed ==> bridge::absence(
            native,
        ) == Reply::Flag(false),
        native == Native::ParticleCount ==> bridge::absence(native) == Reply::Count(0),
        native == Native::GetGlobalPosition || native == Native::GetLinvel ==> (bridge::absence(
            native,
        ) matches Reply::Triple(v) && v.x.bits == 0 && v.y.bits == 0 && v.z.bits == 0),
        native == Native::MouseDelta || native == Native::ScrollDelta ==> (bridge::absence(
            native,
        ) matches Reply::Pair(v) && v.x.bits == 0 && v.y.bits == 0),
        bridge::only_writes(native) ==> bridge::absence(native) is Nothing,
{
}

/// What a function gave back is what the script gets: a flag as that flag, a text as that text, a count
/// or the number of a node as that integer, null as null and nothing as undefined.
pub proof fn lemma_reply_reaches_the_script(
    reply: Reply,
    before: Context,
    after: Context,
    value: JsValue,
    n: u32,
)
    requires
        bridge::encoded(reply, before, after, value),
        n < 0xffff_ffff,
    ensures
        reply matches Reply::Flag(flag) ==> value == engine::js_flag(flag) && after == before,
        reply matches Reply::Text(text) ==> value == engine::js_text(text@) && after == before,
        reply matches Reply::Count(count) ==> value == engine::js_integer(count) && after == before,
        reply is Null ==> engine::js_is_null(value) && after == before,
        reply is Nothing ==> engine::js_is_undefined(value) && after == before,
        reply matches Reply::Id(id) && id.exactly(n) ==> value == engine::js_integer(n) && after
            == before,
{
    if let Reply::Id(id) = reply {
        if id.exactly(n) {
            id.lemma_exact_counts(n);
        }
    }
}

/// Numbers reach the script as they are, and vectors as arrays of theirs: x first, then y, then z.
pub proof fn lemma_numbers_reach_the_script(
    reply: Reply,
    before: Context,
    after: Context,
    value: JsValue,
)
    requires
        bridge::encoded(reply, before, after, value),
    ensures
        reply matches Reply::Number(number) ==> value == engine::js_real(number.bits)
            || engine::js_is_undefined(value),
        reply matches Reply::Triple(v) ==> exists|items: Seq<JsValue>, last: Context|
            {
                &&& #[trigger] engine::may_make_array(last, items, after, value)
                &&& items.len() == 3
                &&& items[0] == engine::js_real(v.x.bits) || engine::js_is_undefined(items[0])
                &&& items[1] == engine::js_real(v.y.bits) || engine::js_is_undefined(items[1])
                &&& items[2] == engine::js_real(v.z.bits) || engine::js_is_undefined(items[2])
            },
        reply matches Reply::Pair(v) ==> exists|items: Seq<JsValue>, last: Context|
            {
                &&& #[trigger] engine::may_make_array(last, items, after, value)
                &&& items.len() == 2
                &&& items[0] == engine::js_real(v.x.bits) || engine::js_is_undefined(items[0])
                &&& items[1] == engine::js_real(v.y.bits) || engine::js_is_undefined(items[1])
            },
{
    if let Reply::Triple(v) = reply {
        let numbers = seq![v.x, v.y, v.z];
        let (steps, items) = choose|steps: Seq<Context>, items: Seq<JsValue>|
            {
                &&& #[trigger] bridge::made_numbers(numbers, steps, items)
                &&& steps[0] == before
                &&& engine::may_make_array(steps.last(), items, after, value)
            };
        assert(bridge::made_number(steps[0], v.x, steps[1], items[0]));
        assert(bridge::made_number(steps[1], v.y, steps[2], items[1]));
        assert(bridge::made_number(steps[2], v.z, steps[3], items[2]));
        assert(engine::may_make_array(steps.last(), items, after, value));
    }
    if let Reply::Pair(v) = reply {
        let numbers = seq![v.x, v.y];
        let (steps, items) = choose|steps: Seq<Context>, items: Seq<JsValue>|
            {
                &&& #[trigger] bridge::made_numbers(numbers, steps, items)
                &&& steps[0] == before
                &&& engine::may_make_array(steps.last(), items, after, value)
            };
        assert(bridge::made_number(steps[0], v.x, steps[1], items[0]));
        assert(bridge::made_number(steps[1], v.y, steps[2], items[1]));
        assert(engine::may_make_array(steps.last(), items, after, value));
    }
}

/// A node that a script spawns is what its prototype makes, at the place that was asked for and
/// otherwise as made, under the root, with a number that stands for it; the budget of the frame is one
/// less.
pub proof fn lemma_spawned_node_is_put_there(
    before: Host,
    after: Host,
    h: Handle,
    scene: Scene,
    made: Node,
    position: Vec3,
    id: Double,
)
    requires
        after.hatched(before, h, scene, made, position, id),
        before.spawned < 1024,
        before.registry@.len() < 0xffff_ffff,
    ensures
        after.scene == Some(scene),
        scene.nodes@.contains_key(h),
        scene.nodes@[h].transform.position == position,
        scene.nodes@[h].transform.rotation == made.transform.rotation,
        scene.nodes@[h].transform.scale == made.transform.scale,
        scene.nodes@[h].name == made.name,
        scene.nodes@[h].mesh == made.mesh,
        scene.nodes@[h].rigid_body == made.rigid_body,
        scene.nodes@[h].script == made.script,
        scene.nodes@[h].parent == before.scene->0.root,
        after.spawned == before.spawned + 1,
        id.finite() && !id.below_zero() && id.whole() < after.registry@.len(),
        after.registry@[id.whole() as int] == h,
        after.signals == before.signals,
        after.current == before.current,
{
    let middle = Host { scene: Some(scene), spawned: (before.spawned + 1) as usize, ..before };
    lemma_number_is_given(middle, after, h, id);
    assert(scene.nodes@.dom().contains(h));
}

/// A script may spawn exactly if the place is finite, fewer than a thousand and twenty-four were
/// spawned in this frame, there is a prototype of the name, and the scene has room.
pub proof fn lemma_spawning_is_limited(host: Host, name: Seq<char>, position: Vec3)
    ensures
        host.may_spawn(name, position) <==> {
            &&& position.x.finite() && position.y.finite() && position.z.finite()
            &&& host.spawned < 1024
            &&& exists|i: int| 0 <= i < host.prototypes@.len() && host.prototypes@[i] == name
            &&& host.scene is Some
            &&& host.scene->0.nodes.capacity() < 0xffff_ffff
        },
{
}

/// A ray is said to have hit the node with the body, or, without one, that with the collider.
pub proof fn lemma_ray_names_the_body_first(hit: SceneRayHit)
    ensures
        hit.body_node is Some ==> Host::struck(hit) == hit.body_node,
        hit.body_node is None ==> Host::struck(hit) == hit.collider_node,
{
}

/// Every function is offered under its own name and with its own number of arguments.
pub proof fn lemma_function_is_offered_by_name(
    object: JsValue,
    steps: Seq<Context>,
    functions: Seq<JsValue>,
    done: Seq<bool>,
    native: Native,
)
    requires
        bridge::offered(object, steps, functions, done),
        functions.len() == Native::every().len(),
    ensures
        exists|i: int|
            {
                &&& 0 <= i < functions.len()
                &&& engine::may_make_function(
                    steps[i],
                    native,
                    native.named(),
                    native.wants().len() as usize,
                    #[trigger] functions[i],
                )
                &&& engine::may_define(
                    steps[i],
                    object,
                    native.named(),
                    functions[i],
                    false,
                    steps[i + 1],
                    done[i],
                )
            },
{
    bridge::lemma_every_function_is_offered(native);
    let all = Native::every();
    let i = choose|i: int| 0 <= i < all.len() && all[i] == native;
    assert(engine::may_make_function(
        steps[i],
        all[i],
        all[i].named(),
        all[i].wants().len() as usize,
        functions[i],
    ));
}

/// Arguments are taken from the left, each turned into what is wanted in its place; those beyond what
/// is wanted are not looked at.
pub proof fn lemma_arguments_are_read_in_their_places(
    native: Native,
    args: Seq<JsValue>,
    before: Context,
    after: Context,
    values: Vec<Value>,
    i: int,
)
    requires
        bridge::decoded(native, args, before, after, Ok(values)),
        0 <= i < args.len(),
        i < native.wants().len(),
    ensures
        i < values@.len(),
        values@.len() <= args.len(),
        values@.len() <= native.wants().len(),
        native.wants()[i] == Kind::Flag ==> values@[i] == Value::Flag(engine::js_truth(args[i])),
        native.wants()[i] == Kind::Number ==> exists|from: Context, to: Context, bits: u64|
            #[trigger] engine::may_count(from, args[i], to, Ok::<u64, JsError>(bits)) && values@[i]
                == Value::Number(Double { bits }),
        native.wants()[i] == Kind::Single ==> exists|from: Context, to: Context, bits: u32|
            #[trigger] engine::may_count_single(from, args[i], to, Ok::<u32, JsError>(bits))
                && values@[i] == Value::Single(Real { bits }),
        native.wants()[i] == Kind::Text ==> exists|from: Context, to: Context, text: String|
            #[trigger] engine::may_show(from, args[i], to, Ok::<String, JsError>(text)) && values@[i]
                == Value::Text(text),
        native.wants()[i] == Kind::Name ==> exists|from: Context, to: Context, text: String|
            #[trigger] engine::may_show_lossy(from, args[i], to, Ok::<String, JsError>(text))
                && values@[i] == Value::Text(text),
{
    let (steps, all) = choose|steps: Seq<Context>, all: Seq<Value>|
        {
            &&& #[trigger] bridge::read_so_far(native, args, steps, all)
            &&& steps[0] == before
            &&& values@ == all
            &&& all.len() == bridge::looked_at(native, args)
            &&& after == steps.last()
        };
    assert(bridge::read_as(
        steps[i],
        args[i],
        native.wants()[i],
        steps[i + 1],
        Ok::<Value, JsError>(all[i]),
    ));
}

/// The number of a node that is there.
pub open spec fn names_node(host: Host, id: Double, h: Handle) -> bool {
    &&& id.finite() && !id.below_zero() && id.whole() < host.registry@.len()
    &&& host.registry@[id.whole() as int] == h
    &&& host.scene is Some
    &&& host.scene->0.nodes@.contains_key(h)
}

/// A node that a script moves is where it was moved to, turned and scaled as it was; nothing else
/// changes.
pub proof fn lemma_moved_node_is_there(before: Host, after: Host, id: Double, h: Handle, position: Vec3)
    requires
        names_node(before, id, h),
        after.put_at(before, id, position),
    ensures
        only_changes(before, after, h, Aspect::Place),
        node(after, h).transform.position == position,
        node(after, h).transform.rotation == node(before, h).transform.rotation,
        node(after, h).transform.scale == node(before, h).transform.scale,
{
    assert(after.scene->0.nodes@.dom() =~= before.scene->0.nodes@.dom());
}

/// A node that a script turns is turned as asked, where it was and scaled as it was; nothing else
/// changes.
pub proof fn lemma_turned_node_is_turned(
    before: Host,
    after: Host,
    id: Double,
    h: Handle,
    rotation: Quat,
)
    requires
        names_node(before, id, h),
        after.turned_to(before, id, rotation),
    ensures
        only_changes(before, after, h, Aspect::Place),
        node(after, h).transform.rotation == rotation,
        node(after, h).transform.position == node(before, h).transform.position,
        node(after, h).transform.scale == node(before, h).transform.scale,
{
    assert(after.scene->0.nodes@.dom() =~= before.scene->0.nodes@.dom());
}

/// A script is told of a hit where it is, which way the surface faces and how far away it is, and the
/// number of the node that was hit: that with the body, where the body's word leads to a node that is
/// there.
pub proof fn lemma_hit_is_told_as_it_is(
    before: Host,
    after: Host,
    hit: RayHit,
    told: ScriptHit,
    h: Handle,
)
    requires
        after.hit_told(before, hit, told),
        before.scene is Some,
        before.registry@.len() < 0xffff_ffff,
        before.scene->0.nodes@.contains_key(h),
        hit.body_user_data == h.index + h.generation * 0x1_0000_0000,
    ensures
        told.point.x == hit.point.x,
        told.point.y == hit.point.y,
        told.point.z == hit.point.z,
        told.normal.x == hit.normal.x,
        told.normal.y == hit.normal.y,
        told.normal.z == hit.normal.z,
        told.distance == hit.distance,
        names_node(after, told.node, h),
        after.scene == before.scene,
{
    crate::scene::physics_laws::lemma_user_word_leads_back(
        &before.scene->0,
        h,
        hit.body_user_data,
    );
    lemma_number_is_given(before, after, h, told.node);
}

} // verus!
