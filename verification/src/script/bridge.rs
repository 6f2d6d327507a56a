//! The functions that the engine offers to scripts, and what each of them does.
//!
//! A call is taken apart before the host is touched: turning an argument into a text or a number
//! may run a script, which may call such a function in turn. What is left out is zero, the empty
//! text or `false`.

use crate::numbers::{Double, Real, Vec3};
use crate::pool::Handle;
use crate::scene::audio::{SoundSource, Status};
use crate::scene::components::ParticleSystem;
use crate::scene::node::Node;
use crate::scene::physics::BodyAction;
use crate::scene::skin::AnimationPlayer;
use crate::script::engine;
use crate::script::host;
use crate::script::host::{Host, Seat, MAX_SIGNALS};
use crate::script::input::{MouseButton, Vec2};
use boa_engine::{Context, JsError, JsValue};
use vstd::prelude::*;

verus! {

/// What a function does is said at the method of [`Host`] of that name.
#[derive(Debug, Clone, Copy, PartialEq, Eq, Structural)]
pub enum Native {
    Time,
    Delta,
    SelfId,
    Find,
    IsValid,
    GetName,
    GetComponent,
    SetComponent,
    SetVec,
    GetGlobalPosition,
    GetVisible,
    SetVisible,
    GetLinvel,
    ApplyImpulse,
    SetLinvel,
    PlaySound,
    PlayAnimation,
    SetAnimationPlaying,
    SetAnimationSpeed,
    IsAnimationPlaying,
    SetParticlesPlaying,
    SetEmissionRate,
    ParticleCount,
    StopSound,
    SetSoundGain,
    SetSoundPitch,
    SetSoundLooping,
    QueueFree,
    ActionPressed,
    ActionJustPressed,
    ActionJustReleased,
    Axis,
    MousePressed,
    MouseJustPressed,
    MousePosition,
    MouseDelta,
    ScrollDelta,
    Emit,
}

/// What an argument is turned into.
#[derive(Debug, Clone, Copy, PartialEq, Eq, Structural)]
pub enum Kind {
    Number,
    /// A number of single precision.
    Single,
    Text,
    /// A text in which what is no character was replaced.
    Name,
    Flag,
}

/// An argument.
#[derive(Debug)]
pub enum Value {
    Number(Double),
    Single(Real),
    Text(String),
    Flag(bool),
}

/// What a function gives back.
#[derive(Debug)]
pub enum Reply {
    Nothing,
    Null,
    /// The number of a node, or -1.
    Id(Double),
    Count(u32),
    Number(Real),
    Flag(bool),
    Text(String),
    Pair(Vec2),
    Triple(Vec3),
}

impl Native {
    /// The name under which scripts know it.
    pub open spec fn named(self) -> Seq<char> {
        match self {
            Native::Time => "time"@,
            Native::Delta => "delta"@,
            Native::SelfId => "selfId"@,
            Native::Find => "find"@,
            Native::IsValid => "isValid"@,
            Native::GetName => "getName"@,
            Native::GetComponent => "getComponent"@,
            Native::SetComponent => "setComponent"@,
            Native::SetVec => "setVec"@,
            Native::GetGlobalPosition => "getGlobalPosition"@,
            Native::GetVisible => "getVisible"@,
            Native::SetVisible => "setVisible"@,
            Native::GetLinvel => "getLinvel"@,
            Native::ApplyImpulse => "applyImpulse"@,
            Native::SetLinvel => "setLinvel"@,
            Native::PlaySound => "playSound"@,
            Native::PlayAnimation => "playAnimation"@,
            Native::SetAnimationPlaying => "setAnimationPlaying"@,
            Native::SetAnimationSpeed => "setAnimationSpeed"@,
            Native::IsAnimationPlaying => "isAnimationPlaying"@,
            Native::SetParticlesPlaying => "setParticlesPlaying"@,
            Native::SetEmissionRate => "setEmissionRate"@,
            Native::ParticleCount => "particleCount"@,
            Native::StopSound => "stopSound"@,
            Native::SetSoundGain => "setSoundGain"@,
            Native::SetSoundPitch => "setSoundPitch"@,
            Native::SetSoundLooping => "setSoundLooping"@,
            Native::QueueFree => "queueFree"@,
            Native::ActionPressed => "actionPressed"@,
            Native::ActionJustPressed => "actionJustPressed"@,
            Native::ActionJustReleased => "actionJustReleased"@,
            Native::Axis => "axis"@,
            Native::MousePressed => "mousePressed"@,
            Native::MouseJustPressed => "mouseJustPressed"@,
            Native::MousePosition => "mousePosition"@,
            Native::MouseDelta => "mouseDelta"@,
            Native::ScrollDelta => "scrollDelta"@,
            Native::Emit => "emit"@,
        }
    }

    /// The name under which scripts know it.
    pub fn name(self) -> (result: &'static str)
        ensures
            result@ == self.named(),
    {
        match self {
            Native::Time => "time",
            Native::Delta => "delta",
            Native::SelfId => "selfId",
            Native::Find => "find",
            Native::IsValid => "isValid",
            Native::GetName => "getName",
            Native::GetComponent => "getComponent",
            Native::SetComponent => "setComponent",
            Native::SetVec => "setVec",
            Native::GetGlobalPosition => "getGlobalPosition",
            Native::GetVisible => "getVisible",
            Native::SetVisible => "setVisible",
            Native::GetLinvel => "getLinvel",
            Native::ApplyImpulse => "applyImpulse",
            Native::SetLinvel => "setLinvel",
            Native::PlaySound => "playSound",
            Native::PlayAnimation => "playAnimation",
            Native::SetAnimationPlaying => "setAnimationPlaying",
            Native::SetAnimationSpeed => "setAnimationSpeed",
            Native::IsAnimationPlaying => "isAnimationPlaying",
            Native::SetParticlesPlaying => "setParticlesPlaying",
            Native::SetEmissionRate => "setEmissionRate",
            Native::ParticleCount => "particleCount",
            Native::StopSound => "stopSound",
            Native::SetSoundGain => "setSoundGain",
            Native::SetSoundPitch => "setSoundPitch",
            Native::SetSoundLooping => "setSoundLooping",
            Native::QueueFree => "queueFree",
            Native::ActionPressed => "actionPressed",
            Native::ActionJustPressed => "actionJustPressed",
            Native::ActionJustReleased => "actionJustReleased",
            Native::Axis => "axis",
            Native::MousePressed => "mousePressed",
            Native::MouseJustPressed => "mouseJustPressed",
            Native::MousePosition => "mousePosition",
            Native::MouseDelta => "mouseDelta",
            Native::ScrollDelta => "scrollDelta",
            Native::Emit => "emit",
        }
    }

    /// What its arguments are turned into.
    pub open spec fn wants(self) -> Seq<Kind> {
        match self {
            Native::Time
            | Native::Delta
            | Native::SelfId
            | Native::MousePosition
            | Native::MouseDelta
            | Native::ScrollDelta => Seq::empty(),
            Native::Find
            | Native::ActionPressed
            | Native::ActionJustPressed
            | Native::ActionJustReleased
            | Native::Axis
            | Native::MousePressed
            | Native::MouseJustPressed => seq![Kind::Text],
            Native::IsValid
            | Native::GetName
            | Native::GetGlobalPosition
            | Native::GetVisible
            | Native::GetLinvel
            | Native::PlaySound
            | Native::IsAnimationPlaying
            | Native::ParticleCount
            | Native::StopSound
            | Native::QueueFree => seq![Kind::Number],
            Native::GetComponent => seq![Kind::Number, Kind::Number, Kind::Number],
            Native::SetComponent => seq![Kind::Number, Kind::Number, Kind::Number, Kind::Single],
            Native::SetVec => seq![Kind::Number, Kind::Number, Kind::Single, Kind::Single, Kind::Single],
            Native::SetVisible
            | Native::SetAnimationPlaying
            | Native::SetParticlesPlaying
            | Native::SetSoundLooping => seq![Kind::Number, Kind::Flag],
            Native::ApplyImpulse
            | Native::SetLinvel => seq![Kind::Number, Kind::Single, Kind::Single, Kind::Single],
            Native::PlayAnimation => seq![Kind::Number, Kind::Name],
            Native::SetAnimationSpeed
            | Native::SetEmissionRate
            | Native::SetSoundGain
            | Native::SetSoundPitch => seq![Kind::Number, Kind::Single],
            Native::Emit => seq![Kind::Text, Kind::Number],
        }
    }

    /// What its arguments are turned into.
    pub fn kinds(self) -> (result: Vec<Kind>)
        ensures
            result@ == self.wants(),
    {
        let mut result: Vec<Kind> = Vec::new();
        match self {
            Native::Time
            | Native::Delta
            | Native::SelfId
            | Native::MousePosition
            | Native::MouseDelta
            | Native::ScrollDelta => {
            },
            Native::Find
            | Native::ActionPressed
            | Native::ActionJustPressed
            | Native::ActionJustReleased
            | Native::Axis
            | Native::MousePressed
            | Native::MouseJustPressed => {
                result.push(Kind::Text);
            },
            Native::IsValid
            | Native::GetName
            | Native::GetGlobalPosition
            | Native::GetVisible
            | Native::GetLinvel
            | Native::PlaySound
            | Native::IsAnimationPlaying
            | Native::ParticleCount
            | Native::StopSound
            | Native::QueueFree => {
                result.push(Kind::Number);
            },
            Native::GetComponent => {
                result.push(Kind::Number);
                result.push(Kind::Number);
                result.push(Kind::Number);
            },
            Native::SetComponent => {
                result.push(Kind::Number);
                result.push(Kind::Number);
                result.push(Kind::Number);
                result.push(Kind::Single);
            },
            Native::SetVec => {
                result.push(Kind::Number);
                result.push(Kind::Number);
                result.push(Kind::Single);
                result.push(Kind::Single);
                result.push(Kind::Single);
            },
            Native::SetVisible
            | Native::SetAnimationPlaying
            | Native::SetParticlesPlaying
            | Native::SetSoundLooping => {
                result.push(Kind::Number);
                result.push(Kind::Flag);
            },
            Native::ApplyImpulse
            | Native::SetLinvel => {
                result.push(Kind::Number);
                result.push(Kind::Single);
                result.push(Kind::Single);
                result.push(Kind::Single);
            },
            Native::PlayAnimation => {
                result.push(Kind::Number);
                result.push(Kind::Name);
            },
            Native::SetAnimationSpeed
            | Native::SetEmissionRate
            | Native::SetSoundGain
            | Native::SetSoundPitch => {
                result.push(Kind::Number);
                result.push(Kind::Single);
            },
            Native::Emit => {
                result.push(Kind::Text);
                result.push(Kind::Number);
            },
        }
        assert(result@ =~= self.wants());
        result
    }

    /// All of them.
    pub open spec fn every() -> Seq<Native> {
        seq![
            Native::Time,
            Native::Delta,
            Native::SelfId,
            Native::Find,
            Native::IsValid,
            Native::GetName,
            Native::GetComponent,
            Native::SetComponent,
            Native::SetVec,
            Native::GetGlobalPosition,
            Native::GetVisible,
            Native::SetVisible,
            Native::GetLinvel,
            Native::ApplyImpulse,
            Native::SetLinvel,
            Native::PlaySound,
            Native::PlayAnimation,
            Native::SetAnimationPlaying,
            Native::SetAnimationSpeed,
            Native::IsAnimationPlaying,
            Native::SetParticlesPlaying,
            Native::SetEmissionRate,
            Native::ParticleCount,
            Native::StopSound,
            Native::SetSoundGain,
            Native::SetSoundPitch,
            Native::SetSoundLooping,
            Native::QueueFree,
            Native::ActionPressed,
            Native::ActionJustPressed,
            Native::ActionJustReleased,
            Native::Axis,
            Native::MousePressed,
            Native::MouseJustPressed,
            Native::MousePosition,
            Native::MouseDelta,
            Native::ScrollDelta,
            Native::Emit,
        ]
    }

    /// All of them.
    pub fn all() -> (result: Vec<Native>)
        ensures
            result@ == Self::every(),
    {
        let mut result: Vec<Native> = Vec::new();
        result.push(Native::Time);
        result.push(Native::Delta);
        result.push(Native::SelfId);
        result.push(Native::Find);
        result.push(Native::IsValid);
        result.push(Native::GetName);
        result.push(Native::GetComponent);
        result.push(Native::SetComponent);
        result.push(Native::SetVec);
        result.push(Native::GetGlobalPosition);
        result.push(Native::GetVisible);
        result.push(Native::SetVisible);
        result.push(Native::GetLinvel);
        result.push(Native::ApplyImpulse);
        result.push(Native::SetLinvel);
        result.push(Native::PlaySound);
        result.push(Native::PlayAnimation);
        result.push(Native::SetAnimationPlaying);
        result.push(Native::SetAnimationSpeed);
        result.push(Native::IsAnimationPlaying);
        result.push(Native::SetParticlesPlaying);
        result.push(Native::SetEmissionRate);
        result.push(Native::ParticleCount);
        result.push(Native::StopSound);
        result.push(Native::SetSoundGain);
        result.push(Native::SetSoundPitch);
        result.push(Native::SetSoundLooping);
        result.push(Native::QueueFree);
        result.push(Native::ActionPressed);
        result.push(Native::ActionJustPressed);
        result.push(Native::ActionJustReleased);
        result.push(Native::Axis);
        result.push(Native::MousePressed);
        result.push(Native::MouseJustPressed);
        result.push(Native::MousePosition);
        result.push(Native::MouseDelta);
        result.push(Native::ScrollDelta);
        result.push(Native::Emit);
        assert(result@ =~= Self::every());
        result
    }
}

/// No function is forgotten when they are offered to scripts.
pub proof fn lemma_every_function_is_offered(native: Native)
    ensures
        Native::every().contains(native),
{
    let all = Native::every();
    match native {
        Native::Time => assert(all[0] == native),
        Native::Delta => assert(all[1] == native),
        Native::SelfId => assert(all[2] == native),
        Native::Find => assert(all[3] == native),
        Native::IsValid => assert(all[4] == native),
        Native::GetName => assert(all[5] == native),
        Native::GetComponent => assert(all[6] == native),
        Native::SetComponent => assert(all[7] == native),
        Native::SetVec => assert(all[8] == native),
        Native::GetGlobalPosition => assert(all[9] == native),
        Native::GetVisible => assert(all[10] == native),
        Native::SetVisible => assert(all[11] == native),
        Native::GetLinvel => assert(all[12] == native),
        Native::ApplyImpulse => assert(all[13] == native),
        Native::SetLinvel => assert(all[14] == native),
        Native::PlaySound => assert(all[15] == native),
        Native::PlayAnimation => assert(all[16] == native),
        Native::SetAnimationPlaying => assert(all[17] == native),
        Native::SetAnimationSpeed => assert(all[18] == native),
        Native::IsAnimationPlaying => assert(all[19] == native),
        Native::SetParticlesPlaying => assert(all[20] == native),
        Native::SetEmissionRate => assert(all[21] == native),
        Native::ParticleCount => assert(all[22] == native),
        Native::StopSound => assert(all[23] == native),
        Native::SetSoundGain => assert(all[24] == native),
        Native::SetSoundPitch => assert(all[25] == native),
        Native::SetSoundLooping => assert(all[26] == native),
        Native::QueueFree => assert(all[27] == native),
        Native::ActionPressed => assert(all[28] == native),
        Native::ActionJustPressed => assert(all[29] == native),
        Native::ActionJustReleased => assert(all[30] == native),
        Native::Axis => assert(all[31] == native),
        Native::MousePressed => assert(all[32] == native),
        Native::MouseJustPressed => assert(all[33] == native),
        Native::MousePosition => assert(all[34] == native),
        Native::MouseDelta => assert(all[35] == native),
        Native::ScrollDelta => assert(all[36] == native),
        Native::Emit => assert(all[37] == native),
    }
}

impl Value {
    /// A plain argument is what it was in the script. Of one that the script has to work out first
    /// nothing is said.
    pub open spec fn stands_for(self, arg: JsValue) -> bool {
        match self {
            Value::Number(it) => forall|n: u32|
                arg == #[trigger] engine::js_integer(n) ==> it.exactly(n),
            Value::Single(_) => true,
            Value::Text(it) => forall|t: Seq<char>|
                arg == #[trigger] engine::js_text(t) ==> it@ == t,
            Value::Flag(it) => {
                &&& forall|b: bool| arg == #[trigger] engine::js_flag(b) ==> it == b
                &&& forall|t: Seq<char>|
                    arg == #[trigger] engine::js_text(t) ==> it == (t.len() > 0)
                &&& forall|n: u32| arg == #[trigger] engine::js_integer(n) ==> it == (n != 0)
            },
        }
    }

    pub open spec fn kind(self) -> Kind {
        match self {
            Value::Number(_) => Kind::Number,
            Value::Single(_) => Kind::Single,
            Value::Text(_) => Kind::Text,
            Value::Flag(_) => Kind::Flag,
        }
    }

    /// It is what is wanted; a name is a text.
    pub open spec fn is_of(self, kind: Kind) -> bool {
        self.kind() == kind || self is Text && kind == Kind::Name
    }
}

// Arguments by their place.

pub open spec fn number_of(values: Seq<Value>, i: int) -> Double {
    if 0 <= i < values.len() {
        match values[i] {
            Value::Number(it) => it,
            _ => Double { bits: 0 },
        }
    } else {
        Double { bits: 0 }
    }
}

pub open spec fn single_of(values: Seq<Value>, i: int) -> Real {
    if 0 <= i < values.len() {
        match values[i] {
            Value::Single(it) => it,
            _ => Real::zero(),
        }
    } else {
        Real::zero()
    }
}

pub open spec fn vector_of(values: Seq<Value>, i: int) -> Vec3 {
    Vec3 { x: single_of(values, i), y: single_of(values, i + 1), z: single_of(values, i + 2) }
}

pub open spec fn text_of(values: Seq<Value>, i: int) -> Seq<char> {
    if 0 <= i < values.len() {
        match values[i] {
            Value::Text(it) => it@,
            _ => ""@,
        }
    } else {
        ""@
    }
}

pub open spec fn flag_of(values: Seq<Value>, i: int) -> bool {
    0 <= i < values.len() && (values[i] matches Value::Flag(it) && it)
}

fn number_at(values: &Vec<Value>, i: usize) -> (result: Double)
    ensures
        result == number_of(values@, i as int),
{
    if i < values.len() {
        if let Value::Number(it) = &values[i] {
            return *it;
        }
    }
    Double { bits: 0 }
}

fn single_at(values: &Vec<Value>, i: usize) -> (result: Real)
    ensures
        result == single_of(values@, i as int),
{
    if i < values.len() {
        if let Value::Single(it) = &values[i] {
            return *it;
        }
    }
    Real::zero()
}

fn vector_at(values: &Vec<Value>, i: usize) -> (result: Vec3)
    requires
        i < 8,
    ensures
        result == vector_of(values@, i as int),
{
    Vec3::new(single_at(values, i), single_at(values, i + 1), single_at(values, i + 2))
}

fn text_at(values: &Vec<Value>, i: usize) -> (result: &str)
    ensures
        result@ == text_of(values@, i as int),
{
    if i < values.len() {
        if let Value::Text(it) = &values[i] {
            return it.as_str();
        }
    }
    ""
}

fn flag_at(values: &Vec<Value>, i: usize) -> (result: bool)
    ensures
        result == flag_of(values@, i as int),
{
    if i < values.len() {
        if let Value::Flag(it) = &values[i] {
            return *it;
        }
    }
    false
}

/// What a function did to the host, and what it gave back.
pub open spec fn performed(
    native: Native,
    values: Seq<Value>,
    before: Host,
    after: Host,
    reply: Reply,
) -> bool {
    let id = number_of(values, 0);
    let target = before.target(id);
    let node = before.node(target->Some_0);
    match native {
        Native::Time => after == before && reply == Reply::Number(before.elapsed),
        Native::Delta => after == before && reply == Reply::Number(before.dt),
        Native::SelfId => reply matches Reply::Id(told) && after.introduces(
            before,
            before.current,
            told,
        ),
        Native::Find => reply matches Reply::Id(told) && after.found(
            before,
            text_of(values, 0),
            told,
        ),
        Native::IsValid => after == before && reply == Reply::Flag(target is Some),
        Native::GetName => after == before && match target {
            Some(_) => reply matches Reply::Text(name) && name@ == node.name@,
            None => reply == Reply::Null,
        },
        Native::GetComponent => after == before && reply == Reply::Number(
            if target is Some {
                host::axis_of(
                    host::field_of(node.transform, number_of(values, 1)),
                    number_of(values, 2),
                )
            } else {
                Real::zero()
            },
        ),
        Native::SetComponent => reply == Reply::Nothing && if single_of(values, 3).finite() {
            after.rewritten(
                before,
                id,
                |node: Node|
                    Node {
                        transform: host::with_field(
                            node.transform,
                            number_of(values, 1),
                            host::with_axis(
                                host::field_of(node.transform, number_of(values, 1)),
                                number_of(values, 2),
                                single_of(values, 3),
                            ),
                        ),
                        ..node
                    },
            )
        } else {
            after == before
        },
        Native::SetVec => reply == Reply::Nothing && if vector_of(values, 2).finite() {
            after.rewritten(
                before,
                id,
                |node: Node|
                    Node {
                        transform: host::with_field(
                            node.transform,
                            number_of(values, 1),
                            vector_of(values, 2),
                        ),
                        ..node
                    },
            )
        } else {
            after == before
        },
        Native::GetGlobalPosition => after == before && reply == Reply::Triple(
            if target is Some {
                node.global_transform.w_axis.truncate()
            } else {
                Vec3::zero()
            },
        ),
        Native::GetVisible => after == before && reply == Reply::Flag(
            target is Some && node.visible,
        ),
        Native::SetVisible => reply == Reply::Nothing && after.rewritten(
            before,
            id,
            |node: Node| Node { visible: flag_of(values, 1), ..node },
        ),
        Native::GetLinvel => after == before && reply == Reply::Triple(
            if target is Some && node.rigid_body is Some {
                node.rigid_body->Some_0.linvel
            } else {
                Vec3::zero()
            },
        ),
        Native::ApplyImpulse => reply == Reply::Nothing && if vector_of(values, 1).finite() {
            after.pushed(before, id, BodyAction::ApplyImpulse(vector_of(values, 1)))
        } else {
            after == before
        },
        Native::SetLinvel => reply == Reply::Nothing && if vector_of(values, 1).finite() {
            after.pushed(before, id, BodyAction::SetLinvel(vector_of(values, 1)))
        } else {
            after == before
        },
        Native::PlaySound => reply == Reply::Nothing && after.sound_set(
            before,
            id,
            |it: SoundSource|
                SoundSource { finished: false, desired: Status::Playing, ..it.voiceless() },
        ),
        Native::StopSound => reply == Reply::Nothing && after.sound_set(
            before,
            id,
            |it: SoundSource| SoundSource { desired: Status::Stopped, ..it },
        ),
        Native::SetSoundGain => reply == Reply::Nothing && after.sound_set(
            before,
            id,
            |it: SoundSource|
                SoundSource { gain: single_of(values, 1).larger(Real::zero()), ..it },
        ),
        Native::SetSoundPitch => reply == Reply::Nothing && after.sound_set(
            before,
            id,
            |it: SoundSource|
                SoundSource { pitch: single_of(values, 1).larger(host::least_pitch()), ..it },
        ),
        Native::SetSoundLooping => reply == Reply::Nothing && after.sound_set(
            before,
            id,
            |it: SoundSource| SoundSource { looping: flag_of(values, 1), ..it },
        ),
        Native::PlayAnimation => reply matches Reply::Flag(started) && after.animation_started(
            before,
            id,
            text_of(values, 1),
            started,
        ),
        Native::SetAnimationPlaying => reply == Reply::Nothing && after.animator_set(
            before,
            id,
            |it: AnimationPlayer| AnimationPlayer { running: flag_of(values, 1), ..it },
        ),
        Native::SetAnimationSpeed => reply == Reply::Nothing && after.animator_set(
            before,
            id,
            |it: AnimationPlayer| AnimationPlayer { speed: single_of(values, 1), ..it },
        ),
        Native::IsAnimationPlaying => after == before && reply == Reply::Flag(
            target is Some && (node.animator matches Some(player) && player.running),
        ),
        Native::SetParticlesPlaying => reply == Reply::Nothing && after.particles_set(
            before,
            id,
            |it: ParticleSystem| ParticleSystem { playing: flag_of(values, 1), ..it },
        ),
        Native::SetEmissionRate => reply == Reply::Nothing && after.particles_set(
            before,
            id,
            |it: ParticleSystem|
                ParticleSystem { rate: single_of(values, 1).larger(Real::zero()), ..it },
        ),
        Native::ParticleCount => after == before && reply == Reply::Count(
            if target is Some && node.particles is Some {
                node.particles->Some_0.alive
            } else {
                0
            },
        ),
        Native::QueueFree => reply == Reply::Nothing && match target {
            Some(h) => {
                &&& after == (Host { scene: after.scene, ..before })
                &&& after.scene is Some
                &&& after.scene->Some_0.lost(&before.scene->Some_0, h)
            },
            None => after == before,
        },
        Native::ActionPressed => after == before && reply == Reply::Flag(
            before.input matches Some(input) && input.action(text_of(values, 0)) matches Some(
                state,
            ) && state.pressed,
        ),
        Native::ActionJustPressed => after == before && reply == Reply::Flag(
            before.input matches Some(input) && input.action(text_of(values, 0)) matches Some(
                state,
            ) && state.just_pressed,
        ),
        Native::ActionJustReleased => after == before && reply == Reply::Flag(
            before.input matches Some(input) && input.action(text_of(values, 0)) matches Some(
                state,
            ) && state.just_released,
        ),
        Native::Axis => after == before && reply == Reply::Number(
            match before.input {
                Some(input) => input.axis_value(text_of(values, 0)),
                None => Real::zero(),
            },
        ),
        Native::MousePressed => after == before && reply == Reply::Flag(
            before.input matches Some(input) && MouseButton::of(text_of(values, 0)) matches Some(
                button,
            ) && input.button(button).pressed,
        ),
        Native::MouseJustPressed => after == before && reply == Reply::Flag(
            before.input matches Some(input) && MouseButton::of(text_of(values, 0)) matches Some(
                button,
            ) && input.button(button).just_pressed,
        ),
        Native::MousePosition => after == before && reply == match before.input {
            Some(input) => match input.cursor {
                Some(place) => Reply::Pair(place),
                None => Reply::Null,
            },
            None => Reply::Null,
        },
        Native::MouseDelta => after == before && reply == Reply::Pair(
            match before.input {
                Some(input) => input.moved,
                None => Vec2::zero(),
            },
        ),
        Native::ScrollDelta => after == before && reply == Reply::Pair(
            match before.input {
                Some(input) => input.scrolled,
                None => Vec2::zero(),
            },
        ),
        Native::Emit => {
            &&& reply == Reply::Nothing
            &&& after == (Host { signals: after.signals, ..before })
            &&& if before.signals@.len() < MAX_SIGNALS {
                &&& after.signals@.len() == before.signals@.len() + 1
                &&& after.signals@.drop_last() == before.signals@
                &&& after.signals@.last().name@ == text_of(values, 0)
                &&& after.signals@.last().value == number_of(values, 1)
                &&& after.signals@.last().source == before.current
            } else {
                after.signals@ == before.signals@
            }
        },
    }
}

/// Does what a script asks for.
pub fn perform(stage: &mut Host, native: Native, values: &Vec<Value>) -> (result: Reply)
    requires
        old(stage).wf(),
    ensures
        final(stage).wf(),
        performed(native, values@, *old(stage), *final(stage), result),
{
    let id = number_at(values, 0);
    match native {
        Native::Time => Reply::Number(stage.time()),
        Native::Delta => Reply::Number(stage.delta()),
        Native::SelfId => Reply::Id(stage.self_id()),
        Native::Find => Reply::Id(stage.find(text_at(values, 0))),
        Native::IsValid => Reply::Flag(stage.is_valid(id)),
        Native::GetName => match stage.get_name(id) {
            Some(name) => Reply::Text(name),
            None => Reply::Null,
        },
        Native::GetComponent => Reply::Number(
            stage.get_component(id, number_at(values, 1), number_at(values, 2)),
        ),
        Native::SetComponent => {
            let field = number_at(values, 1);
            let axis = number_at(values, 2);
            stage.set_component(id, field, axis, single_at(values, 3));
            Reply::Nothing
        },
        Native::SetVec => {
            stage.set_vec(id, number_at(values, 1), vector_at(values, 2));
            Reply::Nothing
        },
        Native::GetGlobalPosition => Reply::Triple(stage.get_global_position(id)),
        Native::GetVisible => Reply::Flag(stage.get_visible(id)),
        Native::SetVisible => {
            stage.set_visible(id, flag_at(values, 1));
            Reply::Nothing
        },
        Native::GetLinvel => Reply::Triple(stage.get_linvel(id)),
        Native::ApplyImpulse => {
            stage.apply_impulse(id, vector_at(values, 1));
            Reply::Nothing
        },
        Native::SetLinvel => {
            stage.set_linvel(id, vector_at(values, 1));
            Reply::Nothing
        },
        Native::PlaySound => {
            stage.play_sound(id);
            Reply::Nothing
        },
        Native::StopSound => {
            stage.stop_sound(id);
            Reply::Nothing
        },
        Native::SetSoundGain => {
            stage.set_sound_gain(id, single_at(values, 1));
            Reply::Nothing
        },
        Native::SetSoundPitch => {
            stage.set_sound_pitch(id, single_at(values, 1));
            Reply::Nothing
        },
        Native::SetSoundLooping => {
            stage.set_sound_looping(id, flag_at(values, 1));
            Reply::Nothing
        },
        Native::PlayAnimation => Reply::Flag(stage.play_animation(id, text_at(values, 1))),
        Native::SetAnimationPlaying => {
            stage.set_animation_playing(id, flag_at(values, 1));
            Reply::Nothing
        },
        Native::SetAnimationSpeed => {
            stage.set_animation_speed(id, single_at(values, 1));
            Reply::Nothing
        },
        Native::IsAnimationPlaying => Reply::Flag(stage.is_animation_playing(id)),
        Native::SetParticlesPlaying => {
            stage.set_particles_playing(id, flag_at(values, 1));
            Reply::Nothing
        },
        Native::SetEmissionRate => {
            stage.set_emission_rate(id, single_at(values, 1));
            Reply::Nothing
        },
        Native::ParticleCount => Reply::Count(stage.particle_count(id)),
        Native::QueueFree => {
            stage.queue_free(id);
            Reply::Nothing
        },
        Native::ActionPressed => Reply::Flag(stage.action_pressed(text_at(values, 0))),
        Native::ActionJustPressed => Reply::Flag(stage.action_just_pressed(text_at(values, 0))),
        Native::ActionJustReleased => Reply::Flag(stage.action_just_released(text_at(values, 0))),
        Native::Axis => Reply::Number(stage.axis(text_at(values, 0))),
        Native::MousePressed => Reply::Flag(stage.mouse_pressed(text_at(values, 0))),
        Native::MouseJustPressed => Reply::Flag(stage.mouse_just_pressed(text_at(values, 0))),
        Native::MousePosition => match stage.mouse_position() {
            Some(place) => Reply::Pair(place),
            None => Reply::Null,
        },
        Native::MouseDelta => Reply::Pair(stage.mouse_delta()),
        Native::ScrollDelta => Reply::Pair(stage.scroll_delta()),
        Native::Emit => {
            let name = text_at(values, 0).to_owned();
            stage.emit(name, number_at(values, 1));
            proof {
                if old(stage).signals@.len() < MAX_SIGNALS {
                    assert(stage.signals@.drop_last() =~= old(stage).signals@);
                }
            }
            Reply::Nothing
        },
    }
}

/// What a function gives back while no script runs, and there is nothing to be reached.
pub open spec fn absence(native: Native) -> Reply {
    match native {
        Native::Time
        | Native::Delta
        | Native::GetComponent
        | Native::Axis => Reply::Number(Real::zero()),
        Native::SelfId
        | Native::Find => Reply::Id(Double::minus_one()),
        Native::IsValid
        | Native::GetVisible
        | Native::PlayAnimation
        | Native::IsAnimationPlaying
        | Native::ActionPressed
        | Native::ActionJustPressed
        | Native::ActionJustReleased
        | Native::MousePressed
        | Native::MouseJustPressed => Reply::Flag(false),
        Native::GetName
        | Native::MousePosition => Reply::Null,
        Native::GetGlobalPosition
        | Native::GetLinvel => Reply::Triple(Vec3::zero()),
        Native::MouseDelta
        | Native::ScrollDelta => Reply::Pair(Vec2::zero()),
        Native::ParticleCount => Reply::Count(0),
        _ => Reply::Nothing,
    }
}

/// What a function gives back while no script runs, and there is nothing to be reached.
pub fn absent(native: Native) -> (result: Reply)
    ensures
        result == absence(native),
{
    match native {
        Native::Time
        | Native::Delta
        | Native::GetComponent
        | Native::Axis => Reply::Number(Real::zero()),
        Native::SelfId
        | Native::Find => Reply::Id(Double::minus_one()),
        Native::IsValid
        | Native::GetVisible
        | Native::PlayAnimation
        | Native::IsAnimationPlaying
        | Native::ActionPressed
        | Native::ActionJustPressed
        | Native::ActionJustReleased
        | Native::MousePressed
        | Native::MouseJustPressed => Reply::Flag(false),
        Native::GetName
        | Native::MousePosition => Reply::Null,
        Native::GetGlobalPosition
        | Native::GetLinvel => Reply::Triple(Vec3::zero()),
        Native::MouseDelta
        | Native::ScrollDelta => Reply::Pair(Vec2::zero()),
        Native::ParticleCount => Reply::Count(0),
        _ => Reply::Nothing,
    }
}

/// How many arguments of a call are looked at: those that nobody wants are not.
pub open spec fn looked_at(native: Native, args: Seq<JsValue>) -> nat {
    if args.len() < native.wants().len() {
        args.len()
    } else {
        native.wants().len()
    }
}

/// `reply` is what the engine made of one argument, or what it threw.
pub open spec fn read_as(
    before: Context,
    arg: JsValue,
    kind: Kind,
    after: Context,
    reply: Result<Value, JsError>,
) -> bool {
    match kind {
        Kind::Number => exists|count: Result<u64, JsError>|
            {
                &&& #[trigger] engine::may_count(before, arg, after, count)
                &&& match count {
                    Ok(bits) => reply == Ok::<Value, JsError>(
                        Value::Number(Double::from_bits(bits)),
                    ),
                    Err(error) => reply == Err::<Value, JsError>(error),
                }
            },
        Kind::Single => exists|count: Result<u32, JsError>|
            {
                &&& #[trigger] engine::may_count_single(before, arg, after, count)
                &&& match count {
                    Ok(bits) => reply == Ok::<Value, JsError>(
                        Value::Single(Real::from_bits(bits)),
                    ),
                    Err(error) => reply == Err::<Value, JsError>(error),
                }
            },
        Kind::Text => exists|shown: Result<String, JsError>|
            {
                &&& #[trigger] engine::may_show(before, arg, after, shown)
                &&& match shown {
                    Ok(text) => reply == Ok::<Value, JsError>(Value::Text(text)),
                    Err(error) => reply == Err::<Value, JsError>(error),
                }
            },
        Kind::Name => exists|shown: Result<String, JsError>|
            {
                &&& #[trigger] engine::may_show_lossy(before, arg, after, shown)
                &&& match shown {
                    Ok(text) => reply == Ok::<Value, JsError>(Value::Text(text)),
                    Err(error) => reply == Err::<Value, JsError>(error),
                }
            },
        Kind::Flag => {
            &&& after == before
            &&& reply == Ok::<Value, JsError>(Value::Flag(engine::js_truth(arg)))
        },
    }
}

/// `values` are what the engine made of the first arguments, one after the other; `steps` are the
/// engine before, between and after them.
pub open spec fn read_so_far(
    native: Native,
    args: Seq<JsValue>,
    steps: Seq<Context>,
    values: Seq<Value>,
) -> bool {
    &&& steps.len() == values.len() + 1
    &&& values.len() <= looked_at(native, args)
    &&& forall|i: int|
        0 <= i < values.len() ==> read_as(
            steps[i],
            args[i],
            native.wants()[i],
            steps[i + 1],
            Ok(#[trigger] values[i]),
        )
}

/// `reply` is what the engine made of the arguments of a call, from the left, or what the first of
/// them threw that did.
pub open spec fn decoded(
    native: Native,
    args: Seq<JsValue>,
    before: Context,
    after: Context,
    reply: Result<Vec<Value>, JsError>,
) -> bool {
    exists|steps: Seq<Context>, values: Seq<Value>|
        {
            &&& #[trigger] read_so_far(native, args, steps, values)
            &&& steps[0] == before
            &&& match reply {
                Ok(all) => {
                    &&& all@ == values
                    &&& values.len() == looked_at(native, args)
                    &&& after == steps.last()
                },
                Err(error) => {
                    let i = values.len() as int;
                    &&& i < looked_at(native, args)
                    &&& read_as(steps.last(), args[i], native.wants()[i], after, Err(error))
                },
            }
        }
}

/// An argument that can be read without running a script: whatever is to be a flag, a text that is
/// to be one, an integer that is to be a number.
pub open spec fn plain(kind: Kind, arg: JsValue) -> bool {
    match kind {
        Kind::Number | Kind::Single => exists|n: u32| arg == #[trigger] engine::js_integer(n),
        Kind::Text | Kind::Name => exists|t: Seq<char>| arg == #[trigger] engine::js_text(t),
        Kind::Flag => true,
    }
}

/// Turns the arguments of a call into what the function wants, from the left. Those that nobody
/// wants are not looked at. It fails only if one throws.
fn decode(native: Native, args: &[JsValue], context: &mut Context) -> (result: Result<
    Vec<Value>,
    JsError,
>)
    ensures
        decoded(native, args@, *old(context), *final(context), result),
        (forall|i: int|
            0 <= i < looked_at(native, args@) ==> plain(native.wants()[i], #[trigger] args@[i]))
            ==> result is Ok,
        result matches Ok(values) ==> {
            &&& values@.len() == looked_at(native, args@)
            &&& forall|i: int|
                0 <= i < values@.len() ==> (#[trigger] values@[i]).is_of(native.wants()[i])
            &&& forall|i: int|
                0 <= i < values@.len() ==> (#[trigger] values@[i]).stands_for(args@[i])
        },
{
    let kinds = native.kinds();
    let mut values: Vec<Value> = Vec::new();
    let mut i: usize = 0;
    let ghost mut steps: Seq<Context> = seq![*context];
    while i < kinds.len() && i < args.len()
        invariant
            kinds@ == native.wants(),
            i <= kinds@.len(),
            i <= args@.len(),
            values@.len() == i,
            read_so_far(native, args@, steps, values@),
            steps[0] == *old(context),
            steps.last() == *context,
            forall|j: int| 0 <= j < i ==> (#[trigger] values@[j]).is_of(native.wants()[j]),
            forall|j: int| 0 <= j < i ==> (#[trigger] values@[j]).stands_for(args@[j]),
        decreases kinds@.len() - i,
    {
        let ghost read = values@;
        let reply = decode_one(kinds[i], &args[i], context);
        let value = match reply {
            Ok(value) => value,
            Err(error) => {
                assert(read_so_far(native, args@, steps, values@));
                return Err(error);
            },
        };
        values.push(value);
        proof {
            let before = steps;
            steps = steps.push(*context);
            assert forall|j: int| 0 <= j < values@.len() implies read_as(
                steps[j],
                args@[j],
                native.wants()[j],
                steps[j + 1],
                Ok(#[trigger] values@[j]),
            ) by {
                if j < i {
                    assert(values@[j] == read[j]);
                    assert(steps[j] == before[j] && steps[j + 1] == before[j + 1]);
                }
            }
        }
        i += 1;
    }
    assert(read_so_far(native, args@, steps, values@));
    Ok(values)
}

/// Turns one argument into what is wanted. It fails only if that throws.
fn decode_one(kind: Kind, arg: &JsValue, context: &mut Context) -> (result: Result<Value, JsError>)
    ensures
        read_as(*old(context), *arg, kind, *final(context), result),
        plain(kind, *arg) ==> result is Ok,
        result matches Ok(value) ==> value.is_of(kind) && value.stands_for(*arg),
{
    match kind {
        Kind::Number => match engine::number(context, arg) {
            Ok(bits) => Ok(Value::Number(Double::from_bits(bits))),
            Err(error) => Err(error),
        },
        Kind::Single => match engine::single(context, arg) {
            Ok(bits) => Ok(Value::Single(Real::from_bits(bits))),
            Err(error) => Err(error),
        },
        Kind::Text => match engine::show(context, arg) {
            Ok(text) => Ok(Value::Text(text)),
            Err(error) => Err(error),
        },
        Kind::Name => match engine::show_lossy(context, arg) {
            Ok(text) => Ok(Value::Text(text)),
            Err(error) => Err(error),
        },
        Kind::Flag => Ok(Value::Flag(engine::truth(arg))),
    }
}

/// `number` is a number as the engine has it, or nothing where the engine could not make it.
pub open spec fn made_number(before: Context, value: Real, after: Context, number: JsValue) -> bool {
    exists|reply: Result<JsValue, JsError>|
        {
            &&& #[trigger] engine::may_make_real(before, value.bits, after, reply)
            &&& match reply {
                Ok(_) => number == engine::js_real(value.bits),
                Err(_) => engine::js_is_undefined(number),
            }
        }
}

/// A number of single precision as the engine has it.
pub(crate) fn real_number(context: &mut Context, value: Real) -> (result: JsValue)
    ensures
        made_number(*old(context), value, *final(context), result),
{
    match engine::real_of(context, value.to_bits()) {
        Ok(number) => number,
        Err(_) => engine::undefined(),
    }
}

/// `items` are what the engine made of numbers, one after the other; `steps` are the engine before,
/// between and after them.
pub open spec fn made_numbers(
    values: Seq<Real>,
    steps: Seq<Context>,
    items: Seq<JsValue>,
) -> bool {
    &&& items.len() == values.len()
    &&& steps.len() == values.len() + 1
    &&& forall|i: int|
        0 <= i < values.len() ==> made_number(steps[i], values[i], steps[i + 1], #[trigger] items[i])
}

/// `array` is what the engine made of numbers.
pub open spec fn made_array(
    before: Context,
    values: Seq<Real>,
    after: Context,
    array: JsValue,
) -> bool {
    exists|steps: Seq<Context>, items: Seq<JsValue>|
        {
            &&& #[trigger] made_numbers(values, steps, items)
            &&& steps[0] == before
            &&& engine::may_make_array(steps.last(), items, after, array)
        }
}

/// `value` is what the engine has for what a function gave back.
pub open spec fn encoded(reply: Reply, before: Context, after: Context, value: JsValue) -> bool {
    match reply {
        Reply::Nothing => after == before && engine::js_is_undefined(value),
        Reply::Null => after == before && engine::js_is_null(value),
        Reply::Id(id) => {
            &&& after == before
            &&& if id.finite() && !id.below_zero() && id.whole() < 0xffff_ffff {
                value == engine::js_integer(id.whole() as u32)
            } else {
                value == engine::js_signed((-1) as i32)
            }
        },
        Reply::Count(n) => after == before && value == engine::js_integer(n),
        Reply::Flag(flag) => after == before && value == engine::js_flag(flag),
        Reply::Text(text) => after == before && value == engine::js_text(text@),
        Reply::Number(number) => made_number(before, number, after, value),
        Reply::Pair(pair) => made_array(before, seq![pair.x, pair.y], after, value),
        Reply::Triple(triple) => made_array(
            before,
            seq![triple.x, triple.y, triple.z],
            after,
            value,
        ),
    }
}

/// Makes an array of numbers.
fn number_array(context: &mut Context, values: &Vec<Real>) -> (result: JsValue)
    ensures
        made_array(*old(context), values@, *final(context), result),
{
    let mut items: Vec<JsValue> = Vec::new();
    let ghost mut steps: Seq<Context> = seq![*context];
    while items.len() < values.len()
        invariant
            items@.len() <= values@.len(),
            steps.len() == items@.len() + 1,
            steps[0] == *old(context),
            steps.last() == *context,
            forall|i: int|
                0 <= i < items@.len() ==> made_number(
                    steps[i],
                    values@[i],
                    steps[i + 1],
                    #[trigger] items@[i],
                ),
        decreases values@.len() - items@.len(),
    {
        let ghost before = steps;
        let ghost made = items@;
        let number = real_number(context, values[items.len()]);
        items.push(number);
        proof {
            steps = steps.push(*context);
            assert forall|i: int| 0 <= i < items@.len() implies made_number(
                steps[i],
                values@[i],
                steps[i + 1],
                #[trigger] items@[i],
            ) by {
                if i < made.len() {
                    assert(items@[i] == made[i]);
                    assert(steps[i] == before[i] && steps[i + 1] == before[i + 1]);
                }
            }
        }
    }
    assert(made_numbers(values@, steps, items@));
    engine::array(context, items)
}

/// Turns what a function gives back into a value of the engine. Vectors become arrays.
fn encode(reply: Reply, context: &mut Context) -> (result: JsValue)
    ensures
        encoded(reply, *old(context), *final(context), result),
{
    match reply {
        Reply::Nothing => engine::undefined(),
        Reply::Null => engine::null(),
        Reply::Id(id) => match id.to_index() {
            Some(n) => engine::integer(n),
            None => engine::signed(-1),
        },
        Reply::Count(n) => engine::integer(n),
        Reply::Number(value) => real_number(context, value),
        Reply::Flag(flag) => engine::flag(flag),
        Reply::Text(text) => engine::text(text.as_str()),
        Reply::Pair(pair) => {
            let mut values: Vec<Real> = Vec::new();
            values.push(pair.x);
            values.push(pair.y);
            assert(values@ =~= seq![pair.x, pair.y]);
            number_array(context, &values)
        },
        Reply::Triple(triple) => {
            let mut values: Vec<Real> = Vec::new();
            values.push(triple.x);
            values.push(triple.y);
            values.push(triple.z);
            assert(values@ =~= seq![triple.x, triple.y, triple.z]);
            number_array(context, &values)
        },
    }
}

/// What becomes of a call once its arguments are there: the host does what is asked for, and where
/// it cannot be reached there is nothing to be had.
pub open spec fn responded(
    before: Option<Host>,
    native: Native,
    values: Seq<Value>,
    after: Option<Host>,
    reply: Reply,
) -> bool {
    match before {
        Some(stage) => {
            &&& after is Some
            &&& performed(native, values, stage, after->Some_0, reply)
        },
        None => after is None && reply == absence(native),
    }
}

/// What becomes of the host while a call is answered: it is fetched, does what is asked for, and is
/// lent again.
pub open spec fn served(
    native: Native,
    values: Seq<Value>,
    before: Context,
    after: Context,
    reply: Reply,
) -> bool {
    exists|between: Context, found: Option<Host>, left: Option<Host>|
        {
            &&& #[trigger] engine::may_fetch(before, between, found)
            &&& #[trigger] responded(found, native, values, left, reply)
            &&& match left {
                Some(stage) => engine::may_lend(between, stage, after),
                None => after == between,
            }
        }
}

/// `result` is what a script gets for a call: what its arguments threw, or what the function gives
/// back for them.
pub open spec fn answered(
    native: Native,
    args: Seq<JsValue>,
    before: Context,
    after: Context,
    result: Result<JsValue, JsError>,
) -> bool {
    exists|read: Context, values: Result<Vec<Value>, JsError>|
        {
            &&& #[trigger] decoded(native, args, before, read, values)
            &&& match values {
                Ok(values) => result is Ok && exists|done: Context, reply: Reply|
                    {
                        &&& #[trigger] served(native, values@, read, done, reply)
                        &&& encoded(reply, done, after, result->Ok_0)
                    },
                Err(error) => after == read && result == Err::<JsValue, JsError>(error),
            }
        }
}

/// What becomes of a call once its arguments are there: `seat` is the host, if it can be reached.
pub fn respond(seat: Option<Seat>, native: Native, values: &Vec<Value>) -> (result: (
    Option<Seat>,
    Reply,
))
    ensures
        responded(host::seated(seat), native, values@, host::seated(result.0), result.1),
{
    match seat {
        Some(seat) => {
            let mut stage = seat.into_host();
            let reply = perform(&mut stage, native, values);
            (Some(Seat::new(stage)), reply)
        },
        None => (None, absent(native)),
    }
}

/// Answers a call of a script. The host is taken for as long as it is needed and no longer, so a
/// call within a call finds nothing to be reached.
pub(crate) fn answer(native: Native, args: &[JsValue], context: &mut Context) -> (result: Result<
    JsValue,
    JsError,
>)
    ensures
        answered(native, args@, *old(context), *final(context), result),
{
    let values = match decode(native, args, context) {
        Ok(values) => values,
        Err(error) => {
            return Err(error);
        },
    };
    let ghost read = *context;
    let found = engine::fetch(context);
    let ghost between = *context;
    let ghost stage = host::seated(found);
    let (seat, reply) = respond(found, native, &values);
    let ghost left = host::seated(seat);
    if let Some(seat) = seat {
        engine::lend(context, seat);
    }
    assert(engine::may_fetch(read, between, stage));
    assert(served(native, values@, read, *context, reply));
    Ok(encode(reply, context))
}

/// The first functions were offered as members of an object; `steps` are the engine before, between
/// and after them, and `done` says of each whether it could be.
pub open spec fn offered(
    bridge: JsValue,
    steps: Seq<Context>,
    functions: Seq<JsValue>,
    done: Seq<bool>,
) -> bool {
    &&& functions.len() <= Native::every().len()
    &&& done.len() == functions.len()
    &&& steps.len() == functions.len() + 1
    &&& forall|i: int|
        0 <= i < functions.len() ==> {
            &&& engine::may_make_function(
                steps[i],
                Native::every()[i],
                Native::every()[i].named(),
                Native::every()[i].wants().len() as usize,
                #[trigger] functions[i],
            )
            &&& engine::may_define(
                steps[i],
                bridge,
                Native::every()[i].named(),
                functions[i],
                false,
                steps[i + 1],
                done[i],
            )
        }
}

/// All functions were offered as members of an object, each under its name and with the number of
/// its arguments, and not enumerated; the object became the global `__k`. `result` says whether all
/// of that could be done.
pub open spec fn all_offered(before: Context, after: Context, result: bool) -> bool {
    exists|
        bridge: JsValue,
        steps: Seq<Context>,
        functions: Seq<JsValue>,
        done: Seq<bool>,
        last: bool,
    |
        {
            &&& engine::may_make_object(before, bridge)
            &&& #[trigger] offered(bridge, steps, functions, done)
            &&& functions.len() == Native::every().len()
            &&& steps[0] == before
            &&& #[trigger] engine::may_set(
                steps.last(),
                engine::js_global(steps.last()),
                "__k"@,
                bridge,
                after,
                last,
            )
            &&& result == (last && !done.contains(false))
        }
}

/// Offers all functions to scripts, as members of the object `__k`. The result says whether all of
/// them could be.
pub(crate) fn register(context: &mut Context) -> (result: bool)
    ensures
        all_offered(*old(context), *final(context), result),
{
    let bridge = engine::object(context);
    let natives = Native::all();
    let mut done: bool = true;
    let mut i: usize = 0;
    let ghost mut steps: Seq<Context> = seq![*context];
    let ghost mut functions: Seq<JsValue> = Seq::empty();
    let ghost mut flags: Seq<bool> = Seq::empty();
    while i < natives.len()
        invariant
            natives@ == Native::every(),
            i <= natives@.len(),
            functions.len() == i,
            offered(bridge, steps, functions, flags),
            steps[0] == *old(context),
            steps.last() == *context,
            done == !flags.contains(false),
        decreases natives@.len() - i,
    {
        let name = natives[i].name();
        let kinds = natives[i].kinds();
        let function = engine::function(context, natives[i], name, kinds.len());
        let set = engine::define(context, &bridge, name, &function, false);
        proof {
            let before = steps;
            let made = functions;
            let known = flags;
            steps = steps.push(*context);
            functions = functions.push(function);
            flags = flags.push(set);
            assert forall|j: int| 0 <= j < functions.len() implies {
                &&& engine::may_make_function(
                    steps[j],
                    Native::every()[j],
                    Native::every()[j].named(),
                    Native::every()[j].wants().len() as usize,
                    #[trigger] functions[j],
                )
                &&& engine::may_define(
                    steps[j],
                    bridge,
                    Native::every()[j].named(),
                    functions[j],
                    false,
                    steps[j + 1],
                    flags[j],
                )
            } by {
                if j < i {
                    assert(functions[j] == made[j]);
                    assert(steps[j] == before[j] && steps[j + 1] == before[j + 1]);
                    assert(flags[j] == known[j]);
                }
            }
            if known.contains(false) {
                let j = choose|j: int| 0 <= j < known.len() && known[j] == false;
                assert(flags[j] == false);
            }
            if !set {
                assert(flags[i as int] == false);
            }
            if flags.contains(false) && set {
                let j = choose|j: int| 0 <= j < flags.len() && flags[j] == false;
                assert(known[j] == false);
            }
        }
        done = set && done;
        i += 1;
    }
    let world = engine::global(context);
    let last = engine::set(context, &world, "__k", &bridge);
    assert(engine::may_set(
        steps.last(),
        engine::js_global(steps.last()),
        "__k"@,
        bridge,
        *context,
        last,
    ));
    last && done
}

/// The functions that only change something and have nothing to give back.
pub open spec fn only_writes(native: Native) -> bool {
    match native {
        Native::SetComponent
        | Native::SetVec
        | Native::SetVisible
        | Native::ApplyImpulse
        | Native::SetLinvel
        | Native::PlaySound
        | Native::StopSound
        | Native::SetSoundGain
        | Native::SetSoundPitch
        | Native::SetSoundLooping
        | Native::SetAnimationPlaying
        | Native::SetAnimationSpeed
        | Native::SetParticlesPlaying
        | Native::SetEmissionRate
        | Native::QueueFree
        | Native::Emit => true,
        _ => false,
    }
}

/// A function that only writes gives back undefined, whether it wrote or not, unless reading its
/// arguments threw.
pub proof fn lemma_writers_answer_undefined(
    native: Native,
    args: Seq<JsValue>,
    before: Context,
    after: Context,
    result: Result<JsValue, JsError>,
)
    requires
        only_writes(native),
        answered(native, args, before, after, result),
    ensures
        result matches Ok(value) ==> engine::js_is_undefined(value),
{
}

/// A number that is not finite is never written: the host stays as it is, and the script gets
/// undefined.
pub proof fn lemma_unfit_number_is_not_written(
    native: Native,
    values: Seq<Value>,
    before: Host,
    after: Host,
    reply: Reply,
    start: Context,
    end: Context,
    value: JsValue,
)
    requires
        match native {
            Native::SetComponent => !single_of(values, 3).finite(),
            Native::SetVec => !vector_of(values, 2).finite(),
            Native::ApplyImpulse | Native::SetLinvel => !vector_of(values, 1).finite(),
            _ => false,
        },
        performed(native, values, before, after, reply),
        encoded(reply, start, end, value),
    ensures
        after == before,
        engine::js_is_undefined(value),
{
}

/// Looking for a name that no node has gives -1, and no number is given out.
pub proof fn lemma_unknown_name_is_minus_one(
    values: Seq<Value>,
    before: Host,
    after: Host,
    reply: Reply,
    start: Context,
    end: Context,
    value: JsValue,
)
    requires
        before.scene matches Some(scene) ==> forall|h: Handle| #[trigger]
            scene.nodes@.contains_key(h) ==> scene.nodes@[h].name@ != text_of(values, 0),
        before.wf(),
        performed(Native::Find, values, before, after, reply),
        encoded(reply, start, end, value),
    ensures
        after == before,
        value == engine::js_signed((-1) as i32),
{
    if let Some(scene) = before.scene {
        scene.nodes.lemma_order();
        assert forall|k: int| 0 <= k < scene.nodes.order().len() implies scene.nodes@.contains_key(
            #[trigger] scene.nodes.order()[k],
        ) by {
            assert(scene.nodes.order().contains(scene.nodes.order()[k]));
        }
    }
}

/// A call on a node that is gone changes nothing. Asked for its name it gives null, and asked
/// whether it is there, is shown or plays an animation it gives false.
pub proof fn lemma_gone_node_is_left_alone(
    native: Native,
    values: Seq<Value>,
    before: Host,
    after: Host,
    reply: Reply,
    start: Context,
    end: Context,
    value: JsValue,
)
    requires
        before.target(number_of(values, 0)) is None,
        native != Native::SelfId && native != Native::Find && native != Native::Emit,
        performed(native, values, before, after, reply),
        encoded(reply, start, end, value),
    ensures
        after == before,
        native == Native::GetName ==> engine::js_is_null(value),
        native == Native::IsValid || native == Native::GetVisible || native
            == Native::IsAnimationPlaying || native == Native::PlayAnimation ==> value
            == engine::js_flag(false),
{
}

} // verus!
