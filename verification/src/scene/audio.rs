//! Sounds on nodes, and their counterparts in the mixer.

use crate::numbers::{Mat4, Real, Vec3};
use crate::pool::{Handle, Pool};
use crate::scene::components::Spatial;
use crate::scene::graph;
use crate::scene::graph::Scene;
use crate::scene::node::Node;
use crate::scene::queries;
use crate::scene::update;
use crate::tree;
use vstd::prelude::*;

verus! {

/// What a sound is doing, or meant to do.
#[derive(Debug, Clone, Copy, PartialEq, Eq, Structural)]
pub enum Status {
    Playing,
    Paused,
    Stopped,
}

/// A sound on a node.
#[derive(Debug, Clone, Copy, PartialEq, Eq, Structural)]
pub struct SoundSource {
    /// Names the samples.
    pub buffer: u64,
    pub gain: Real,
    pub pitch: Real,
    pub looping: bool,
    pub spatial: Option<Spatial>,
    pub autoplay: bool,
    /// What it is meant to do.
    pub desired: Status,
    /// Its voice in the mixer, once there is one.
    pub native: Option<Handle>,
    /// A voice that it has given up and that the mixer is still to let go.
    pub outgoing: Option<Handle>,
    /// It was played to its end.
    pub finished: bool,
}

impl SoundSource {
    /// A sound that starts as soon as its samples are there.
    #[verifier::allow_in_spec]
    pub fn new(buffer: u64) -> SoundSource
        returns
            (SoundSource {
                buffer,
                gain: Real::one(),
                pitch: Real::one(),
                looping: false,
                spatial: None,
                autoplay: true,
                desired: Status::Playing,
                native: None,
                outgoing: None,
                finished: false,
            }),
    {
        SoundSource {
            buffer,
            gain: Real::one(),
            pitch: Real::one(),
            looping: false,
            spatial: None,
            autoplay: true,
            desired: Status::Playing,
            native: None,
            outgoing: None,
            finished: false,
        }
    }

    /// A sound that comes from its node's place.
    #[verifier::allow_in_spec]
    pub fn spatial(buffer: u64, spatial: Spatial) -> SoundSource
        returns
            (SoundSource { spatial: Some(spatial), ..SoundSource::new(buffer) }),
    {
        SoundSource { spatial: Some(spatial), ..SoundSource::new(buffer) }
    }

    /// The same sound with another loudness, which is never negative.
    pub fn with_gain(self, gain: Real) -> (result: Self)
        ensures
            result == (SoundSource { gain: gain.larger(Real::zero()), ..self }),
    {
        SoundSource { gain: gain.max(Real::zero()), ..self }
    }

    /// The same sound at another pitch, which is never negative.
    pub fn with_pitch(self, pitch: Real) -> (result: Self)
        ensures
            result == (SoundSource { pitch: pitch.larger(Real::zero()), ..self }),
    {
        SoundSource { pitch: pitch.max(Real::zero()), ..self }
    }

    /// The same sound, starting over at its end.
    #[verifier::allow_in_spec]
    pub fn looping(self) -> SoundSource
        returns
            (SoundSource { looping: true, ..self }),
    {
        SoundSource { looping: true, ..self }
    }

    /// The same sound, waiting to be played.
    #[verifier::allow_in_spec]
    pub fn paused(self) -> SoundSource
        returns
            (SoundSource { autoplay: false, desired: Status::Paused, ..self }),
    {
        SoundSource { autoplay: false, desired: Status::Paused, ..self }
    }

    pub fn buffer(&self) -> (result: u64)
        ensures
            result == self.buffer,
    {
        self.buffer
    }

    /// The same sound without its voice, which the mixer is to let go.
    pub open spec fn voiceless(self) -> SoundSource {
        SoundSource {
            native: None,
            outgoing: if self.native is Some {
                self.native
            } else {
                self.outgoing
            },
            ..self
        }
    }

    /// Gives the voice up.
    fn give_up_voice(&mut self)
        ensures
            *final(self) == old(self).voiceless(),
    {
        if self.native.is_some() {
            self.outgoing = self.native;
        }
        self.native = None;
    }

    /// Other samples. What is playing is stopped at the next tick, and a new voice may be made.
    pub fn set_buffer(&mut self, buffer: u64)
        ensures
            *final(self) == (SoundSource { buffer, finished: false, ..old(self).voiceless() }),
    {
        self.buffer = buffer;
        self.give_up_voice();
        self.finished = false;
    }

    pub fn status(&self) -> (result: Status)
        ensures
            result == self.desired,
    {
        self.desired
    }

    pub fn play(&mut self)
        ensures
            *final(self) == (SoundSource { desired: Status::Playing, ..*old(self) }),
    {
        self.desired = Status::Playing;
    }

    pub fn pause(&mut self)
        ensures
            *final(self) == (SoundSource { desired: Status::Paused, ..*old(self) }),
    {
        self.desired = Status::Paused;
    }

    pub fn stop(&mut self)
        ensures
            *final(self) == (SoundSource { desired: Status::Stopped, ..*old(self) }),
    {
        self.desired = Status::Stopped;
    }

    /// Plays from the beginning. What is playing is stopped at the next tick.
    pub fn restart(&mut self)
        ensures
            *final(self) == (SoundSource {
                finished: false,
                desired: Status::Playing,
                ..old(self).voiceless()
            }),
    {
        self.give_up_voice();
        self.finished = false;
        self.desired = Status::Playing;
    }

    pub fn is_finished(&self) -> (result: bool)
        ensures
            result == self.finished,
    {
        self.finished
    }

    pub fn native(&self) -> (result: Option<Handle>)
        ensures
            result == self.native,
    {
        self.native
    }
}

/// A sound as the mixer holds it.
#[derive(Debug, Clone, Copy, PartialEq, Eq, Structural)]
pub struct Voice {
    pub buffer: u64,
    pub position: Vec3,
    pub gain: Real,
    pub pitch: Real,
    pub looping: bool,
    pub spatial: Option<Spatial>,
    pub status: Status,
}

/// The voices that are being mixed. The mixer takes a voice out when it has played to its end.
pub struct Mixer {
    pub voices: Pool<Voice>,
    /// Where the ears are and which way they face; the mixer's own choice until a camera is on.
    pub listener: Option<Mat4>,
}

/// What ticking the sounds reads and writes.
#[verifier::ext_equal]
pub struct AudioState {
    pub nodes: Map<Handle, Node>,
    pub voices: Map<Handle, Voice>,
    /// The names of all voices that there are or have been.
    pub issued: Set<Handle>,
}

/// The voice of a sound that does what is wanted of it.
pub open spec fn voiced(source: SoundSource, buffer: u64, position: Vec3) -> Voice {
    Voice {
        buffer,
        position,
        gain: source.gain,
        pitch: source.pitch,
        looping: source.looping,
        spatial: source.spatial,
        status: source.desired,
    }
}

/// `a` once the voice that a sound has given up is out of the mixer.
pub open spec fn relieved(a: AudioState, h: Handle) -> AudioState {
    let node = a.nodes[h];
    let source = node.sound->0;
    match source.outgoing {
        Some(old) => AudioState {
            nodes: a.nodes.insert(
                h,
                Node { sound: Some(SoundSource { outgoing: None, ..source }), ..node },
            ),
            voices: a.voices.remove(old),
            ..a
        },
        None => a,
    }
}

/// A sound brought in step with its voice. A voice that is gone has played to its end. A new voice
/// is made only for a sound that was not played to its end, is not stopped, and whose samples are
/// there; its name was never used before.
pub open spec fn voice_ticked(a: AudioState, b: AudioState, h: Handle, ready: Seq<u64>) -> bool {
    let node = a.nodes[h];
    let source = node.sound->0;
    let position = node.global_transform.w_axis.truncate();
    match source.native {
        Some(native) => if a.voices.contains_key(native) {
            b == (AudioState {
                voices: a.voices.insert(
                    native,
                    voiced(source, a.voices[native].buffer, position),
                ),
                ..a
            })
        } else {
            b == (AudioState {
                nodes: a.nodes.insert(
                    h,
                    Node {
                        sound: Some(SoundSource { native: None, finished: true, ..source }),
                        ..node
                    },
                ),
                ..a
            })
        },
        None => if source.finished || source.desired == Status::Stopped || !ready.contains(
            source.buffer,
        ) {
            b == a
        } else {
            let native = b.nodes[h].sound->0.native;
            &&& native is Some
            &&& !a.issued.contains(native->0)
            &&& !a.voices.contains_key(native->0)
            &&& b == (AudioState {
                nodes: a.nodes.insert(
                    h,
                    Node { sound: Some(SoundSource { native, ..source }), ..node },
                ),
                voices: a.voices.insert(native->0, voiced(source, source.buffer, position)),
                issued: a.issued.insert(native->0),
            })
        },
    }
}

/// One sound ticked: the voice that it has given up leaves the mixer, and it is brought in step with
/// the one that it has, or gets.
pub open spec fn sound_ticked(a: AudioState, b: AudioState, h: Handle, ready: Seq<u64>) -> bool {
    if a.nodes.contains_key(h) && a.nodes[h].sound is Some {
        voice_ticked(relieved(a, h), b, h, ready)
    } else {
        b == a
    }
}

/// The sounds of a list ticked one after the other.
pub open spec fn sounds_ticked(
    states: Seq<AudioState>,
    list: Seq<Handle>,
    ready: Seq<u64>,
) -> bool {
    &&& states.len() == list.len() + 1
    &&& forall|i: int|
        0 <= i < list.len() ==> sound_ticked(states[i], states[i + 1], #[trigger] list[i], ready)
}

/// `voices` without one of them.
pub open spec fn without(voices: Map<Handle, Voice>, voice: Option<Handle>) -> Map<Handle, Voice> {
    match voice {
        Some(voice) => voices.remove(voice),
        None => voices,
    }
}

/// The sounds of a list silenced one after the other.
pub open spec fn silenced(state: AudioState, list: Seq<Handle>) -> AudioState
    decreases list.len(),
{
    if list.len() == 0 {
        state
    } else {
        let before = silenced(state, list.drop_last());
        let h = list.last();
        if before.nodes.contains_key(h) && before.nodes[h].sound is Some {
            let node = before.nodes[h];
            let source = node.sound->0;
            AudioState {
                nodes: before.nodes.insert(
                    h,
                    Node {
                        sound: Some(
                            SoundSource {
                                native: None,
                                outgoing: None,
                                finished: false,
                                ..source
                            },
                        ),
                        ..node
                    },
                ),
                voices: without(without(before.voices, source.native), source.outgoing),
                ..before
            }
        } else {
            before
        }
    }
}

fn holds(list: &Vec<u64>, value: u64) -> (result: bool)
    ensures
        result == list@.contains(value),
{
    let mut i: usize = 0;
    while i < list.len()
        invariant
            i <= list@.len(),
            forall|j: int| 0 <= j < i ==> list@[j] != value,
        decreases list@.len() - i,
    {
        if list[i] == value {
            assert(list@[i as int] == value);
            return true;
        }
        i += 1;
    }
    false
}

impl Mixer {
    /// A mixer without voices.
    pub fn new() -> (result: Self)
        ensures
            result.voices.wf(),
            result.voices@ == Map::<Handle, Voice>::empty(),
            result.voices.capacity() == 0,
            result.listener is None,
    {
        Mixer { voices: Pool::new(), listener: None }
    }
}

/// The ears are where the camera is that is looked through; without one they stay where they were.
pub open spec fn heard_from(scene: &Scene, before: Option<Mat4>, after: Option<Mat4>) -> bool {
    match queries::first_such(scene.index.cameras@, scene.filming()) {
        Some(h) => after == Some(scene.nodes@[h].global_transform),
        None => after == before,
    }
}

impl Scene {
    pub open spec fn audio_state(&self, mixer: &Mixer) -> AudioState {
        AudioState {
            nodes: self.nodes@,
            voices: mixer.voices@,
            issued: Set::new(|h: Handle| mixer.voices.issued(h)),
        }
    }

    /// Everything that ticking the sounds leaves alone is as in `before`.
    pub open spec fn audio_kept(&self, before: &Scene) -> bool {
        &&& self.tree() == before.tree()
        &&& self.nodes.capacity() == before.nodes.capacity()
        &&& self.index == before.index
        &&& self.physics == before.physics
        &&& self.rest_same(before)
    }

    /// The sounds that `before` lists were brought in step with the mixer, one after the other.
    pub open spec fn sounds_stepped(
        &self,
        mixer: &Mixer,
        before: &Scene,
        mixer_before: &Mixer,
        ready: Seq<u64>,
    ) -> bool {
        exists|states: Seq<AudioState>|
            {
                &&& #[trigger] sounds_ticked(states, before.index.sounds@, ready)
                &&& states[0] == before.audio_state(mixer_before)
                &&& states.last() == self.audio_state(mixer)
            }
    }

    fn tick_sound(&mut self, mixer: &mut Mixer, handle: Handle, ready: &Vec<u64>)
        requires
            old(self).wf(),
            old(mixer).voices.wf(),
            old(mixer).voices.capacity() < u32::MAX,
        ensures
            final(self).wf(),
            final(mixer).voices.wf(),
            final(self).audio_kept(old(self)),
            final(mixer).listener == old(mixer).listener,
            final(mixer).voices.capacity() <= old(mixer).voices.capacity() + 1,
            sound_ticked(
                old(self).audio_state(old(mixer)),
                final(self).audio_state(final(mixer)),
                handle,
                ready@,
            ),
    {
        let (source, position) = match self.nodes.try_borrow(handle) {
            Some(node) => match node.sound {
                Some(source) => (source, node.global_transform.w_axis.truncate()),
                None => {
                    return;
                },
            },
            None => {
                return;
            },
        };
        proof {
            graph::lemma_place_kept(self.nodes@, handle);
            mixer.voices.lemma_live_is_issued();
        }
        let mut source = source;
        if let Some(old) = source.outgoing {
            let _ = mixer.voices.free(old);
            source.outgoing = None;
            self.nodes.borrow_mut(handle).sound = Some(source);
        }
        let ghost rest = self.audio_state(mixer);
        proof {
            assert(rest.issued =~= old(self).audio_state(old(mixer)).issued);
            assert(rest == relieved(old(self).audio_state(old(mixer)), handle));
            graph::lemma_place_kept(self.nodes@, handle);
            mixer.voices.lemma_live_is_issued();
        }
        let mut changed = source;
        match source.native {
            Some(native) => match mixer.voices.try_borrow_mut(native) {
                Some(voice) => {
                    voice.position = position;
                    voice.gain = source.gain;
                    voice.pitch = source.pitch;
                    voice.looping = source.looping;
                    voice.spatial = source.spatial;
                    voice.status = source.desired;
                    assert(self.audio_state(mixer).issued =~= rest.issued);
                    return;
                },
                None => {
                    changed.native = None;
                    changed.finished = true;
                },
            },
            None => {
                if source.finished || source.desired == Status::Stopped || !holds(
                    ready,
                    source.buffer,
                ) {
                    return;
                }
                let voice = Voice {
                    buffer: source.buffer,
                    position,
                    gain: source.gain,
                    pitch: source.pitch,
                    looping: source.looping,
                    spatial: source.spatial,
                    status: source.desired,
                };
                changed.native = Some(mixer.voices.spawn(voice));
            },
        }
        self.nodes.borrow_mut(handle).sound = Some(changed);
        proof {
            if source.native is Some {
                assert(self.audio_state(mixer).issued =~= rest.issued);
            } else {
                assert(self.audio_state(mixer).issued =~= rest.issued.insert(changed.native->0));
            }
        }
    }

    /// Brings all sounds in step with the mixer; `ready` names the samples that are loaded. The
    /// ears are where the active camera is; without one they stay where they were.
    pub fn tick_audio(&mut self, mixer: &mut Mixer, ready: &Vec<u64>)
        requires
            old(self).wf(),
            old(mixer).voices.wf(),
            old(mixer).voices.capacity() + old(self).index.sounds@.len() <= u32::MAX,
        ensures
            heard_from(old(self), old(mixer).listener, final(mixer).listener),
            final(self).wf(),
            final(mixer).voices.wf(),
            final(self).audio_kept(old(self)),
            final(mixer).listener == match queries::first_such(
                old(self).index.cameras@,
                old(self).filming(),
            ) {
                Some(h) => Some(old(self).nodes@[h].global_transform),
                None => old(mixer).listener,
            },
            final(mixer).voices.capacity() <= old(mixer).voices.capacity() + old(
                self,
            ).index.sounds@.len(),
            final(self).sounds_stepped(final(mixer), old(self), old(mixer), ready@),
    {
        if let Some((place, _)) = self.active_camera() {
            mixer.listener = Some(place);
        }
        let ghost listener = mixer.listener;
        let ghost mut states: Seq<AudioState> = seq![self.audio_state(mixer)];
        let mut i: usize = 0;
        while i < self.index.sounds.len()
            invariant
                self.wf(),
                mixer.voices.wf(),
                i <= self.index.sounds@.len(),
                self.audio_kept(old(self)),
                mixer.listener == listener,
                mixer.voices.capacity() <= old(mixer).voices.capacity() + i,
                old(mixer).voices.capacity() + self.index.sounds@.len() <= u32::MAX,
                states.len() == i + 1,
                states[0] == old(self).audio_state(old(mixer)),
                states[i as int] == self.audio_state(mixer),
                forall|j: int|
                    0 <= j < i ==> sound_ticked(
                        states[j],
                        states[j + 1],
                        #[trigger] self.index.sounds@[j],
                        ready@,
                    ),
            decreases self.index.sounds@.len() - i,
        {
            let handle = self.index.sounds[i];
            self.tick_sound(mixer, handle, ready);
            proof {
                states = states.push(self.audio_state(mixer));
            }
            i += 1;
        }
        assert(sounds_ticked(states, old(self).index.sounds@, ready@));
    }

    /// Takes the voices of all sounds out of the mixer. The sounds may start anew.
    pub fn stop_all_sounds(&mut self, mixer: &mut Mixer)
        requires
            old(self).wf(),
            old(mixer).voices.wf(),
        ensures
            final(self).wf(),
            final(mixer).voices.wf(),
            final(self).audio_kept(old(self)),
            final(mixer).listener == old(mixer).listener,
            final(mixer).voices.capacity() == old(mixer).voices.capacity(),
            final(self).audio_state(final(mixer)) == silenced(
                old(self).audio_state(old(mixer)),
                old(self).index.sounds@,
            ),
    {
        let mut i: usize = 0;
        assert(self.index.sounds@.take(0) =~= Seq::<Handle>::empty());
        while i < self.index.sounds.len()
            invariant
                self.wf(),
                mixer.voices.wf(),
                i <= self.index.sounds@.len(),
                self.audio_kept(old(self)),
                mixer.listener == old(mixer).listener,
                mixer.voices.capacity() == old(mixer).voices.capacity(),
                self.audio_state(mixer) == silenced(
                    old(self).audio_state(old(mixer)),
                    self.index.sounds@.take(i as int),
                ),
            decreases self.index.sounds@.len() - i,
        {
            let handle = self.index.sounds[i];
            proof {
                let list = self.index.sounds@;
                assert(list.take(i + 1).drop_last() =~= list.take(i as int));
                graph::lemma_place_kept(self.nodes@, handle);
            }
            let ghost before = self.nodes@;
            let ghost issued = self.audio_state(mixer).issued;
            if let Some(node) = self.nodes.try_borrow_mut(handle) {
                if let Some(source) = &mut node.sound {
                    if let Some(native) = source.native {
                        let _ = mixer.voices.free(native);
                    }
                    if let Some(old) = source.outgoing {
                        let _ = mixer.voices.free(old);
                    }
                    source.native = None;
                    source.outgoing = None;
                    source.finished = false;
                }
            }
            proof {
                assert(self.audio_state(mixer).issued =~= issued);
                if !(before.contains_key(handle) && before[handle].sound is Some) {
                    assert(self.nodes@ =~= before);
                }
            }
            i += 1;
        }
        assert(self.index.sounds@.take(i as int) =~= self.index.sounds@);
    }
}

/// A sound that got other samples, or was restarted, stops what it was playing: once it is ticked,
/// the mixer does not hold the old voice any more.
pub proof fn lemma_old_voice_is_stopped(a: AudioState, b: AudioState, h: Handle, ready: Seq<u64>)
    requires
        sound_ticked(a, b, h, ready),
        a.nodes.contains_key(h),
        a.nodes[h].sound matches Some(source) && source.outgoing is Some,
        forall|v: Handle| #[trigger] a.voices.contains_key(v) ==> a.issued.contains(v),
        a.issued.contains(a.nodes[h].sound->0.outgoing->0),
    ensures
        !b.voices.contains_key(a.nodes[h].sound->0.outgoing->0),
        b.nodes[h].sound matches Some(source) && source.outgoing is None,
{
}

/// A sound that is ticked leaves all others as they were, and no voice comes back.
proof fn lemma_others_stay(a: AudioState, b: AudioState, g: Handle, h: Handle, ready: Seq<u64>)
    requires
        sound_ticked(a, b, g, ready),
        g != h,
    ensures
        b.nodes.contains_key(h) == a.nodes.contains_key(h),
        b.nodes[h] == a.nodes[h],
        a.issued.subset_of(b.issued),
        forall|v: Handle| #[trigger]
            b.voices.contains_key(v) && a.issued.contains(v) ==> a.voices.contains_key(v),
{
}

/// Up to the turn of a sound, ticking the scene leaves the sound as it was, and no voice comes back;
/// behind its turn it stays as it is.
proof fn lemma_turns(
    states: Seq<AudioState>,
    list: Seq<Handle>,
    ready: Seq<u64>,
    h: Handle,
    from: int,
    to: int,
)
    requires
        sounds_ticked(states, list, ready),
        0 <= from <= to <= list.len(),
        forall|i: int| from <= i < to ==> #[trigger] list[i] != h,
    ensures
        states[to].nodes.contains_key(h) == states[from].nodes.contains_key(h),
        states[to].nodes[h] == states[from].nodes[h],
        states[from].issued.subset_of(states[to].issued),
        forall|v: Handle| #[trigger]
            states[to].voices.contains_key(v) && states[from].issued.contains(v)
                ==> states[from].voices.contains_key(v),
    decreases to - from,
{
    if from < to {
        lemma_turns(states, list, ready, h, from, to - 1);
        assert(list[to - 1] != h);
        lemma_others_stay(states[to - 1], states[to], list[to - 1], h, ready);
    }
}

/// Once the scene is ticked, the mixer does not hold the voice any more that a sound has given up.
pub proof fn lemma_given_up_voice_leaves(
    states: Seq<AudioState>,
    list: Seq<Handle>,
    ready: Seq<u64>,
    h: Handle,
)
    requires
        sounds_ticked(states, list, ready),
        list.no_duplicates(),
        list.contains(h),
        states[0].nodes.contains_key(h),
        states[0].nodes[h].sound matches Some(source) && (source.outgoing matches Some(old)
            && states[0].issued.contains(old)),
    ensures
        !states.last().voices.contains_key(states[0].nodes[h].sound->0.outgoing->0),
{
    let turn = list.index_of(h);
    assert forall|i: int| 0 <= i < list.len() && i != turn implies #[trigger] list[i] != h by {}
    lemma_turns(states, list, ready, h, 0, turn);
    assert(list[turn] == h);
    assert(sound_ticked(states[turn], states[turn + 1], h, ready));
    lemma_turns(states, list, ready, h, turn + 1, list.len() as int);
}

/// A sound that has no voice, or whose voice has left the mixer.
pub open spec fn played_out(state: AudioState, h: Handle) -> bool {
    &&& state.nodes.contains_key(h)
    &&& state.nodes[h].sound matches Some(source) && match source.native {
        Some(voice) => state.issued.contains(voice) && !state.voices.contains_key(voice),
        None => source.finished,
    }
}

/// A sound that was played to its end and has no voice.
pub open spec fn quiet(state: AudioState, h: Handle) -> bool {
    &&& state.nodes.contains_key(h)
    &&& state.nodes[h].sound matches Some(source) && {
        &&& source.finished
        &&& source.native is None
        &&& source.outgoing is None
    }
}

/// Once the scene is ticked, a sound that was played to its end is finished and has no voice.
pub proof fn lemma_played_out_is_quiet(
    states: Seq<AudioState>,
    list: Seq<Handle>,
    ready: Seq<u64>,
    h: Handle,
)
    requires
        sounds_ticked(states, list, ready),
        list.no_duplicates(),
        list.contains(h),
        played_out(states[0], h),
    ensures
        quiet(states.last(), h),
{
    let turn = list.index_of(h);
    assert forall|i: int| 0 <= i < list.len() && i != turn implies #[trigger] list[i] != h by {}
    lemma_turns(states, list, ready, h, 0, turn);
    assert(list[turn] == h);
    assert(sound_ticked(states[turn], states[turn + 1], h, ready));
    lemma_turns(states, list, ready, h, turn + 1, list.len() as int);
}

/// The whole scene ticked time and again. Whatever happens in between to the mixer and to the rest
/// of the scene, the sound itself is not touched.
pub open spec fn rounds(
    ticks: Seq<Seq<AudioState>>,
    lists: Seq<Seq<Handle>>,
    readies: Seq<Seq<u64>>,
    h: Handle,
) -> bool {
    &&& lists.len() == ticks.len()
    &&& readies.len() == ticks.len()
    &&& forall|i: int|
        0 <= i < ticks.len() ==> {
            &&& sounds_ticked(#[trigger] ticks[i], lists[i], readies[i])
            &&& lists[i].no_duplicates()
            &&& lists[i].contains(h)
        }
    &&& forall|i: int|
        0 < i < ticks.len() ==> {
            &&& (#[trigger] ticks[i])[0].nodes.contains_key(h)
            &&& ticks[i][0].nodes[h].sound == ticks[i - 1].last().nodes[h].sound
        }
}

/// A sound that was played to its end gets no voice again, however often the scene is ticked, until
/// it is restarted or gets other samples or all sounds are stopped: it is finished and has no voice
/// after each of the ticks.
pub proof fn lemma_finished_stays_finished(
    ticks: Seq<Seq<AudioState>>,
    lists: Seq<Seq<Handle>>,
    readies: Seq<Seq<u64>>,
    h: Handle,
)
    requires
        rounds(ticks, lists, readies, h),
        ticks.len() > 0,
        played_out(ticks[0][0], h),
    ensures
        forall|i: int| 0 <= i < ticks.len() ==> quiet((#[trigger] ticks[i]).last(), h),
{
    assert forall|i: int| 0 <= i < ticks.len() implies quiet((#[trigger] ticks[i]).last(), h) by {
        lemma_quiet_after(ticks, lists, readies, h, i);
    }
}

proof fn lemma_quiet_after(
    ticks: Seq<Seq<AudioState>>,
    lists: Seq<Seq<Handle>>,
    readies: Seq<Seq<u64>>,
    h: Handle,
    i: int,
)
    requires
        rounds(ticks, lists, readies, h),
        0 <= i < ticks.len(),
        played_out(ticks[0][0], h),
    ensures
        quiet(ticks[i].last(), h),
    decreases i,
{
    if i > 0 {
        lemma_quiet_after(ticks, lists, readies, h, i - 1);
        assert(played_out(ticks[i][0], h));
    }
    lemma_played_out_is_quiet(ticks[i], lists[i], readies[i], h);
}

/// In its turn `h` adds one voice to the mixer, and no other.
pub open spec fn voiced_once(
    states: Seq<AudioState>,
    list: Seq<Handle>,
    h: Handle,
    voice: Handle,
) -> bool {
    exists|turn: int|
        {
            &&& 0 <= turn < list.len()
            &&& list[turn] == h
            &&& (#[trigger] states[turn + 1]).voices.dom() == relieved(
                states[turn],
                h,
            ).voices.dom().insert(voice)
        }
}

/// A sound that was restarted gets exactly one voice when the scene is next ticked, provided that its
/// samples are there: one whose name was never used before. It is not finished any more.
pub proof fn lemma_restarted_plays(
    states: Seq<AudioState>,
    list: Seq<Handle>,
    ready: Seq<u64>,
    h: Handle,
)
    requires
        sounds_ticked(states, list, ready),
        list.no_duplicates(),
        list.contains(h),
        states[0].nodes.contains_key(h),
        states[0].nodes[h].sound matches Some(source) && {
            &&& source.native is None
            &&& !source.finished
            &&& source.desired == Status::Playing
            &&& ready.contains(source.buffer)
        },
    ensures
        states.last().nodes.contains_key(h),
        states.last().nodes[h].sound matches Some(source) && {
            &&& !source.finished
            &&& source.native matches Some(voice) && {
                &&& !states[0].issued.contains(voice)
                &&& voiced_once(states, list, h, voice)
            }
        },
{
    let turn = list.index_of(h);
    assert forall|i: int| 0 <= i < list.len() && i != turn implies #[trigger] list[i] != h by {}
    lemma_turns(states, list, ready, h, 0, turn);
    assert(list[turn] == h);
    assert(sound_ticked(states[turn], states[turn + 1], h, ready));
    lemma_turns(states, list, ready, h, turn + 1, list.len() as int);
    let voice = states[turn + 1].nodes[h].sound->0.native->0;
    assert(states[turn + 1].voices.dom() =~= relieved(states[turn], h).voices.dom().insert(voice));
}

/// A sound that was played to its end stays silent: ticking it makes no voice and leaves it
/// finished, until it is restarted or gets other samples.
pub proof fn lemma_finished_stays_quiet(a: AudioState, b: AudioState, h: Handle, ready: Seq<u64>)
    requires
        sound_ticked(a, b, h, ready),
        a.nodes.contains_key(h),
        quiet(a, h),
    ensures
        b == a,
{
}

/// A sound whose voice has left the mixer is finished, and the voice is forgotten.
pub proof fn lemma_gone_voice_is_finished(a: AudioState, b: AudioState, h: Handle, ready: Seq<u64>)
    requires
        sound_ticked(a, b, h, ready),
        a.nodes.contains_key(h),
        a.nodes[h].sound matches Some(source) && source.outgoing is None && (
        source.native matches Some(native) && !a.voices.contains_key(native)),
    ensures
        b.nodes[h].sound matches Some(source) && source.finished && source.native is None,
        b.voices == a.voices,
{
}

/// `scene` is what updating `before` leaves, as far as the sounds go.
pub open spec fn relisted(scene: &Scene, before: &Scene) -> bool {
    &&& scene.index.collects(before.nodes@, tree::preorder(before.tree(), before.root))
    &&& scene.nodes@.dom() == before.nodes@.dom()
    &&& forall|h: Handle| #[trigger]
        before.nodes@.contains_key(h) ==> scene.nodes@[h] == (Node {
            global_visible: update::shown(before.nodes@, h),
            ..before.nodes@[h]
        })
}

/// A scene that was updated lists each of its sounds once.
pub proof fn lemma_sounds_are_listed(scene: &Scene, before: &Scene, h: Handle)
    requires
        before.wf(),
        relisted(scene, before),
        scene.nodes@.contains_key(h),
        scene.nodes@[h].sound is Some,
    ensures
        scene.index.sounds@.no_duplicates(),
        scene.index.sounds@.contains(h),
{
    let t = before.tree();
    let order = tree::preorder(t, before.root);
    assert(before.nodes@.contains_key(h));
    tree::lemma_preorder_no_duplicates(t, before.root, before.root);
    tree::lemma_all_below_root(t, before.root, h);
    update::lemma_listed(before.nodes@, order, update::Component::Sound);
}

/// Ticks that follow each other: tick `i` finds the mixer as `found[i]` and leaves it as `left[i]`.
/// What the mixer does between two ticks is left open.
pub open spec fn ticked_on(
    scenes: Seq<Scene>,
    found: Seq<Mixer>,
    left: Seq<Mixer>,
    readies: Seq<Seq<u64>>,
) -> bool {
    &&& scenes.len() == readies.len() + 1
    &&& found.len() == readies.len()
    &&& left.len() == readies.len()
    &&& forall|i: int|
        0 <= i < readies.len() ==> {
            &&& scenes[i + 1].audio_kept(&scenes[i])
            &&& scenes[i + 1].sounds_stepped(&left[i], &scenes[i], &found[i], #[trigger] readies[i])
        }
}

/// After an update, a sound whose voice the mixer no longer holds stays silent however often the
/// scene is ticked: after each tick it is finished and has no voice.
pub proof fn lemma_ended_sound_stays_silent(
    before: &Scene,
    scenes: Seq<Scene>,
    found: Seq<Mixer>,
    left: Seq<Mixer>,
    readies: Seq<Seq<u64>>,
    h: Handle,
)
    requires
        before.wf(),
        ticked_on(scenes, found, left, readies),
        readies.len() > 0,
        relisted(&scenes[0], before),
        played_out(scenes[0].audio_state(&found[0]), h),
    ensures
        forall|i: int|
            0 < i < scenes.len() ==> quiet(
                (#[trigger] scenes[i]).audio_state(&left[i - 1]),
                h,
            ),
{
    lemma_sounds_are_listed(&scenes[0], before, h);
    assert forall|i: int| 0 < i < scenes.len() implies quiet(
        (#[trigger] scenes[i]).audio_state(&left[i - 1]),
        h,
    ) by {
        lemma_silent_after(scenes, found, left, readies, h, i);
    }
}

proof fn lemma_silent_after(
    scenes: Seq<Scene>,
    found: Seq<Mixer>,
    left: Seq<Mixer>,
    readies: Seq<Seq<u64>>,
    h: Handle,
    i: int,
)
    requires
        ticked_on(scenes, found, left, readies),
        0 < i < scenes.len(),
        scenes[0].index.sounds@.no_duplicates(),
        scenes[0].index.sounds@.contains(h),
        played_out(scenes[0].audio_state(&found[0]), h),
    ensures
        scenes[i].index == scenes[0].index,
        quiet(scenes[i].audio_state(&left[i - 1]), h),
    decreases i,
{
    if i > 1 {
        lemma_silent_after(scenes, found, left, readies, h, i - 1);
    }
    let ready = readies[i - 1];
    let list = scenes[i - 1].index.sounds@;
    let states = choose|states: Seq<AudioState>|
        {
            &&& #[trigger] sounds_ticked(states, list, ready)
            &&& states[0] == scenes[i - 1].audio_state(&found[i - 1])
            &&& states.last() == scenes[i].audio_state(&left[i - 1])
        };
    lemma_played_out_is_quiet(states, list, ready, h);
}

/// The voices that sounds are about to give up were made by the mixer.
pub open spec fn leaving_known(state: AudioState) -> bool {
    forall|x: Handle| #[trigger]
        state.nodes.contains_key(x) && state.nodes[x].sound is Some
            && state.nodes[x].sound->0.outgoing is Some ==> state.issued.contains(
            state.nodes[x].sound->0.outgoing->0,
        )
}

/// A voice that is new in this tick is in the mixer when the tick is over.
proof fn lemma_new_voice_stays(
    states: Seq<AudioState>,
    list: Seq<Handle>,
    ready: Seq<u64>,
    voice: Handle,
    from: int,
    to: int,
)
    requires
        sounds_ticked(states, list, ready),
        list.no_duplicates(),
        leaving_known(states[0]),
        !states[0].issued.contains(voice),
        0 <= from <= to <= list.len(),
        states[from].voices.contains_key(voice),
    ensures
        states[to].voices.contains_key(voice),
    decreases to - from,
{
    if from < to {
        lemma_new_voice_stays(states, list, ready, voice, from, to - 1);
        let x = list[to - 1];
        assert forall|i: int| 0 <= i < to - 1 implies #[trigger] list[i] != x by {}
        lemma_turns(states, list, ready, x, 0, to - 1);
        assert(sound_ticked(states[to - 1], states[to], x, ready));
        assert(states[0].nodes.contains_key(x) == states[to - 1].nodes.contains_key(x));
    }
}

/// After an update, a sound that was restarted and whose samples are there gets exactly one voice at
/// the next tick, under a name that the mixer never used before, and the mixer holds it.
pub proof fn lemma_restarted_sound_is_heard(
    before: &Scene,
    scene: &Scene,
    found: &Mixer,
    after: &Scene,
    left: &Mixer,
    ready: Seq<u64>,
    h: Handle,
)
    requires
        before.wf(),
        relisted(scene, before),
        after.sounds_stepped(left, scene, found, ready),
        leaving_known(scene.audio_state(found)),
        scene.nodes@.contains_key(h),
        scene.nodes@[h].sound matches Some(source) && {
            &&& source.native is None
            &&& !source.finished
            &&& source.desired == Status::Playing
            &&& ready.contains(source.buffer)
        },
    ensures
        after.nodes@.contains_key(h),
        after.nodes@[h].sound matches Some(source) && {
            &&& !source.finished
            &&& source.native matches Some(voice) && {
                &&& !found.voices.issued(voice)
                &&& left.voices@.contains_key(voice)
                &&& exists|states: Seq<AudioState>|
                    {
                        &&& #[trigger] sounds_ticked(states, scene.index.sounds@, ready)
                        &&& states[0] == scene.audio_state(found)
                        &&& states.last() == after.audio_state(left)
                        &&& voiced_once(states, scene.index.sounds@, h, voice)
                    }
            }
        },
{
    lemma_sounds_are_listed(scene, before, h);
    let list = scene.index.sounds@;
    let states = choose|states: Seq<AudioState>|
        {
            &&& #[trigger] sounds_ticked(states, list, ready)
            &&& states[0] == scene.audio_state(found)
            &&& states.last() == after.audio_state(left)
        };
    lemma_restarted_plays(states, list, ready, h);
    let voice = after.nodes@[h].sound->0.native->0;
    let turn = choose|turn: int|
        {
            &&& 0 <= turn < list.len()
            &&& list[turn] == h
            &&& (#[trigger] states[turn + 1]).voices.dom() == relieved(
                states[turn],
                h,
            ).voices.dom().insert(voice)
        };
    assert(states[turn + 1].voices.dom().contains(voice));
    lemma_new_voice_stays(states, list, ready, voice, turn + 1, list.len() as int);
}

/// The voices that sounds have or are about to give up were made by the mixer, and none of them is
/// shared: no two sounds have one voice, and none has a voice that some sound is about to give up.
pub open spec fn voices_apart(state: AudioState) -> bool {
    &&& leaving_known(state)
    &&& forall|x: Handle| #[trigger]
        state.nodes.contains_key(x) && state.nodes[x].sound is Some
            && state.nodes[x].sound->0.native is Some ==> state.issued.contains(
            state.nodes[x].sound->0.native->0,
        )
    &&& forall|x: Handle, y: Handle|
        #![trigger state.nodes.contains_key(x), state.nodes.contains_key(y)]
        state.nodes.contains_key(x) && state.nodes.contains_key(y) && state.nodes[x].sound is Some
            && state.nodes[y].sound is Some && state.nodes[x].sound->0.native is Some ==> {
            &&& x != y ==> state.nodes[x].sound->0.native != state.nodes[y].sound->0.native
            &&& state.nodes[x].sound->0.native != state.nodes[y].sound->0.outgoing
        }
}

/// None of the sounds that have their turn from `from` on up to `to` has a voice or gives it up.
spec fn strange(states: Seq<AudioState>, list: Seq<Handle>, v: Handle, from: int, to: int) -> bool {
    forall|i: int|
        from <= i < to && states[0].nodes.contains_key(#[trigger] list[i])
            && states[0].nodes[list[i]].sound is Some ==> {
            &&& states[0].nodes[list[i]].sound->0.native != Some(v)
            &&& states[0].nodes[list[i]].sound->0.outgoing != Some(v)
        }
}

proof fn lemma_voice_is_left_alone(
    states: Seq<AudioState>,
    list: Seq<Handle>,
    ready: Seq<u64>,
    v: Handle,
    from: int,
    to: int,
)
    requires
        sounds_ticked(states, list, ready),
        list.no_duplicates(),
        0 <= from <= to <= list.len(),
        strange(states, list, v, from, to),
        states[from].issued.contains(v),
    ensures
        states[to].issued.contains(v),
        states[to].voices.contains_key(v) == states[from].voices.contains_key(v),
        states[to].voices.contains_key(v) ==> states[to].voices[v] == states[from].voices[v],
    decreases to - from,
{
    if from < to {
        lemma_voice_is_left_alone(states, list, ready, v, from, to - 1);
        let x = list[to - 1];
        assert forall|i: int| 0 <= i < to - 1 implies #[trigger] list[i] != x by {}
        lemma_turns(states, list, ready, x, 0, to - 1);
        assert(sound_ticked(states[to - 1], states[to], x, ready));
    }
}

/// Apart from `h`, no sound has the voice of `h` or gives it up.
proof fn lemma_strange(states: Seq<AudioState>, list: Seq<Handle>, h: Handle, from: int, to: int)
    requires
        voices_apart(states[0]),
        states[0].nodes.contains_key(h),
        states[0].nodes[h].sound is Some,
        states[0].nodes[h].sound->0.native is Some,
        0 <= from <= to <= list.len(),
        forall|i: int| from <= i < to ==> #[trigger] list[i] != h,
    ensures
        strange(states, list, states[0].nodes[h].sound->0.native->0, from, to),
{
}

/// One sound at its turn: it and its voice agree in every setting.
pub proof fn lemma_turn_brings_in_step(a: AudioState, b: AudioState, h: Handle, ready: Seq<u64>)
    requires
        sound_ticked(a, b, h, ready),
        a.nodes.contains_key(h),
        a.nodes[h].sound is Some,
        a.nodes[h].sound->0.native is None || a.nodes[h].sound->0.native
            != a.nodes[h].sound->0.outgoing,
    ensures
        b.nodes.contains_key(h),
        b.nodes[h].sound is Some,
        ({
            let was = a.nodes[h].sound->0;
            let is = b.nodes[h].sound->0;
            let place = a.nodes[h].global_transform.w_axis;
            &&& is.native matches Some(v) ==> {
                &&& b.issued.contains(v) || was.native == Some(v)
                &&& b.voices.contains_key(v)
                &&& b.voices[v].gain == is.gain
                &&& b.voices[v].pitch == is.pitch
                &&& b.voices[v].looping == is.looping
                &&& b.voices[v].spatial == is.spatial
                &&& b.voices[v].status == is.desired
                &&& b.voices[v].position.x == place.x
                &&& b.voices[v].position.y == place.y
                &&& b.voices[v].position.z == place.z
            }
            &&& was.native is Some && a.voices.contains_key(was.native->0) ==> {
                &&& is.native == was.native
                &&& is.finished == was.finished
                &&& b.voices[was.native->0].buffer == a.voices[was.native->0].buffer
            }
            &&& was.native is Some && !a.voices.contains_key(was.native->0) ==> is.native is None
                && is.finished
            &&& was.native is None ==> {
                &&& is.native is Some <==> !was.finished && was.desired != Status::Stopped
                    && ready.contains(was.buffer)
                &&& is.native matches Some(v) ==> b.voices[v].buffer == was.buffer
                    && !a.issued.contains(v)
                &&& is.finished == was.finished
            }
            &&& is.buffer == was.buffer
            &&& is.gain == was.gain
            &&& is.pitch == was.pitch
            &&& is.looping == was.looping
            &&& is.spatial == was.spatial
            &&& is.desired == was.desired
            &&& is.outgoing is None
        }),
        b.nodes[h].transform == a.nodes[h].transform,
        b.nodes[h].global_transform == a.nodes[h].global_transform,
        b.nodes[h].visible == a.nodes[h].visible,
        a.issued.subset_of(b.issued),
{
}

/// No sound has a voice that was not made when the tick began.
proof fn lemma_new_voice_is_strange(
    states: Seq<AudioState>,
    list: Seq<Handle>,
    v: Handle,
    from: int,
    to: int,
)
    requires
        voices_apart(states[0]),
        !states[0].issued.contains(v),
    ensures
        strange(states, list, v, from, to),
{
}

/// After a tick, a listed sound and its voice agree in every setting, and the voice is where the node
/// is. A sound keeps its voice as long as the mixer has it, with the samples that the voice was made
/// with; one without a voice gets one, with its own samples, exactly if it was not played to its
/// end, is not stopped, and its samples are there; one whose voice is gone is finished. What is
/// wanted of the sound stays as it is.
pub proof fn lemma_voice_agrees_with_its_sound(
    scene: &Scene,
    found: &Mixer,
    after: &Scene,
    left: &Mixer,
    ready: Seq<u64>,
    h: Handle,
)
    requires
        after.sounds_stepped(left, scene, found, ready),
        scene.index.sounds@.no_duplicates(),
        scene.index.sounds@.contains(h),
        scene.nodes@.contains_key(h),
        scene.nodes@[h].sound is Some,
        voices_apart(scene.audio_state(found)),
    ensures
        after.nodes@.contains_key(h),
        after.nodes@[h].sound is Some,
        ({
            let was = scene.nodes@[h].sound->0;
            let is = after.nodes@[h].sound->0;
            let place = scene.nodes@[h].global_transform.w_axis;
            &&& is.native matches Some(v) ==> {
                &&& left.voices@.contains_key(v)
                &&& left.voices@[v].gain == is.gain
                &&& left.voices@[v].pitch == is.pitch
                &&& left.voices@[v].looping == is.looping
                &&& left.voices@[v].spatial == is.spatial
                &&& left.voices@[v].status == is.desired
                &&& left.voices@[v].position.x == place.x
                &&& left.voices@[v].position.y == place.y
                &&& left.voices@[v].position.z == place.z
            }
            &&& was.native is Some && found.voices@.contains_key(was.native->0) ==> {
                &&& is.native == was.native
                &&& is.finished == was.finished
                &&& left.voices@[was.native->0].buffer == found.voices@[was.native->0].buffer
            }
            &&& was.native is Some && !found.voices@.contains_key(was.native->0) ==> is.native
                is None && is.finished
            &&& was.native is None ==> {
                &&& is.native is Some <==> !was.finished && was.desired != Status::Stopped
                    && ready.contains(was.buffer)
                &&& is.native matches Some(v) ==> left.voices@[v].buffer == was.buffer
                    && !found.voices.issued(v)
                &&& is.finished == was.finished
            }
            &&& is.buffer == was.buffer
            &&& is.gain == was.gain
            &&& is.pitch == was.pitch
            &&& is.looping == was.looping
            &&& is.spatial == was.spatial
            &&& is.desired == was.desired
            &&& is.outgoing is None
            &&& was.outgoing matches Some(v) ==> !left.voices@.contains_key(v)
        }),
        after.nodes@[h].transform == scene.nodes@[h].transform,
        after.nodes@[h].global_transform == scene.nodes@[h].global_transform,
        after.nodes@[h].visible == scene.nodes@[h].visible,
{
    let list = scene.index.sounds@;
    let states = choose|states: Seq<AudioState>|
        {
            &&& #[trigger] sounds_ticked(states, list, ready)
            &&& states[0] == scene.audio_state(found)
            &&& states.last() == after.audio_state(left)
        };
    let turn = list.index_of(h);
    let n = list.len() as int;
    let was = scene.nodes@[h].sound->0;
    assert forall|i: int| 0 <= i < n && i != turn implies #[trigger] list[i] != h by {}
    lemma_turns(states, list, ready, h, 0, turn);
    assert(list[turn] == h);
    assert(sound_ticked(states[turn], states[turn + 1], h, ready));
    assert(states[0].nodes.contains_key(h));
    lemma_turn_brings_in_step(states[turn], states[turn + 1], h, ready);
    lemma_turns(states, list, ready, h, turn + 1, n);
    if was.native is Some {
        let v = was.native->0;
        lemma_strange(states, list, h, 0, turn);
        lemma_strange(states, list, h, turn + 1, n);
        lemma_voice_is_left_alone(states, list, ready, v, 0, turn);
        lemma_voice_is_left_alone(states, list, ready, v, turn + 1, n);
    } else if states[turn + 1].nodes[h].sound->0.native is Some {
        let v = states[turn + 1].nodes[h].sound->0.native->0;
        assert(!states[0].issued.contains(v));
        lemma_new_voice_is_strange(states, list, v, turn + 1, n);
        lemma_voice_is_left_alone(states, list, ready, v, turn + 1, n);
    }
    if was.outgoing is Some {
        lemma_given_up_voice_leaves(states, list, ready, h);
    }
}

/// A voice that no sound has and none is about to give up is left alone.
pub proof fn lemma_other_voices_stay(
    scene: &Scene,
    found: &Mixer,
    after: &Scene,
    left: &Mixer,
    ready: Seq<u64>,
    v: Handle,
)
    requires
        after.sounds_stepped(left, scene, found, ready),
        scene.index.sounds@.no_duplicates(),
        found.voices.issued(v),
        forall|x: Handle| #[trigger]
            scene.nodes@.contains_key(x) && scene.nodes@[x].sound is Some ==> {
                &&& scene.nodes@[x].sound->0.native != Some(v)
                &&& scene.nodes@[x].sound->0.outgoing != Some(v)
            },
    ensures
        left.voices@.contains_key(v) == found.voices@.contains_key(v),
        left.voices@.contains_key(v) ==> left.voices@[v] == found.voices@[v],
{
    let list = scene.index.sounds@;
    let states = choose|states: Seq<AudioState>|
        {
            &&& #[trigger] sounds_ticked(states, list, ready)
            &&& states[0] == scene.audio_state(found)
            &&& states.last() == after.audio_state(left)
        };
    lemma_voice_is_left_alone(states, list, ready, v, 0, list.len() as int);
}

/// The voices that a sound has or is about to give up.
pub open spec fn belongs(source: SoundSource, v: Handle) -> bool {
    source.native == Some(v) || source.outgoing == Some(v)
}

/// Once all sounds are stopped, a listed sound has no voice, none that it had is in the mixer, and it
/// may be played again; everything that is wanted of it, and all else that its node carries, stays. A
/// sound that is not listed is left alone, and so is every voice that no listed sound has.
pub proof fn lemma_stopped_sounds_have_no_voices(
    state: AudioState,
    list: Seq<Handle>,
    h: Handle,
    v: Handle,
)
    requires
        list.no_duplicates(),
        state.nodes.contains_key(h),
        state.nodes[h].sound is Some,
    ensures
        ({
            let after = silenced(state, list);
            let was = state.nodes[h].sound->0;
            let now = after.nodes[h].sound->0;
            &&& after.nodes.contains_key(h)
            &&& after.nodes[h].sound is Some
            &&& list.contains(h) ==> {
                &&& now.native is None
                &&& now.outgoing is None
                &&& !now.finished
                &&& now.buffer == was.buffer
                &&& now.gain == was.gain
                &&& now.pitch == was.pitch
                &&& now.looping == was.looping
                &&& now.spatial == was.spatial
                &&& now.desired == was.desired
                &&& now.autoplay == was.autoplay
                &&& after.nodes[h].transform == state.nodes[h].transform
                &&& after.nodes[h].name == state.nodes[h].name
                &&& after.nodes[h].visible == state.nodes[h].visible
                &&& belongs(was, v) ==> !after.voices.contains_key(v)
            }
            &&& !list.contains(h) ==> after.nodes[h] == state.nodes[h]
            &&& after.voices.contains_key(v) ==> state.voices.contains_key(v) && after.voices[v]
                == state.voices[v]
            &&& (forall|x: Handle|
                list.contains(x) && #[trigger] state.nodes.contains_key(x) && state.nodes[x].sound
                    is Some ==> !belongs(state.nodes[x].sound->0, v)) && state.voices.contains_key(v)
                ==> after.voices.contains_key(v)
        }),
    decreases list.len(),
{
    if list.len() > 0 {
        let front = list.drop_last();
        let last = list.last();
        assert(front.no_duplicates());
        lemma_stopped_sounds_have_no_voices(state, front, h, v);
        assert(list[list.len() - 1] == last);
        assert forall|x: Handle| front.contains(x) implies list.contains(x) && x != last by {
            let i = choose|i: int| 0 <= i < front.len() && front[i] == x;
            assert(list[i] == x);
        }
        assert forall|x: Handle| list.contains(x) && x != last implies front.contains(x) by {
            let i = choose|i: int| 0 <= i < list.len() && list[i] == x;
            assert(front[i] == x);
        }
        assert(list.contains(last));
        if state.nodes.contains_key(last) && state.nodes[last].sound is Some {
            lemma_stopped_sounds_have_no_voices(state, front, last, v);
        } else {
            lemma_silence_adds_no_sound(state, front, last);
        }
    }
}

proof fn lemma_silence_adds_no_sound(state: AudioState, list: Seq<Handle>, x: Handle)
    requires
        !(state.nodes.contains_key(x) && state.nodes[x].sound is Some),
    ensures
        silenced(state, list).nodes.contains_key(x) == state.nodes.contains_key(x),
        state.nodes.contains_key(x) ==> silenced(state, list).nodes[x] == state.nodes[x],
    decreases list.len(),
{
    if list.len() > 0 {
        lemma_silence_adds_no_sound(state, list.drop_last(), x);
    }
}

/// Sounds are heard from where the first camera of the index stands that is on and shown; where there
/// is none, from where they were heard before.
pub proof fn lemma_ears_are_at_the_camera(
    scene: &Scene,
    before: Option<Mat4>,
    after: Option<Mat4>,
    k: int,
)
    requires
        heard_from(scene, before, after),
        0 <= k <= scene.index.cameras@.len(),
        k < scene.index.cameras@.len() ==> queries::films(scene, scene.index.cameras@[k]),
        forall|j: int| 0 <= j < k ==> !queries::films(scene, #[trigger] scene.index.cameras@[j]),
    ensures
        k < scene.index.cameras@.len() ==> after == Some(
            scene.nodes@[scene.index.cameras@[k]].global_transform,
        ),
        k == scene.index.cameras@.len() ==> after == before,
{
    queries::lemma_first_camera_is_active(scene, k);
}

/// A sound that gives its voice up has none, and the mixer is to let go the one that it had; all that
/// is wanted of it stays.
pub proof fn lemma_voice_is_given_up(source: SoundSource)
    ensures
        source.voiceless().native is None,
        source.native is Some ==> source.voiceless().outgoing == source.native,
        source.native is None ==> source.voiceless().outgoing == source.outgoing,
        source.voiceless().buffer == source.buffer,
        source.voiceless().gain == source.gain,
        source.voiceless().pitch == source.pitch,
        source.voiceless().looping == source.looping,
        source.voiceless().spatial == source.spatial,
        source.voiceless().desired == source.desired,
        source.voiceless().finished == source.finished,
{
}

} // verus!
