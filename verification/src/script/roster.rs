//! The running instances of scripts: which there are, which is whose turn, and which are out.

use crate::pool::Handle;
use crate::scene::graph::Scene;
use boa_engine::JsValue;
use vstd::prelude::*;

verus! {

/// The number of an instance.
#[derive(Debug, Clone, Copy, PartialEq, Eq, Hash, Structural)]
pub struct InstanceId(pub u32);

/// Why an instance is out.
#[derive(Debug)]
pub struct ScriptError {
    /// The method that failed.
    pub method: String,
    /// The script that it belongs to.
    pub script: String,
    pub message: String,
}

/// What happened in a frame.
#[derive(Debug, Clone, Copy, PartialEq, Eq, Structural)]
pub struct ScriptStats {
    /// How many instances ran.
    pub ran: usize,
    /// How many signals they sent.
    pub signals: usize,
    /// How many of them failed, and are out since.
    pub failed: usize,
}

impl Default for ScriptStats {
    fn default() -> (result: Self)
        ensures
            result == (ScriptStats { ran: 0, signals: 0, failed: 0 }),
    {
        ScriptStats { ran: 0, signals: 0, failed: 0 }
    }
}

/// A running script.
pub struct Instance {
    /// What the script returned: the object with its methods.
    pub object: JsValue,
    pub node: Handle,
    /// Its first method was called.
    pub ready: bool,
    /// The name of the script.
    pub name: String,
    /// Its first failure. It is out, and none of its methods is called any more.
    pub error: Option<ScriptError>,
}

/// What is to be done with an instance.
#[derive(Debug, Clone, Copy, PartialEq, Eq, Structural)]
pub enum Turn {
    /// There is none, or it is out.
    Skip,
    /// Its node is gone, and so shall it be.
    Gone,
    /// It runs on this node.
    Run { node: Handle, ready: bool },
}

impl Instance {
    /// The same instance, at another stage.
    pub open spec fn same_as(self, other: Instance) -> bool {
        &&& self.object == other.object
        &&& self.node == other.node
        &&& self.name == other.name
    }
}

/// An instance that is not out.
pub open spec fn active(slot: Option<Instance>) -> bool {
    slot matches Some(instance) && instance.error is None
}

/// The first free place among the first `n`, or `n`.
pub open spec fn first_free(slots: Seq<Option<Instance>>) -> nat
    decreases slots.len(),
{
    if slots.len() == 0 || slots[0] is None {
        0
    } else {
        1 + first_free(slots.drop_first())
    }
}

/// How many instances there are.
pub open spec fn alive(slots: Seq<Option<Instance>>) -> nat
    decreases slots.len(),
{
    if slots.len() == 0 {
        0
    } else {
        alive(slots.drop_last()) + if slots.last() is Some {
            1nat
        } else {
            0
        }
    }
}

/// The places of those that are out.
pub open spec fn broken(slots: Seq<Option<Instance>>) -> Seq<int>
    decreases slots.len(),
{
    if slots.len() == 0 {
        Seq::empty()
    } else if slots.last() matches Some(instance) && instance.error is Some {
        broken(slots.drop_last()).push(slots.len() - 1)
    } else {
        broken(slots.drop_last())
    }
}

/// `n` more, but never more than can be counted.
pub open spec fn counted(n: usize) -> usize {
    if n < usize::MAX {
        (n + 1) as usize
    } else {
        n
    }
}

/// The instances, by their numbers.
pub struct Roster {
    pub slots: Vec<Option<Instance>>,
    pub stats: ScriptStats,
}

/// There is a place for one more instance: a free one, or a number for a new one.
pub open spec fn has_room(slots: Seq<Option<Instance>>) -> bool {
    first_free(slots) < slots.len() || first_free(slots) < 0xffff_ffff
}

impl Roster {
    /// Every instance has a number that a slot on a node can hold.
    pub open spec fn wf(self) -> bool {
        self.slots@.len() <= 0xffff_ffff
    }

    /// The instance of a number.
    pub open spec fn at(self, id: InstanceId) -> Option<Instance> {
        if id.0 < self.slots@.len() {
            self.slots@[id.0 as int]
        } else {
            None
        }
    }

    pub fn new() -> (result: Self)
        ensures
            result.wf(),
            result.slots@ == Seq::<Option<Instance>>::empty(),
            result.stats == (ScriptStats { ran: 0, signals: 0, failed: 0 }),
    {
        Roster { slots: Vec::new(), stats: ScriptStats { ran: 0, signals: 0, failed: 0 } }
    }

    /// The instance of a number.
    pub fn instance(&self, id: InstanceId) -> (result: Option<&Instance>)
        ensures
            result is Some <==> self.at(id) is Some,
            result matches Some(instance) ==> self.at(id) == Some(*instance),
    {
        if (id.0 as usize) < self.slots.len() {
            self.slots[id.0 as usize].as_ref()
        } else {
            None
        }
    }

    /// How many instances there are.
    pub fn instance_count(&self) -> (result: usize)
        ensures
            result == alive(self.slots@),
    {
        let mut count: usize = 0;
        let mut i: usize = 0;
        proof {
            assert(self.slots@.take(0) =~= Seq::empty());
        }
        while i < self.slots.len()
            invariant
                count <= i <= self.slots@.len(),
                count == alive(self.slots@.take(i as int)),
            decreases self.slots@.len() - i,
        {
            assert(self.slots@.take(i + 1).drop_last() =~= self.slots@.take(i as int));
            if self.slots[i].is_some() {
                count += 1;
            }
            i += 1;
        }
        assert(self.slots@.take(self.slots@.len() as int) =~= self.slots@);
        count
    }

    /// Whether an instance is out. One that there is not counts as out.
    pub fn is_failed(&self, id: InstanceId) -> (result: bool)
        ensures
            result == !active(self.at(id)),
    {
        match self.instance(id) {
            Some(instance) => instance.error.is_some(),
            None => true,
        }
    }

    /// Why an instance is out.
    pub fn error(&self, id: InstanceId) -> (result: Option<&ScriptError>)
        ensures
            match result {
                Some(error) => self.at(id) matches Some(instance) && instance.error == Some(*error),
                None => self.at(id) is None || self.at(id)->Some_0.error is None,
            },
    {
        match self.instance(id) {
            Some(instance) => instance.error.as_ref(),
            None => None,
        }
    }

    /// All instances that are out, with the reasons.
    pub fn errors(&self) -> (result: Vec<(InstanceId, &ScriptError)>)
        requires
            self.wf(),
        ensures
            result@.len() == broken(self.slots@).len(),
            forall|k: int|
                0 <= k < result@.len() ==> {
                    &&& (#[trigger] result@[k]).0.0 == broken(self.slots@)[k]
                    &&& self.at(result@[k].0) matches Some(instance) && instance.error == Some(
                        *result@[k].1,
                    )
                },
    {
        let mut result: Vec<(InstanceId, &ScriptError)> = Vec::new();
        let mut i: usize = 0;
        proof {
            assert(self.slots@.take(0) =~= Seq::empty());
        }
        while i < self.slots.len()
            invariant
                self.wf(),
                i <= self.slots@.len(),
                result@.len() == broken(self.slots@.take(i as int)).len(),
                forall|k: int|
                    0 <= k < result@.len() ==> {
                        &&& (#[trigger] result@[k]).0.0 == broken(self.slots@.take(i as int))[k]
                        &&& self.at(result@[k].0) matches Some(instance) && instance.error == Some(
                            *result@[k].1,
                        )
                    },
            decreases self.slots@.len() - i,
        {
            assert(self.slots@.take(i + 1).drop_last() =~= self.slots@.take(i as int));
            if let Some(error) = self.error(InstanceId(i as u32)) {
                result.push((InstanceId(i as u32), error));
            }
            i += 1;
        }
        assert(self.slots@.take(self.slots@.len() as int) =~= self.slots@);
        result
    }

    /// Lets an instance take part again, and says whether there is one.
    pub fn revive(&mut self, id: InstanceId) -> (result: bool)
        requires
            old(self).wf(),
        ensures
            final(self).wf(),
            result == (old(self).at(id) is Some),
            final(self).stats == old(self).stats,
            final(self).slots@ == match old(self).at(id) {
                Some(instance) => old(self).slots@.update(
                    id.0 as int,
                    Some(Instance { error: None, ..instance }),
                ),
                None => old(self).slots@,
            },
    {
        if (id.0 as usize) < self.slots.len() {
            if let Some(instance) = &mut self.slots[id.0 as usize] {
                instance.error = None;
                return true;
            }
            assert(self.slots@ =~= old(self).slots@);
        }
        false
    }

    /// The node of an instance.
    pub fn node_of(&self, id: InstanceId) -> (result: Option<Handle>)
        ensures
            result == match self.at(id) {
                Some(instance) => Some(instance.node),
                None => None,
            },
    {
        match self.instance(id) {
            Some(instance) => Some(instance.node),
            None => None,
        }
    }

    /// The name of an instance's script.
    pub fn name_of(&self, id: InstanceId) -> (result: Option<&str>)
        ensures
            result is Some <==> self.at(id) is Some,
            result matches Some(name) ==> name@ == self.at(id)->Some_0.name@,
    {
        match self.instance(id) {
            Some(instance) => Some(instance.name.as_str()),
            None => None,
        }
    }

    /// Takes an instance in, at the first free place, so that places do not grow without bound. It
    /// is turned away only if there are no more numbers.
    pub fn enroll(&mut self, instance: Instance) -> (result: Option<InstanceId>)
        requires
            old(self).wf(),
        ensures
            final(self).wf(),
            final(self).stats == old(self).stats,
            ({
                let place = first_free(old(self).slots@);
                if place < old(self).slots@.len() {
                    &&& result == Some(InstanceId(place as u32))
                    &&& final(self).slots@ == old(self).slots@.update(place as int, Some(instance))
                } else if place < 0xffff_ffff {
                    &&& result == Some(InstanceId(place as u32))
                    &&& final(self).slots@ == old(self).slots@.push(Some(instance))
                } else {
                    &&& result is None
                    &&& final(self).slots@ == old(self).slots@
                }
            }),
    {
        let mut i: usize = 0;
        proof {
            assert(self.slots@.skip(0) =~= self.slots@);
        }
        while i < self.slots.len() && self.slots[i].is_some()
            invariant
                i <= self.slots@.len(),
                self.slots@ == old(self).slots@,
                first_free(self.slots@) == i + first_free(self.slots@.skip(i as int)),
            decreases self.slots@.len() - i,
        {
            assert(self.slots@.skip(i as int).drop_first() =~= self.slots@.skip(i + 1));
            i += 1;
        }
        if i < self.slots.len() {
            self.slots[i] = Some(instance);
            return Some(InstanceId(i as u32));
        }
        if i >= 0xffff_ffff {
            return None;
        }
        self.slots.push(Some(instance));
        Some(InstanceId(i as u32))
    }

    /// Gives an instance up.
    pub fn dismiss(&mut self, index: usize)
        requires
            old(self).wf(),
        ensures
            final(self).wf(),
            final(self).stats == old(self).stats,
            final(self).slots@ == if index < old(self).slots@.len() {
                old(self).slots@.update(index as int, None)
            } else {
                old(self).slots@
            },
    {
        if index < self.slots.len() {
            self.slots[index] = None;
        }
    }

    /// Gives all instances up.
    pub fn clear(&mut self)
        ensures
            final(self).wf(),
            final(self).stats == old(self).stats,
            final(self).slots@ == Seq::<Option<Instance>>::empty(),
    {
        self.slots.clear();
    }

    /// What is to be done with an instance, given what nodes there are.
    pub open spec fn turn_of(self, index: int, nodes: Set<Handle>) -> Turn {
        match self.slots@[index] {
            Some(instance) => if instance.error is Some {
                Turn::Skip
            } else if !nodes.contains(instance.node) {
                Turn::Gone
            } else {
                Turn::Run { node: instance.node, ready: instance.ready }
            },
            None => Turn::Skip,
        }
    }

    /// What is to be done with an instance. Without a scene there are no nodes.
    pub fn turn(&self, index: usize, scene: &Option<Scene>) -> (result: Turn)
        requires
            index < self.slots@.len(),
        ensures
            result == self.turn_of(
                index as int,
                match *scene {
                    Some(scene) => scene.nodes@.dom(),
                    None => Set::empty(),
                },
            ),
    {
        match &self.slots[index] {
            Some(instance) => {
                if instance.error.is_some() {
                    return Turn::Skip;
                }
                let there = match scene {
                    Some(scene) => scene.try_get(instance.node).is_some(),
                    None => false,
                };
                if there {
                    Turn::Run { node: instance.node, ready: instance.ready }
                } else {
                    Turn::Gone
                }
            },
            None => Turn::Skip,
        }
    }

    /// `before` after a method of an instance was called; `failure` is what went wrong, if
    /// something did. A first method that went well makes it ready; any other that did counts as a
    /// run.
    pub open spec fn settled(
        self,
        before: Roster,
        index: int,
        method: Seq<char>,
        first: bool,
        failure: Option<Seq<char>>,
    ) -> bool {
        let was = before.slots@[index]->Some_0;
        &&& self.slots@.len() == before.slots@.len()
        &&& self.slots@ == before.slots@.update(index, self.slots@[index])
        &&& self.slots@[index] is Some
        &&& self.slots@[index]->Some_0.same_as(was)
        &&& match failure {
            Some(message) => {
                &&& self.slots@[index]->Some_0.ready == was.ready
                &&& self.slots@[index]->Some_0.error matches Some(error)
                &&& error.method@ == method
                &&& error.script@ == was.name@
                &&& error.message@ == message
                &&& self.stats == (ScriptStats { failed: counted(before.stats.failed), ..before.stats })
            },
            None => {
                &&& self.slots@[index]->Some_0.error is None
                &&& if first {
                    &&& self.slots@[index]->Some_0.ready
                    &&& self.stats == before.stats
                } else {
                    &&& self.slots@[index]->Some_0.ready == was.ready
                    &&& self.stats == (ScriptStats { ran: counted(before.stats.ran), ..before.stats })
                }
            },
        }
    }

    /// Enters how a method call of an instance went.
    ///
    /// One that failed is out at once: what fails in this frame fails in the next one too, and its
    /// first failure would drown in the repetitions.
    pub fn settle(&mut self, index: usize, method: &str, first: bool, failure: Option<String>)
        requires
            old(self).wf(),
            index < old(self).slots@.len(),
            active(old(self).slots@[index as int]),
        ensures
            final(self).wf(),
            final(self).settled(
                *old(self),
                index as int,
                method@,
                first,
                match failure {
                    Some(message) => Some(message@),
                    None => None,
                },
            ),
    {
        if let Some(instance) = &mut self.slots[index] {
            match failure {
                Some(message) => {
                    let script = instance.name.clone();
                    instance.error = Some(
                        ScriptError { method: method.to_owned(), script, message },
                    );
                    if self.stats.failed < usize::MAX {
                        self.stats.failed += 1;
                    }
                },
                None => {
                    if first {
                        instance.ready = true;
                    } else if self.stats.ran < usize::MAX {
                        self.stats.ran += 1;
                    }
                },
            }
        }
        assert(self.slots@ =~= old(self).slots@.update(index as int, self.slots@[index as int]));
    }
}

/// What a round of calls may make of an instance, whatever its methods do: one that is out stays as
/// it is; any other is gone with its node, or out with a failure of its own, or ready and well.
pub open spec fn slot_ran(
    before: Option<Instance>,
    after: Option<Instance>,
    method: Seq<char>,
) -> bool {
    match before {
        Some(was) if was.error is None => match after {
            Some(is) => {
                &&& is.same_as(was)
                &&& match is.error {
                    Some(error) => {
                        &&& error.script@ == was.name@
                        &&& if is.ready {
                            error.method@ == method
                        } else {
                            !was.ready && error.method@ == "_ready"@
                        }
                    },
                    None => is.ready,
                }
            },
            None => true,
        },
        _ => after == before,
    }
}

/// How many of the first `n` instances ran and are well.
pub open spec fn ran_well(
    before: Seq<Option<Instance>>,
    after: Seq<Option<Instance>>,
    n: nat,
) -> nat
    decreases n,
{
    if n == 0 {
        0
    } else {
        ran_well(before, after, (n - 1) as nat) + if active(before[n - 1]) && active(after[n - 1]) {
            1nat
        } else {
            0
        }
    }
}

/// How many of the first `n` instances went out.
pub open spec fn went_out(
    before: Seq<Option<Instance>>,
    after: Seq<Option<Instance>>,
    n: nat,
) -> nat
    decreases n,
{
    if n == 0 {
        0
    } else {
        went_out(before, after, (n - 1) as nat) + if active(before[n - 1]) && after[n - 1] is Some
            && !active(after[n - 1]) {
            1nat
        } else {
            0
        }
    }
}

/// The first failure of an instance is the one that is kept, however many rounds follow.
pub proof fn lemma_first_error_is_kept(
    before: Option<Instance>,
    after: Option<Instance>,
    method: Seq<char>,
)
    requires
        slot_ran(before, after, method),
        before matches Some(instance) && instance.error is Some,
    ensures
        after == before,
{
}

/// An instance keeps its node and its script for as long as it runs.
pub proof fn lemma_instance_keeps_its_node(
    before: Option<Instance>,
    after: Option<Instance>,
    method: Seq<char>,
)
    requires
        slot_ran(before, after, method),
        after is Some,
    ensures
        before is Some,
        after->Some_0.same_as(before->Some_0),
{
}

/// The first method is called once: what was ready stays ready.
pub proof fn lemma_ready_stays(before: Option<Instance>, after: Option<Instance>, method: Seq<char>)
    requires
        slot_ran(before, after, method),
        before matches Some(instance) && instance.ready,
        after is Some,
    ensures
        after->Some_0.ready,
{
}

/// A free place is used before the list grows.
pub proof fn lemma_places_are_used_again(slots: Seq<Option<Instance>>, free: int)
    requires
        0 <= free < slots.len(),
        slots[free] is None,
    ensures
        first_free(slots) <= free,
        slots[first_free(slots) as int] is None,
        forall|i: int| 0 <= i < first_free(slots) ==> (#[trigger] slots[i]) is Some,
    decreases slots.len(),
{
    if slots[0] is Some {
        lemma_places_are_used_again(slots.drop_first(), free - 1);
        let rest = slots.drop_first();
        assert forall|i: int| 0 <= i < first_free(slots) implies (#[trigger] slots[i]) is Some by {
            if i > 0 {
                assert(rest[i - 1] is Some);
            }
        }
        assert(slots[first_free(slots) as int] == rest[first_free(rest) as int]);
    }
}

} // verus!
