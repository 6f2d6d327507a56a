//! The script runtime: it starts the scripts that nodes ask for, calls their methods frame by
//! frame, and puts those that fail out of action without touching the others.

use crate::numbers::Real;
use crate::pool::Handle;
use crate::scene::graph::Scene;
use crate::scene::node::Node;
use crate::scene::script::ScriptSlot;
use crate::script::bridge;
use crate::script::engine;
use crate::script::host;
use crate::script::host::{Host, Seat, Signal};
use crate::script::input::Input;
use crate::script::prelude::{NO_INSTANCES, PRELUDE};
use crate::script::registry::Registry;
use crate::script::roster;
use crate::script::roster::{Instance, InstanceId, Roster, ScriptError, ScriptStats, Turn};
use crate::script::source;
use crate::script::source::Script;
use crate::text;
use boa_engine::{Context, JsError, JsValue};
use vstd::prelude::*;

verus! {

/// A script that is loaded.
#[derive(Debug)]
pub struct ScriptEntry {
    pub path: String,
    pub script: Script,
}

/// The scripts that are loaded. A node whose script is not here yet waits for it.
#[derive(Debug)]
pub struct ScriptShelf {
    pub entries: Vec<ScriptEntry>,
}

/// The first script of a path.
pub open spec fn shelved(entries: Seq<ScriptEntry>, path: Seq<char>) -> Option<Script>
    decreases entries.len(),
{
    if entries.len() == 0 {
        None
    } else if entries[0].path@ == path {
        Some(entries[0].script)
    } else {
        shelved(entries.drop_first(), path)
    }
}

impl ScriptShelf {
    pub fn new() -> (result: Self)
        ensures
            result.entries@ == Seq::<ScriptEntry>::empty(),
    {
        ScriptShelf { entries: Vec::new() }
    }

    /// Puts a script here, behind the others.
    pub fn add(&mut self, path: &str, script: Script)
        ensures
            final(self).entries@.len() == old(self).entries@.len() + 1,
            final(self).entries@.drop_last() == old(self).entries@,
            final(self).entries@.last().path@ == path@,
            final(self).entries@.last().script == script,
    {
        self.entries.push(ScriptEntry { path: path.to_owned(), script });
        assert(self.entries@.drop_last() =~= old(self).entries@);
    }

    /// The first script of a path.
    pub fn find(&self, path: &str) -> (result: Option<&Script>)
        ensures
            result is Some <==> shelved(self.entries@, path@) is Some,
            result matches Some(script) ==> shelved(self.entries@, path@) == Some(*script),
    {
        let wanted = path.to_owned();
        let mut i: usize = 0;
        proof {
            assert(self.entries@.skip(0) =~= self.entries@);
        }
        while i < self.entries.len()
            invariant
                i <= self.entries@.len(),
                wanted@ == path@,
                shelved(self.entries@, path@) == shelved(self.entries@.skip(i as int), path@),
            decreases self.entries@.len() - i,
        {
            assert(self.entries@.skip(i as int).drop_first() =~= self.entries@.skip(i + 1));
            if self.entries[i].path == wanted {
                return Some(&self.entries[i].script);
            }
            i += 1;
        }
        None
    }
}

/// The nodes of a scene and the running instances.
pub struct StageState {
    pub nodes: Map<Handle, Node>,
    pub slots: Seq<Option<Instance>>,
}

/// `n`, or as much of it as can be counted.
pub open spec fn capped(n: int) -> usize {
    if n <= usize::MAX {
        n as usize
    } else {
        usize::MAX
    }
}

/// The script that the slot of a node waits for, if it is loaded and may be started.
pub open spec fn awaited(node: Node, shelf: Seq<ScriptEntry>) -> Option<Script> {
    match node.script {
        Some(slot) => if slot.failed || slot.live() || !slot.enabled {
            None
        } else {
            shelved(shelf, slot.path@)
        },
        None => None,
    }
}

/// `node` with another mark in its slot.
pub open spec fn marked(node: Node, instance: u32, failed: bool) -> Node {
    Node { script: Some(ScriptSlot { instance, failed, ..node.script->Some_0 }), ..node }
}

/// `b` has one instance more than `a`, at the first free place: a new one of that script on that
/// node.
pub open spec fn enrolled(
    a: Seq<Option<Instance>>,
    b: Seq<Option<Instance>>,
    id: InstanceId,
    node: Handle,
    name: Seq<char>,
) -> bool {
    &&& id.0 == roster::first_free(a)
    &&& id.0 < b.len()
    &&& b == if id.0 < a.len() {
        a.update(id.0 as int, b[id.0 as int])
    } else {
        a.push(b[id.0 as int])
    }
    &&& b[id.0 as int] matches Some(instance) && {
        &&& instance.node == node
        &&& instance.name@ == name
        &&& !instance.ready
        &&& instance.error is None
    }
}

/// The engine, and the numbers of nodes.
#[verifier::ext_equal]
pub struct Backstage {
    pub context: Context,
    pub numbers: Seq<Handle>,
}

/// The running instances, the engine and the numbers of nodes.
#[verifier::ext_equal]
pub struct Troupe {
    pub slots: Seq<Option<Instance>>,
    pub back: Backstage,
}

/// The nodes of a scene, and all that scripts run with.
#[verifier::ext_equal]
pub struct Lineup {
    pub nodes: Map<Handle, Node>,
    pub troupe: Troupe,
}

/// The instance of a node was taken out of the engine's own table.
pub open spec fn taken_out(node: Handle, a: Backstage, b: Backstage) -> bool {
    &&& b.numbers == numbered(a.numbers, node)
    &&& forgotten(b.numbers, node, a.context, b.context)
}

/// An instance whose node has another one, or none yet, in its slot: the slot was given another
/// script.
pub open spec fn stray(slot: Option<Instance>, i: int, nodes: Map<Handle, Node>) -> bool {
    slot matches Some(instance) && nodes.contains_key(instance.node) && (
    nodes[instance.node].script matches Some(here) && here.instance != i)
}

/// No instance is on a node whose slot names another one.
pub open spec fn no_strays(slots: Seq<Option<Instance>>, nodes: Map<Handle, Node>) -> bool {
    forall|i: int| 0 <= i < slots.len() ==> !stray(#[trigger] slots[i], i, nodes)
}

/// `slots` without the strays among the first `n`.
pub open spec fn swept_to(
    slots: Seq<Option<Instance>>,
    nodes: Map<Handle, Node>,
    n: int,
) -> Seq<Option<Instance>> {
    Seq::new(
        slots.len(),
        |i: int|
            if i < n && stray(slots[i], i, nodes) {
                None
            } else {
                slots[i]
            },
    )
}

/// The strays were taken out of the engine's own table, one after the other; `stages` are the engine
/// and the numbers before, between and after.
pub open spec fn strays_taken_out(
    slots: Seq<Option<Instance>>,
    nodes: Map<Handle, Node>,
    stages: Seq<Backstage>,
) -> bool {
    &&& 0 < stages.len() <= slots.len() + 1
    &&& forall|i: int|
        0 <= i < stages.len() - 1 ==> if stray(slots[i], i, nodes) {
            taken_out(slots[i]->Some_0.node, #[trigger] stages[i], stages[i + 1])
        } else {
            stages[i + 1] == stages[i]
        }
}

/// `b` is `a` without its strays.
pub open spec fn swept(a: Lineup, b: Lineup) -> bool {
    &&& b.nodes == a.nodes
    &&& b.troupe.slots == swept_to(a.troupe.slots, a.nodes, a.troupe.slots.len() as int)
    &&& exists|stages: Seq<Backstage>|
        {
            &&& #[trigger] strays_taken_out(a.troupe.slots, a.nodes, stages)
            &&& stages.len() == a.troupe.slots.len() + 1
            &&& stages[0] == a.troupe.back
            &&& stages.last() == b.troupe.back
        }
}

/// `b` is `a` once a source was run for a node. Where it returned an object, the object stands in
/// the engine's own table and becomes an instance; only if there is no place for it, it is taken out
/// of the table again.
pub open spec fn started(
    a: Troupe,
    b: Troupe,
    source: Seq<char>,
    name: Seq<char>,
    node: Handle,
    result: Option<InstanceId>,
) -> bool {
    &&& match result {
        Some(id) => enrolled(a.slots, b.slots, id, node, name),
        None => b.slots == a.slots,
    }
    &&& exists|made: Context, object: Option<JsValue>|
        {
            &&& #[trigger] produced(source, a.back.context, made, object)
            &&& match object {
                Some(object) => {
                    &&& result is Some == roster::has_room(a.slots)
                    &&& b.back.numbers == numbered(a.back.numbers, node)
                    &&& exists|entered: Context|
                        {
                            &&& #[trigger] introduced(
                                b.back.numbers,
                                node,
                                object,
                                made,
                                entered,
                            )
                            &&& match result {
                                Some(id) => {
                                    &&& b.back.context == entered
                                    &&& b.slots[id.0 as int]->Some_0.object == object
                                },
                                None => forgotten(
                                    b.back.numbers,
                                    node,
                                    entered,
                                    b.back.context,
                                ),
                            }
                        }
                },
                None => {
                    &&& result is None
                    &&& b.back.numbers == a.back.numbers
                    &&& b.back.context == made
                },
            }
        }
}

/// What was kept of a script was handed to its new instance, if something was kept.
pub open spec fn briefed(
    state: Seq<char>,
    instance: Option<Instance>,
    before: Context,
    after: Context,
) -> bool {
    if state.len() > 0 {
        delivered(state, instance, before, after)
    } else {
        after == before
    }
}

/// One node was looked at. If its script could be started, it now has an instance, which was handed
/// what was kept of it; if it could not, its slot says so, and it is not tried again.
pub open spec fn looked_at(a: Lineup, b: Lineup, h: Handle, shelf: Seq<ScriptEntry>) -> bool {
    if a.nodes.contains_key(h) && awaited(a.nodes[h], shelf) is Some {
        let node = a.nodes[h];
        let script = awaited(node, shelf)->Some_0;
        exists|between: Troupe, id: Option<InstanceId>|
            {
                &&& #[trigger] started(a.troupe, between, script.factory(), script.name@, h, id)
                &&& b.troupe.slots == between.slots
                &&& b.troupe.back.numbers == between.back.numbers
                &&& match id {
                    Some(id) => {
                        &&& b.nodes == a.nodes.insert(h, marked(node, id.0, false))
                        &&& briefed(
                            node.script->Some_0.state@,
                            between.slots[id.0 as int],
                            between.back.context,
                            b.troupe.back.context,
                        )
                    },
                    None => {
                        &&& b.nodes == a.nodes.insert(
                            h,
                            marked(node, node.script->Some_0.instance, true),
                        )
                        &&& b.troupe.back.context == between.back.context
                    },
                }
            }
    } else {
        b == a
    }
}

/// All nodes of a list were looked at, one after the other.
pub open spec fn all_looked_at(
    states: Seq<Lineup>,
    list: Seq<Handle>,
    shelf: Seq<ScriptEntry>,
) -> bool {
    &&& states.len() == list.len() + 1
    &&& forall|i: int|
        0 <= i < list.len() ==> looked_at(#[trigger] states[i], states[i + 1], list[i], shelf)
}

/// The instance of one node was taken out of the engine's own table, if its script is the one.
pub open spec fn given_up(
    s: StageState,
    h: Handle,
    wanted: Seq<char>,
    a: Backstage,
    b: Backstage,
) -> bool {
    let slot = s.nodes[h].script->Some_0;
    if s.nodes.contains_key(h) && uses_path(s.nodes[h], wanted) && slot.live() && slot.instance
        < s.slots.len() && s.slots[slot.instance as int] is Some {
        taken_out(s.slots[slot.instance as int]->Some_0.node, a, b)
    } else {
        b == a
    }
}

/// The instances of the nodes of a list were taken out of the engine's own table, one after the
/// other.
pub open spec fn all_given_up(
    s: StageState,
    list: Seq<Handle>,
    wanted: Seq<char>,
    stages: Seq<Backstage>,
) -> bool {
    &&& 0 < stages.len() <= list.len() + 1
    &&& forall|i: int|
        0 <= i < stages.len() - 1 ==> given_up(
            reset_all(s, list.take(i), wanted),
            list[i],
            wanted,
            #[trigger] stages[i],
            stages[i + 1],
        )
}

/// One node was asked what its script wants to be kept.
pub open spec fn node_asked(
    nodes: Map<Handle, Node>,
    h: Handle,
    roster: Roster,
    before: Context,
    after: Context,
    state: Option<String>,
) -> bool {
    if has_instance(nodes, h, roster) {
        let id = InstanceId(nodes[h].script->Some_0.instance);
        asked(roster.at(id)->Some_0.object, before, after, text::read(state))
    } else {
        state is None && after == before
    }
}

/// All nodes of a list were asked, one after the other; `engines` are the engine before, between and
/// after.
pub open spec fn all_asked(
    nodes: Map<Handle, Node>,
    list: Seq<Handle>,
    roster: Roster,
    engines: Seq<Context>,
    states: Seq<Option<String>>,
) -> bool {
    &&& states.len() <= list.len()
    &&& engines.len() == states.len() + 1
    &&& forall|i: int|
        0 <= i < states.len() ==> node_asked(
            nodes,
            list[i],
            roster,
            engines[i],
            engines[i + 1],
            #[trigger] states[i],
        )
}

/// The runtime while it goes through its instances.
pub struct Round {
    pub stage: Host,
    pub roster: Roster,
    pub context: Context,
}

/// A method of an instance was called while scripts can reach the host, and how it went was entered.
pub open spec fn method_ran(
    a: Round,
    b: Round,
    i: int,
    method: Seq<char>,
    args: Seq<JsValue>,
    first: bool,
) -> bool {
    exists|failure: Option<String>|
        {
            &&& #[trigger] called_on_stage(
                a.stage,
                a.roster.slots@[i]->Some_0.object,
                method,
                args,
                a.context,
                b.context,
                b.stage,
                failure,
            )
            &&& b.roster.settled(a.roster, i, method, first, text::read(failure))
        }
}

/// An instance had its turn on its node: first `_ready`, if it was not called yet, and then, unless
/// that failed, the method.
pub open spec fn instance_ran(
    a: Round,
    b: Round,
    i: int,
    method: Seq<char>,
    args: Seq<JsValue>,
) -> bool {
    let instance = a.roster.slots@[i]->Some_0;
    let entered = Round { stage: Host { current: instance.node, ..a.stage }, ..a };
    if instance.ready {
        method_ran(entered, b, i, method, args, false)
    } else {
        exists|ready: Round|
            {
                &&& #[trigger] method_ran(entered, ready, i, "_ready"@, Seq::empty(), true)
                &&& if roster::active(ready.roster.slots@[i]) {
                    method_ran(ready, b, i, method, args, false)
                } else {
                    b == ready
                }
            }
    }
}

/// One place of the roster had its turn. One that is out, or empty, is passed over; one whose node
/// is gone is gone too; any other runs.
pub open spec fn turn_taken(
    a: Round,
    b: Round,
    i: int,
    method: Seq<char>,
    args: Seq<JsValue>,
) -> bool {
    if !roster::active(a.roster.slots@[i]) {
        b == a
    } else {
        let node = a.roster.slots@[i]->Some_0.node;
        if a.stage.scene is Some && a.stage.scene->Some_0.nodes@.contains_key(node) {
            instance_ran(a, b, i, method, args)
        } else {
            &&& b.stage == (Host { registry: b.stage.registry, ..a.stage })
            &&& b.stage.registry@ == numbered(a.stage.registry@, node)
            &&& forgotten(b.stage.registry@, node, a.context, b.context)
            &&& b.roster.slots@ == a.roster.slots@.update(i, None)
            &&& b.roster.stats == a.roster.stats
        }
    }
}

/// The first places of the roster had their turns, one after the other.
pub open spec fn turns_taken(rounds: Seq<Round>, method: Seq<char>, args: Seq<JsValue>) -> bool {
    &&& rounds.len() > 0
    &&& forall|i: int|
        0 <= i < rounds.len() - 1 ==> turn_taken(
            #[trigger] rounds[i],
            rounds[i + 1],
            i,
            method,
            args,
        )
}

/// A host with a scene and the input moved in, at the beginning of a frame.
pub open spec fn opened(
    stage: Host,
    host: Host,
    scene: Scene,
    input: Input,
    dt: Real,
    elapsed: Real,
) -> bool {
    &&& stage == (Host {
        scene: Some(scene),
        input: Some(input),
        current: Handle::none(),
        spawned: 0,
        dt,
        elapsed,
        signals: stage.signals,
        ..host
    })
    &&& stage.signals@ == Seq::<Signal>::empty()
}

/// The slot of a node has a script of that path.
pub open spec fn uses_path(node: Node, wanted: Seq<char>) -> bool {
    node.script matches Some(slot) && source::normal(slot.path@) == wanted
}

/// `s` once the instance of one node was given up, if its script is the one.
pub open spec fn reset(s: StageState, h: Handle, wanted: Seq<char>) -> StageState {
    if s.nodes.contains_key(h) && uses_path(s.nodes[h], wanted) {
        let slot = s.nodes[h].script->Some_0;
        StageState {
            nodes: s.nodes.insert(h, marked(s.nodes[h], ScriptSlot::NO_INSTANCE, false)),
            slots: if slot.live() && slot.instance < s.slots.len() {
                s.slots.update(slot.instance as int, None)
            } else {
                s.slots
            },
        }
    } else {
        s
    }
}

/// `s` once the instances of all nodes of a list were given up, as far as their script is the one.
pub open spec fn reset_all(s: StageState, list: Seq<Handle>, wanted: Seq<char>) -> StageState
    decreases list.len(),
{
    if list.len() == 0 {
        s
    } else {
        reset(reset_all(s, list.drop_last(), wanted), list.last(), wanted)
    }
}

/// How many nodes of a list have a script of that path.
pub open spec fn users(nodes: Map<Handle, Node>, list: Seq<Handle>, wanted: Seq<char>) -> nat
    decreases list.len(),
{
    if list.len() == 0 {
        0
    } else {
        users(nodes, list.drop_last(), wanted) + if nodes.contains_key(list.last()) && uses_path(
            nodes[list.last()],
            wanted,
        ) {
            1nat
        } else {
            0
        }
    }
}

/// `nodes` with what one script asked to be kept, if it asked for something.
pub open spec fn with_state(
    nodes: Map<Handle, Node>,
    h: Handle,
    state: Option<String>,
) -> Map<Handle, Node> {
    match state {
        Some(state) if nodes.contains_key(h) && nodes[h].script is Some => nodes.insert(
            h,
            Node {
                script: Some(ScriptSlot { state, ..nodes[h].script->Some_0 }),
                ..nodes[h]
            },
        ),
        _ => nodes,
    }
}

/// `nodes` with what the scripts on a list of nodes asked to be kept.
pub open spec fn with_states(
    nodes: Map<Handle, Node>,
    list: Seq<Handle>,
    states: Seq<Option<String>>,
) -> Map<Handle, Node>
    decreases list.len(),
{
    if list.len() == 0 {
        nodes
    } else {
        with_state(
            with_states(nodes, list.drop_last(), states.drop_last()),
            list.last(),
            states.last(),
        )
    }
}

/// How many of them asked for something.
pub open spec fn given(states: Seq<Option<String>>) -> nat
    decreases states.len(),
{
    if states.len() == 0 {
        0
    } else {
        given(states.drop_last()) + if states.last() is Some {
            1nat
        } else {
            0
        }
    }
}

impl Roster {
    /// `before` after one round of calls.
    pub open spec fn ran(self, before: Roster, method: Seq<char>) -> bool {
        &&& self.slots@.len() == before.slots@.len()
        &&& forall|i: int|
            0 <= i < self.slots@.len() ==> roster::slot_ran(
                before.slots@[i],
                #[trigger] self.slots@[i],
                method,
            )
        &&& self.stats.ran == capped(
            before.stats.ran + roster::ran_well(before.slots@, self.slots@, self.slots@.len()),
        )
        &&& self.stats.failed == capped(
            before.stats.failed + roster::went_out(before.slots@, self.slots@, self.slots@.len()),
        )
    }
}

impl Scene {
    /// `before` with other nodes and everything else as it was.
    pub open spec fn only_nodes_changed(&self, before: &Scene) -> bool {
        &&& self.wf()
        &&& self.tree() == before.tree()
        &&& self.nodes.capacity() == before.nodes.capacity()
        &&& self.index == before.index
        &&& self.physics == before.physics
        &&& self.rest_same(before)
    }
}

/// Enters in the slot of a node what became of its script: the number of its instance, or that it
/// could not be started.
pub fn mark_slot(scene: &mut Scene, handle: Handle, instance: Option<InstanceId>)
    requires
        old(scene).wf(),
        old(scene).nodes@.contains_key(handle),
        old(scene).nodes@[handle].script is Some,
        !old(scene).nodes@[handle].script->Some_0.failed,
    ensures
        final(scene).only_nodes_changed(old(scene)),
        final(scene).nodes@ == old(scene).nodes@.insert(
            handle,
            match instance {
                Some(id) => marked(old(scene).nodes@[handle], id.0, false),
                None => marked(
                    old(scene).nodes@[handle],
                    old(scene).nodes@[handle].script->Some_0.instance,
                    true,
                ),
            },
        ),
{
    if let Some(node) = scene.try_get_mut(handle) {
        if let Some(slot) = &mut node.script {
            match instance {
                Some(id) => {
                    slot.instance = id.0;
                },
                None => {
                    slot.failed = true;
                },
            }
        }
    }
}

/// Keeps on a node what its script asked to be kept, and says whether it asked for something.
pub fn keep_state(scene: &mut Scene, handle: Handle, state: Option<String>) -> (result: bool)
    requires
        old(scene).wf(),
        state is Some ==> old(scene).nodes@.contains_key(handle)
            && old(scene).nodes@[handle].script is Some,
    ensures
        final(scene).only_nodes_changed(old(scene)),
        final(scene).nodes@ == with_state(old(scene).nodes@, handle, state),
        result == (state is Some),
{
    match state {
        Some(state) => {
            if let Some(node) = scene.try_get_mut(handle) {
                if let Some(slot) = &mut node.script {
                    slot.state = state;
                }
            }
            true
        },
        None => false,
    }
}

/// The numbers of nodes, once a node has one; only where all are given out, it has none.
pub open spec fn numbered(numbers: Seq<Handle>, node: Handle) -> Seq<Handle> {
    if numbers.contains(node) || numbers.len() >= 0xffff_ffff {
        numbers
    } else {
        numbers.push(node)
    }
}

/// The name under which the engine's own table has the instance of a node.
pub open spec fn key_of(numbers: Seq<Handle>, node: Handle) -> Seq<char> {
    text::decimal(numbers.index_of(node) as nat)
}

/// An instance was entered in the engine's own table, as far as there is the table and a number for
/// the node.
pub open spec fn introduced(
    numbers: Seq<Handle>,
    node: Handle,
    object: JsValue,
    before: Context,
    after: Context,
) -> bool {
    if numbers.contains(node) {
        exists|between: Context, table: Option<Result<JsValue, JsError>>|
            {
                &&& #[trigger] engine::may_get(
                    before,
                    engine::js_global(before),
                    "__instances"@,
                    between,
                    table,
                )
                &&& match table {
                    Some(Ok(table)) => exists|done: bool| #[trigger]
                        engine::may_set(
                            between,
                            table,
                            key_of(numbers, node),
                            object,
                            after,
                            done,
                        ),
                    _ => after == between,
                }
            }
    } else {
        after == before
    }
}

/// The instance of a node was taken out of the engine's own table, as far as there is the table and
/// a number for the node.
pub open spec fn forgotten(
    numbers: Seq<Handle>,
    node: Handle,
    before: Context,
    after: Context,
) -> bool {
    if numbers.contains(node) {
        exists|between: Context, table: Option<Result<JsValue, JsError>>|
            {
                &&& #[trigger] engine::may_get(
                    before,
                    engine::js_global(before),
                    "__instances"@,
                    between,
                    table,
                )
                &&& match table {
                    Some(Ok(table)) => exists|done: bool| #[trigger]
                        engine::may_remove(between, table, key_of(numbers, node), after, done),
                    _ => after == between,
                }
            }
    } else {
        after == before
    }
}

/// The number of a node as a name. A node that has none gets the next one.
fn key_for(registry: &mut Registry, node: Handle) -> (result: Option<String>)
    requires
        old(registry).wf(),
    ensures
        final(registry).wf(),
        final(registry)@ == numbered(old(registry)@, node),
        result is Some == final(registry)@.contains(node),
        result matches Some(key) ==> key@ == key_of(final(registry)@, node),
{
    match registry.id_of(node) {
        Some(id) => {
            proof {
                assert(registry@[id as int] == node);
                registry.lemma_numbers_are_unique();
                assert(registry@.contains(node));
                assert(registry@.index_of(node) == id);
            }
            Some(text::number(id as u64))
        },
        None => None,
    }
}

/// Enters an instance in the engine's own table, where other scripts find it by the number of its
/// node.
fn introduce(context: &mut Context, registry: &mut Registry, node: Handle, object: &JsValue)
    requires
        old(registry).wf(),
    ensures
        final(registry).wf(),
        final(registry)@ == numbered(old(registry)@, node),
        introduced(final(registry)@, node, *object, *old(context), *final(context)),
{
    if let Some(key) = key_for(registry, node) {
        let world = engine::global(context);
        let found = engine::get(context, &world, "__instances");
        if let Some(Ok(table)) = found {
            engine::set(context, &table, key.as_str(), object);
        }
    }
}

/// Takes an instance out of the engine's own table.
fn forget(context: &mut Context, registry: &mut Registry, node: Handle)
    requires
        old(registry).wf(),
    ensures
        final(registry).wf(),
        final(registry)@ == numbered(old(registry)@, node),
        forgotten(final(registry)@, node, *old(context), *final(context)),
{
    if let Some(key) = key_for(registry, node) {
        let world = engine::global(context);
        let found = engine::get(context, &world, "__instances");
        if let Some(Ok(table)) = found {
            engine::remove(context, &table, key.as_str());
        }
    }
}

/// `outcome` is the value of a reply, or the message of what was thrown; nothing where there was
/// nothing to be called.
pub open spec fn settles(
    reply: Option<Result<JsValue, JsError>>,
    outcome: Result<JsValue, String>,
) -> bool {
    match reply {
        Some(Ok(value)) => outcome == Ok::<JsValue, String>(value),
        Some(Err(error)) => outcome is Err && engine::may_say(error, outcome->Err_0@),
        None => outcome is Ok && engine::js_is_undefined(outcome->Ok_0),
    }
}

/// What a call came to: its value, or the message of what it threw. Where there was nothing to be
/// called, nothing went wrong.
pub fn settled(reply: Option<Result<JsValue, JsError>>) -> (result: Result<JsValue, String>)
    ensures
        settles(reply, result),
{
    match reply {
        Some(Ok(value)) => Ok(value),
        Some(Err(error)) => Err(engine::message(&error)),
        None => Ok(engine::undefined()),
    }
}

/// The object of a reply, if it has one.
pub open spec fn object_in(reply: Option<Result<JsValue, JsError>>) -> Option<JsValue> {
    match reply {
        Some(Ok(value)) => if engine::js_is_object(value) {
            Some(value)
        } else {
            None
        },
        _ => None,
    }
}

/// The object that a script returned: nothing if it threw, was no function, or returned something
/// else, such as a text, an integer or a flag.
pub fn returned(reply: Option<Result<JsValue, JsError>>) -> (result: Option<JsValue>)
    ensures
        result == object_in(reply),
        reply matches Some(Ok(value)) ==> {
            &&& forall|t: Seq<char>| value == #[trigger] engine::js_text(t) ==> result is None
            &&& forall|n: u32| value == #[trigger] engine::js_integer(n) ==> result is None
            &&& forall|b: bool| value == #[trigger] engine::js_flag(b) ==> result is None
        },
{
    match reply {
        Some(Ok(object)) => if engine::is_object(&object) {
            Some(object)
        } else {
            None
        },
        _ => None,
    }
}

/// The text of a reply, if it has one.
pub open spec fn text_held(reply: Option<Result<JsValue, JsError>>) -> Option<Seq<char>> {
    match reply {
        Some(Ok(value)) => engine::js_text_in(value),
        _ => None,
    }
}

/// The text that a property holds, if it holds one.
pub fn text_in(reply: Option<Result<JsValue, JsError>>) -> (result: Option<String>)
    ensures
        result is Some == text_held(reply) is Some,
        result matches Some(text) ==> text_held(reply) == Some(text@),
        reply matches Some(Ok(value)) ==> {
            &&& forall|t: Seq<char>|
                value == #[trigger] engine::js_text(t) ==> result is Some && result->Some_0@ == t
            &&& forall|n: u32| value == #[trigger] engine::js_integer(n) ==> result is None
            &&& forall|b: bool| value == #[trigger] engine::js_flag(b) ==> result is None
        },
{
    match reply {
        Some(Ok(value)) => engine::text_of(&value),
        _ => None,
    }
}

/// `result` is what a reply was written out as, or the message of what was thrown.
pub open spec fn writes_out(
    reply: Option<Result<JsValue, JsError>>,
    before: Context,
    after: Context,
    result: Result<String, String>,
) -> bool {
    match reply {
        Some(Ok(value)) => exists|shown: Result<String, JsError>|
            {
                &&& #[trigger] engine::may_show(before, value, after, shown)
                &&& match shown {
                    Ok(text) => result == Ok::<String, String>(text),
                    Err(error) => result is Err && engine::may_say(error, result->Err_0@),
                }
            },
        Some(Err(error)) => {
            &&& after == before
            &&& result is Err
            &&& engine::may_say(error, result->Err_0@)
        },
        None => after == before && result is Err && result->Err_0@ == "not an expression"@,
    }
}

/// What an expression came to, written out: a text as it is. It fails if the expression threw, was
/// no expression, or gave a value that throws when it is written out.
pub fn written_out(context: &mut Context, reply: Option<Result<JsValue, JsError>>) -> (result:
    Result<String, String>)
    ensures
        writes_out(reply, *old(context), *final(context), result),
        reply matches Some(Ok(value)) ==> forall|t: Seq<char>|
            value == #[trigger] engine::js_text(t) ==> result is Ok && result->Ok_0@ == t,
{
    match reply {
        Some(Ok(value)) => match engine::show(context, &value) {
            Ok(shown) => Ok(shown),
            Err(error) => Err(engine::message(&error)),
        },
        Some(Err(error)) => Err(engine::message(&error)),
        None => Err("not an expression".to_owned()),
    }
}

/// `outcome` is what a call of a method came to, or nothing where there is no such method.
pub open spec fn method_called(
    object: JsValue,
    method: Seq<char>,
    args: Seq<JsValue>,
    before: Context,
    after: Context,
    outcome: Result<JsValue, String>,
) -> bool {
    exists|between: Context, found: Option<Result<JsValue, JsError>>|
        {
            &&& #[trigger] engine::may_get(before, object, method, between, found)
            &&& match found {
                Some(Ok(function)) => exists|reply: Option<Result<JsValue, JsError>>|
                    {
                        &&& #[trigger] engine::may_call(
                            between,
                            function,
                            object,
                            args,
                            after,
                            reply,
                        )
                        &&& settles(reply, outcome)
                    },
                _ => after == between && settles(found, outcome),
            }
        }
}

/// `reply` is what a function of the global `JSON` came to; nothing where there is no such function.
pub open spec fn json_called(
    method: Seq<char>,
    arg: JsValue,
    before: Context,
    after: Context,
    reply: Option<Result<JsValue, JsError>>,
) -> bool {
    exists|between: Context, json: Option<Result<JsValue, JsError>>|
        {
            &&& #[trigger] engine::may_get(
                before,
                engine::js_global(before),
                "JSON"@,
                between,
                json,
            )
            &&& match json {
                Some(Ok(json)) => exists|found: Context, function: Option<Result<JsValue, JsError>>|
                    {
                        &&& #[trigger] engine::may_get(between, json, method, found, function)
                        &&& match function {
                            Some(Ok(function)) => engine::may_call(
                                found,
                                function,
                                json,
                                seq![arg],
                                after,
                                reply,
                            ),
                            _ => after == found && reply is None,
                        }
                    },
                _ => after == between && reply is None,
            }
        }
}

/// Calls a function of the global `JSON`.
fn call_json(context: &mut Context, method: &str, arg: JsValue) -> (result: Option<
    Result<JsValue, JsError>,
>)
    ensures
        json_called(method@, arg, *old(context), *final(context), result),
{
    let world = engine::global(context);
    let found = engine::get(context, &world, "JSON");
    if let Some(Ok(json)) = found {
        let found = engine::get(context, &json, method);
        if let Some(Ok(function)) = found {
            let mut args: Vec<JsValue> = Vec::new();
            args.push(arg);
            assert(args@ =~= seq![arg]);
            return engine::call(context, &function, &json, &args);
        }
    }
    None
}

/// The host that was lent to scripts for a call of a method, and what went wrong: `back` is the host
/// that was found afterwards, or a new one where there was none.
pub open spec fn called_on_stage(
    host: Host,
    object: JsValue,
    method: Seq<char>,
    args: Seq<JsValue>,
    before: Context,
    after: Context,
    back: Host,
    failure: Option<String>,
) -> bool {
    exists|lent: Context, called: Context, outcome: Result<JsValue, String>, found: Option<Host>|
        {
            &&& #[trigger] engine::may_lend(before, host, lent)
            &&& #[trigger] method_called(object, method, args, lent, called, outcome)
            &&& #[trigger] engine::may_fetch(called, after, found)
            &&& match found {
                Some(found) => back == found,
                None => back.fresh(),
            }
            &&& failure == match outcome {
                Ok(_) => None::<String>,
                Err(message) => Some(message),
            }
        }
}

/// Calls a method of an object. All methods are optional: one that there is not does nothing.
fn call_method(context: &mut Context, object: &JsValue, method: &str, args: &Vec<JsValue>) -> (result:
    Result<JsValue, String>)
    ensures
        method_called(*object, method@, args@, *old(context), *final(context), result),
{
    let found = engine::get(context, object, method);
    match found {
        Some(Ok(function)) => settled(engine::call(context, &function, object, args)),
        reply => settled(reply),
    }
}

/// Calls a method of an object while scripts can reach the host, and says what went wrong.
fn call_on_stage(
    context: &mut Context,
    host: Host,
    object: &JsValue,
    method: &str,
    args: &Vec<JsValue>,
) -> (result: (Host, Option<String>))
    requires
        host.wf(),
    ensures
        result.0.wf(),
        called_on_stage(
            host,
            *object,
            method@,
            args@,
            *old(context),
            *final(context),
            result.0,
            result.1,
        ),
{
    engine::lend(context, Seat::new(host));
    let outcome = call_method(context, object, method, args);
    let ghost called = *context;
    let found = engine::fetch(context);
    assert(engine::may_fetch(called, *context, host::seated(found)));
    let host = match found {
        Some(seat) => seat.into_host(),
        None => Host::new(),
    };
    match outcome {
        Ok(_) => (host, None),
        Err(message) => (host, Some(message)),
    }
}

/// `object` is what the function that a script's source makes returned, if it came so far and
/// returned an object.
pub open spec fn produced(
    source: Seq<char>,
    before: Context,
    after: Context,
    object: Option<JsValue>,
) -> bool {
    exists|made: Context, function: Result<JsValue, JsError>|
        {
            &&& #[trigger] engine::may_eval(before, source, made, function)
            &&& match function {
                Ok(function) => exists|this: JsValue, reply: Option<Result<JsValue, JsError>>|
                    {
                        &&& engine::js_is_undefined(this)
                        &&& #[trigger] engine::may_call(
                            made,
                            function,
                            this,
                            Seq::empty(),
                            after,
                            reply,
                        )
                        &&& object == object_in(reply)
                    },
                Err(_) => after == made && object is None,
            }
        }
}

/// What was kept of an instance was read, and handed to its method `_load` if it could be.
pub open spec fn delivered(
    state: Seq<char>,
    instance: Option<Instance>,
    before: Context,
    after: Context,
) -> bool {
    exists|read: Context, value: Option<Result<JsValue, JsError>>|
        {
            &&& #[trigger] json_called("parse"@, engine::js_text(state), before, read, value)
            &&& match (value, instance) {
                (Some(Ok(value)), Some(instance)) => exists|outcome: Result<JsValue, String>|
                    #[trigger]
                    method_called(
                        instance.object,
                        "_load"@,
                        seq![value],
                        read,
                        after,
                        outcome,
                    ),
                _ => after == read,
            }
        }
}

/// `text` is what the method `_save` of an instance gave, written out, if it gave something and that
/// can be written out.
pub open spec fn asked(
    object: JsValue,
    before: Context,
    after: Context,
    text: Option<Seq<char>>,
) -> bool {
    exists|saved: Context, state: Result<JsValue, String>|
        {
            &&& #[trigger] method_called(object, "_save"@, Seq::empty(), before, saved, state)
            &&& match state {
                Ok(state) => exists|written: Option<Result<JsValue, JsError>>|
                    {
                        &&& #[trigger] json_called("stringify"@, state, saved, after, written)
                        &&& text == text_held(written)
                    },
                Err(_) => after == saved && text is None,
            }
        }
}

/// A module was taken out of those that have run, as far as they can be reached.
pub open spec fn invalidated(name: Seq<char>, before: Context, after: Context) -> bool {
    exists|between: Context, kept: Option<Result<JsValue, JsError>>|
        {
            &&& #[trigger] engine::may_get(
                before,
                engine::js_global(before),
                "__moduleCache"@,
                between,
                kept,
            )
            &&& match kept {
                Some(Ok(kept)) => exists|done: bool| #[trigger]
                    engine::may_remove(between, kept, name, after, done),
                _ => after == between,
            }
        }
}

/// The source of a module was kept under its name, and the module was taken out of those that have
/// run; `done` says whether that could be done.
pub open spec fn module_added(
    name: Seq<char>,
    source: Seq<char>,
    before: Context,
    after: Context,
    done: bool,
) -> bool {
    exists|between: Context, sources: Option<Result<JsValue, JsError>>|
        {
            &&& #[trigger] engine::may_get(
                before,
                engine::js_global(before),
                "__moduleSources"@,
                between,
                sources,
            )
            &&& match sources {
                Some(Ok(sources)) => exists|kept: Context|
                    {
                        &&& #[trigger] engine::may_set(
                            between,
                            sources,
                            name,
                            engine::js_text(source),
                            kept,
                            done,
                        )
                        &&& if done {
                            invalidated(name, kept, after)
                        } else {
                            after == kept
                        }
                    },
                _ => after == between && !done,
            }
        }
}

/// `known` says whether a text is kept under the name of a module.
pub open spec fn module_looked_up(
    name: Seq<char>,
    before: Context,
    after: Context,
    known: bool,
) -> bool {
    exists|between: Context, sources: Option<Result<JsValue, JsError>>|
        {
            &&& #[trigger] engine::may_get(
                before,
                engine::js_global(before),
                "__moduleSources"@,
                between,
                sources,
            )
            &&& match sources {
                Some(Ok(sources)) => exists|source: Option<Result<JsValue, JsError>>|
                    {
                        &&& #[trigger] engine::may_get(between, sources, name, after, source)
                        &&& known == text_held(source) is Some
                    },
                _ => after == between && !known,
            }
        }
}

/// A host with a scene moved in for a look at one node: nobody touches anything, and no time passes.
pub open spec fn set_up(stage: Host, host: Host, scene: Scene, node: Handle) -> bool {
    &&& stage == (Host {
        scene: Some(scene),
        input: stage.input,
        current: node,
        spawned: 0,
        dt: Real::zero(),
        elapsed: Real::zero(),
        signals: stage.signals,
        ..host
    })
    &&& stage.input matches Some(input) && input.idle()
    &&& stage.signals@ == Seq::<Signal>::empty()
}

/// The function that an expression became was called on an instance, while scripts can reach the
/// host `stage`; `result` is its value, written out, and `found` the host that was there afterwards.
pub open spec fn worked_out(
    stage: Host,
    function: JsValue,
    object: JsValue,
    before: Context,
    after: Context,
    result: Result<String, String>,
    found: Option<Host>,
) -> bool {
    exists|
        lent: Context,
        called: Context,
        shown: Context,
        reply: Option<Result<JsValue, JsError>>,
    |
        {
            &&& #[trigger] engine::may_lend(before, stage, lent)
            &&& #[trigger] engine::may_call(lent, function, object, Seq::empty(), called, reply)
            &&& writes_out(reply, called, shown, result)
            &&& #[trigger] engine::may_fetch(shown, after, found)
        }
}

/// The script runtime.
pub struct ScriptRuntime {
    pub context: Context,
    pub roster: Roster,
    pub host: Host,
    /// What stands in the scene's place while scripts run. It is kept, because making a scene takes
    /// time.
    pub spare: Option<Scene>,
}

impl ScriptRuntime {
    /// How often the loops of a script may go round before it is stopped.
    pub const DEFAULT_LOOP_LIMIT: u64 = 10_000_000;

    /// How deep the calls of a script may go before it is stopped.
    pub const RECURSION_LIMIT: usize = 256;

    /// How many nodes scripts may make in a frame.
    pub const MAX_SPAWNS_PER_TICK: usize = host::MAX_SPAWNS;

    /// No script is running, and all parts are valid.
    pub open spec fn wf(self) -> bool {
        &&& self.roster.wf()
        &&& self.host.wf()
        &&& self.host.scene is None
        &&& self.spare matches Some(scene) ==> scene.wf()
    }

    /// The engine and the numbers of nodes.
    pub open spec fn back(self) -> Backstage {
        Backstage { context: self.context, numbers: self.host.registry@ }
    }

    /// What starting scripts reads and writes.
    pub open spec fn lineup(self, scene: Scene) -> Lineup {
        Lineup { nodes: scene.nodes@, troupe: self.troupe() }
    }

    /// The running instances, the engine and the numbers of nodes.
    pub open spec fn troupe(self) -> Troupe {
        Troupe { slots: self.roster.slots@, back: self.back() }
    }

    /// `before` at the point where all scripts that are waited for were started: first the strays
    /// went, and then the nodes with scripts were looked at. Afterwards no node has an instance that
    /// its slot does not name.
    pub open spec fn prepared(
        self,
        before: ScriptRuntime,
        scene: Scene,
        scene_before: Scene,
        shelf: Seq<ScriptEntry>,
    ) -> bool {
        &&& exists|clean: Lineup, states: Seq<Lineup>|
            {
                &&& #[trigger] swept(before.lineup(scene_before), clean)
                &&& #[trigger] all_looked_at(states, scene_before.index.scripts@, shelf)
                &&& states[0] == clean
                &&& states.last() == self.lineup(scene)
            }
        &&& no_strays(self.roster.slots@, scene.nodes@)
        &&& self.host == (Host { registry: self.host.registry, ..before.host })
        &&& self.spare == before.spare
        &&& scene.only_nodes_changed(&scene_before)
    }

    /// `before` once all instances had their turns: the scene and the input were moved in, each
    /// place of the roster had its turn with the frame's time as a number, and the scene, the input
    /// and the signals of the last host were handed out.
    pub open spec fn ran_through(
        self,
        before: ScriptRuntime,
        scene: Scene,
        scene_before: Scene,
        input: Input,
        input_before: Input,
        method: Seq<char>,
        dt: Real,
        elapsed: Real,
        signals: Seq<Signal>,
    ) -> bool {
        exists|rounds: Seq<Round>, number: JsValue|
            {
                &&& #[trigger] turns_taken(rounds, method, seq![number])
                &&& rounds.len() == before.roster.slots@.len() + 1
                &&& opened(rounds[0].stage, before.host, scene_before, input_before, dt, elapsed)
                &&& #[trigger] bridge::made_number(before.context, dt, rounds[0].context, number)
                &&& rounds[0].roster == before.roster
                &&& self.closed(rounds.last(), scene, input, signals)
            }
    }

    /// The runtime after the last turn, and what was handed out.
    pub open spec fn closed(
        self,
        last: Round,
        scene: Scene,
        input: Input,
        signals: Seq<Signal>,
    ) -> bool {
        &&& self.context == last.context
        &&& self.roster.slots@ == last.roster.slots@
        &&& self.roster.stats == (ScriptStats {
            signals: self.roster.stats.signals,
            ..last.roster.stats
        })
        &&& self.roster.stats.signals == signals.len()
        &&& self.host == (Host {
            scene: None,
            input: None,
            signals: self.host.signals,
            ..last.stage
        })
        &&& self.host.signals@ == Seq::<Signal>::empty()
        &&& signals == last.stage.signals@
        &&& last.stage.scene is Some ==> scene == last.stage.scene->Some_0
        &&& last.stage.input is Some ==> input == last.stage.input->Some_0
    }

    /// `before` once a question was put to an instance. A question that makes no sense changes
    /// nothing; any other is worked out while scripts can reach the scene. The scene that the host
    /// has afterwards is handed back.
    pub open spec fn evaluated(
        self,
        before: ScriptRuntime,
        scene: Scene,
        scene_after: Scene,
        instance: Instance,
        question: Seq<char>,
        result: Result<String, String>,
    ) -> bool {
        exists|made: Context, function: Result<JsValue, JsError>|
            {
                &&& #[trigger] engine::may_eval(before.context, question, made, function)
                &&& match function {
                    Ok(function) => exists|stage: Host, found: Option<Host>|
                        {
                            &&& set_up(stage, before.host, scene, instance.node)
                            &&& #[trigger] worked_out(
                                stage,
                                function,
                                instance.object,
                                made,
                                self.context,
                                result,
                                found,
                            )
                            &&& self.taken_back(found, scene_after)
                        },
                    Err(error) => {
                        &&& result is Err
                        &&& engine::may_say(error, result->Err_0@)
                        &&& self == (ScriptRuntime { context: made, ..before })
                        &&& scene_after == scene
                    },
                }
            }
    }

    /// The host that was found is here again, and its scene was handed back; where there was none,
    /// there is a new host.
    pub open spec fn taken_back(self, found: Option<Host>, scene: Scene) -> bool {
        match found {
            Some(inside) => {
                &&& self.host == (Host { scene: None, input: None, ..inside })
                &&& inside.scene is Some ==> scene == inside.scene->Some_0
            },
            None => self.host.fresh(),
        }
    }

    pub fn new() -> (result: Self)
        ensures
            result.wf(),
            result.roster.slots@ == Seq::<Option<Instance>>::empty(),
            result.roster.stats == (ScriptStats { ran: 0, signals: 0, failed: 0 }),
            result.host.fresh(),
            result.spare matches Some(scene) && scene.fresh(),
            exists|
                bare: Context,
                offered: Context,
                done: bool,
                reply: Result<JsValue, JsError>,
            |
                {
                    &&& engine::may_start(Self::DEFAULT_LOOP_LIMIT, Self::RECURSION_LIMIT, bare)
                    &&& #[trigger] bridge::all_offered(bare, offered, done)
                    &&& #[trigger] engine::may_eval(offered, PRELUDE@, result.context, reply)
                },
    {
        let mut context = engine::start(Self::DEFAULT_LOOP_LIMIT, Self::RECURSION_LIMIT);
        let ghost bare = context;
        assert(engine::may_start(Self::DEFAULT_LOOP_LIMIT, Self::RECURSION_LIMIT, bare));
        let done = bridge::register(&mut context);
        let ghost offered = context;
        assert(bridge::all_offered(bare, offered, done));
        let reply = engine::eval(&mut context, PRELUDE);
        let result = ScriptRuntime {
            context,
            roster: Roster::new(),
            host: Host::new(),
            spare: Some(Scene::new()),
        };
        assert(engine::may_eval(offered, PRELUDE@, result.context, reply));
        result
    }

    /// The engine, for whoever teaches it more functions.
    pub fn context_mut(&mut self) -> (result: &mut Context)
        ensures
            *result == old(self).context,
            *final(self) == (ScriptRuntime { context: *final(result), ..*old(self) }),
    {
        &mut self.context
    }

    pub fn stats(&self) -> (result: ScriptStats)
        ensures
            result == self.roster.stats,
    {
        self.roster.stats
    }

    /// How many instances there are.
    pub fn instance_count(&self) -> (result: usize)
        ensures
            result == roster::alive(self.roster.slots@),
    {
        self.roster.instance_count()
    }

    /// Whether an instance is out. One that there is not counts as out.
    pub fn is_failed(&self, id: InstanceId) -> (result: bool)
        ensures
            result == !roster::active(self.roster.at(id)),
    {
        self.roster.is_failed(id)
    }

    /// Why an instance is out.
    pub fn error(&self, id: InstanceId) -> (result: Option<&ScriptError>)
        ensures
            match result {
                Some(error) => self.roster.at(id) matches Some(instance) && instance.error == Some(
                    *error,
                ),
                None => self.roster.at(id) is None || self.roster.at(id)->Some_0.error is None,
            },
    {
        self.roster.error(id)
    }

    /// All instances that are out, with the reasons.
    pub fn errors(&self) -> (result: Vec<(InstanceId, &ScriptError)>)
        requires
            self.wf(),
        ensures
            result@.len() == roster::broken(self.roster.slots@).len(),
            forall|k: int|
                0 <= k < result@.len() ==> {
                    &&& (#[trigger] result@[k]).0.0 == roster::broken(self.roster.slots@)[k]
                    &&& self.roster.at(result@[k].0) matches Some(instance) && instance.error
                        == Some(*result@[k].1)
                },
    {
        self.roster.errors()
    }

    /// Lets an instance take part again, and says whether there is one.
    pub fn revive(&mut self, id: InstanceId) -> (result: bool)
        requires
            old(self).wf(),
        ensures
            final(self).wf(),
            result == (old(self).roster.at(id) is Some),
            *final(self) == (ScriptRuntime { roster: final(self).roster, ..*old(self) }),
            final(self).roster.stats == old(self).roster.stats,
            final(self).roster.slots@ == match old(self).roster.at(id) {
                Some(instance) => old(self).roster.slots@.update(
                    id.0 as int,
                    Some(Instance { error: None, ..instance }),
                ),
                None => old(self).roster.slots@,
            },
    {
        self.roster.revive(id)
    }

    /// The node of an instance.
    pub fn node_of(&self, id: InstanceId) -> (result: Option<Handle>)
        ensures
            result == match self.roster.at(id) {
                Some(instance) => Some(instance.node),
                None => None,
            },
    {
        self.roster.node_of(id)
    }

    /// The name of an instance's script.
    pub fn name_of(&self, id: InstanceId) -> (result: Option<&str>)
        ensures
            result is Some <==> self.roster.at(id) is Some,
            result matches Some(name) ==> name@ == self.roster.at(id)->Some_0.name@,
    {
        self.roster.name_of(id)
    }

    /// Offers nodes to scripts under a name, and says under which number to make them.
    pub fn register_prototype(&mut self, name: &str) -> (result: usize)
        requires
            old(self).wf(),
        ensures
            final(self).wf(),
            *final(self) == (ScriptRuntime { host: final(self).host, ..*old(self) }),
            final(self).host == (Host {
                prototypes: final(self).host.prototypes,
                ..old(self).host
            }),
            final(self).host.prototypes@ == if old(self).host.prototypes@.contains(name@) {
                old(self).host.prototypes@
            } else {
                old(self).host.prototypes@.push(name@)
            },
            result < final(self).host.prototypes@.len(),
            final(self).host.prototypes@[result as int] == name@,
    {
        self.host.prototypes.register(name)
    }

    /// The names of all prototypes.
    pub fn prototypes(&self) -> (result: &Vec<String>)
        ensures
            result@.len() == self.host.prototypes@.len(),
            forall|i: int|
                0 <= i < result@.len() ==> (#[trigger] result@[i])@ == self.host.prototypes@[i],
    {
        self.host.prototypes.names()
    }

    /// Gives all instances and all numbers up. The prototypes stay: they belong to the game, not to
    /// the scene.
    pub fn clear(&mut self)
        requires
            old(self).wf(),
        ensures
            final(self).wf(),
            final(self).roster.slots@ == Seq::<Option<Instance>>::empty(),
            final(self).roster.stats == old(self).roster.stats,
            final(self).host.prototypes == old(self).host.prototypes,
            exists|fresh: Host| #[trigger]
                fresh.fresh() && final(self).host == (Host {
                    prototypes: old(self).host.prototypes,
                    ..fresh
                }),
            final(self).spare == old(self).spare,
            exists|reply: Result<JsValue, JsError>| #[trigger]
                engine::may_eval(old(self).context, NO_INSTANCES@, final(self).context, reply),
    {
        self.roster.clear();
        let mut fresh = Host::new();
        let ghost made = fresh;
        std::mem::swap(&mut fresh.prototypes, &mut self.host.prototypes);
        self.host = fresh;
        assert(made.fresh());
        let reply = engine::eval(&mut self.context, NO_INSTANCES);
        assert(engine::may_eval(old(self).context, NO_INSTANCES@, self.context, reply));
    }

    // Starting scripts.

    /// Runs a script's source and gives the object that it returns, if it comes so far.
    fn produce(&mut self, script: &Script) -> (result: Option<JsValue>)
        ensures
            *final(self) == (ScriptRuntime { context: final(self).context, ..*old(self) }),
            produced(script.factory(), old(self).context, final(self).context, result),
    {
        let factory = script.as_factory();
        let nothing: Vec<JsValue> = Vec::new();
        assert(nothing@ =~= Seq::empty());
        let made = engine::eval(&mut self.context, factory.as_str());
        match made {
            Ok(function) => {
                let this = engine::undefined();
                returned(engine::call(&mut self.context, &function, &this, &nothing))
            },
            Err(_) => None,
        }
    }

    /// Starts a script on a node. It fails if the source cannot be run, throws, or does not return
    /// an object: then nothing is started.
    pub fn instantiate(&mut self, script: &Script, node: Handle) -> (result: Option<InstanceId>)
        requires
            old(self).wf(),
        ensures
            final(self).wf(),
            final(self).roster.stats == old(self).roster.stats,
            final(self).host == (Host { registry: final(self).host.registry, ..old(self).host }),
            final(self).spare == old(self).spare,
            match result {
                Some(id) => enrolled(
                    old(self).roster.slots@,
                    final(self).roster.slots@,
                    id,
                    node,
                    script.name@,
                ),
                None => final(self).roster.slots@ == old(self).roster.slots@,
            },
            started(
                old(self).troupe(),
                final(self).troupe(),
                script.factory(),
                script.name@,
                node,
                result,
            ),
    {
        let produced = self.produce(script);
        let ghost made = self.context;
        assert(self::produced(script.factory(), old(self).context, made, produced));
        match produced {
            Some(object) => {
                introduce(&mut self.context, &mut self.host.registry, node, &object);
                let ghost entered = self.context;
                assert(introduced(self.host.registry@, node, object, made, entered));
                let instance = Instance {
                    object,
                    node,
                    ready: false,
                    name: script.name.clone(),
                    error: None,
                };
                let id = self.roster.enroll(instance);
                proof {
                    lemma_first_free_is_free(old(self).roster.slots@);
                    if let Some(id) = id {
                        assert(self.roster.slots@[id.0 as int] == Some(instance));
                    }
                }
                let ghost numbers = self.host.registry@;
                if id.is_none() {
                    forget(&mut self.context, &mut self.host.registry, node);
                    proof {
                        if numbers.len() > 0 && numbers.last() == node {
                            assert(numbers.contains(node));
                        }
                        assert(self.host.registry@ == numbers);
                    }
                }
                proof {
                    let a = old(self).troupe();
                    let b = self.troupe();
                    assert(self::produced(script.factory(), a.back.context, made, produced));
                    assert(introduced(b.back.numbers, node, object, made, entered));
                }
                id
            },
            None => {
                proof {
                    let a = old(self).troupe();
                    assert(self::produced(script.factory(), a.back.context, made, produced));
                }
                None
            },
        }
    }

    /// Hands an instance what was kept of it, in the form in which it asked for it. What cannot be
    /// read is left alone.
    fn deliver(&mut self, id: InstanceId, state: &str)
        ensures
            *final(self) == (ScriptRuntime { context: final(self).context, ..*old(self) }),
            delivered(
                state@,
                old(self).roster.at(id),
                old(self).context,
                final(self).context,
            ),
    {
        let value = call_json(&mut self.context, "parse", engine::text(state));
        if let Some(Ok(value)) = value {
            if let Some(instance) = self.roster.instance(id) {
                let mut args: Vec<JsValue> = Vec::new();
                args.push(value);
                assert(args@ =~= seq![value]);
                let _ = call_method(&mut self.context, &instance.object, "_load", &args);
            }
        }
    }

    /// Starts the scripts of all nodes that wait for one that is loaded.
    fn instantiate_pending(&mut self, scene: &mut Scene, shelf: &ScriptShelf)
        requires
            old(self).wf(),
            old(scene).wf(),
        ensures
            final(self).wf(),
            final(self).roster.stats == old(self).roster.stats,
            final(self).host == (Host { registry: final(self).host.registry, ..old(self).host }),
            final(self).spare == old(self).spare,
            final(scene).only_nodes_changed(old(scene)),
            no_strays(old(self).roster.slots@, old(scene).nodes@) ==> no_strays(
                final(self).roster.slots@,
                final(scene).nodes@,
            ),
            exists|states: Seq<Lineup>|
                {
                    &&& #[trigger] all_looked_at(states, old(scene).index.scripts@, shelf.entries@)
                    &&& states[0] == old(self).lineup(*old(scene))
                    &&& states.last() == final(self).lineup(*final(scene))
                },
    {
        let ghost mut states: Seq<Lineup> = seq![self.lineup(*scene)];
        let ghost list = scene.index.scripts@;
        let mut position: usize = 0;
        while position < scene.index.scripts.len()
            invariant
                self.wf(),
                scene.only_nodes_changed(old(scene)),
                self.roster.stats == old(self).roster.stats,
                self.host == (Host { registry: self.host.registry, ..old(self).host }),
                self.spare == old(self).spare,
                list == old(scene).index.scripts@,
                position <= list.len(),
                states.len() == position + 1,
                forall|i: int|
                    0 <= i < position ==> looked_at(
                        #[trigger] states[i],
                        states[i + 1],
                        list[i],
                        shelf.entries@,
                    ),
                states[0] == old(self).lineup(*old(scene)),
                states.last() == self.lineup(*scene),
                no_strays(old(self).roster.slots@, old(scene).nodes@) ==> no_strays(
                    self.roster.slots@,
                    scene.nodes@,
                ),
            decreases list.len() - position,
        {
            let handle = scene.index.scripts[position];
            let ghost before = self.lineup(*scene);
            self.start_one(scene, handle, shelf);
            proof {
                let after = self.lineup(*scene);
                states = states.push(after);
                assert(states[position as int] == before);
                if no_strays(before.troupe.slots, before.nodes) {
                    lemma_no_strays_kept(before, after, handle, shelf.entries@);
                }
            }
            position += 1;
        }
        proof {
            assert(all_looked_at(states, list, shelf.entries@));
        }
    }

    /// Gives up the instances of nodes whose slots were given another script.
    fn sweep(&mut self, scene: &Scene)
        requires
            old(self).wf(),
        ensures
            final(self).wf(),
            final(self).roster.stats == old(self).roster.stats,
            final(self).host == (Host { registry: final(self).host.registry, ..old(self).host }),
            final(self).spare == old(self).spare,
            swept(old(self).lineup(*scene), final(self).lineup(*scene)),
            no_strays(final(self).roster.slots@, scene.nodes@),
    {
        let ghost slots = self.roster.slots@;
        let ghost nodes = scene.nodes@;
        let ghost mut stages: Seq<Backstage> = seq![self.back()];
        let mut i: usize = 0;
        assert(swept_to(slots, nodes, 0) =~= slots);
        while i < self.roster.slots.len()
            invariant
                self.wf(),
                self.roster.stats == old(self).roster.stats,
                self.host == (Host { registry: self.host.registry, ..old(self).host }),
                self.spare == old(self).spare,
                slots == old(self).roster.slots@,
                nodes == scene.nodes@,
                i <= slots.len(),
                self.roster.slots@ == swept_to(slots, nodes, i as int),
                stages.len() == i + 1,
                stages[0] == old(self).back(),
                stages.last() == self.back(),
                strays_taken_out(slots, nodes, stages),
            decreases slots.len() - i,
        {
            let ghost before = stages;
            assert(self.roster.slots@[i as int] == slots[i as int]);
            if let Some(node) = self.stray_node(scene, i) {
                forget(&mut self.context, &mut self.host.registry, node);
                self.roster.dismiss(i);
            }
            proof {
                stages = stages.push(self.back());
                assert(self.roster.slots@ =~= swept_to(slots, nodes, i + 1));
                assert forall|j: int| 0 <= j < stages.len() - 1 implies if stray(
                    slots[j],
                    j,
                    nodes,
                ) {
                    taken_out(slots[j]->Some_0.node, #[trigger] stages[j], stages[j + 1])
                } else {
                    stages[j + 1] == stages[j]
                } by {
                    assert(stages[j] == before[j]);
                    if j < i {
                        assert(stages[j + 1] == before[j + 1]);
                    }
                }
            }
            i += 1;
        }
        assert(strays_taken_out(slots, nodes, stages));
    }

    /// The node of an instance, if the node's slot names another one.
    fn stray_node(&self, scene: &Scene, i: usize) -> (result: Option<Handle>)
        requires
            i < self.roster.slots@.len(),
        ensures
            match result {
                Some(node) => stray(self.roster.slots@[i as int], i as int, scene.nodes@)
                    && self.roster.slots@[i as int]->Some_0.node == node,
                None => !stray(self.roster.slots@[i as int], i as int, scene.nodes@),
            },
    {
        match &self.roster.slots[i] {
            Some(instance) => match scene.try_get(instance.node) {
                Some(node) => match &node.script {
                    Some(slot) => if slot.instance as usize != i {
                        Some(instance.node)
                    } else {
                        None
                    },
                    None => None,
                },
                None => None,
            },
            None => None,
        }
    }

    /// Starts the script of one node, if it waits for one that is loaded.
    fn start_one(&mut self, scene: &mut Scene, handle: Handle, shelf: &ScriptShelf)
        requires
            old(self).wf(),
            old(scene).wf(),
        ensures
            final(self).wf(),
            final(self).roster.stats == old(self).roster.stats,
            final(self).host == (Host { registry: final(self).host.registry, ..old(self).host }),
            final(self).spare == old(self).spare,
            final(scene).only_nodes_changed(old(scene)),
            looked_at(
                old(self).lineup(*old(scene)),
                final(self).lineup(*final(scene)),
                handle,
                shelf.entries@,
            ),
    {
        let (script, state) = match scene.try_get(handle) {
            Some(node) => match &node.script {
                Some(slot) => {
                    if slot.failed || slot.is_live() || !slot.enabled {
                        return;
                    }
                    match shelf.find(slot.path.as_str()) {
                        Some(script) => (script, slot.state.clone()),
                        None => {
                            return;
                        },
                    }
                },
                None => {
                    return;
                },
            },
            None => {
                return;
            },
        };
        let id = self.instantiate(script, handle);
        let ghost between = self.troupe();
        if let Some(id) = id {
            if !text::same_text(state.as_str(), "") {
                self.deliver(id, state.as_str());
            }
        }
        mark_slot(scene, handle, id);
        proof {
            reveal_strlit("");
            if state@.len() == 0 {
                assert(state@ =~= ""@);
            }
            let a = old(self).lineup(*old(scene));
            let b = self.lineup(*scene);
            let wanted = awaited(a.nodes[handle], shelf.entries@)->Some_0;
            assert(wanted == *script);
            assert(started(a.troupe, between, wanted.factory(), wanted.name@, handle, id));
            assert(b.troupe.slots == between.slots);
            assert(b.troupe.back.numbers == between.back.numbers);
            if let Some(id) = id {
                assert(briefed(
                    a.nodes[handle].script->Some_0.state@,
                    between.slots[id.0 as int],
                    between.back.context,
                    b.troupe.back.context,
                ));
            }
        }
    }

    // Running scripts.

    /// Calls the methods of one instance that is on, `_ready` before anything else.
    fn run_one(
        &mut self,
        stage: Host,
        index: usize,
        node: Handle,
        ready: bool,
        method: &str,
        args: &Vec<JsValue>,
    ) -> (result: Host)
        requires
            stage.wf(),
            old(self).roster.wf(),
            index < old(self).roster.slots@.len(),
            roster::active(old(self).roster.slots@[index as int]),
            old(self).roster.slots@[index as int]->Some_0.ready == ready,
            old(self).roster.slots@[index as int]->Some_0.node == node,
        ensures
            result.wf(),
            final(self).roster.wf(),
            final(self).host == old(self).host,
            final(self).spare == old(self).spare,
            final(self).roster.slots@ == old(self).roster.slots@.update(
                index as int,
                final(self).roster.slots@[index as int],
            ),
            instance_ran(
                Round { stage, roster: old(self).roster, context: old(self).context },
                Round { stage: result, roster: final(self).roster, context: final(self).context },
                index as int,
                method@,
                args@,
            ),
            final(self).roster.slots@[index as int] is Some,
            roster::slot_ran(
                old(self).roster.slots@[index as int],
                final(self).roster.slots@[index as int],
                method@,
            ),
            final(self).roster.stats == if roster::active(
                final(self).roster.slots@[index as int],
            ) {
                ScriptStats {
                    ran: roster::counted(old(self).roster.stats.ran),
                    ..old(self).roster.stats
                }
            } else {
                ScriptStats {
                    failed: roster::counted(old(self).roster.stats.failed),
                    ..old(self).roster.stats
                }
            },
    {
        let mut stage = stage;
        stage.current = node;
        let ghost entered = Round { stage, roster: self.roster, context: self.context };
        let nothing: Vec<JsValue> = Vec::new();
        assert(nothing@ =~= Seq::empty());
        if !ready {
            let (back, failure) = match &self.roster.slots[index] {
                Some(instance) => call_on_stage(
                    &mut self.context,
                    stage,
                    &instance.object,
                    "_ready",
                    &nothing,
                ),
                None => (stage, None),
            };
            stage = back;
            let failed = failure.is_some();
            let ghost said = failure;
            self.roster.settle(index, "_ready", true, failure);
            proof {
                let called = Round { stage, roster: self.roster, context: self.context };
                assert(called_on_stage(
                    entered.stage,
                    entered.roster.slots@[index as int]->Some_0.object,
                    "_ready"@,
                    Seq::empty(),
                    entered.context,
                    called.context,
                    called.stage,
                    said,
                ));
                assert(method_ran(
                    entered,
                    called,
                    index as int,
                    "_ready"@,
                    Seq::empty(),
                    true,
                ));
            }
            if failed {
                return stage;
            }
        }
        let ghost called = Round { stage, roster: self.roster, context: self.context };
        let (back, failure) = match &self.roster.slots[index] {
            Some(instance) => call_on_stage(
                &mut self.context,
                stage,
                &instance.object,
                method,
                args,
            ),
            None => (stage, None),
        };
        let ghost said = failure;
        self.roster.settle(index, method, false, failure);
        proof {
            let done = Round { stage: back, roster: self.roster, context: self.context };
            assert(called_on_stage(
                called.stage,
                called.roster.slots@[index as int]->Some_0.object,
                method@,
                args@,
                called.context,
                done.context,
                done.stage,
                said,
            ));
            assert(method_ran(called, done, index as int, method@, args@, false));
        }
        back
    }

    /// Calls one method of all instances, and hands out the signals that they sent.
    fn run(
        &mut self,
        method: &str,
        scene: &mut Scene,
        input: &mut Input,
        dt: Real,
        elapsed: Real,
    ) -> (result: Vec<Signal>)
        requires
            old(self).wf(),
            old(scene).wf(),
        ensures
            final(self).wf(),
            final(scene).wf(),
            final(self).roster.ran(old(self).roster, method@),
            final(self).roster.stats.signals == result@.len(),
            result@.len() <= host::MAX_SIGNALS,
            final(self).ran_through(
                *old(self),
                *final(scene),
                *old(scene),
                *final(input),
                *old(input),
                method@,
                dt,
                elapsed,
                result@,
            ),
    {
        let mut stage = Host::new();
        std::mem::swap(&mut stage, &mut self.host);
        stage.park(scene, input, &mut self.spare, dt, elapsed);
        let number = bridge::real_number(&mut self.context, dt);
        let mut args: Vec<JsValue> = Vec::new();
        args.push(number);
        assert(args@ =~= seq![number]);
        let ghost before = self.roster;
        let ghost mut rounds: Seq<Round> = seq![
            Round { stage, roster: self.roster, context: self.context },
        ];
        assert(opened(rounds[0].stage, old(self).host, *old(scene), *old(input), dt, elapsed));
        let mut index: usize = 0;
        while index < self.roster.slots.len()
            invariant
                stage.wf(),
                self.wf(),
                self.host.fresh(),
                before == old(self).roster,
                before.slots@.len() == self.roster.slots@.len(),
                index <= before.slots@.len(),
                args@ == seq![number],
                rounds.len() == index + 1,
                rounds.last() == (Round { stage, roster: self.roster, context: self.context }),
                rounds[0].roster == before,
                opened(rounds[0].stage, old(self).host, *old(scene), *old(input), dt, elapsed),
                bridge::made_number(old(self).context, dt, rounds[0].context, number),
                turns_taken(rounds, method@, args@),
                forall|i: int|
                    0 <= i < index ==> roster::slot_ran(
                        before.slots@[i],
                        #[trigger] self.roster.slots@[i],
                        method@,
                    ),
                forall|i: int|
                    index <= i < before.slots@.len() ==> #[trigger] self.roster.slots@[i]
                        == before.slots@[i],
                self.roster.stats.ran == capped(
                    before.stats.ran + roster::ran_well(
                        before.slots@,
                        self.roster.slots@,
                        index as nat,
                    ),
                ),
                self.roster.stats.failed == capped(
                    before.stats.failed + roster::went_out(
                        before.slots@,
                        self.roster.slots@,
                        index as nat,
                    ),
                ),
            decreases before.slots@.len() - index,
        {
            let ghost slots = self.roster.slots@;
            let ghost earlier = rounds;
            match self.roster.turn(index, &stage.scene) {
                Turn::Skip => {},
                Turn::Gone => {
                    if let Some(node) = self.roster.node_of(InstanceId(index as u32)) {
                        forget(&mut self.context, &mut stage.registry, node);
                    }
                    self.roster.dismiss(index);
                },
                Turn::Run { node, ready } => {
                    stage = self.run_one(stage, index, node, ready, method, &args);
                },
            }
            proof {
                rounds = rounds.push(
                    Round { stage, roster: self.roster, context: self.context },
                );
                assert(turn_taken(
                    earlier.last(),
                    rounds.last(),
                    index as int,
                    method@,
                    args@,
                ));
                assert forall|j: int| 0 <= j < rounds.len() - 1 implies turn_taken(
                    #[trigger] rounds[j],
                    rounds[j + 1],
                    j,
                    method@,
                    args@,
                ) by {
                    assert(rounds[j] == earlier[j]);
                    if j < index {
                        assert(rounds[j + 1] == earlier[j + 1]);
                    }
                }
                lemma_counts_agree(before.slots@, slots, self.roster.slots@, index as nat);
                assert forall|i: int| 0 <= i < index + 1 implies roster::slot_ran(
                    before.slots@[i],
                    #[trigger] self.roster.slots@[i],
                    method@,
                ) by {
                    if i < index {
                        assert(self.roster.slots@[i] == slots[i]);
                    }
                }
                assert forall|i: int| index + 1 <= i < before.slots@.len() implies #[trigger]
                self.roster.slots@[i] == before.slots@[i] by {
                    assert(self.roster.slots@[i] == slots[i]);
                }
            }
            index += 1;
        }
        stage.unpark(scene, input, &mut self.spare);
        let signals = stage.take_signals();
        self.host = stage;
        self.roster.stats.signals = signals.len();
        assert(self.closed(rounds.last(), *scene, *input, signals@));
        assert(turns_taken(rounds, method@, seq![number]));
        signals
    }

    /// A frame: gives up the instances of nodes that were given another script, starts the scripts
    /// that are waited for, and calls `_process` of all instances, `_ready` before it where it is the
    /// first time.
    pub fn process(
        &mut self,
        scene: &mut Scene,
        input: &mut Input,
        shelf: &ScriptShelf,
        dt: Real,
        elapsed: Real,
    ) -> (result: Vec<Signal>)
        requires
            old(self).wf(),
            old(scene).wf(),
        ensures
            final(self).wf(),
            final(scene).wf(),
            final(self).roster.stats.signals == result@.len(),
            result@.len() <= host::MAX_SIGNALS,
            exists|ready: ScriptRuntime, staged: Scene|
                {
                    &&& #[trigger] ready.prepared(*old(self), staged, *old(scene), shelf.entries@)
                    &&& ready.roster.stats == (ScriptStats { ran: 0, signals: 0, failed: 0 })
                    &&& final(self).roster.ran(ready.roster, "_process"@)
                    &&& #[trigger] final(self).ran_through(
                        ready,
                        *final(scene),
                        staged,
                        *final(input),
                        *old(input),
                        "_process"@,
                        dt,
                        elapsed,
                        result@,
                    )
                },
    {
        self.roster.stats = ScriptStats { ran: 0, signals: 0, failed: 0 };
        self.sweep(scene);
        let ghost clean = self.lineup(*scene);
        self.instantiate_pending(scene, shelf);
        proof {
            assert(swept(old(self).lineup(*old(scene)), clean));
            assert(self.prepared(*old(self), *scene, *old(scene), shelf.entries@));
        }
        self.run("_process", scene, input, dt, elapsed)
    }

    /// A step of the solver: calls `_physics_process` of all instances. `dt` is the length of the
    /// step, not of the frame.
    pub fn physics_process(
        &mut self,
        scene: &mut Scene,
        input: &mut Input,
        dt: Real,
        elapsed: Real,
    ) -> (result: Vec<Signal>)
        requires
            old(self).wf(),
            old(scene).wf(),
        ensures
            final(self).wf(),
            final(scene).wf(),
            final(self).roster.stats.signals == result@.len(),
            result@.len() <= host::MAX_SIGNALS,
            exists|ready: ScriptRuntime|
                {
                    &&& #[trigger] swept(
                        old(self).lineup(*old(scene)),
                        ready.lineup(*old(scene)),
                    )
                    &&& ready.roster.stats == old(self).roster.stats
                    &&& ready.host == (Host { registry: ready.host.registry, ..old(self).host })
                    &&& final(self).roster.ran(ready.roster, "_physics_process"@)
                    &&& #[trigger] final(self).ran_through(
                        ready,
                        *final(scene),
                        *old(scene),
                        *final(input),
                        *old(input),
                        "_physics_process"@,
                        dt,
                        elapsed,
                        result@,
                    )
                },
    {
        self.sweep(scene);
        assert(swept(old(self).lineup(*old(scene)), self.lineup(*scene)));
        self.run("_physics_process", scene, input, dt, elapsed)
    }

    // Changing scripts, keeping them, and looking into them.

    /// A script has changed: gives up all instances of it, so that they are started anew, and says
    /// how many there are. Slots whose script could not be started get another chance.
    pub fn reload_path(&mut self, scene: &mut Scene, path: &str) -> (result: usize)
        requires
            old(self).wf(),
            old(scene).wf(),
        ensures
            final(self).wf(),
            final(scene).only_nodes_changed(old(scene)),
            final(self).roster.stats == old(self).roster.stats,
            final(self).host == (Host { registry: final(self).host.registry, ..old(self).host }),
            final(self).spare == old(self).spare,
            (StageState { nodes: final(scene).nodes@, slots: final(self).roster.slots@ })
                == reset_all(
                StageState { nodes: old(scene).nodes@, slots: old(self).roster.slots@ },
                old(scene).index.scripts@,
                source::normal(path@),
            ),
            result == users(old(scene).nodes@, old(scene).index.scripts@, source::normal(path@)),
            exists|stages: Seq<Backstage>|
                {
                    &&& #[trigger] all_given_up(
                        StageState { nodes: old(scene).nodes@, slots: old(self).roster.slots@ },
                        old(scene).index.scripts@,
                        source::normal(path@),
                        stages,
                    )
                    &&& stages.len() == old(scene).index.scripts@.len() + 1
                    &&& stages[0] == old(self).back()
                    &&& stages.last() == final(self).back()
                },
    {
        let wanted = source::normalize(path);
        let ghost mut stages: Seq<Backstage> = seq![self.back()];
        let ghost start = StageState { nodes: scene.nodes@, slots: self.roster.slots@ };
        let ghost list = scene.index.scripts@;
        let mut count: usize = 0;
        let mut position: usize = 0;
        proof {
            assert(list.take(0) =~= Seq::empty());
        }
        while position < scene.index.scripts.len()
            invariant
                self.wf(),
                scene.only_nodes_changed(old(scene)),
                self.roster.stats == old(self).roster.stats,
                self.host == (Host { registry: self.host.registry, ..old(self).host }),
                self.spare == old(self).spare,
                wanted@ == source::normal(path@),
                list == old(scene).index.scripts@,
                list.no_duplicates(),
                start == (StageState {
                    nodes: old(scene).nodes@,
                    slots: old(self).roster.slots@,
                }),
                count <= position <= list.len(),
                (StageState { nodes: scene.nodes@, slots: self.roster.slots@ }) == reset_all(
                    start,
                    list.take(position as int),
                    wanted@,
                ),
                count == users(start.nodes, list.take(position as int), wanted@),
                stages.len() == position + 1,
                stages[0] == old(self).back(),
                stages.last() == self.back(),
                all_given_up(start, list, wanted@, stages),
            decreases list.len() - position,
        {
            let handle = scene.index.scripts[position];
            proof {
                assert(list.take(position + 1).drop_last() =~= list.take(position as int));
                assert(!list.take(position as int).contains(handle));
                lemma_reset_leaves(start, list.take(position as int), wanted@, handle);
            }
            let ghost earlier = stages;
            if self.reset_one(scene, handle, &wanted) {
                count += 1;
            }
            proof {
                stages = stages.push(self.back());
                assert forall|i: int| 0 <= i < stages.len() - 1 implies given_up(
                    reset_all(start, list.take(i), wanted@),
                    list[i],
                    wanted@,
                    #[trigger] stages[i],
                    stages[i + 1],
                ) by {
                    assert(stages[i] == earlier[i]);
                    if i < position {
                        assert(stages[i + 1] == earlier[i + 1]);
                    }
                }
            }
            position += 1;
        }
        proof {
            assert(list.take(list.len() as int) =~= list);
        }
        count
    }

    /// Gives up the instance of one node, if its script is the one, and says whether it is.
    fn reset_one(&mut self, scene: &mut Scene, handle: Handle, wanted: &String) -> (result: bool)
        requires
            old(self).wf(),
            old(scene).wf(),
        ensures
            final(self).wf(),
            final(scene).only_nodes_changed(old(scene)),
            final(self).roster.stats == old(self).roster.stats,
            final(self).host == (Host { registry: final(self).host.registry, ..old(self).host }),
            final(self).spare == old(self).spare,
            (StageState { nodes: final(scene).nodes@, slots: final(self).roster.slots@ }) == reset(
                StageState { nodes: old(scene).nodes@, slots: old(self).roster.slots@ },
                handle,
                wanted@,
            ),
            result == (old(scene).nodes@.contains_key(handle) && uses_path(
                old(scene).nodes@[handle],
                wanted@,
            )),
            given_up(
                StageState { nodes: old(scene).nodes@, slots: old(self).roster.slots@ },
                handle,
                wanted@,
                old(self).back(),
                final(self).back(),
            ),
    {
        let instance = match scene.try_get(handle) {
            Some(node) => match &node.script {
                Some(slot) => {
                    if source::normalize(slot.path.as_str()) != *wanted {
                        return false;
                    }
                    slot.instance
                },
                None => {
                    return false;
                },
            },
            None => {
                return false;
            },
        };
        if instance != ScriptSlot::NO_INSTANCE {
            if let Some(node) = self.roster.node_of(InstanceId(instance)) {
                forget(&mut self.context, &mut self.host.registry, node);
            }
            self.roster.dismiss(instance as usize);
        }
        if let Some(node) = scene.try_get_mut(handle) {
            if let Some(slot) = &mut node.script {
                slot.instance = ScriptSlot::NO_INSTANCE;
                slot.failed = false;
            }
        }
        true
    }

    /// What an instance wants to be kept, as text, if it wants something and that can be written
    /// out.
    fn saved_text(&mut self, id: InstanceId) -> (result: Option<String>)
        ensures
            *final(self) == (ScriptRuntime { context: final(self).context, ..*old(self) }),
            match old(self).roster.at(id) {
                Some(instance) => asked(
                    instance.object,
                    old(self).context,
                    final(self).context,
                    text::read(result),
                ),
                None => result is None && final(self).context == old(self).context,
            },
    {
        let nothing: Vec<JsValue> = Vec::new();
        assert(nothing@ =~= Seq::empty());
        let state = match self.roster.instance(id) {
            Some(instance) => match call_method(
                &mut self.context,
                &instance.object,
                "_save",
                &nothing,
            ) {
                Ok(state) => state,
                Err(_) => {
                    return None;
                },
            },
            None => {
                return None;
            },
        };
        text_in(call_json(&mut self.context, "stringify", state))
    }

    /// Asks all instances what they want to be kept, keeps it on their nodes, and says how many
    /// wanted something. One that throws keeps nothing, and does not disturb the others.
    #[verifier::rlimit(60)]
    pub fn save_states(&mut self, scene: &mut Scene) -> (result: usize)
        requires
            old(self).wf(),
            old(scene).wf(),
        ensures
            final(self).wf(),
            final(self).roster == old(self).roster,
            final(self).host == old(self).host,
            final(self).spare == old(self).spare,
            final(scene).only_nodes_changed(old(scene)),
            exists|states: Seq<Option<String>>, engines: Seq<Context>|
                {
                    &&& #[trigger] all_asked(
                        old(scene).nodes@,
                        old(scene).index.scripts@,
                        old(self).roster,
                        engines,
                        states,
                    )
                    &&& states.len() == old(scene).index.scripts@.len()
                    &&& engines[0] == old(self).context
                    &&& engines.last() == final(self).context
                    &&& final(scene).nodes@ == with_states(
                        old(scene).nodes@,
                        old(scene).index.scripts@,
                        states,
                    )
                    &&& result == given(states)
                },
    {
        let ghost mut states: Seq<Option<String>> = Seq::empty();
        let ghost mut engines: Seq<Context> = seq![self.context];
        let ghost list = scene.index.scripts@;
        let mut count: usize = 0;
        let mut position: usize = 0;
        proof {
            assert(list.take(0) =~= Seq::empty());
        }
        while position < scene.index.scripts.len()
            invariant
                self.wf(),
                self.roster == old(self).roster,
                self.host == old(self).host,
                self.spare == old(self).spare,
                scene.only_nodes_changed(old(scene)),
                list == old(scene).index.scripts@,
                list.no_duplicates(),
                count <= position <= list.len(),
                states.len() == position,
                count == given(states),
                scene.nodes@ == with_states(old(scene).nodes@, list.take(position as int), states),
                engines[0] == old(self).context,
                engines.last() == self.context,
                all_asked(old(scene).nodes@, list, old(self).roster, engines, states),
            decreases list.len() - position,
        {
            let handle = scene.index.scripts[position];
            proof {
                assert(list.take(position + 1).drop_last() =~= list.take(position as int));
                assert(!list.take(position as int).contains(handle));
                lemma_states_leave(
                    old(scene).nodes@,
                    list.take(position as int),
                    states,
                    handle,
                );
            }
            let state = match scene.try_get(handle) {
                Some(node) => match &node.script {
                    Some(slot) => if slot.is_live() {
                        self.saved_text(InstanceId(slot.instance))
                    } else {
                        None
                    },
                    None => None,
                },
                None => None,
            };
            proof {
                let earlier = states;
                let passed = engines;
                states = states.push(state);
                engines = engines.push(self.context);
                assert(states.drop_last() =~= earlier);
                assert forall|i: int| 0 <= i < states.len() implies node_asked(
                    old(scene).nodes@,
                    list[i],
                    old(self).roster,
                    engines[i],
                    engines[i + 1],
                    #[trigger] states[i],
                ) by {
                    assert(engines[i] == passed[i]);
                    if i < position {
                        assert(states[i] == earlier[i]);
                        assert(engines[i + 1] == passed[i + 1]);
                    }
                }
            }
            if keep_state(scene, handle, state) {
                count += 1;
            }
            position += 1;
        }
        proof {
            assert(list.take(list.len() as int) =~= list);
        }
        count
    }

    /// Evaluates an expression as if it stood in a method of an instance: `this` is the instance,
    /// and the scene is there to be read and written.
    pub fn eval_in(&mut self, id: InstanceId, scene: &mut Scene, expression: &str) -> (result:
        Result<String, String>)
        requires
            old(self).wf(),
            old(scene).wf(),
        ensures
            final(self).wf(),
            final(scene).wf(),
            final(self).roster == old(self).roster,
            old(self).roster.at(id) is None ==> {
                &&& result is Err
                &&& *final(self) == *old(self)
                &&& *final(scene) == *old(scene)
            },
            old(self).roster.at(id) matches Some(instance) ==> final(self).evaluated(
                *old(self),
                *old(scene),
                *final(scene),
                instance,
                source::question(expression@),
                result,
            ),
    {
        let node = match self.roster.node_of(id) {
            Some(node) => node,
            None => {
                return Err("no such instance".to_owned());
            },
        };
        let wrapped = source::as_question(expression);
        let made = engine::eval(&mut self.context, wrapped.as_str());
        let ghost made_at = self.context;
        assert(engine::may_eval(
            old(self).context,
            source::question(expression@),
            made_at,
            made,
        ));
        let function = match made {
            Ok(function) => function,
            Err(error) => {
                return Err(engine::message(&error));
            },
        };
        let mut input = Input::new();
        let mut stage = Host::new();
        std::mem::swap(&mut stage, &mut self.host);
        stage.park(scene, &mut input, &mut self.spare, Real::zero(), Real::zero());
        stage.current = node;
        let ghost staged = stage;
        engine::lend(&mut self.context, Seat::new(stage));
        let nothing: Vec<JsValue> = Vec::new();
        assert(nothing@ =~= Seq::empty());
        let outcome = match self.roster.instance(id) {
            Some(instance) => engine::call(
                &mut self.context,
                &function,
                &instance.object,
                &nothing,
            ),
            None => None,
        };
        let result = written_out(&mut self.context, outcome);
        let ghost shown = self.context;
        let found = engine::fetch(&mut self.context);
        let ghost inside = host::seated(found);
        assert(engine::may_fetch(shown, self.context, inside));
        let ghost object = old(self).roster.at(id)->Some_0.object;
        assert(set_up(staged, old(self).host, *old(scene), node));
        let mut stage = match found {
            Some(seat) => seat.into_host(),
            None => Host::new(),
        };
        stage.unpark(scene, &mut input, &mut self.spare);
        self.host = stage;
        assert(self.taken_back(inside, *scene));
        assert(worked_out(staged, function, object, made_at, self.context, result, inside));
        result
    }

    // Modules.

    /// Makes a module known under a name. It is run when it is first required; a module that was
    /// known under the name before is forgotten. Says whether that could be done.
    pub fn add_module(&mut self, name: &str, source: &str) -> (result: bool)
        ensures
            *final(self) == (ScriptRuntime { context: final(self).context, ..*old(self) }),
            module_added(name@, source@, old(self).context, final(self).context, result),
    {
        let world = engine::global(&self.context);
        let found = engine::get(&mut self.context, &world, "__moduleSources");
        match found {
            Some(Ok(sources)) => {
                let value = engine::text(source);
                if !engine::set(&mut self.context, &sources, name, &value) {
                    return false;
                }
                self.invalidate_module(name);
                true
            },
            _ => false,
        }
    }

    /// Whether a module of that name is known.
    pub fn has_module(&mut self, name: &str) -> (result: bool)
        ensures
            *final(self) == (ScriptRuntime { context: final(self).context, ..*old(self) }),
            module_looked_up(name@, old(self).context, final(self).context, result),
    {
        let world = engine::global(&self.context);
        let found = engine::get(&mut self.context, &world, "__moduleSources");
        match found {
            Some(Ok(sources)) => {
                text_in(engine::get(&mut self.context, &sources, name)).is_some()
            },
            _ => false,
        }
    }

    /// Lets a module run again when it is next required.
    fn invalidate_module(&mut self, name: &str)
        ensures
            *final(self) == (ScriptRuntime { context: final(self).context, ..*old(self) }),
            invalidated(name@, old(self).context, final(self).context),
    {
        let world = engine::global(&self.context);
        let found = engine::get(&mut self.context, &world, "__moduleCache");
        if let Some(Ok(kept)) = found {
            engine::remove(&mut self.context, &kept, name);
        }
    }
}

/// The slot of a node names an instance that there is.
pub open spec fn has_instance(nodes: Map<Handle, Node>, h: Handle, roster: Roster) -> bool {
    &&& nodes.contains_key(h)
    &&& nodes[h].script matches Some(slot) && slot.live() && roster.at(InstanceId(slot.instance))
        is Some
}

proof fn lemma_no_strays_kept(a: Lineup, b: Lineup, h: Handle, shelf: Seq<ScriptEntry>)
    requires
        looked_at(a, b, h, shelf),
        no_strays(a.troupe.slots, a.nodes),
        a.troupe.slots.len() <= 0xffff_ffff,
    ensures
        no_strays(b.troupe.slots, b.nodes),
{
    if a.nodes.contains_key(h) && awaited(a.nodes[h], shelf) is Some {
        let script = awaited(a.nodes[h], shelf)->Some_0;
        let (between, id) = choose|between: Troupe, id: Option<InstanceId>|
            {
                &&& #[trigger] started(a.troupe, between, script.factory(), script.name@, h, id)
                &&& b.troupe.slots == between.slots
                &&& match id {
                    Some(id) => b.nodes == a.nodes.insert(h, marked(a.nodes[h], id.0, false)),
                    None => b.nodes == a.nodes.insert(
                        h,
                        marked(a.nodes[h], a.nodes[h].script->Some_0.instance, true),
                    ),
                }
            };
        assert forall|i: int| 0 <= i < b.troupe.slots.len() implies !stray(
            #[trigger] b.troupe.slots[i],
            i,
            b.nodes,
        ) by {
            if id is Some && id->Some_0.0 == i {
            } else {
                assert(b.troupe.slots[i] == a.troupe.slots[i]);
                assert(!stray(a.troupe.slots[i], i, a.nodes));
            }
        }
    }
}

/// A slot that was given another script loses its old instance before anything is started or run:
/// the instance is not there any more, and no other one is touched.
pub proof fn lemma_replaced_script_goes(a: Lineup, b: Lineup, i: int)
    requires
        swept(a, b),
        0 <= i < a.troupe.slots.len(),
    ensures
        b.troupe.slots.len() == a.troupe.slots.len(),
        stray(a.troupe.slots[i], i, a.nodes) ==> b.troupe.slots[i] is None,
        !stray(a.troupe.slots[i], i, a.nodes) ==> b.troupe.slots[i] == a.troupe.slots[i],
{
}

proof fn lemma_first_free_is_free(slots: Seq<Option<Instance>>)
    ensures
        roster::first_free(slots) <= slots.len(),
    decreases slots.len(),
{
    if slots.len() > 0 && slots[0] is Some {
        lemma_first_free_is_free(slots.drop_first());
    }
}

proof fn lemma_counts_agree(
    before: Seq<Option<Instance>>,
    a: Seq<Option<Instance>>,
    b: Seq<Option<Instance>>,
    n: nat,
)
    requires
        n <= a.len(),
        a.len() == b.len(),
        forall|i: int| 0 <= i < n ==> a[i] == b[i],
    ensures
        roster::ran_well(before, a, n) == roster::ran_well(before, b, n),
        roster::went_out(before, a, n) == roster::went_out(before, b, n),
    decreases n,
{
    if n > 0 {
        lemma_counts_agree(before, a, b, (n - 1) as nat);
    }
}

proof fn lemma_reset_leaves(s: StageState, list: Seq<Handle>, wanted: Seq<char>, h: Handle)
    requires
        !list.contains(h),
    ensures
        reset_all(s, list, wanted).nodes.contains_key(h) == s.nodes.contains_key(h),
        reset_all(s, list, wanted).nodes[h] == s.nodes[h],
    decreases list.len(),
{
    if list.len() > 0 {
        assert(list.last() != h);
        assert(!list.drop_last().contains(h));
        lemma_reset_leaves(s, list.drop_last(), wanted, h);
    }
}

proof fn lemma_states_leave(
    nodes: Map<Handle, Node>,
    list: Seq<Handle>,
    states: Seq<Option<String>>,
    h: Handle,
)
    requires
        !list.contains(h),
        states.len() == list.len(),
    ensures
        with_states(nodes, list, states).contains_key(h) == nodes.contains_key(h),
        with_states(nodes, list, states)[h] == nodes[h],
    decreases list.len(),
{
    if list.len() > 0 {
        assert(list.last() != h);
        assert(!list.drop_last().contains(h));
        lemma_states_leave(nodes, list.drop_last(), states.drop_last(), h);
    }
}

} // verus!
