//! What becomes of scripts and their instances from frame to frame.

use crate::numbers::Real;
use crate::pool::Handle;
use crate::scene::graph::Scene;
use crate::scene::node::Node;
use crate::script::engine;
use crate::script::host::Host;
use crate::script::input::Input;
use crate::script::roster;
use crate::script::roster::{Instance, InstanceId, Roster, Turn};
use crate::script::runtime;
use crate::script::runtime::{Lineup, Round, ScriptEntry, ScriptRuntime, StageState, Troupe};
use crate::script::source;
use crate::script::source::Script;
use boa_engine::{Context, JsError, JsValue};
use vstd::prelude::*;

verus! {

/// A script is found under its path; of several under one path it is the first.
pub proof fn lemma_script_is_found_by_path(entries: Seq<ScriptEntry>, path: Seq<char>, k: int)
    requires
        0 <= k <= entries.len(),
        k < entries.len() ==> entries[k].path@ == path,
        forall|j: int| 0 <= j < k ==> (#[trigger] entries[j]).path@ != path,
    ensures
        k < entries.len() ==> runtime::shelved(entries, path) == Some(entries[k].script),
        k == entries.len() ==> runtime::shelved(entries, path) is None,
    decreases entries.len(),
{
    if k > 0 {
        let rest = entries.drop_first();
        assert(entries[0].path@ != path);
        if k < entries.len() {
            assert(rest[k - 1] == entries[k]);
        }
        assert forall|j: int| 0 <= j < k - 1 implies (#[trigger] rest[j]).path@ != path by {
            assert(rest[j] == entries[j + 1]);
        }
        lemma_script_is_found_by_path(rest, path, k - 1);
    }
}

/// A slot waits for a script: it is enabled, has no instance, and was not found wanting.
pub open spec fn waits(node: Node) -> bool {
    &&& node.script is Some
    &&& node.script->0.enabled
    &&& node.script->0.instance == 0xffff_ffff
    &&& !node.script->0.failed
}

/// What is started for a node is the script of its own path, and only while it waits for one.
pub proof fn lemma_waiting_slot_gets_its_script(node: Node, shelf: Seq<ScriptEntry>)
    ensures
        waits(node) ==> runtime::awaited(node, shelf) == runtime::shelved(
            shelf,
            node.script->0.path@,
        ),
        !waits(node) ==> runtime::awaited(node, shelf) is None,
{
}

/// A node that was looked at: one that does not wait, or whose script is not loaded, is left alone.
/// One whose script could be started has a new instance, not ready yet, on that very node and of that
/// script; one whose script could not be started is marked and gets none. Path, state and whether it
/// is enabled stay, other nodes and other instances are left alone.
pub proof fn lemma_node_is_looked_at(a: Lineup, b: Lineup, h: Handle, shelf: Seq<ScriptEntry>)
    requires
        runtime::looked_at(a, b, h, shelf),
        a.nodes.contains_key(h),
    ensures
        !waits(a.nodes[h]) || runtime::shelved(shelf, a.nodes[h].script->0.path@) is None ==> b == a,
        waits(a.nodes[h]) && runtime::shelved(shelf, a.nodes[h].script->0.path@) is Some ==> {
            let script = runtime::shelved(shelf, a.nodes[h].script->0.path@)->0;
            let was = a.nodes[h].script->0;
            let now = b.nodes[h].script->0;
            &&& b.nodes.dom() == a.nodes.dom()
            &&& b.nodes[h].script is Some
            &&& now.path == was.path
            &&& now.enabled == was.enabled
            &&& now.state == was.state
            &&& b.nodes[h].transform == a.nodes[h].transform
            &&& b.nodes[h].name == a.nodes[h].name
            &&& b.nodes[h].parent == a.nodes[h].parent
            &&& forall|x: Handle|
                x != h && #[trigger] a.nodes.contains_key(x) ==> b.nodes[x] == a.nodes[x]
            &&& now.failed ==> b.troupe.slots == a.troupe.slots && now.instance == 0xffff_ffff
            &&& !now.failed ==> {
                &&& now.instance < b.troupe.slots.len()
                &&& b.troupe.slots[now.instance as int] is Some
                &&& b.troupe.slots[now.instance as int]->0.node == h
                &&& b.troupe.slots[now.instance as int]->0.name@ == script.name@
                &&& !b.troupe.slots[now.instance as int]->0.ready
                &&& b.troupe.slots[now.instance as int]->0.error is None
                &&& now.instance < a.troupe.slots.len() ==> a.troupe.slots[now.instance as int]
                    is None
                &&& forall|i: int|
                    0 <= i < a.troupe.slots.len() && i != now.instance
                        ==> #[trigger] b.troupe.slots[i] == a.troupe.slots[i]
            }
        },
{
    if waits(a.nodes[h]) && runtime::shelved(shelf, a.nodes[h].script->0.path@) is Some {
        let node = a.nodes[h];
        let script = runtime::shelved(shelf, node.script->0.path@)->0;
        assert(runtime::awaited(node, shelf) == Some(script));
        let (between, id) = choose|between: Troupe, id: Option<InstanceId>|
            {
                &&& #[trigger] runtime::started(
                    a.troupe,
                    between,
                    script.factory(),
                    script.name@,
                    h,
                    id,
                )
                &&& b.troupe.slots == between.slots
                &&& b.troupe.back.numbers == between.back.numbers
                &&& match id {
                    Some(id) => {
                        &&& b.nodes == a.nodes.insert(h, runtime::marked(node, id.0, false))
                        &&& runtime::briefed(
                            node.script->Some_0.state@,
                            between.slots[id.0 as int],
                            between.back.context,
                            b.troupe.back.context,
                        )
                    },
                    None => {
                        &&& b.nodes == a.nodes.insert(
                            h,
                            runtime::marked(node, node.script->Some_0.instance, true),
                        )
                        &&& b.troupe.back.context == between.back.context
                    },
                }
            };
        assert(b.nodes.dom() =~= a.nodes.dom());
        if id is Some {
            lemma_free_place_is_free(a.troupe.slots);
        }
    }
}

proof fn lemma_free_place_is_free(slots: Seq<Option<Instance>>)
    ensures
        roster::first_free(slots) <= slots.len(),
        roster::first_free(slots) < slots.len() ==> slots[roster::first_free(slots) as int] is None,
        forall|i: int| 0 <= i < roster::first_free(slots) ==> (#[trigger] slots[i]) is Some,
    decreases slots.len(),
{
    if slots.len() > 0 && slots[0] is Some {
        let rest = slots.drop_first();
        lemma_free_place_is_free(rest);
        let n = roster::first_free(slots) as int;
        if n < slots.len() {
            assert(rest[n - 1] == slots[n]);
        }
        assert forall|i: int| 0 <= i < n implies (#[trigger] slots[i]) is Some by {
            if i > 0 {
                assert(rest[i - 1] == slots[i]);
            }
        }
    }
}

/// A script whose source gave an object is started, as long as there is room: the instance holds that
/// very object. One whose source gave none is not.
pub proof fn lemma_object_becomes_an_instance(
    a: Troupe,
    b: Troupe,
    source: Seq<char>,
    name: Seq<char>,
    node: Handle,
    result: Option<InstanceId>,
)
    requires
        runtime::started(a, b, source, name, node, result),
    ensures
        exists|made: Context, object: Option<JsValue>|
            {
                &&& #[trigger] runtime::produced(source, a.back.context, made, object)
                &&& object is None ==> result is None && b.slots == a.slots
                &&& object is Some && a.slots.len() < 0xffff_ffff ==> result is Some
                &&& object is Some && result is Some ==> b.slots[result->Some_0.0 as int] is Some
                    && b.slots[result->Some_0.0 as int]->0.object == object->0
                    && b.slots[result->Some_0.0 as int]->0.node == node
            },
{
    lemma_free_place_is_free(a.slots);
    let (made, object) = choose|made: Context, object: Option<JsValue>|
        {
            &&& #[trigger] runtime::produced(source, a.back.context, made, object)
            &&& match object {
                Some(object) => {
                    &&& result is Some == roster::has_room(a.slots)
                    &&& b.back.numbers == runtime::numbered(a.back.numbers, node)
                    &&& exists|entered: Context|
                        {
                            &&& #[trigger] runtime::introduced(
                                b.back.numbers,
                                node,
                                object,
                                made,
                                entered,
                            )
                            &&& match result {
                                Some(id) => {
                                    &&& b.back.context == entered
                                    &&& b.slots[id.0 as int]->Some_0.object == object
                                },
                                None => runtime::forgotten(
                                    b.back.numbers,
                                    node,
                                    entered,
                                    b.back.context,
                                ),
                            }
                        }
                },
                None => {
                    &&& result is None
                    &&& b.back.numbers == a.back.numbers
                    &&& b.back.context == made
                },
            }
        };
    assert(runtime::produced(source, a.back.context, made, object));
}

/// How a call of a method went is entered where it belongs: a failure puts the instance out, with the
/// method, the script and the message, and is counted as one; a first call that went well makes the
/// instance ready; any other that did is counted as a run. No other instance changes.
pub proof fn lemma_call_is_entered(
    after: Roster,
    before: Roster,
    i: int,
    method: Seq<char>,
    first: bool,
    failure: Option<Seq<char>>,
)
    requires
        after.settled(before, i, method, first, failure),
        0 <= i < before.slots@.len(),
        before.slots@[i] is Some,
    ensures
        after.slots@.len() == before.slots@.len(),
        forall|j: int|
            0 <= j < before.slots@.len() && j != i ==> #[trigger] after.slots@[j]
                == before.slots@[j],
        after.slots@[i] is Some,
        after.slots@[i]->0.object == before.slots@[i]->0.object,
        after.slots@[i]->0.node == before.slots@[i]->0.node,
        after.slots@[i]->0.name == before.slots@[i]->0.name,
        failure matches Some(message) ==> {
            &&& after.slots@[i]->0.error is Some
            &&& after.slots@[i]->0.error->0.method@ == method
            &&& after.slots@[i]->0.error->0.script@ == before.slots@[i]->0.name@
            &&& after.slots@[i]->0.error->0.message@ == message
            &&& after.slots@[i]->0.ready == before.slots@[i]->0.ready
            &&& after.stats.ran == before.stats.ran
            &&& before.stats.failed < usize::MAX ==> after.stats.failed == before.stats.failed + 1
        },
        failure is None ==> {
            &&& after.slots@[i]->0.error is None
            &&& first ==> after.slots@[i]->0.ready && after.stats.ran == before.stats.ran
            &&& !first ==> after.slots@[i]->0.ready == before.slots@[i]->0.ready
            &&& !first && before.stats.ran < usize::MAX ==> after.stats.ran == before.stats.ran + 1
            &&& after.stats.failed == before.stats.failed
        },
        after.stats.signals == before.stats.signals,
{
}

/// What an instance does in a round: nothing if it is out or there is none; it goes if its node is
/// gone; else it runs on its own node.
pub proof fn lemma_turn_goes_by_the_node(roster: Roster, i: int, nodes: Set<Handle>)
    requires
        0 <= i < roster.slots@.len(),
    ensures
        roster.slots@[i] is None || roster.slots@[i]->0.error is Some ==> roster.turn_of(i, nodes)
            == Turn::Skip,
        roster.slots@[i] is Some && roster.slots@[i]->0.error is None && !nodes.contains(
            roster.slots@[i]->0.node,
        ) ==> roster.turn_of(i, nodes) == Turn::Gone,
        roster.slots@[i] is Some && roster.slots@[i]->0.error is None && nodes.contains(
            roster.slots@[i]->0.node,
        ) ==> (roster.turn_of(i, nodes) matches Turn::Run { node, ready } && node
            == roster.slots@[i]->0.node && ready == roster.slots@[i]->0.ready),
{
}

/// One place of the roster had its turn: one that is out or empty is passed over; one whose node is
/// gone is given up; one that runs keeps its object, its node and its script, and is out only with an
/// error of its own. No other place is touched.
pub proof fn lemma_turn_touches_its_own_place(
    a: Round,
    b: Round,
    i: int,
    method: Seq<char>,
    args: Seq<JsValue>,
)
    requires
        runtime::turn_taken(a, b, i, method, args),
        0 <= i < a.roster.slots@.len(),
    ensures
        a.roster.slots@[i] is None || a.roster.slots@[i]->0.error is Some ==> b == a,
        b.roster.slots@.len() == a.roster.slots@.len(),
        forall|j: int|
            0 <= j < a.roster.slots@.len() && j != i ==> #[trigger] b.roster.slots@[j]
                == a.roster.slots@[j],
        a.roster.slots@[i] is Some && a.roster.slots@[i]->0.error is None ==> {
            let was = a.roster.slots@[i]->0;
            let there = a.stage.scene is Some && a.stage.scene->0.nodes@.contains_key(was.node);
            &&& !there ==> b.roster.slots@[i] is None && b.roster.stats == a.roster.stats
                && b.stage.scene == a.stage.scene && b.stage.signals == a.stage.signals
            &&& there ==> {
                let now = b.roster.slots@[i]->0;
                &&& b.roster.slots@[i] is Some
                &&& now.object == was.object
                &&& now.node == was.node
                &&& now.name == was.name
                &&& now.error is None ==> now.ready
                &&& now.error matches Some(error) ==> {
                    &&& error.script@ == was.name@
                    &&& now.ready ==> error.method@ == method
                    &&& !now.ready ==> error.method@ == "_ready"@ && !was.ready
                }
                &&& was.ready ==> now.ready
            }
        },
{
    if roster::active(a.roster.slots@[i]) {
        let was = a.roster.slots@[i]->0;
        if a.stage.scene is Some && a.stage.scene->0.nodes@.contains_key(was.node) {
            let entered = Round { stage: Host { current: was.node, ..a.stage }, ..a };
            if was.ready {
                lemma_method_ran(entered, b, i, method, args, false);
            } else {
                let ready = choose|ready: Round|
                    {
                        &&& #[trigger] runtime::method_ran(
                            entered,
                            ready,
                            i,
                            "_ready"@,
                            Seq::empty(),
                            true,
                        )
                        &&& if roster::active(ready.roster.slots@[i]) {
                            runtime::method_ran(ready, b, i, method, args, false)
                        } else {
                            b == ready
                        }
                    };
                lemma_method_ran(entered, ready, i, "_ready"@, Seq::empty(), true);
                if roster::active(ready.roster.slots@[i]) {
                    lemma_method_ran(ready, b, i, method, args, false);
                }
            }
        }
    }
}

proof fn lemma_method_ran(
    a: Round,
    b: Round,
    i: int,
    method: Seq<char>,
    args: Seq<JsValue>,
    first: bool,
)
    requires
        runtime::method_ran(a, b, i, method, args, first),
        0 <= i < a.roster.slots@.len(),
        roster::active(a.roster.slots@[i]),
    ensures
        b.roster.slots@.len() == a.roster.slots@.len(),
        forall|j: int|
            0 <= j < a.roster.slots@.len() && j != i ==> #[trigger] b.roster.slots@[j]
                == a.roster.slots@[j],
        b.roster.slots@[i] is Some,
        b.roster.slots@[i]->0.object == a.roster.slots@[i]->0.object,
        b.roster.slots@[i]->0.node == a.roster.slots@[i]->0.node,
        b.roster.slots@[i]->0.name == a.roster.slots@[i]->0.name,
        b.roster.slots@[i]->0.error is None ==> b.roster.slots@[i]->0.ready == (first
            || a.roster.slots@[i]->0.ready),
        b.roster.slots@[i]->0.error is Some ==> b.roster.slots@[i]->0.ready
            == a.roster.slots@[i]->0.ready,
        b.roster.slots@[i]->0.error matches Some(error) ==> error.method@ == method && error.script@
            == a.roster.slots@[i]->0.name@,
{
    let failure = choose|failure: Option<String>|
        {
            &&& #[trigger] runtime::called_on_stage(
                a.stage,
                a.roster.slots@[i]->Some_0.object,
                method,
                args,
                a.context,
                b.context,
                b.stage,
                failure,
            )
            &&& b.roster.settled(a.roster, i, method, first, crate::text::read(failure))
        };
    lemma_call_is_entered(b.roster, a.roster, i, method, first, crate::text::read(failure));
}

/// Scripts run with the scene and the input of the frame, its time, nobody's turn yet, nothing spawned
/// and no messages; the numbers of nodes and the prototypes stay.
pub proof fn lemma_frame_is_opened(
    stage: Host,
    host: Host,
    scene: Scene,
    input: Input,
    dt: Real,
    elapsed: Real,
)
    requires
        runtime::opened(stage, host, scene, input, dt, elapsed),
    ensures
        stage.scene == Some(scene),
        stage.input == Some(input),
        stage.dt == dt,
        stage.elapsed == elapsed,
        stage.spawned == 0,
        stage.signals@.len() == 0,
        stage.current == Handle::none(),
        stage.registry == host.registry,
        stage.prototypes == host.prototypes,
{
}

/// After a frame everything is handed out: the scene and the input that the scripts left, all messages
/// that they sent, in order and counted; the runtime keeps neither.
pub proof fn lemma_frame_is_closed(
    after: ScriptRuntime,
    last: Round,
    scene: Scene,
    input: Input,
    signals: Seq<crate::script::host::Signal>,
)
    requires
        after.closed(last, scene, input, signals),
    ensures
        last.stage.scene is Some ==> Some(scene) == last.stage.scene,
        last.stage.input is Some ==> Some(input) == last.stage.input,
        signals == last.stage.signals@,
        after.roster.stats.signals == signals.len(),
        after.roster.stats.ran == last.roster.stats.ran,
        after.roster.stats.failed == last.roster.stats.failed,
        after.roster.slots@ == last.roster.slots@,
        after.host.scene is None,
        after.host.input is None,
        after.host.signals@.len() == 0,
        after.host.registry == last.stage.registry,
        after.host.prototypes == last.stage.prototypes,
        after.context == last.context,
{
}

/// An instance whose node has another one in its slot is given up before anything runs, and no other.
pub proof fn lemma_stray_instance_goes(a: Lineup, b: Lineup, i: int)
    requires
        runtime::swept(a, b),
        0 <= i < a.troupe.slots.len(),
    ensures
        b.nodes == a.nodes,
        b.troupe.slots.len() == a.troupe.slots.len(),
        ({
            let slot = a.troupe.slots[i];
            let replaced = slot is Some && a.nodes.contains_key(slot->0.node)
                && a.nodes[slot->0.node].script is Some && a.nodes[slot->0.node].script->0.instance
                != i;
            &&& replaced ==> b.troupe.slots[i] is None
            &&& !replaced ==> b.troupe.slots[i] == slot
        }),
{
}

/// The slot of a node has a script of a path, however the path is written.
pub open spec fn uses(node: Node, wanted: Seq<char>) -> bool {
    &&& node.script is Some
    &&& node.script->0.path@.len() == wanted.len()
    &&& forall|i: int|
        #![trigger wanted[i]]
        0 <= i < wanted.len() ==> wanted[i] == if node.script->0.path@[i] == '\\' {
            '/'
        } else {
            node.script->0.path@[i]
        }
}

proof fn lemma_uses(node: Node, wanted: Seq<char>)
    ensures
        runtime::uses_path(node, wanted) <==> uses(node, wanted),
{
    if uses(node, wanted) {
        assert(source::normal(node.script->0.path@) =~= wanted);
    }
}

proof fn lemma_reset_stays(s: StageState, list: Seq<Handle>, wanted: Seq<char>, h: Handle)
    requires
        !list.contains(h),
    ensures
        runtime::reset_all(s, list, wanted).nodes.contains_key(h) == s.nodes.contains_key(h),
        runtime::reset_all(s, list, wanted).nodes[h] == s.nodes[h],
    decreases list.len(),
{
    if list.len() > 0 {
        assert(list.last() != h);
        assert(!list.drop_last().contains(h)) by {
            if list.drop_last().contains(h) {
                let i = choose|i: int| 0 <= i < list.drop_last().len() && list.drop_last()[i] == h;
                assert(list[i] == h);
            }
        }
        lemma_reset_stays(s, list.drop_last(), wanted, h);
    }
}

proof fn lemma_reset_slot_stays_empty(s: StageState, list: Seq<Handle>, wanted: Seq<char>, i: int)
    requires
        0 <= i < s.slots.len(),
    ensures
        runtime::reset_all(s, list, wanted).slots.len() == s.slots.len(),
        runtime::reset_all(s, list, wanted).slots[i] is None || runtime::reset_all(
            s,
            list,
            wanted,
        ).slots[i] == s.slots[i],
    decreases list.len(),
{
    if list.len() > 0 {
        lemma_reset_slot_stays_empty(s, list.drop_last(), wanted, i);
    }
}

/// When a script is to be loaded anew, every listed node that uses it, however its path is written,
/// gives its instance up and waits again, even if it had failed; its path, its state and whether it is
/// enabled stay. Nodes that use another script are left alone.
pub proof fn lemma_script_is_reset(s: StageState, list: Seq<Handle>, wanted: Seq<char>, k: int)
    requires
        list.no_duplicates(),
        0 <= k < list.len(),
        s.nodes.contains_key(list[k]),
    ensures
        ({
            let after = runtime::reset_all(s, list, wanted);
            let h = list[k];
            &&& after.nodes.contains_key(h)
            &&& !uses(s.nodes[h], wanted) ==> after.nodes[h] == s.nodes[h]
            &&& uses(s.nodes[h], wanted) ==> {
                let was = s.nodes[h].script->0;
                let now = after.nodes[h].script->0;
                &&& after.nodes[h].script is Some
                &&& now.instance == 0xffff_ffff
                &&& !now.failed
                &&& now.path == was.path
                &&& now.state == was.state
                &&& now.enabled == was.enabled
                &&& after.nodes[h].transform == s.nodes[h].transform
                &&& after.nodes[h].name == s.nodes[h].name
                &&& was.instance != 0xffff_ffff && was.instance < s.slots.len()
                    ==> after.slots[was.instance as int] is None
            }
        }),
    decreases list.len(),
{
    let front = list.drop_last();
    let h = list[k];
    lemma_uses(s.nodes[h], wanted);
    if k < front.len() {
        assert(front[k] == h);
        assert(front.no_duplicates());
        lemma_script_is_reset(s, front, wanted, k);
        assert(list.last() != h) by {
            assert(list[list.len() - 1] == list.last());
        }
        if uses(s.nodes[h], wanted) {
            let was = s.nodes[h].script->0;
            if was.instance != 0xffff_ffff && was.instance < s.slots.len() {
                lemma_reset_slot_stays_empty(s, front, wanted, was.instance as int);
            }
        }
    } else {
        assert(!front.contains(h)) by {
            if front.contains(h) {
                let i = choose|i: int| 0 <= i < front.len() && front[i] == h;
                assert(list[i] == list[k]);
            }
        }
        lemma_reset_stays(s, front, wanted, h);
        if uses(s.nodes[h], wanted) {
            let was = s.nodes[h].script->0;
            if was.instance != 0xffff_ffff && was.instance < s.slots.len() {
                lemma_reset_slot_stays_empty(s, front, wanted, was.instance as int);
            }
        }
    }
}

/// How many nodes a script was reset on is how many of the list use it.
pub proof fn lemma_users_are_counted(nodes: Map<Handle, Node>, list: Seq<Handle>, wanted: Seq<char>)
    ensures
        runtime::users(nodes, list, wanted) == list.filter(
            |h: Handle| nodes.contains_key(h) && uses(nodes[h], wanted),
        ).len(),
    decreases list.len(),
{
    reveal(Seq::filter);
    if list.len() > 0 {
        lemma_users_are_counted(nodes, list.drop_last(), wanted);
        lemma_uses(nodes[list.last()], wanted);
    }
}

proof fn lemma_states_stay(
    nodes: Map<Handle, Node>,
    list: Seq<Handle>,
    states: Seq<Option<String>>,
    h: Handle,
)
    requires
        !list.contains(h),
        states.len() == list.len(),
    ensures
        runtime::with_states(nodes, list, states).contains_key(h) == nodes.contains_key(h),
        runtime::with_states(nodes, list, states)[h] == nodes[h],
    decreases list.len(),
{
    if list.len() > 0 {
        assert(list.last() != h);
        assert(!list.drop_last().contains(h)) by {
            if list.drop_last().contains(h) {
                let i = choose|i: int| 0 <= i < list.drop_last().len() && list.drop_last()[i] == h;
                assert(list[i] == h);
            }
        }
        lemma_states_stay(nodes, list.drop_last(), states.drop_last(), h);
    }
}

/// What a script asked to be kept is kept on its own node, and nothing else of the node changes; a
/// node whose script asked for nothing is as it was.
pub proof fn lemma_state_is_kept_on_its_node(
    nodes: Map<Handle, Node>,
    list: Seq<Handle>,
    states: Seq<Option<String>>,
    k: int,
)
    requires
        list.no_duplicates(),
        states.len() == list.len(),
        0 <= k < list.len(),
        nodes.contains_key(list[k]),
        nodes[list[k]].script is Some,
    ensures
        ({
            let after = runtime::with_states(nodes, list, states);
            let h = list[k];
            &&& after.contains_key(h)
            &&& states[k] is None ==> after[h] == nodes[h]
            &&& states[k] is Some ==> {
                &&& after[h].script is Some
                &&& after[h].script->0.state == states[k]->0
                &&& after[h].script->0.path == nodes[h].script->0.path
                &&& after[h].script->0.instance == nodes[h].script->0.instance
                &&& after[h].script->0.enabled == nodes[h].script->0.enabled
                &&& after[h].script->0.failed == nodes[h].script->0.failed
                &&& after[h].transform == nodes[h].transform
                &&& after[h].name == nodes[h].name
            }
        }),
    decreases list.len(),
{
    let front = list.drop_last();
    let h = list[k];
    if k < front.len() {
        assert(front[k] == h);
        assert(front.no_duplicates());
        assert(states.drop_last()[k] == states[k]);
        lemma_state_is_kept_on_its_node(nodes, front, states.drop_last(), k);
        assert(list.last() != h) by {
            assert(list[list.len() - 1] == list.last());
        }
    } else {
        assert(!front.contains(h)) by {
            if front.contains(h) {
                let i = choose|i: int| 0 <= i < front.len() && front[i] == h;
                assert(list[i] == list[k]);
            }
        }
        lemma_states_stay(nodes, front, states.drop_last(), h);
        assert(states.last() == states[k]);
    }
}

/// How many asked for something to be kept is how many of the answers hold something.
pub proof fn lemma_answers_are_counted(states: Seq<Option<String>>)
    ensures
        runtime::given(states) == states.filter(|state: Option<String>| state is Some).len(),
    decreases states.len(),
{
    reveal(Seq::filter);
    if states.len() > 0 {
        lemma_answers_are_counted(states.drop_last());
    }
}

/// How many instances there are is how many places are taken.
pub proof fn lemma_instances_are_counted(slots: Seq<Option<Instance>>)
    ensures
        roster::alive(slots) == slots.filter(|slot: Option<Instance>| slot is Some).len(),
    decreases slots.len(),
{
    reveal(Seq::filter);
    if slots.len() > 0 {
        lemma_instances_are_counted(slots.drop_last());
    }
}

/// The instances that are out are exactly those with an error, in the order of their places.
pub proof fn lemma_broken_instances_are_listed(slots: Seq<Option<Instance>>, i: int)
    ensures
        roster::broken(slots).contains(i) <==> 0 <= i < slots.len() && slots[i] is Some
            && slots[i]->0.error is Some,
        forall|a: int, b: int|
            0 <= a < b < roster::broken(slots).len() ==> #[trigger] roster::broken(slots)[a]
                < #[trigger] roster::broken(slots)[b],
        forall|a: int|
            0 <= a < roster::broken(slots).len() ==> #[trigger] roster::broken(slots)[a]
                < slots.len(),
    decreases slots.len(),
{
    if slots.len() > 0 {
        let front = slots.drop_last();
        lemma_broken_instances_are_listed(front, i);
        let before = roster::broken(front);
        let all = roster::broken(slots);
        if before.contains(i) {
            let k = choose|k: int| 0 <= k < before.len() && before[k] == i;
            assert(all[k] == i);
        }
        if all.contains(i) {
            let k = choose|k: int| 0 <= k < all.len() && all[k] == i;
            if k < before.len() {
                assert(before[k] == i);
            }
        }
        if i == slots.len() - 1 && slots[i] is Some && slots[i]->0.error is Some {
            assert(all[before.len() as int] == i);
        }
    }
}

/// A node that has a number keeps it, and one that has none gets the next; the table of instances has
/// a node under its own number.
pub proof fn lemma_node_has_its_number(numbers: Seq<Handle>, node: Handle)
    requires
        numbers.len() < 0xffff_ffff,
    ensures
        numbers.contains(node) ==> runtime::numbered(numbers, node) == numbers,
        !numbers.contains(node) ==> runtime::numbered(numbers, node) == numbers.push(node),
        runtime::numbered(numbers, node).contains(node),
        ({
            let all = runtime::numbered(numbers, node);
            &&& 0 <= all.index_of(node) < all.len()
            &&& all[all.index_of(node)] == node
            &&& runtime::key_of(all, node) == crate::text::decimal(all.index_of(node) as nat)
        }),
{
    let all = runtime::numbered(numbers, node);
    if !numbers.contains(node) {
        assert(all[numbers.len() as int] == node);
    }
    assert(all.contains(node));
}

/// A value comes out as it is, what was thrown comes out as its message, and a method that there is
/// not as undefined.
pub proof fn lemma_reply_is_settled(
    reply: Option<Result<JsValue, JsError>>,
    outcome: Result<JsValue, String>,
)
    requires
        runtime::settles(reply, outcome),
    ensures
        reply matches Some(Ok(value)) ==> outcome is Ok && outcome->Ok_0 == value,
        reply matches Some(Err(error)) ==> outcome is Err && engine::may_say(error, outcome->Err_0@),
        reply is None ==> outcome is Ok && engine::js_is_undefined(outcome->Ok_0),
{
}

/// Only an object that a script returned becomes an instance, and only a text counts as a text.
pub proof fn lemma_reply_is_read(reply: Option<Result<JsValue, JsError>>)
    ensures
        runtime::object_in(reply) is Some <==> reply is Some && reply->0 is Ok
            && engine::js_is_object(reply->0->Ok_0),
        runtime::object_in(reply) matches Some(object) ==> reply->0->Ok_0 == object,
        reply is Some && reply->0 is Ok ==> runtime::text_held(reply) == engine::js_text_in(
            reply->0->Ok_0,
        ),
        reply is None || reply->0 is Err ==> runtime::text_held(reply) is None,
{
}

/// A method is looked up on its object by its name and called on that object with the arguments; what
/// cannot be looked up is not called.
pub proof fn lemma_method_is_called_on_its_object(
    object: JsValue,
    method: Seq<char>,
    args: Seq<JsValue>,
    before: Context,
    after: Context,
    outcome: Result<JsValue, String>,
)
    requires
        runtime::method_called(object, method, args, before, after, outcome),
    ensures
        exists|between: Context, found: Option<Result<JsValue, JsError>>|
            {
                &&& #[trigger] engine::may_get(before, object, method, between, found)
                &&& found is Some && found->0 is Ok ==> exists|
                    reply: Option<Result<JsValue, JsError>>,
                |
                    {
                        &&& #[trigger] engine::may_call(
                            between,
                            found->0->Ok_0,
                            object,
                            args,
                            after,
                            reply,
                        )
                        &&& reply is None ==> outcome is Ok && engine::js_is_undefined(
                            outcome->Ok_0,
                        )
                        &&& reply is Some && reply->0 is Ok ==> outcome == Ok::<JsValue, String>(
                            reply->0->Ok_0,
                        )
                        &&& reply is Some && reply->0 is Err ==> outcome is Err
                    }
                &&& found is None || found->0 is Err ==> after == between
                &&& found is Some && found->0 is Err ==> outcome is Err
            },
{
}

/// What is to be kept is asked of the method `_save`, without arguments; where that throws, nothing is
/// kept.
pub proof fn lemma_state_is_asked_of_the_script(
    object: JsValue,
    before: Context,
    after: Context,
    text: Option<Seq<char>>,
)
    requires
        runtime::asked(object, before, after, text),
    ensures
        exists|saved: Context, state: Result<JsValue, String>|
            {
                &&& #[trigger] runtime::method_called(
                    object,
                    "_save"@,
                    Seq::empty(),
                    before,
                    saved,
                    state,
                )
                &&& state is Err ==> text is None
                &&& state is Ok ==> exists|written: Option<Result<JsValue, JsError>>|
                    {
                        &&& #[trigger] runtime::json_called(
                            "stringify"@,
                            state->Ok_0,
                            saved,
                            after,
                            written,
                        )
                        &&& written is Some && written->0 is Ok ==> text == engine::js_text_in(
                            written->0->Ok_0,
                        )
                        &&& written is None || written->0 is Err ==> text is None
                    }
            },
{
}

/// What was kept is read as JSON and handed to the method `_load` of the instance that it was kept of.
pub proof fn lemma_state_is_handed_to_the_script(
    state: Seq<char>,
    instance: Instance,
    before: Context,
    after: Context,
)
    requires
        runtime::delivered(state, Some(instance), before, after),
    ensures
        exists|read: Context, value: Option<Result<JsValue, JsError>>|
            {
                &&& #[trigger] runtime::json_called(
                    "parse"@,
                    engine::js_text(state),
                    before,
                    read,
                    value,
                )
                &&& value is Some && value->0 is Ok ==> exists|outcome: Result<JsValue, String>|
                    #[trigger]
                    runtime::method_called(
                        instance.object,
                        "_load"@,
                        seq![value->0->Ok_0],
                        read,
                        after,
                        outcome,
                    )
                &&& value is None || value->0 is Err ==> after == read
            },
{
}

/// A script's source stands on lines of its own in the function that is made of it.
pub proof fn lemma_source_has_its_own_lines(script: Script)
    ensures
        ({
            let all = script.factory();
            let n = script.source@.len() as int;
            &&& all.len() == n + 16
            &&& all.subrange(13, 13 + n) == script.source@
            &&& all[12] == '\n'
            &&& all[13 + n] == '\n'
            &&& all.subrange(0, 13) == "(function(){\n"@
            &&& all.subrange(13 + n, n + 16) == "\n})"@
        }),
{
    reveal_strlit("(function(){\n");
    reveal_strlit("\n})");
    let all = script.factory();
    let n = script.source@.len() as int;
    assert("(function(){\n"@.len() == 13);
    assert("\n})"@.len() == 3);
    assert(all.subrange(13, 13 + n) =~= script.source@);
    assert(all.subrange(0, 13) =~= "(function(){\n"@);
    assert(all.subrange(13 + n, n + 16) =~= "\n})"@);
}

/// A path is compared letter by letter, with both strokes taken for one.
pub proof fn lemma_path_is_compared_by_its_letters(path: Seq<char>, i: int)
    requires
        0 <= i < path.len(),
    ensures
        source::normal(path).len() == path.len(),
        path[i] == '\\' ==> source::normal(path)[i] == '/',
        path[i] != '\\' ==> source::normal(path)[i] == path[i],
{
}

} // verus!
