//! Streaming: the parts of a large map come and go with the viewer.
//!
//! The caller measures how far the viewer is from the surface of each cell and reads the files;
//! what is to be unloaded and loaded, in which order and how much of it at once, is decided here.

use crate::numbers::{Real, Vec3};
use crate::pool::Handle;
use crate::scene::graph::Scene;
use crate::scene::node::Node;
use crate::text;
use vstd::prelude::*;

verus! {

/// Where a cell stands.
#[derive(Debug, Clone, Copy, PartialEq, Eq, Structural)]
pub enum CellState {
    /// Not in the scene.
    Unloaded,
    /// Merged into the scene.
    Loaded,
    /// It could not be loaded, and is not tried again on its own.
    Failed,
}

/// One part of the map: a scene file with a place.
#[derive(Debug)]
pub struct Cell {
    pub name: String,
    /// Where its scene is stored.
    pub path: String,
    pub center: Vec3,
    /// Distances are measured to the surface of this sphere.
    pub radius: Real,
    pub state: CellState,
    /// The root of its nodes while it is loaded.
    pub root: Handle,
}

impl Cell {
    pub fn new(name: &str, path: &str, center: Vec3, radius: Real) -> (result: Self)
        ensures
            result.name@ == name@,
            result.path@ == path@,
            result.center == center,
            result.radius == radius.larger(Real::zero()),
            result.state == CellState::Unloaded,
            result.root == Handle::none(),
    {
        Cell {
            name: name.to_owned(),
            path: path.to_owned(),
            center,
            radius: radius.max(Real::zero()),
            state: CellState::Unloaded,
            root: Handle::none(),
        }
    }

    pub fn state(&self) -> (result: CellState)
        ensures
            result == self.state,
    {
        self.state
    }

    pub fn is_loaded(&self) -> (result: bool)
        ensures
            result == (self.state == CellState::Loaded),
    {
        self.state == CellState::Loaded
    }

    /// The root of its nodes; [`Handle::none`] while it is not loaded.
    pub fn root(&self) -> (result: Handle)
        ensures
            result == self.root,
    {
        self.root
    }
}

/// What a round has done.
#[derive(Debug)]
pub struct StreamingReport {
    /// The names of the cells that were loaded.
    pub loaded: Vec<String>,
    /// The names of the cells that were unloaded.
    pub unloaded: Vec<String>,
    /// How many cells have to wait for a later round.
    pub deferred: usize,
}

impl StreamingReport {
    /// Nothing was done.
    pub fn new() -> (result: Self)
        ensures
            result.loaded@ == Seq::<String>::empty(),
            result.unloaded@ == Seq::<String>::empty(),
            result.deferred == 0,
    {
        StreamingReport { loaded: Vec::new(), unloaded: Vec::new(), deferred: 0 }
    }

    /// Whether the scene was touched.
    pub fn changed(&self) -> (result: bool)
        ensures
            result == (self.loaded@.len() > 0 || self.unloaded@.len() > 0),
    {
        self.loaded.len() > 0 || self.unloaded.len() > 0
    }
}

/// A round that is under way.
#[derive(Debug)]
pub struct StreamingRound {
    /// The cells that could be loaded, nearest first.
    pub queue: Vec<usize>,
    /// How far the queue was worked off.
    pub next: usize,
    pub report: StreamingReport,
}

/// Decides which cells are in the scene.
#[derive(Debug)]
pub struct Streaming {
    pub cells: Vec<Cell>,
    pub load_distance: Real,
    pub unload_distance: Real,
    /// How many cells a round loads at most.
    pub max_loads_per_update: usize,
    /// The node that all cells hang under.
    pub container: Handle,
}

/// The first cell of that name.
pub open spec fn cell_named(cells: Seq<Cell>, name: Seq<char>) -> Option<int> {
    if exists|i: int| 0 <= i < cells.len() && (#[trigger] cells[i]).name@ == name {
        Some(
            choose|i: int|
                {
                    &&& 0 <= i < cells.len()
                    &&& (#[trigger] cells[i]).name@ == name
                    &&& forall|j: int| 0 <= j < i ==> (#[trigger] cells[j]).name@ != name
                },
        )
    } else {
        None
    }
}

/// The cell as it is while it is not loaded.
pub open spec fn emptied(cell: Cell) -> Cell {
    Cell { state: CellState::Unloaded, root: Handle::none(), ..cell }
}

/// The numbers below `n` that will do, in order.
pub open spec fn numbers_where(keep: spec_fn(int) -> bool, n: nat) -> Seq<int>
    decreases n,
{
    if n == 0 {
        Seq::empty()
    } else {
        let front = numbers_where(keep, (n - 1) as nat);
        if keep(n - 1) {
            front.push(n - 1)
        } else {
            front
        }
    }
}

/// A cell that has to go.
pub open spec fn too_far(cells: Seq<Cell>, distances: Seq<Real>, unload: Real) -> spec_fn(int) -> bool {
    |i: int| cells[i].state == CellState::Loaded && !distances[i].at_most(unload)
}

/// A cell that is loaded.
pub open spec fn present(cells: Seq<Cell>) -> spec_fn(int) -> bool {
    |i: int| cells[i].state == CellState::Loaded
}

proof fn lemma_numbers(keep: spec_fn(int) -> bool, n: nat)
    ensures
        forall|i: int| #[trigger]
            numbers_where(keep, n).contains(i) <==> 0 <= i < n && keep(i),
        forall|k: int|
            0 <= k < numbers_where(keep, n).len() ==> 0 <= #[trigger] numbers_where(keep, n)[k] < n,
    decreases n,
{
    if n > 0 {
        let before = numbers_where(keep, (n - 1) as nat);
        let now = numbers_where(keep, n);
        lemma_numbers(keep, (n - 1) as nat);
        assert forall|i: int| #[trigger] now.contains(i) <==> 0 <= i < n && keep(i) by {
            assert(before.contains(i) <==> 0 <= i < n - 1 && keep(i));
            if before.contains(i) {
                let k = choose|k: int| 0 <= k < before.len() && before[k] == i;
                assert(now[k] == i);
            }
            if keep(n - 1) {
                assert(now[before.len() as int] == n - 1);
            }
            if now.contains(i) {
                let k = choose|k: int| 0 <= k < now.len() && now[k] == i;
                if k < before.len() {
                    assert(before[k] == i);
                }
            }
        }
        assert forall|k: int| 0 <= k < now.len() implies 0 <= #[trigger] now[k] < n by {
            assert(now.contains(now[k]));
        }
    }
}

proof fn lemma_evicts_more(
    scenes: Seq<Scene>,
    after: Scene,
    cells: Seq<Cell>,
    list: Seq<int>,
    i: int,
)
    requires
        evicted(scenes, cells, list),
        after.lost(&scenes.last(), cells[i].root),
    ensures
        evicted(scenes.push(after), cells, list.push(i)),
{
    let all = scenes.push(after);
    let more = list.push(i);
    assert forall|k: int| 0 <= k < more.len() implies all[k + 1].lost(
        &all[k],
        cells[#[trigger] more[k]].root,
    ) by {
        if k < list.len() {
            assert(more[k] == list[k]);
        }
    }
}

/// Whether a cell could be loaded.
pub open spec fn due(cells: Seq<Cell>, distances: Seq<Real>, load: Real, i: int) -> bool {
    &&& 0 <= i < cells.len()
    &&& cells[i].state == CellState::Unloaded
    &&& distances[i].at_most(load)
}

/// `a` comes before `b`: it is nearer, or it is as near and was added first.
pub open spec fn sooner(distances: Seq<Real>, a: int, b: int) -> bool {
    ||| distances[a].total_rank() < distances[b].total_rank()
    ||| distances[a].total_rank() == distances[b].total_rank() && a < b
}

/// The cells that could be loaded among the first `n`, nearest first.
pub open spec fn queued(
    queue: Seq<usize>,
    cells: Seq<Cell>,
    distances: Seq<Real>,
    load: Real,
    n: int,
) -> bool {
    &&& forall|i: usize| #[trigger]
        queue.contains(i) <==> i < n && due(cells, distances, load, i as int)
    &&& forall|a: int, b: int|
        0 <= a < b < queue.len() ==> sooner(
            distances,
            #[trigger] queue[a] as int,
            #[trigger] queue[b] as int,
        )
}

/// A round has begun: what is too far away is unloaded, and what is near enough is queued.
pub open spec fn round_began(
    before: Streaming,
    after: Streaming,
    distances: Seq<Real>,
    queue: Seq<usize>,
) -> bool {
    &&& after.cells@.len() == before.cells@.len()
    &&& forall|i: int|
        0 <= i < before.cells@.len() ==> #[trigger] after.cells@[i] == if before.cells@[i].state
            == CellState::Loaded && !distances[i].at_most(before.unload_distance) {
            emptied(before.cells@[i])
        } else {
            before.cells@[i]
        }
    &&& queued(
        queue,
        after.cells@,
        distances,
        before.load_distance,
        before.cells@.len() as int,
    )
}

/// A round went on to its next cell, or put off what is left.
pub open spec fn went_on(
    before: StreamingRound,
    after: StreamingRound,
    budget: usize,
    next: Option<usize>,
) -> bool {
    let left = before.queue@.len() - before.next;
    let goes_on = left > 0 && before.report.loaded@.len() < budget;
    &&& next is Some == goes_on
    &&& next matches Some(cell) ==> cell == before.queue@[before.next as int]
    &&& after.next == before.next + if goes_on {
        1
    } else {
        left
    }
    &&& after.report.deferred == before.report.deferred + if goes_on {
        0
    } else {
        left
    }
    &&& after.queue == before.queue
    &&& after.report.loaded == before.report.loaded
    &&& after.report.unloaded == before.report.unloaded
}

/// Removing the nodes of the listed cells, one after the other.
pub open spec fn evicted(scenes: Seq<Scene>, cells: Seq<Cell>, list: Seq<int>) -> bool {
    &&& scenes.len() == list.len() + 1
    &&& forall|k: int|
        0 <= k < list.len() ==> scenes[k + 1].lost(&scenes[k], cells[#[trigger] list[k]].root)
}

impl Scene {
    /// This scene is `before` with a container for cells, which may have been there.
    pub open spec fn contained(&self, before: &Scene, old_container: Handle, container: Handle) -> bool {
        if before.nodes@.contains_key(old_container) {
            container == old_container && *self == *before
        } else {
            exists|node: Node| #[trigger]
                self.gained(before, container, node, before.root) && node.bare("Streaming"@)
        }
    }

    /// This scene is `before` with the nodes of a cell hung under the container.
    pub open spec fn joined(
        &self,
        before: &Scene,
        source: &Scene,
        container: Handle,
        root: Handle,
        name: Seq<char>,
    ) -> bool {
        exists|after: Scene, names: Map<Handle, Handle>|
            {
                &&& #[trigger] after.absorbed(before, source, names, container)
                &&& names.contains_key(source.root)
                &&& root == names[source.root]
                &&& self.nodes@ == after.nodes@.insert(
                    root,
                    Node { name: self.nodes@[root].name, ..after.nodes@[root] },
                )
                &&& self.nodes@[root].name@ == "Cell:"@ + name
                &&& self.index == after.index
                &&& self.physics == after.physics
                &&& self.rest_same(&after)
            }
    }
}

impl Streaming {
    /// No cells. They are loaded within 100 and unloaded beyond 140.
    pub fn new() -> (result: Self)
        ensures
            result.cells@ == Seq::<Cell>::empty(),
            result.load_distance.bits == 0x42c8_0000,
            result.unload_distance.bits == 0x430c_0000,
            result.max_loads_per_update == 1,
            result.container == Handle::none(),
    {
        Streaming {
            cells: Vec::new(),
            load_distance: Real::from_bits(0x42c8_0000),
            unload_distance: Real::from_bits(0x430c_0000),
            max_loads_per_update: 1,
            container: Handle::none(),
        }
    }

    /// Other distances. `least` is the least distance to unload at that goes with `load`; without
    /// it a viewer who stands on the border would have the cell loaded and unloaded in turn.
    pub fn with_distances(self, load: Real, unload: Real, least: Real) -> (result: Self)
        ensures
            result == (Streaming {
                load_distance: load.larger(Real::zero()),
                unload_distance: unload.larger(least),
                ..self
            }),
            load.larger(Real::zero()).less(least) ==> result.load_distance.less(
                result.unload_distance,
            ),
    {
        Streaming {
            load_distance: load.max(Real::zero()),
            unload_distance: unload.max(least),
            ..self
        }
    }

    /// Another number of cells to load in a round, at least one.
    pub fn with_load_budget(self, budget: usize) -> (result: Self)
        ensures
            result == (Streaming {
                max_loads_per_update: if budget < 1 {
                    1
                } else {
                    budget
                },
                ..self
            }),
    {
        Streaming {
            max_loads_per_update: if budget < 1 {
                1
            } else {
                budget
            },
            ..self
        }
    }

    pub fn load_distance(&self) -> (result: Real)
        ensures
            result == self.load_distance,
    {
        self.load_distance
    }

    pub fn unload_distance(&self) -> (result: Real)
        ensures
            result == self.unload_distance,
    {
        self.unload_distance
    }

    /// Adds a cell.
    pub fn add_cell(&mut self, cell: Cell)
        ensures
            final(self).cells@ == old(self).cells@.push(cell),
            *final(self) == (Streaming { cells: final(self).cells, ..*old(self) }),
    {
        self.cells.push(cell);
    }

    pub fn cells(&self) -> (result: &[Cell])
        ensures
            result@ == self.cells@,
    {
        self.cells.as_slice()
    }

    fn position(&self, name: &str) -> (result: Option<usize>)
        ensures
            match result {
                Some(i) => i < self.cells@.len() && cell_named(self.cells@, name@) == Some(i as int),
                None => cell_named(self.cells@, name@) is None,
            },
    {
        let ghost cells = self.cells@;
        let mut i: usize = 0;
        while i < self.cells.len()
            invariant
                cells == self.cells@,
                i <= cells.len(),
                forall|j: int| 0 <= j < i ==> (#[trigger] cells[j]).name@ != name@,
            decreases cells.len() - i,
        {
            if text::same_text(self.cells[i].name.as_str(), name) {
                proof {
                    assert(cells[i as int].name@ == name@);
                    let k = cell_named(cells, name@)->0;
                    if k < i {
                        assert(cells[k].name@ != name@);
                    }
                    if k > i {
                        assert(cells[i as int].name@ != name@);
                    }
                }
                return Some(i);
            }
            i += 1;
        }
        None
    }

    /// The first cell of that name.
    pub fn cell(&self, name: &str) -> (result: Option<&Cell>)
        ensures
            match cell_named(self.cells@, name@) {
                Some(i) => result == Some(&self.cells@[i]),
                None => result is None,
            },
    {
        match self.position(name) {
            Some(i) => Some(&self.cells[i]),
            None => None,
        }
    }

    /// How many of the cells are loaded.
    pub fn loaded_count(&self) -> (result: usize)
        ensures
            result == numbers_where(present(self.cells@), self.cells@.len()).len(),
    {
        let ghost here = present(self.cells@);
        let mut count: usize = 0;
        let mut i: usize = 0;
        while i < self.cells.len()
            invariant
                here == present(self.cells@),
                i <= self.cells@.len(),
                count <= i,
                count == numbers_where(here, i as nat).len(),
            decreases self.cells@.len() - i,
        {
            if self.cells[i].is_loaded() {
                count += 1;
            }
            i += 1;
        }
        count
    }

    /// The node that all cells hang under; it is made when the first cell is loaded.
    pub fn container(&self) -> (result: Handle)
        ensures
            result == self.container,
    {
        self.container
    }

    /// Removes the nodes of one cell, which is not loaded afterwards.
    fn evict(&mut self, scene: &mut Scene, index: usize)
        requires
            old(scene).wf(),
            index < old(self).cells@.len(),
        ensures
            final(scene).wf(),
            final(scene).lost(old(scene), old(self).cells@[index as int].root),
            final(self).cells@ == old(self).cells@.update(
                index as int,
                emptied(old(self).cells@[index as int]),
            ),
            *final(self) == (Streaming { cells: final(self).cells, ..*old(self) }),
    {
        scene.remove_node(self.cells[index].root);
        let cell = &mut self.cells[index];
        cell.state = CellState::Unloaded;
        cell.root = Handle::none();
    }

    /// Begins a round: unloads the cells that are too far away, and lists those that could be
    /// loaded, nearest first. Unloading comes first, so that there is room for what is loaded.
    pub fn begin_update(&mut self, scene: &mut Scene, distances: &Vec<Real>) -> (result:
        StreamingRound)
        requires
            old(scene).wf(),
            distances@.len() == old(self).cells@.len(),
        ensures
            round_began(*old(self), *final(self), distances@, result.queue@),
            final(scene).wf(),
            ({
                let cells = old(self).cells@;
                let gone = numbers_where(
                    too_far(cells, distances@, old(self).unload_distance),
                    cells.len(),
                );
                &&& final(self).cells@.len() == cells.len()
                &&& forall|i: int|
                    0 <= i < cells.len() ==> #[trigger] final(self).cells@[i]
                        == if gone.contains(i) {
                        emptied(cells[i])
                    } else {
                        cells[i]
                    }
                &&& exists|scenes: Seq<Scene>|
                    #[trigger] evicted(scenes, cells, gone) && scenes[0] == *old(scene)
                        && scenes.last() == *final(scene)
                &&& result.report.unloaded@.len() == gone.len()
                &&& forall|k: int|
                    0 <= k < gone.len() ==> (#[trigger] result.report.unloaded@[k])@
                        == cells[gone[k]].name@
            }),
            result.report.loaded@.len() == 0,
            result.report.deferred == 0,
            result.next == 0,
            queued(
                result.queue@,
                final(self).cells@,
                distances@,
                old(self).load_distance,
                distances@.len() as int,
            ),
            *final(self) == (Streaming { cells: final(self).cells, ..*old(self) }),
            final(scene).nodes.capacity() == old(scene).nodes.capacity(),
    {
        let mut report = StreamingReport::new();
        let ghost cells = self.cells@;
        let ghost far = too_far(cells, distances@, self.unload_distance);
        let ghost mut scenes: Seq<Scene> = seq![*scene];
        let mut i: usize = 0;
        while i < self.cells.len()
            invariant
                scene.wf(),
                i <= cells.len(),
                cells == old(self).cells@,
                far == too_far(cells, distances@, old(self).unload_distance),
                self.cells@.len() == cells.len(),
                distances@.len() == cells.len(),
                *self == (Streaming { cells: self.cells, ..*old(self) }),
                forall|j: int|
                    0 <= j < cells.len() ==> #[trigger] self.cells@[j] == if j < i && far(j) {
                        emptied(cells[j])
                    } else {
                        cells[j]
                    },
                evicted(scenes, cells, numbers_where(far, i as nat)),
                scenes[0] == *old(scene),
                scenes.last() == *scene,
                report.loaded@.len() == 0,
                report.deferred == 0,
                report.unloaded@.len() == numbers_where(far, i as nat).len(),
                forall|k: int|
                    0 <= k < report.unloaded@.len() ==> (#[trigger] report.unloaded@[k])@
                        == cells[numbers_where(far, i as nat)[k]].name@,
                scene.nodes.capacity() == old(scene).nodes.capacity(),
            decreases cells.len() - i,
        {
            let ghost before = numbers_where(far, i as nat);
            assert(self.cells@[i as int] == cells[i as int]);
            if self.cells[i].is_loaded() && !distances[i].is_at_most(self.unload_distance) {
                report.unloaded.push(self.cells[i].name.clone());
                self.evict(scene, i);
                proof {
                    lemma_evicts_more(scenes, *scene, cells, before, i as int);
                    scenes = scenes.push(*scene);
                    assert(numbers_where(far, (i + 1) as nat) == before.push(i as int));
                }
            } else {
                assert(numbers_where(far, (i + 1) as nat) == before);
            }
            i += 1;
        }
        proof {
            lemma_numbers(far, cells.len());
        }
        let queue = self.candidates(distances);
        StreamingRound { queue, next: 0, report }
    }

    /// The cells that could be loaded, nearest first.
    fn candidates(&self, distances: &Vec<Real>) -> (result: Vec<usize>)
        requires
            distances@.len() == self.cells@.len(),
        ensures
            queued(
                result@,
                self.cells@,
                distances@,
                self.load_distance,
                distances@.len() as int,
            ),
    {
        let ghost cells = self.cells@;
        let ghost load = self.load_distance;
        let mut queue: Vec<usize> = Vec::new();
        let mut i: usize = 0;
        while i < self.cells.len()
            invariant
                cells == self.cells@,
                load == self.load_distance,
                distances@.len() == cells.len(),
                i <= cells.len(),
                queued(queue@, cells, distances@, load, i as int),
            decreases cells.len() - i,
        {
            let ghost before = queue@;
            if self.cells[i].state == CellState::Unloaded && distances[i].is_at_most(
                self.load_distance,
            ) {
                let key = distances[i].total_key();
                let mut at: usize = 0;
                proof {
                    assert forall|b: int| 0 <= b < queue@.len() implies #[trigger] queue@[b]
                        < i by {
                        assert(queue@.contains(queue@[b]));
                    }
                }
                while at < queue.len() && distances[queue[at]].total_key() <= key
                    invariant
                        at <= queue@.len(),
                        queue@ == before,
                        distances@.len() == cells.len(),
                        i < cells.len(),
                        key == distances@[i as int].total_rank(),
                        forall|b: int| 0 <= b < queue@.len() ==> #[trigger] queue@[b] < i,
                        forall|b: int|
                            0 <= b < at ==> distances@[#[trigger] queue@[b] as int].total_rank()
                                <= key,
                    decreases queue@.len() - at,
                {
                    assert(queue@[at as int] < i);
                    at += 1;
                }
                if at < queue.len() {
                    assert(queue@[at as int] < i);
                }
                queue.insert(at, i);
                proof {
                    lemma_inserted(before, queue@, cells, distances@, load, i, at as int);
                }
            }
            proof {
                assert forall|x: usize| #[trigger]
                    queue@.contains(x) <==> x < i + 1 && due(cells, distances@, load, x as int) by {
                    assert(before.contains(x) <==> x < i && due(
                        cells,
                        distances@,
                        load,
                        x as int,
                    ));
                }
            }
            i += 1;
        }
        queue
    }

    /// The next cell to be loaded. Once as many were loaded as a round may load, the rest of the
    /// queue is put off.
    pub fn next_load(&self, round: &mut StreamingRound) -> (result: Option<usize>)
        requires
            old(round).next <= old(round).queue@.len(),
            old(round).report.deferred + (old(round).queue@.len() - old(round).next) <= usize::MAX,
        ensures
            went_on(*old(round), *final(round), self.max_loads_per_update, result),
            final(round).queue == old(round).queue,
            final(round).report.loaded == old(round).report.loaded,
            final(round).report.unloaded == old(round).report.unloaded,
            if old(round).next == old(round).queue@.len() {
                &&& result is None
                &&& *final(round) == *old(round)
            } else if old(round).report.loaded@.len() >= self.max_loads_per_update {
                &&& result is None
                &&& final(round).next == old(round).queue@.len()
                &&& final(round).report.deferred == old(round).report.deferred + (old(
                    round,
                ).queue@.len() - old(round).next)
            } else {
                &&& result == Some(old(round).queue@[old(round).next as int])
                &&& final(round).next == old(round).next + 1
                &&& final(round).report.deferred == old(round).report.deferred
            },
    {
        if round.next >= round.queue.len() {
            return None;
        }
        if round.report.loaded.len() >= self.max_loads_per_update {
            round.report.deferred += round.queue.len() - round.next;
            round.next = round.queue.len();
            return None;
        }
        let index = round.queue[round.next];
        round.next += 1;
        Some(index)
    }

    /// Takes in what was read for a cell of the round, and reports it.
    pub fn finish_load(
        &mut self,
        scene: &mut Scene,
        round: &mut StreamingRound,
        index: usize,
        loaded: Option<Scene>,
    ) -> (result: bool)
        requires
            old(scene).wf(),
            index < old(self).cells@.len(),
            loaded matches Some(source) ==> source.wf() && old(scene).nodes.capacity() + 1
                + source.nodes.order().len() <= u32::MAX,
        ensures
            final(scene).wf(),
            result == loaded is Some,
            final(self).settled(
                old(self),
                old(scene),
                final(scene),
                index as int,
                loaded,
            ),
            final(round).queue == old(round).queue,
            final(round).next == old(round).next,
            final(round).report.unloaded == old(round).report.unloaded,
            final(round).report.deferred == old(round).report.deferred,
            result ==> {
                &&& final(round).report.loaded@.len() == old(round).report.loaded@.len() + 1
                &&& final(round).report.loaded@.drop_last() == old(round).report.loaded@
                &&& final(round).report.loaded@.last()@ == old(self).cells@[index as int].name@
            },
            !result ==> final(round).report.loaded == old(round).report.loaded,
    {
        let result = self.load_cell(scene, index, loaded);
        if result {
            let ghost before = round.report.loaded@;
            round.report.loaded.push(self.cells[index].name.clone());
            assert(round.report.loaded@.drop_last() =~= before);
        }
        result
    }

    /// One cell took in what was read for it: nothing means that it has failed.
    pub open spec fn settled(
        &self,
        before: &Streaming,
        scene: &Scene,
        after: &Scene,
        index: int,
        loaded: Option<Scene>,
    ) -> bool {
        let cell = before.cells@[index];
        &&& self.load_distance == before.load_distance
        &&& self.unload_distance == before.unload_distance
        &&& self.max_loads_per_update == before.max_loads_per_update
        &&& match loaded {
            None => {
                &&& *after == *scene
                &&& self.container == before.container
                &&& self.cells@ == before.cells@.update(
                    index,
                    Cell { state: CellState::Failed, ..cell },
                )
            },
            Some(source) => {
                let root = self.cells@[index].root;
                &&& self.cells@ == before.cells@.update(
                    index,
                    Cell { state: CellState::Loaded, root, ..cell },
                )
                &&& exists|middle: Scene|
                    {
                        &&& #[trigger] middle.contained(scene, before.container, self.container)
                        &&& after.joined(&middle, &source, self.container, root, cell.name@)
                    }
            },
        }
    }

    /// Takes in what was read for a cell.
    fn load_cell(&mut self, scene: &mut Scene, index: usize, loaded: Option<Scene>) -> (result: bool)
        requires
            old(scene).wf(),
            index < old(self).cells@.len(),
            loaded matches Some(source) ==> source.wf() && old(scene).nodes.capacity() + 1
                + source.nodes.order().len() <= u32::MAX,
        ensures
            final(scene).wf(),
            result == loaded is Some,
            final(self).settled(
                old(self),
                old(scene),
                final(scene),
                index as int,
                loaded,
            ),
    {
        let source = match loaded {
            Some(source) => source,
            None => {
                self.cells[index].state = CellState::Failed;
                return false;
            },
        };
        let ghost original = source;
        let container = self.ensure_container(scene);
        let ghost middle = *scene;
        let root = scene.merge(source, container);
        let ghost after = *scene;
        let ghost names = choose|names: Map<Handle, Handle>|
            {
                &&& #[trigger] after.absorbed(&middle, &original, names, container)
                &&& names.contains_key(original.root)
                &&& root == names[original.root]
            };
        let name = text::joined("Cell:", self.cells[index].name.as_str());
        if let Some(node) = scene.try_get_mut(root) {
            node.name = name;
        }
        let cell = &mut self.cells[index];
        cell.state = CellState::Loaded;
        cell.root = root;
        proof {
            assert(middle.or_root(container) == container);
            assert(after.absorbed(&middle, &original, names, container));
            assert(scene.joined(
                &middle,
                &original,
                container,
                root,
                old(self).cells@[index as int].name@,
            ));
            assert(middle.contained(old(scene), old(self).container, self.container));
        }
        true
    }

    fn ensure_container(&mut self, scene: &mut Scene) -> (result: Handle)
        requires
            old(scene).wf(),
            old(scene).nodes.capacity() < u32::MAX,
        ensures
            final(scene).wf(),
            result == final(self).container,
            final(scene).nodes@.contains_key(result),
            final(scene).contained(old(scene), old(self).container, result),
            *final(self) == (Streaming { container: result, ..*old(self) }),
            final(scene).nodes.capacity() <= old(scene).nodes.capacity() + 1,
    {
        if scene.nodes.is_valid_handle(self.container) {
            return self.container;
        }
        let node = Node::new("Streaming");
        let ghost bare = node;
        self.container = scene.add_node(node);
        proof {
            assert(scene.gained(old(scene), self.container, bare, old(scene).root));
        }
        self.container
    }

    /// Loads a cell whatever its distance; `loaded` is what was read for it. Nothing happens, and
    /// the result is `false`, for a cell that is loaded or that there is not. A cell that has
    /// failed is tried again.
    pub fn force_load(&mut self, scene: &mut Scene, name: &str, loaded: Option<Scene>) -> (result:
        bool)
        requires
            old(scene).wf(),
            loaded matches Some(source) ==> source.wf() && old(scene).nodes.capacity() + 1
                + source.nodes.order().len() <= u32::MAX,
        ensures
            final(scene).wf(),
            match cell_named(old(self).cells@, name@) {
                Some(i) if old(self).cells@[i].state != CellState::Loaded => {
                    &&& result == loaded is Some
                    &&& final(self).settled(old(self), old(scene), final(scene), i, loaded)
                },
                _ => !result && *final(self) == *old(self) && *final(scene) == *old(scene),
            },
    {
        let index = match self.position(name) {
            Some(index) => index,
            None => {
                return false;
            },
        };
        if self.cells[index].is_loaded() {
            return false;
        }
        self.load_cell(scene, index, loaded)
    }

    /// Unloads a cell whatever its distance. The result is `false` for a cell that is not loaded or
    /// that there is not.
    pub fn force_unload(&mut self, scene: &mut Scene, name: &str) -> (result: bool)
        requires
            old(scene).wf(),
        ensures
            final(scene).wf(),
            match cell_named(old(self).cells@, name@) {
                Some(i) if old(self).cells@[i].state == CellState::Loaded => {
                    &&& result
                    &&& final(self).cells@ == old(self).cells@.update(
                        i,
                        emptied(old(self).cells@[i]),
                    )
                    &&& final(scene).lost(old(scene), old(self).cells@[i].root)
                },
                _ => !result && final(self).cells == old(self).cells && *final(scene)
                    == *old(scene),
            },
            *final(self) == (Streaming { cells: final(self).cells, ..*old(self) }),
    {
        let index = match self.position(name) {
            Some(index) => index,
            None => {
                return false;
            },
        };
        if !self.cells[index].is_loaded() {
            return false;
        }
        self.evict(scene, index);
        true
    }

    /// Unloads all cells, and says how many were loaded.
    pub fn unload_all(&mut self, scene: &mut Scene) -> (result: usize)
        requires
            old(scene).wf(),
        ensures
            final(scene).wf(),
            ({
                let cells = old(self).cells@;
                let gone = numbers_where(present(cells), cells.len());
                &&& result == gone.len()
                &&& final(self).cells@.len() == cells.len()
                &&& forall|i: int|
                    0 <= i < cells.len() ==> #[trigger] final(self).cells@[i] == if cells[i].state
                        == CellState::Loaded {
                        emptied(cells[i])
                    } else {
                        cells[i]
                    }
                &&& exists|scenes: Seq<Scene>|
                    #[trigger] evicted(scenes, cells, gone) && scenes[0] == *old(scene)
                        && scenes.last() == *final(scene)
            }),
            *final(self) == (Streaming { cells: final(self).cells, ..*old(self) }),
    {
        let ghost cells = self.cells@;
        let ghost here = present(cells);
        let ghost mut scenes: Seq<Scene> = seq![*scene];
        let mut count: usize = 0;
        let mut i: usize = 0;
        while i < self.cells.len()
            invariant
                scene.wf(),
                cells == old(self).cells@,
                here == present(cells),
                i <= cells.len(),
                self.cells@.len() == cells.len(),
                count <= i,
                count == numbers_where(here, i as nat).len(),
                *self == (Streaming { cells: self.cells, ..*old(self) }),
                forall|j: int|
                    0 <= j < cells.len() ==> #[trigger] self.cells@[j] == if j < i && here(j) {
                        emptied(cells[j])
                    } else {
                        cells[j]
                    },
                evicted(scenes, cells, numbers_where(here, i as nat)),
                scenes[0] == *old(scene),
                scenes.last() == *scene,
            decreases cells.len() - i,
        {
            let ghost before = numbers_where(here, i as nat);
            assert(self.cells@[i as int] == cells[i as int]);
            if self.cells[i].is_loaded() {
                self.evict(scene, i);
                count += 1;
                proof {
                    lemma_evicts_more(scenes, *scene, cells, before, i as int);
                    scenes = scenes.push(*scene);
                    assert(numbers_where(here, (i + 1) as nat) == before.push(i as int));
                }
            } else {
                assert(numbers_where(here, (i + 1) as nat) == before);
            }
            i += 1;
        }
        count
    }
}

impl Default for Streaming {
    fn default() -> (result: Self)
        ensures
            result.cells@ == Seq::<Cell>::empty(),
            result.load_distance.bits == 0x42c8_0000,
            result.unload_distance.bits == 0x430c_0000,
            result.max_loads_per_update == 1,
            result.container == Handle::none(),
    {
        Streaming::new()
    }
}

proof fn lemma_inserted(
    before: Seq<usize>,
    now: Seq<usize>,
    cells: Seq<Cell>,
    distances: Seq<Real>,
    load: Real,
    i: usize,
    at: int,
)
    requires
        queued(before, cells, distances, load, i as int),
        due(cells, distances, load, i as int),
        0 <= at <= before.len(),
        now == before.insert(at, i),
        forall|b: int| 0 <= b < before.len() ==> #[trigger] before[b] < i,
        forall|b: int|
            0 <= b < at ==> distances[#[trigger] before[b] as int].total_rank()
                <= distances[i as int].total_rank(),
        at < before.len() ==> distances[before[at] as int].total_rank()
            > distances[i as int].total_rank(),
    ensures
        forall|x: usize| #[trigger] now.contains(x) <==> before.contains(x) || x == i,
        forall|a: int, b: int|
            0 <= a < b < now.len() ==> sooner(
                distances,
                #[trigger] now[a] as int,
                #[trigger] now[b] as int,
            ),
{
    assert forall|x: usize| #[trigger] now.contains(x) <==> before.contains(x) || x == i by {
        if before.contains(x) {
            let k = choose|k: int| 0 <= k < before.len() && before[k] == x;
            if k < at {
                assert(now[k] == x);
            } else {
                assert(now[k + 1] == x);
            }
        }
        assert(now[at] == i);
        if now.contains(x) {
            let k = choose|k: int| 0 <= k < now.len() && now[k] == x;
            if k < at {
                assert(before[k] == x);
            } else if k > at {
                assert(before[k - 1] == x);
            }
        }
    }
    assert forall|a: int, b: int| 0 <= a < b < now.len() implies sooner(
        distances,
        #[trigger] now[a] as int,
        #[trigger] now[b] as int,
    ) by {
        let p = if a < at {
            a
        } else {
            a - 1
        };
        let q = if b < at {
            b
        } else {
            b - 1
        };
        if a != at {
            assert(now[a] == before[p]);
        }
        if b != at {
            assert(now[b] == before[q]);
        }
        if a != at && b != at {
            assert(sooner(distances, before[p] as int, before[q] as int));
        } else if a == at {
            assert(now[a] == i);
            assert(now[b] == before[b - 1]);
            if b - 1 > at {
                assert(sooner(distances, before[at] as int, before[b - 1] as int));
            }
        } else {
            assert(now[b] == i);
        }
    }
}

/// Removing a node leaves no node that was not there, and takes away the node itself.
pub proof fn lemma_lost_is_gone(after: &Scene, before: &Scene, h: Handle)
    requires
        before.wf(),
        after.lost(before, h),
    ensures
        forall|x: Handle| #[trigger]
            after.nodes@.contains_key(x) ==> before.nodes@.contains_key(x),
        h != before.root ==> !after.nodes@.contains_key(h),
{
    if h != before.root && before.nodes@.contains_key(h) {
        let t = before.tree();
        crate::tree::lemma_below_self(t, before.root, h);
        assert forall|x: Handle| #[trigger] after.nodes@.contains_key(x) implies
            before.nodes@.contains_key(x) && x != h by {
            assert(after.tree().contains_key(x));
            assert(crate::tree::pruned(t, h).contains_key(x));
            assert(t.contains_key(x));
        }
    }
}

/// A viewer who stands still does not have a cell loaded and unloaded in turn: where a cell is near
/// enough to be loaded it is not far enough to be unloaded.
pub proof fn lemma_no_thrashing(streaming: &Streaming, distance: Real)
    requires
        streaming.load_distance.at_most(streaming.unload_distance),
        distance.at_most(streaming.load_distance),
    ensures
        distance.at_most(streaming.unload_distance),
{
}

/// A cell that has failed is not tried again on its own.
pub proof fn lemma_failed_is_not_due(cells: Seq<Cell>, distances: Seq<Real>, load: Real, i: int)
    requires
        0 <= i < cells.len(),
        cells[i].state == CellState::Failed,
    ensures
        !due(cells, distances, load, i),
{
}

/// A round loads the cells that are due in the order of their distance, and no cell twice.
pub proof fn lemma_queue_is_ordered(
    queue: Seq<usize>,
    cells: Seq<Cell>,
    distances: Seq<Real>,
    load: Real,
    a: int,
    b: int,
)
    requires
        queued(queue, cells, distances, load, cells.len() as int),
        0 <= a < b < queue.len(),
    ensures
        queue[a] != queue[b],
        distances[queue[a] as int].total_rank() <= distances[queue[b] as int].total_rank(),
        due(cells, distances, load, queue[a] as int),
{
    assert(sooner(distances, queue[a] as int, queue[b] as int));
    assert(queue.contains(queue[a]));
}

} // verus!
