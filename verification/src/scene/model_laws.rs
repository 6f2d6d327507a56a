//! What becomes of a model that is brought into a scene.

use crate::numbers::Transform;
use crate::pool::Handle;
use crate::scene::graph::Scene;
use crate::scene::model;
use crate::scene::model::{Birth, Model, ModelSkin, Origin};
use crate::scene::node::Node;
use crate::scene::skin::Skin;
use crate::text;
use vstd::prelude::*;

verus! {

/// A birth stands where the model has it: a node of the model under the node whose child it is, and
/// one of several pieces, which has a mesh, under the node that it is a piece of.
pub open spec fn under(model: &Model, up: Birth, birth: Birth) -> bool {
    match (up.origin, birth.origin) {
        (Origin::Node { index: p }, Origin::Node { index }) => {
            &&& p < model.nodes@.len()
            &&& model.nodes@[p as int].children@.contains(index)
        },
        (Origin::Node { index: p }, Origin::Part { index, part }) => {
            &&& p == index
            &&& p < model.nodes@.len()
            &&& model.nodes@[p as int].parts@.len() != 1
            &&& part < model.nodes@[p as int].parts@.len()
            &&& model.nodes@[p as int].parts@[part as int].mesh < model.meshes@.len()
        },
        _ => false,
    }
}

/// A birth of a list of nodes, with nothing above it.
spec fn on_top(model: &Model, birth: Birth, parent: Option<usize>, list: Seq<usize>) -> bool {
    &&& birth.parent == parent
    &&& birth.origin matches Origin::Node { index } && index < model.nodes@.len() && list.contains(
        index,
    )
}

/// All births of a stretch of the plan stand where the model has them.
spec fn in_place(
    model: &Model,
    births: Seq<Birth>,
    start: int,
    parent: Option<usize>,
    list: Seq<usize>,
) -> bool {
    forall|k: int|
        0 <= k < births.len() ==> on_top(model, #[trigger] births[k], parent, list) || (
        births[k].parent matches Some(j) && start <= j < start + k && under(
            model,
            births[j - start],
            births[k],
        ) && model.sound(births[k]))
}

proof fn lemma_parts_in_place(model: &Model, index: usize, start: int, n: nat)
    requires
        index < model.nodes@.len(),
        model.nodes@[index as int].parts@.len() != 1,
        n <= model.nodes@[index as int].parts@.len(),
        0 <= start <= usize::MAX,
    ensures
        forall|k: int|
            0 <= k < model.part_births(index, start, n).len() ==> {
                let birth = #[trigger] model.part_births(index, start, n)[k];
                &&& birth.parent == Some(start as usize)
                &&& birth.origin matches Origin::Part { index: i, part } && i == index && part < n
                    && model.nodes@[index as int].parts@[part as int].mesh < model.meshes@.len()
            },
        forall|part: int|
            0 <= part < n && (#[trigger] model.nodes@[index as int].parts@[part]).mesh
                < model.meshes@.len() ==> exists|k: int|
                0 <= k < model.part_births(index, start, n).len() && (
                #[trigger] model.part_births(index, start, n)[k]).origin == (Origin::Part {
                    index,
                    part: part as usize,
                }),
    decreases n,
{
    if n > 0 {
        lemma_parts_in_place(model, index, start, (n - 1) as nat);
        let front = model.part_births(index, start, (n - 1) as nat);
        let all = model.part_births(index, start, n);
        assert(model.nodes@[index as int].parts.len() == model.nodes@[index as int].parts@.len());
        assert forall|k: int| 0 <= k < all.len() implies {
            let birth = #[trigger] all[k];
            &&& birth.parent == Some(start as usize)
            &&& birth.origin matches Origin::Part { index: i, part } && i == index && part < n
                && model.nodes@[index as int].parts@[part as int].mesh < model.meshes@.len()
        } by {
            if k < front.len() {
                assert(all[k] == front[k]);
            }
        }
        assert forall|part: int|
            0 <= part < n && (#[trigger] model.nodes@[index as int].parts@[part]).mesh
                < model.meshes@.len() implies exists|k: int|
            0 <= k < all.len() && (#[trigger] all[k]).origin == (Origin::Part {
                index,
                part: part as usize,
            }) by {
            if part < n - 1 {
                let k = choose|k: int|
                    0 <= k < front.len() && (#[trigger] front[k]).origin == (Origin::Part {
                        index,
                        part: part as usize,
                    });
                assert(all[k] == front[k]);
            } else {
                assert(all[all.len() - 1].origin == (Origin::Part { index, part: part as usize }));
            }
        }
    }
}

proof fn lemma_births_in_place(
    model: &Model,
    index: usize,
    parent: Option<usize>,
    start: nat,
    fuel: nat,
)
    requires
        start + model.births(index, parent, start, fuel).len() <= usize::MAX,
    ensures
        in_place(
            model,
            model.births(index, parent, start, fuel),
            start as int,
            parent,
            seq![index],
        ),
        forall|k: int|
            0 < k < model.births(index, parent, start, fuel).len() ==> (
            #[trigger] model.births(index, parent, start, fuel)[k]).parent is Some,
    decreases fuel, 0nat,
{
    if fuel > 0 && index < model.nodes@.len() {
        let own = model.own_births(index, parent, start);
        let children = model.nodes@[index as int].children@;
        let below = model.births_of(
            children,
            Some(start as usize),
            start + own.len(),
            (fuel - 1) as nat,
        );
        let all = model.births(index, parent, start, fuel);
        assert(all =~= own + below);
        lemma_births_of_in_place(
            model,
            children,
            Some(start as usize),
            start + own.len(),
            (fuel - 1) as nat,
        );
        let parts = model.nodes@[index as int].parts@;
        if parts.len() != 1 {
            lemma_parts_in_place(model, index, start as int, parts.len());
        }
        assert(own[0] == (Birth { origin: Origin::Node { index }, parent }));
        assert(all[0] == own[0]);
        assert(seq![index][0] == index);
        assert forall|k: int| 0 <= k < all.len() implies on_top(
            model,
            #[trigger] all[k],
            parent,
            seq![index],
        ) || (all[k].parent matches Some(j) && start <= j < start + k && under(
            model,
            all[j - start],
            all[k],
        ) && model.sound(all[k])) && (k > 0 ==> all[k].parent is Some) by {
            if k == 0 {
            } else if k < own.len() {
                assert(all[k] == own[k]);
                assert(own[k] == model.part_births(index, start as int, parts.len())[k - 1]);
            } else {
                let m = k - own.len();
                assert(all[k] == below[m]);
                if !on_top(model, below[m], Some(start as usize), children) {
                    let j = below[m].parent->0;
                    assert(all[j - start] == below[j - (start + own.len())]);
                }
            }
        }
    }
}

proof fn lemma_births_of_in_place(
    model: &Model,
    list: Seq<usize>,
    parent: Option<usize>,
    start: nat,
    fuel: nat,
)
    requires
        start + model.births_of(list, parent, start, fuel).len() <= usize::MAX,
    ensures
        in_place(model, model.births_of(list, parent, start, fuel), start as int, parent, list),
    decreases fuel, list.len() + 1,
{
    if list.len() > 0 {
        let front = model.births_of(list.drop_last(), parent, start, fuel);
        let last = model.births(list.last(), parent, start + front.len(), fuel);
        let all = model.births_of(list, parent, start, fuel);
        assert(all =~= front + last);
        lemma_births_of_in_place(model, list.drop_last(), parent, start, fuel);
        lemma_births_in_place(model, list.last(), parent, start + front.len(), fuel);
        assert forall|k: int| 0 <= k < all.len() implies on_top(
            model,
            #[trigger] all[k],
            parent,
            list,
        ) || (all[k].parent matches Some(j) && start <= j < start + k && under(
            model,
            all[j - start],
            all[k],
        ) && model.sound(all[k])) by {
            if k < front.len() {
                assert(all[k] == front[k]);
                if on_top(model, front[k], parent, list.drop_last()) {
                    let index = front[k].origin->Node_index;
                    let at = choose|at: int|
                        0 <= at < list.drop_last().len() && list.drop_last()[at] == index;
                    assert(list[at] == index);
                } else {
                    let j = front[k].parent->0;
                    assert(all[j - start] == front[j - start]);
                }
            } else {
                let m = k - front.len();
                assert(all[k] == last[m]);
                if on_top(model, last[m], parent, seq![list.last()]) {
                    assert(list[list.len() - 1] == list.last());
                } else {
                    let j = last[m].parent->0;
                    assert(all[j - start] == last[j - (start + front.len())]);
                }
            }
        }
    }
}

/// Everything that a model unfolds into stands where the model has it, behind what it stands under:
/// its single root on top, or all roots in a container.
pub proof fn lemma_plan_stands_as_imported(model: &Model, k: int)
    requires
        model.plan().len() <= usize::MAX,
        0 <= k < model.plan().len(),
    ensures
        model.sound(model.plan()[k]),
        ({
            let plan = model.plan();
            let birth = plan[k];
            match birth.parent {
                Some(j) => j < k && (under(model, plan[j as int], birth) || {
                    &&& j == 0
                    &&& plan[0].origin == Origin::Container
                    &&& birth.origin matches Origin::Node { index } && model.roots@.contains(index)
                }),
                None => k == 0 && birth.origin == if model.roots@.len() == 1 {
                    Origin::Node { index: model.roots@[0] }
                } else {
                    Origin::Container
                },
            }
        }),
{
    let depth = model.nodes@.len();
    let plan = model.plan();
    if model.roots@.len() == 1 {
        lemma_births_in_place(model, model.roots@[0], None, 0, depth);
        assert(on_top(model, plan[k], None, seq![model.roots@[0]]) || plan[k].parent is Some);
    } else {
        let below = model.births_of(model.roots@, Some(0), 1, depth);
        lemma_births_of_in_place(model, model.roots@, Some(0), 1, depth);
        assert(plan =~= seq![Birth { origin: Origin::Container, parent: None }] + below);
        if k > 0 {
            assert(plan[k] == below[k - 1]);
            if !on_top(model, below[k - 1], Some(0), model.roots@) {
                let j = below[k - 1].parent->0;
                assert(plan[j as int] == below[j - 1]);
            }
        }
    }
}

/// A birth of origin `origin` stands right under birth `up`.
pub open spec fn stands_under(births: Seq<Birth>, start: int, up: int, origin: Origin) -> bool {
    exists|m: int|
        {
            &&& 0 <= m < births.len()
            &&& (#[trigger] births[m]).origin == origin
            &&& births[m].parent == Some((start + up) as usize)
        }
}

/// Of everything under birth `k`, nothing is left out.
spec fn nothing_missing(model: &Model, births: Seq<Birth>, start: int, k: int) -> bool {
    births[k].origin matches Origin::Node { index } ==> {
        &&& forall|c: usize|
            model.nodes@[index as int].children@.contains(c) && c < model.nodes@.len()
                ==> #[trigger] stands_under(births, start, k, Origin::Node { index: c })
        &&& model.nodes@[index as int].parts@.len() != 1 ==> forall|part: usize|
            part < model.nodes@[index as int].parts@.len()
                && model.nodes@[index as int].parts@[part as int].mesh < model.meshes@.len()
                ==> #[trigger] stands_under(births, start, k, Origin::Part { index, part })
    }
}

/// What stands under a birth in a piece of a plan still does in the whole.
proof fn lemma_still_under(
    births: Seq<Birth>,
    start: int,
    k: int,
    all: Seq<Birth>,
    from: int,
    shift: int,
    origin: Origin,
)
    requires
        stands_under(births, start, k, origin),
        start == from + shift,
        0 <= shift,
        shift + births.len() <= all.len(),
        forall|i: int| 0 <= i < births.len() ==> #[trigger] births[i] == all[i + shift],
    ensures
        stands_under(all, from, k + shift, origin),
{
    let m = choose|m: int|
        {
            &&& 0 <= m < births.len()
            &&& (#[trigger] births[m]).origin == origin
            &&& births[m].parent == Some((start + k) as usize)
        };
    assert(all[m + shift].origin == origin);
}

proof fn lemma_still_nothing_missing(
    model: &Model,
    births: Seq<Birth>,
    start: int,
    k: int,
    all: Seq<Birth>,
    from: int,
    shift: int,
)
    requires
        0 <= k < births.len(),
        nothing_missing(model, births, start, k),
        start == from + shift,
        0 <= shift,
        shift + births.len() <= all.len(),
        forall|i: int| 0 <= i < births.len() ==> #[trigger] births[i] == all[i + shift],
    ensures
        nothing_missing(model, all, from, k + shift),
{
    assert(births[k] == all[k + shift]);
    if let Origin::Node { index } = births[k].origin {
        assert forall|c: usize|
            model.nodes@[index as int].children@.contains(c) && c
                < model.nodes@.len() implies #[trigger] stands_under(
            all,
            from,
            k + shift,
            Origin::Node { index: c },
        ) by {
            lemma_still_under(births, start, k, all, from, shift, Origin::Node { index: c });
        }
        if model.nodes@[index as int].parts@.len() != 1 {
            assert forall|part: usize|
                part < model.nodes@[index as int].parts@.len()
                    && model.nodes@[index as int].parts@[part as int].mesh
                    < model.meshes@.len() implies #[trigger] stands_under(
                all,
                from,
                k + shift,
                Origin::Part { index, part },
            ) by {
                lemma_still_under(births, start, k, all, from, shift, Origin::Part { index, part });
            }
        }
    }
}

proof fn lemma_births_complete(
    model: &Model,
    rank: Seq<nat>,
    index: usize,
    parent: Option<usize>,
    start: nat,
    fuel: nat,
)
    requires
        model.ranked(rank),
        index < model.nodes@.len(),
        rank[index as int] < fuel,
        start + model.births(index, parent, start, fuel).len() <= usize::MAX,
    ensures
        model.births(index, parent, start, fuel).len() > 0,
        model.births(index, parent, start, fuel)[0] == (Birth {
            origin: Origin::Node { index },
            parent,
        }),
        forall|k: int|
            0 <= k < model.births(index, parent, start, fuel).len() ==> #[trigger] nothing_missing(
                model,
                model.births(index, parent, start, fuel),
                start as int,
                k,
            ),
    decreases fuel, 0nat,
{
    let own = model.own_births(index, parent, start);
    let children = model.nodes@[index as int].children@;
    let from = start + own.len();
    let below = model.births_of(children, Some(start as usize), from, (fuel - 1) as nat);
    let all = model.births(index, parent, start, fuel);
    assert(all =~= own + below);
    assert forall|i: int|
        0 <= i < children.len() && #[trigger] children[i] < model.nodes@.len() implies rank[children[i] as int]
        < fuel - 1 by {
        assert(rank[children[i] as int] < rank[index as int]);
    }
    lemma_births_of_complete(
        model,
        rank,
        children,
        Some(start as usize),
        from,
        (fuel - 1) as nat,
    );
    let parts = model.nodes@[index as int].parts@;
    if parts.len() != 1 {
        lemma_parts_in_place(model, index, start as int, parts.len());
    }
    assert(own[0] == (Birth { origin: Origin::Node { index }, parent }));
    assert(all[0] == own[0]);
    assert forall|k: int| 0 <= k < all.len() implies #[trigger] nothing_missing(
        model,
        all,
        start as int,
        k,
    ) by {
        if k == 0 {
            assert forall|c: usize|
                children.contains(c) && c < model.nodes@.len() implies #[trigger] stands_under(
                all,
                start as int,
                0,
                Origin::Node { index: c },
            ) by {
                let m = choose|m: int|
                    {
                        &&& 0 <= m < below.len()
                        &&& (#[trigger] below[m]).origin == (Origin::Node { index: c })
                        &&& below[m].parent == Some(start as usize)
                    };
                assert(all[m + own.len()] == below[m]);
            }
            if parts.len() != 1 {
                let pieces = model.part_births(index, start as int, parts.len());
                assert forall|part: usize|
                    part < parts.len() && parts[part as int].mesh
                        < model.meshes@.len() implies #[trigger] stands_under(
                    all,
                    start as int,
                    0,
                    Origin::Part { index, part },
                ) by {
                    assert(model.nodes@[index as int].parts@[part as int].mesh
                        < model.meshes@.len());
                    let m = choose|m: int|
                        0 <= m < pieces.len() && (#[trigger] pieces[m]).origin == (Origin::Part {
                            index,
                            part: (part as int) as usize,
                        });
                    assert(own[m + 1] == pieces[m]);
                    assert(all[m + 1] == own[m + 1]);
                }
            }
        } else if k < own.len() {
            assert(all[k] == own[k]);
            assert(own[k] == model.part_births(index, start as int, parts.len())[k - 1]);
        } else {
            let m = k - own.len();
            assert(nothing_missing(model, below, from as int, m));
            assert forall|i: int| 0 <= i < below.len() implies #[trigger] below[i] == all[i
                + own.len()] by {}
            lemma_still_nothing_missing(
                model,
                below,
                from as int,
                m,
                all,
                start as int,
                own.len() as int,
            );
        }
    }
}

proof fn lemma_births_of_complete(
    model: &Model,
    rank: Seq<nat>,
    list: Seq<usize>,
    parent: Option<usize>,
    start: nat,
    fuel: nat,
)
    requires
        model.ranked(rank),
        forall|i: int|
            0 <= i < list.len() && #[trigger] list[i] < model.nodes@.len() ==> rank[list[i] as int]
                < fuel,
        start + model.births_of(list, parent, start, fuel).len() <= usize::MAX,
    ensures
        forall|c: usize|
            #[trigger] list.contains(c) && c < model.nodes@.len() ==> exists|m: int|
                {
                    &&& 0 <= m < model.births_of(list, parent, start, fuel).len()
                    &&& (#[trigger] model.births_of(list, parent, start, fuel)[m]).origin == (
                    Origin::Node { index: c })
                    &&& model.births_of(list, parent, start, fuel)[m].parent == parent
                },
        forall|k: int|
            0 <= k < model.births_of(list, parent, start, fuel).len()
                ==> #[trigger] nothing_missing(
                model,
                model.births_of(list, parent, start, fuel),
                start as int,
                k,
            ),
    decreases fuel, list.len() + 1,
{
    if list.len() > 0 {
        let shorter = list.drop_last();
        let front = model.births_of(shorter, parent, start, fuel);
        let from = start + front.len();
        let last = model.births(list.last(), parent, from, fuel);
        let all = model.births_of(list, parent, start, fuel);
        assert(all =~= front + last);
        assert forall|i: int|
            0 <= i < shorter.len() && #[trigger] shorter[i] < model.nodes@.len() implies rank[shorter[i] as int]
            < fuel by {
            assert(shorter[i] == list[i]);
        }
        assert(list[list.len() - 1] == list.last());
        lemma_births_of_complete(model, rank, shorter, parent, start, fuel);
        if list.last() < model.nodes@.len() {
            lemma_births_complete(model, rank, list.last(), parent, from, fuel);
        }
        assert forall|c: usize|
            #[trigger] list.contains(c) && c < model.nodes@.len() implies exists|m: int|
            {
                &&& 0 <= m < all.len()
                &&& (#[trigger] all[m]).origin == (Origin::Node { index: c })
                &&& all[m].parent == parent
            } by {
            let at = choose|at: int| 0 <= at < list.len() && list[at] == c;
            if at < shorter.len() {
                assert(shorter[at] == c);
                assert(shorter.contains(c));
                let m = choose|m: int|
                    {
                        &&& 0 <= m < front.len()
                        &&& (#[trigger] front[m]).origin == (Origin::Node { index: c })
                        &&& front[m].parent == parent
                    };
                assert(all[m] == front[m]);
            } else {
                assert(all[front.len() as int] == last[0]);
            }
        }
        assert forall|k: int| 0 <= k < all.len() implies #[trigger] nothing_missing(
            model,
            all,
            start as int,
            k,
        ) by {
            if k < front.len() {
                assert(nothing_missing(model, front, start as int, k));
                assert forall|i: int| 0 <= i < front.len() implies #[trigger] front[i] == all[i + 0] by {}
                lemma_still_nothing_missing(model, front, start as int, k, all, start as int, 0);
            } else {
                let m = k - front.len();
                assert(nothing_missing(model, last, from as int, m));
                assert forall|i: int| 0 <= i < last.len() implies #[trigger] last[i] == all[i
                    + front.len()] by {}
                lemma_still_nothing_missing(
                    model,
                    last,
                    from as int,
                    m,
                    all,
                    start as int,
                    front.len() as int,
                );
            }
        }
    }
}

/// Where no node hangs under itself, nothing of a model is left out: every root is there, and under
/// every node of the model are all its children and, if it has several, all its pieces that have a
/// mesh.
pub proof fn lemma_plan_leaves_nothing_out(model: &Model, rank: Seq<nat>, k: int)
    requires
        model.ranked(rank),
        model.plan().len() <= usize::MAX,
    ensures
        forall|c: usize|
            #[trigger] model.roots@.contains(c) && c < model.nodes@.len() ==> exists|m: int|
                {
                    &&& 0 <= m < model.plan().len()
                    &&& (#[trigger] model.plan()[m]).origin == (Origin::Node { index: c })
                    &&& model.plan()[m].parent == if model.roots@.len() == 1 {
                        None
                    } else {
                        Some(0usize)
                    }
                },
        0 <= k < model.plan().len() ==> (model.plan()[k].origin matches Origin::Node { index } ==> {
            &&& forall|c: usize|
                model.nodes@[index as int].children@.contains(c) && c < model.nodes@.len()
                    ==> #[trigger] stands_under(model.plan(), 0, k, Origin::Node { index: c })
            &&& model.nodes@[index as int].parts@.len() != 1 ==> forall|part: usize|
                part < model.nodes@[index as int].parts@.len()
                    && model.nodes@[index as int].parts@[part as int].mesh < model.meshes@.len()
                    ==> #[trigger] stands_under(model.plan(), 0, k, Origin::Part { index, part })
        }),
{
    let depth = model.nodes@.len();
    let plan = model.plan();
    let roots = model.roots@;
    if roots.len() == 1 {
        if roots[0] < model.nodes@.len() {
            lemma_births_complete(model, rank, roots[0], None, 0, depth);
            if 0 <= k < plan.len() {
                assert(nothing_missing(model, plan, 0, k));
            }
            assert(plan[0].origin == (Origin::Node { index: roots[0] }));
        }
    } else {
        let below = model.births_of(roots, Some(0), 1, depth);
        assert(plan =~= seq![Birth { origin: Origin::Container, parent: None }] + below);
        lemma_births_of_complete(model, rank, roots, Some(0), 1, depth);
        assert forall|i: int| 0 <= i < below.len() implies #[trigger] below[i] == plan[i + 1] by {}
        if 0 < k < plan.len() {
            assert(nothing_missing(model, below, 1, k - 1));
            lemma_still_nothing_missing(model, below, 1, k - 1, plan, 0, 1);
        }
        assert forall|c: usize|
            #[trigger] roots.contains(c) && c < model.nodes@.len() implies exists|m: int|
            {
                &&& 0 <= m < plan.len()
                &&& (#[trigger] plan[m]).origin == (Origin::Node { index: c })
                &&& plan[m].parent == Some(0usize)
            } by {
            let m = choose|m: int|
                {
                    &&& 0 <= m < below.len()
                    &&& (#[trigger] below[m]).origin == (Origin::Node { index: c })
                    &&& below[m].parent == Some(0usize)
                };
            assert(plan[m + 1] == below[m]);
        }
    }
}

/// What a birth says of the node that is made: a node of the model has its name, or one with its
/// number where it has none, and its transform; a piece is named by its number and stands where its
/// node does. What has a mesh and a material has the ones with the very numbers that the model gives.
pub proof fn lemma_node_is_made_as_imported(model: &Model, birth: Birth, node: Node)
    requires
        model.bears(birth, node),
        model.sound(birth),
    ensures
        match birth.origin {
            Origin::Container => node.name@ == "Model"@ && node.mesh is None && node.material is None,
            Origin::Node { index } => {
                let source = model.nodes@[index as int];
                &&& source.name@.len() > 0 ==> node.name@ == source.name@
                &&& source.name@.len() == 0 ==> node.name@ == "Node"@ + text::decimal(index as nat)
                &&& node.transform.position == source.transform.position
                &&& node.transform.rotation == source.transform.rotation
                &&& node.transform.scale == source.transform.scale
                &&& source.parts@.len() != 1 ==> node.mesh is None && node.material is None
            },
            Origin::Part { index, part } => {
                &&& node.name@ == "Part"@ + text::decimal(part as nat)
                &&& node.transform == Transform::identity()
            },
        },
        ({
            let piece = match birth.origin {
                Origin::Part { index, part } => Some(model.nodes@[index as int].parts@[part as int]),
                Origin::Node { index } => if model.nodes@[index as int].parts@.len() == 1 {
                    Some(model.nodes@[index as int].parts@[0])
                } else {
                    None
                },
                Origin::Container => None,
            };
            &&& piece is None ==> node.mesh is None && node.material is None
                && node.morph_weights@.len() == 0
            &&& piece matches Some(piece) ==> {
                &&& piece.mesh < model.meshes@.len() ==> node.mesh == Some(
                    model.meshes@[piece.mesh as int],
                )
                &&& piece.mesh >= model.meshes@.len() ==> node.mesh is None
                &&& piece.material matches Some(m) ==> {
                    &&& m < model.materials@.len() ==> node.material == Some(
                        model.materials@[m as int],
                    )
                    &&& m >= model.materials@.len() ==> node.material is None
                }
                &&& piece.material is None ==> node.material is None
            }
        }),
        node.mesh matches Some(mesh) ==> {
            &&& node.morph_weights@.len() == mesh.data.morph_targets@.len()
            &&& forall|i: int|
                0 <= i < node.morph_weights@.len() ==> #[trigger] node.morph_weights@[i]
                    == mesh.data.morph_targets@[i].default_weight
        },
        node.visible,
        node.receives_decals,
        node.light_mask == 0xffff_ffff,
        node.camera is None,
        node.light is None,
        node.skin is None,
        node.animator is None,
        node.rigid_body is None,
        node.collider is None,
        node.script is None,
        node.sound is None,
{
}

/// Everything about a node but its place in the tree, its skin and its player.
pub open spec fn same_looks(a: Node, b: Node) -> bool {
    &&& a.name@ == b.name@
    &&& a.transform == b.transform
    &&& a.visible == b.visible
    &&& a.mesh == b.mesh
    &&& a.material == b.material
    &&& a.morph_weights@ == b.morph_weights@
    &&& a.camera == b.camera
    &&& a.light == b.light
    &&& a.rigid_body == b.rigid_body
    &&& a.collider == b.collider
    &&& a.joint == b.joint
    &&& a.sound == b.sound
    &&& a.script == b.script
    &&& a.particles == b.particles
}

proof fn lemma_births_spare(
    scenes: Seq<Scene>,
    handles: Seq<Handle>,
    model: &Model,
    plan: Seq<Birth>,
    outer: Handle,
    x: Handle,
    from: int,
    to: int,
)
    requires
        model::grown_by(scenes, handles, model, plan, outer),
        0 <= from <= to <= plan.len(),
        scenes[from].nodes@.contains_key(x),
    ensures
        scenes[to].nodes@.contains_key(x),
        same_looks(scenes[to].nodes@[x], scenes[from].nodes@[x]),
        scenes[to].nodes@[x].parent == scenes[from].nodes@[x].parent,
        scenes[to].root == scenes[from].root,
    decreases to - from,
{
    if from < to {
        lemma_births_spare(scenes, handles, model, plan, outer, x, from, to - 1);
        let a = scenes[to - 1];
        let b = scenes[to];
        assert(model::birth_step(
            &scenes[to - 1],
            &scenes[to - 1 + 1],
            model,
            plan[to - 1],
            handles[to - 1],
            model::birth_parent(plan[to - 1], handles, outer),
        ));
        let p = a.or_root(model::birth_parent(plan[to - 1], handles, outer));
        let h = handles[to - 1];
        let node = choose|node: Node| #[trigger]
            b.gained(&a, h, node, p) && model.bears(plan[to - 1], node);
        assert(b.nodes@.dom().contains(x));
        assert(x != h);
        if x != p {
            assert(b.nodes@[x] == a.nodes@[x]);
        }
    }
}

/// A model that was brought in: every part of its plan is a node of the scene with the name,
/// transform, mesh and material that its birth says, under the node that was made for what it stands
/// under, or under the place that the model was brought to. Nodes that were there before stay as
/// they were.
pub proof fn lemma_model_is_brought_in(
    scenes: Seq<Scene>,
    handles: Seq<Handle>,
    model: &Model,
    outer: Handle,
    after: &Scene,
    root: Handle,
    k: int,
)
    requires
        model.plan().len() <= usize::MAX,
        model::grown_by(scenes, handles, model, model.plan(), outer),
        model::furnished(
            after,
            &scenes.last(),
            model,
            model::mapping_of(model, model.plan(), handles),
            root,
        ),
        0 <= k < model.plan().len(),
        scenes[0].nodes@.contains_key(scenes[0].root),
    ensures
        after.nodes@.contains_key(handles[k]),
        exists|node: Node| #[trigger]
            model.bears(model.plan()[k], node) && same_looks(after.nodes@[handles[k]], node),
        after.nodes@[handles[k]].parent == match model.plan()[k].parent {
            Some(j) => handles[j as int],
            None => if scenes[0].nodes@.contains_key(outer) {
                outer
            } else {
                scenes[0].root
            },
        },
        !scenes[0].nodes@.contains_key(handles[k]),
        forall|j: int| 0 <= j < k ==> #[trigger] handles[j] != handles[k],
        forall|x: Handle| #[trigger]
            scenes[0].nodes@.contains_key(x) && x != root ==> after.nodes@.contains_key(x)
                && same_looks(after.nodes@[x], scenes[0].nodes@[x]) && after.nodes@[x].parent
                == scenes[0].nodes@[x].parent,
{
    let plan = model.plan();
    let n = plan.len() as int;
    let mapping = model::mapping_of(model, plan, handles);
    let grown = scenes.last();
    lemma_plan_stands_as_imported(model, k);
    let up = model::birth_parent(plan[k], handles, outer);
    assert(model::birth_step(&scenes[k], &scenes[k + 1], model, plan[k], handles[k], up));
    let p = scenes[k].or_root(up);
    let h = handles[k];
    let node = choose|node: Node| #[trigger]
        scenes[k + 1].gained(&scenes[k], h, node, p) && model.bears(plan[k], node);
    assert(scenes[k + 1].nodes@.dom().contains(h));
    assert(same_looks(scenes[k + 1].nodes@[h], node));
    lemma_births_spare(scenes, handles, model, plan, outer, h, k + 1, n);
    if plan[k].parent is Some {
        let j = plan[k].parent->0 as int;
        let above = model::birth_parent(plan[j], handles, outer);
        assert(model::birth_step(&scenes[j], &scenes[j + 1], model, plan[j], handles[j], above));
        assert(scenes[j + 1].nodes@.dom().contains(handles[j]));
        lemma_births_spare(scenes, handles, model, plan, outer, handles[j], j + 1, k);
    }
    assert(grown.nodes@.contains_key(h));
    let worn = choose|worn: Node|
        {
            &&& #[trigger] model::clad(
                worn,
                grown.nodes@[h],
                model,
                grown.nodes@,
                mapping,
                h,
                model.nodes@.len(),
            )
            &&& if h == root {
                model::animated(after.nodes@[h], worn, model, mapping)
            } else {
                after.nodes@[h] == worn
            }
        };
    assert(after.nodes@.dom().contains(h));
    assert forall|j: int| 0 <= j < k implies #[trigger] handles[j] != h by {
        let above = model::birth_parent(plan[j], handles, outer);
        assert(model::birth_step(&scenes[j], &scenes[j + 1], model, plan[j], handles[j], above));
        assert(scenes[j + 1].nodes@.dom().contains(handles[j]));
        lemma_births_spare(scenes, handles, model, plan, outer, handles[j], j + 1, k);
    }
    if scenes[0].nodes@.contains_key(h) {
        lemma_births_spare(scenes, handles, model, plan, outer, h, 0, k);
    }
    assert forall|x: Handle| #[trigger]
        scenes[0].nodes@.contains_key(x) && x != root implies after.nodes@.contains_key(x)
        && same_looks(after.nodes@[x], scenes[0].nodes@[x]) && after.nodes@[x].parent
        == scenes[0].nodes@[x].parent by {
        lemma_births_spare(scenes, handles, model, plan, outer, x, 0, n);
        assert(grown.nodes@.contains_key(x));
        assert(after.nodes@.dom().contains(x));
    }
}

/// A node of the model stands for the node that was last made from it.
proof fn lemma_handle_for(plan: Seq<Birth>, handles: Seq<Handle>, index: int, k: int)
    requires
        0 <= index <= usize::MAX,
        0 <= k < plan.len() <= handles.len(),
        plan[k].origin == (Origin::Node { index: index as usize }),
    ensures
        exists|m: int|
            {
                &&& k <= m < plan.len()
                &&& (#[trigger] plan[m]).origin == (Origin::Node { index: index as usize })
                &&& model::handle_for(plan, handles, index) == handles[m]
            },
    decreases plan.len(),
{
    if plan.last().origin == (Origin::Node { index: index as usize }) {
        assert(plan[plan.len() - 1] == plan.last());
    } else {
        let front = plan.drop_last();
        assert(front[k] == plan[k]);
        lemma_handle_for(front, handles, index, k);
        let m = choose|m: int|
            {
                &&& k <= m < front.len()
                &&& (#[trigger] front[m]).origin == (Origin::Node { index: index as usize })
                &&& model::handle_for(front, handles, index) == handles[m]
            };
        assert(plan[m] == front[m]);
    }
}

/// The joints of a skin that was put on are the nodes that were made from the joints of the model,
/// one for one, each with its own matrix.
pub proof fn lemma_skin_is_put_on_as_imported(
    model: &Model,
    handles: Seq<Handle>,
    skin: Skin,
    source: ModelSkin,
    i: int,
    k: int,
)
    requires
        handles.len() == model.plan().len(),
        model::skin_made(skin, source, model::mapping_of(model, model.plan(), handles)),
        0 <= i < source.joints@.len(),
        i < source.inverse_bind@.len(),
        source.joints@[i] < model.nodes@.len(),
        0 <= k < model.plan().len(),
        model.plan()[k].origin == (Origin::Node { index: source.joints@[i] }),
    ensures
        i < skin.joints@.len(),
        skin.inverse_bind@[i] == source.inverse_bind@[i],
        exists|m: int|
            {
                &&& 0 <= m < model.plan().len()
                &&& (#[trigger] model.plan()[m]).origin == (Origin::Node { index: source.joints@[i] })
                &&& skin.joints@[i] == handles[m]
            },
{
    lemma_handle_for(model.plan(), handles, source.joints@[i] as int, k);
    let m = choose|m: int|
        {
            &&& k <= m < model.plan().len()
            &&& (#[trigger] model.plan()[m]).origin == (Origin::Node {
                index: source.joints@[i] as int as usize,
            })
            &&& model::handle_for(model.plan(), handles, source.joints@[i] as int) == handles[m]
        };
    assert(skin.joints@[i] == handles[m]);
}

/// The last node of the model whose skin is there decides which skin a node of the scene with a mesh
/// wears: the node made from it itself, or its children where that has no mesh. Nothing else of a
/// node is touched.
pub proof fn lemma_skin_goes_where_it_belongs(
    model: &Model,
    nodes: Map<Handle, Node>,
    mapping: Seq<Handle>,
    h: Handle,
    worn: Node,
    index: int,
)
    requires
        model::clad(worn, nodes[h], model, nodes, mapping, h, model.nodes@.len()),
        0 <= index < model.nodes@.len(),
        model.nodes@[index].skin is Some,
        model.nodes@[index].skin->0 < model.skins@.len(),
        nodes.contains_key(mapping[index]),
        nodes.contains_key(h),
        nodes[h].mesh is Some,
        h == mapping[index] || nodes[mapping[index]].mesh is None && nodes[mapping[index]].children@.contains(
            h,
        ),
        forall|later: int|
            index < later < model.nodes@.len() ==> (#[trigger] model.nodes@[later]).skin is None,
    ensures
        worn.skin is Some,
        model::skin_made(
            worn.skin->0,
            model.skins@[model.nodes@[index].skin->0 as int],
            mapping,
        ),
        same_looks(worn, nodes[h]),
        worn.parent == nodes[h].parent,
        worn.children == nodes[h].children,
        worn.animator == nodes[h].animator,
{
    lemma_skin_from(model, nodes, mapping, h, index, model.nodes@.len());
}

proof fn lemma_skin_from(
    model: &Model,
    nodes: Map<Handle, Node>,
    mapping: Seq<Handle>,
    h: Handle,
    index: int,
    n: nat,
)
    requires
        0 <= index < n <= model.nodes@.len(),
        model::has_skin(model, index),
        model::skin_goes(nodes, mapping, index, h),
        forall|later: int|
            index < later < model.nodes@.len() ==> (#[trigger] model.nodes@[later]).skin is None,
    ensures
        model::skin_from(model, nodes, mapping, h, n) == Some(index),
    decreases n,
{
    if n - 1 > index {
        assert(model.nodes@[n - 1].skin is None);
        lemma_skin_from(model, nodes, mapping, h, index, (n - 1) as nat);
    }
}

/// A model with animations plays them from its root onto its own nodes; one without gets no player.
pub proof fn lemma_animations_are_attached(
    node: Node,
    before: Node,
    model: &Model,
    mapping: Seq<Handle>,
)
    requires
        model::animated(node, before, model, mapping),
    ensures
        model.animations@.len() == 0 ==> node.animator == before.animator,
        model.animations@.len() > 0 ==> {
            &&& node.animator is Some
            &&& node.animator->0.clips@.len() == model.animations@.len()
            &&& forall|i: int|
                0 <= i < model.animations@.len() ==> #[trigger] node.animator->0.clips@[i]
                    == model.animations@[i]
            &&& node.animator->0.targets@.len() == mapping.len()
            &&& forall|i: int|
                0 <= i < mapping.len() ==> #[trigger] node.animator->0.targets@[i] == mapping[i]
            &&& node.animator->0.pose@.len() == 0
            &&& node.animator->0.morphs@.len() == 0
            &&& node.animator->0.playing@.len() == 0
        },
        same_looks(node, before),
        node.skin == before.skin,
        node.parent == before.parent,
        node.children == before.children,
{
}

} // verus!
