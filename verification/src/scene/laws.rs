//! What holds of scenes as a whole, whatever is done to them.

use crate::pool::Handle;
use crate::scene::graph;
use crate::scene::graph::{NodeIndex, Scene, WorldModel};
use crate::scene::node::Node;
use crate::scene::sync;
use crate::scene::sync::SyncState;
use crate::scene::update;
use crate::tree;
use crate::tree::Tree;
use vstd::prelude::*;

verus! {

/// A node that was moved hangs under its new parent, behind the children that were there, and no
/// other node has changed its parent.
pub proof fn lemma_moved_hangs_there(before: Tree, root: Handle, child: Handle, parent: Handle)
    requires
        tree::tree_wf(before, root),
        before.contains_key(child),
        before.contains_key(parent),
        child != root,
        !tree::below(before, child, parent),
    ensures
        ({
            let after = tree::attached(tree::detached(before, child), child, parent);
            &&& after[child].parent == parent
            &&& after[parent].children.len() > 0
            &&& after[parent].children.last() == child
            &&& forall|x: Handle| #[trigger]
                before.contains_key(x) && x != child ==> after[x].parent == before[x].parent
            &&& after[child].children == before[child].children
        }),
{
    tree::lemma_below_self(before, root, child);
    tree::lemma_below_parent(before, root, child, root);
    let q = before[child].parent;
    assert(q != child) by {
        if q == child {
            let k = choose|k: int|
                0 <= k < before[q].children.len() && before[q].children[k] == child;
            tree::lemma_no_cycles(before, root, child, k);
        }
    }
}

/// Nothing in the solver's table stands for a node any more.
pub open spec fn forgotten(world: WorldModel, node: Node) -> bool {
    &&& match node.rigid_body {
        Some(body) => match body.native {
            Some(native) => !world.bodies.contains_key(native.raw),
            None => true,
        },
        None => true,
    }
    &&& match node.collider {
        Some(collider) => match collider.native {
            Some(native) => !world.colliders.contains_key(native.raw),
            None => true,
        },
        None => true,
    }
    &&& match node.joint {
        Some(joint) => match joint.native {
            Some(native) => !world.joints.contains_key(native.raw),
            None => true,
        },
        None => true,
    }
}

proof fn lemma_forgotten(world: WorldModel, nodes: Map<Handle, Node>, list: Seq<Handle>, i: int)
    requires
        0 <= i < list.len(),
    ensures
        forgotten(world.without_nodes(nodes, list), nodes[list[i]]),
    decreases list.len(),
{
    let front = list.drop_last();
    if i < front.len() {
        lemma_forgotten(world, nodes, front, i);
        assert(front[i] == list[i]);
    }
}

/// A node that was taken out of the scene is gone with its whole subtree, and leaves no body, no
/// collider and no joint behind in the solver.
pub proof fn lemma_removed_leaves_no_ghosts(after: &Scene, before: &Scene, h: Handle, x: Handle)
    requires
        before.wf(),
        h != before.root,
        before.nodes@.contains_key(h),
        after.lost(before, h),
        tree::below(before.tree(), h, x),
    ensures
        !after.nodes@.contains_key(x),
        forgotten(after.physics.model(), before.nodes@[x]),
{
    assert(after.tree() == tree::pruned(before.tree(), h));
    if after.nodes@.contains_key(x) {
        assert(after.tree().contains_key(x));
    }
    let doomed = tree::preorder(before.tree(), h);
    let i = choose|i: int| 0 <= i < doomed.len() && doomed[i] == x;
    lemma_forgotten(before.physics.model(), before.nodes@, doomed, i);
}

/// Taking a node out of the scene touches no node outside its subtree: they stay, with everything
/// they carry, under the parents they had.
pub proof fn lemma_removed_spares_the_rest(after: &Scene, before: &Scene, h: Handle, x: Handle)
    requires
        before.wf(),
        h != before.root,
        before.nodes@.contains_key(h),
        after.lost(before, h),
        before.nodes@.contains_key(x),
        !tree::below(before.tree(), h, x),
    ensures
        after.nodes@.contains_key(x),
        after.nodes@[x] == (Node { children: after.nodes@[x].children, ..before.nodes@[x] }),
{
    assert(after.tree() == tree::pruned(before.tree(), h));
    assert(before.tree().contains_key(x));
    assert(after.tree().contains_key(x));
    assert(after.nodes@.contains_key(x));
    assert(after.tree()[x].parent == before.tree()[x].parent);
}

/// An invisible node hides its whole subtree.
pub proof fn lemma_hidden_hides_below(nodes: Map<Handle, Node>, a: Handle, h: Handle)
    requires
        nodes.contains_key(a),
        tree::below(graph::links_of(nodes), a, h),
        !nodes[a].visible,
    ensures
        !update::shown(nodes, h),
{
    assert(!update::admitted(nodes, a));
}

/// After an update exactly the nodes that are shown and have a mesh are drawn, each of them once.
pub proof fn lemma_drawn_is_shown(scene: &Scene, index: &NodeIndex, h: Handle)
    requires
        scene.wf(),
        index.collects(scene.nodes@, tree::preorder(scene.tree(), scene.root)),
    ensures
        index.drawables@.no_duplicates(),
        index.drawables@.contains(h) <==> {
            &&& scene.nodes@.contains_key(h)
            &&& scene.nodes@[h].mesh is Some
            &&& update::shown(scene.nodes@, h)
        },
{
    let order = tree::preorder(scene.tree(), scene.root);
    update::lemma_listed(scene.nodes@, order, update::Component::Drawable);
    tree::lemma_preorder_no_duplicates(scene.tree(), scene.root, scene.root);
    if scene.nodes@.contains_key(h) {
        assert(scene.tree().contains_key(h));
        tree::lemma_all_below_root(scene.tree(), scene.root, h);
    }
    if order.contains(h) {
        tree::lemma_below_self(scene.tree(), scene.root, scene.root);
        assert(tree::below(scene.tree(), scene.root, h));
    }
}

/// What is listed keeps the order of the list.
proof fn lemma_listed_in_order(
    nodes: Map<Handle, Node>,
    list: Seq<Handle>,
    component: update::Component,
    i: int,
    j: int,
) -> (places: (int, int))
    requires
        0 <= i < j < update::listed(nodes, list, component).len(),
    ensures
        0 <= places.0 < places.1 < list.len(),
        list[places.0] == update::listed(nodes, list, component)[i],
        list[places.1] == update::listed(nodes, list, component)[j],
    decreases list.len(),
{
    let front = list.drop_last();
    let before = update::listed(nodes, front, component);
    let now = update::listed(nodes, list, component);
    if j < before.len() {
        let places = lemma_listed_in_order(nodes, front, component, i, j);
        assert(front[places.0] == list[places.0]);
        assert(front[places.1] == list[places.1]);
        places
    } else {
        update::lemma_listed(nodes, front, component);
        assert(before.contains(before[i]));
        let k = choose|k: int| 0 <= k < front.len() && front[k] == before[i];
        assert(list[k] == now[i]);
        (k, list.len() - 1)
    }
}

/// After an update every list has parents before their children: whoever walks along it has seen
/// the parent when the child comes.
pub proof fn lemma_parents_come_first(
    scene: &Scene,
    component: update::Component,
    i: int,
    j: int,
)
    requires
        scene.wf(),
        ({
            let list = update::listed(
                scene.nodes@,
                tree::preorder(scene.tree(), scene.root),
                component,
            );
            &&& 0 <= i < list.len()
            &&& 0 <= j < list.len()
            &&& scene.nodes@[list[i]].parent == list[j]
        }),
    ensures
        j < i,
{
    let order = tree::preorder(scene.tree(), scene.root);
    let list = update::listed(scene.nodes@, order, component);
    tree::lemma_preorder_no_duplicates(scene.tree(), scene.root, scene.root);
    update::lemma_listed(scene.nodes@, order, component);
    assert(list.contains(list[i]));
    let a = choose|a: int| 0 <= a < order.len() && order[a] == list[i];
    tree::lemma_below_self(scene.tree(), scene.root, scene.root);
    assert(tree::below(scene.tree(), scene.root, order[a]));
    assert(scene.tree().contains_key(list[i]));
    tree::lemma_parent_first(scene.tree(), scene.root, scene.root, a);
    if a == 0 {
        assert(list[i] == scene.root);
        assert(list.contains(list[j]));
        assert(order.contains(list[j]));
        assert(tree::below(scene.tree(), scene.root, list[j]));
        assert(scene.tree().contains_key(list[j]));
        assert(false);
    }
    let b = choose|b: int| 0 <= b < a && #[trigger] order[b] == scene.tree()[order[a]].parent;
    assert(order[b] == list[j]);
    if i == j {
        assert(order[a] == order[b]);
    } else if i < j {
        let places = lemma_listed_in_order(scene.nodes@, order, component, i, j);
        assert(order[places.0] == order[a]);
        assert(order[places.1] == order[b]);
    }
}

/// A scene that was merged into another keeps its shape: everybody hangs under whom it hung before,
/// in the same order; what was its root hangs where it was asked for. Those that were there stay as
/// they were, and so does the environment.
pub proof fn lemma_merged_keeps_its_shape(
    after: &Scene,
    before: &Scene,
    source: &Scene,
    names: Map<Handle, Handle>,
    parent: Handle,
    h: Handle,
)
    requires
        source.wf(),
        after.absorbed(before, source, names, parent),
        source.nodes@.contains_key(h),
    ensures
        after.nodes@.contains_key(names[h]),
        h == source.root ==> after.nodes@[names[h]].parent == parent,
        h != source.root ==> after.nodes@[names[h]].parent == names[source.nodes@[h].parent],
        after.nodes@[names[h]].children@.len() == source.nodes@[h].children@.len(),
        forall|i: int|
            0 <= i < source.nodes@[h].children@.len() ==> #[trigger] after.nodes@[names[h]].children@[i]
                == names[source.nodes@[h].children@[i]],
        after.nodes@[names[h]].name == source.nodes@[h].name,
        after.nodes@[names[h]].transform == source.nodes@[h].transform,
        forall|x: Handle| #[trigger]
            before.nodes@.contains_key(x) ==> after.nodes@[x].parent == before.nodes@[x].parent
                && after.nodes@[x].transform == before.nodes@[x].transform,
        after.environment == before.environment,
{
    let s = source.tree();
    let g = after.tree();
    assert(s.contains_key(h));
    assert(names.dom().contains(h));
    assert(names.contains_key(h));
    assert(g.contains_key(names[h])) by {
        assert(s.contains_key(h) && names[h] == names[h]);
    }
    assert(after.nodes@.contains_key(names[h]));
    assert(g[names[h]] == after.nodes@[names[h]].links());
    if h != source.root {
        assert(s.contains_key(s[h].parent));
        assert(names.contains_key(s[h].parent));
    }
    assert forall|i: int| 0 <= i < source.nodes@[h].children@.len() implies #[trigger] after.nodes@[names[h]].children@[i]
        == names[source.nodes@[h].children@[i]] by {
        assert(s.contains_key(s[h].children[i]));
        assert(names.contains_key(s[h].children[i]));
    }
}

/// What is asked of a body that the solver does not know yet waits for it, in order; what is asked
/// of one that it knows is told once.
pub proof fn lemma_actions_wait_for_their_body(a: SyncState, b: SyncState, h: Handle)
    requires
        sync::body_flushed(a, b, h),
        a.nodes.contains_key(h),
        a.nodes[h].rigid_body is Some,
    ensures
        b.nodes[h].rigid_body is Some,
        ({
            let before = a.nodes[h].rigid_body->0;
            let after = b.nodes[h].rigid_body->0;
            &&& before.native is None ==> after.actions@ == before.actions@ && b.world == a.world
            &&& match before.native {
                Some(native) if a.world.bodies.contains_key(native.raw) => {
                    &&& after.actions@.len() == 0
                    &&& b.world.bodies[native.raw].inbox@ == a.world.bodies[native.raw].inbox@
                        + before.actions@
                },
                _ => true,
            }
        }),
{
}

} // verus!
