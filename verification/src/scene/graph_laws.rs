//! What a scene looks like after nodes were added, moved, taken out or updated.

use crate::numbers::{Aabb, Mat4, Real};
use crate::pool::Handle;
use crate::scene::graph;
use crate::scene::graph::{NodeIndex, Scene, WorldModel};
use crate::scene::lod;
use crate::scene::mesh::Mesh;
use crate::scene::node::Node;
use crate::scene::physics::BodyHandle;
use crate::scene::update;
use crate::tree;
use crate::tree::Tree;
use vstd::prelude::*;

verus! {

/// After an update each list of the index holds exactly the nodes that carry what it is for.
pub proof fn lemma_every_component_is_listed(scene: &Scene, index: &NodeIndex, h: Handle)
    requires
        scene.wf(),
        index.collects(scene.nodes@, tree::preorder(scene.tree(), scene.root)),
    ensures
        index.lights@.contains(h) <==> scene.nodes@.contains_key(h) && scene.nodes@[h].light is Some,
        index.cameras@.contains(h) <==> scene.nodes@.contains_key(h) && scene.nodes@[h].camera is Some,
        index.particles@.contains(h) <==> scene.nodes@.contains_key(h) && scene.nodes@[h].particles is Some,
        index.skinned@.contains(h) <==> scene.nodes@.contains_key(h) && scene.nodes@[h].skin is Some,
        index.animators@.contains(h) <==> scene.nodes@.contains_key(h) && scene.nodes@[h].animator is Some,
        index.rigid_bodies@.contains(h) <==> scene.nodes@.contains_key(h) && scene.nodes@[h].rigid_body is Some,
        index.colliders@.contains(h) <==> scene.nodes@.contains_key(h) && scene.nodes@[h].collider is Some,
        index.joints@.contains(h) <==> scene.nodes@.contains_key(h) && scene.nodes@[h].joint is Some,
        index.ragdolls@.contains(h) <==> scene.nodes@.contains_key(h) && scene.nodes@[h].ragdoll is Some,
        index.sounds@.contains(h) <==> scene.nodes@.contains_key(h) && scene.nodes@[h].sound is Some,
        index.scripts@.contains(h) <==> scene.nodes@.contains_key(h) && scene.nodes@[h].script is Some,
        index.terrains@.contains(h) <==> scene.nodes@.contains_key(h) && scene.nodes@[h].terrain is Some,
        index.drawables@.contains(h) ==> scene.nodes@.contains_key(h) && scene.nodes@[h].mesh is Some
            && scene.nodes@[h].visible,
{
    let order = tree::preorder(scene.tree(), scene.root);
    if scene.nodes@.contains_key(h) {
        assert(scene.tree().contains_key(h));
        tree::lemma_all_below_root(scene.tree(), scene.root, h);
    }
    tree::lemma_below_self(scene.tree(), scene.root, scene.root);
    if order.contains(h) {
        assert(tree::below(scene.tree(), scene.root, h));
        tree::lemma_below_self(scene.tree(), scene.root, h);
        assert(update::shown(scene.nodes@, h) ==> update::admitted(scene.nodes@, h));
    }
    update::lemma_listed(scene.nodes@, order, update::Component::Drawable);
    update::lemma_listed(scene.nodes@, order, update::Component::Light);
    update::lemma_listed(scene.nodes@, order, update::Component::Camera);
    update::lemma_listed(scene.nodes@, order, update::Component::Particles);
    update::lemma_listed(scene.nodes@, order, update::Component::Skin);
    update::lemma_listed(scene.nodes@, order, update::Component::Animator);
    update::lemma_listed(scene.nodes@, order, update::Component::RigidBody);
    update::lemma_listed(scene.nodes@, order, update::Component::Collider);
    update::lemma_listed(scene.nodes@, order, update::Component::Joint);
    update::lemma_listed(scene.nodes@, order, update::Component::Ragdoll);
    update::lemma_listed(scene.nodes@, order, update::Component::Sound);
    update::lemma_listed(scene.nodes@, order, update::Component::Script);
    update::lemma_listed(scene.nodes@, order, update::Component::Terrain);
}

/// The lists of the index keep the order in which the update went through the nodes.
pub proof fn lemma_index_keeps_the_order(
    nodes: Map<Handle, Node>,
    order: Seq<Handle>,
    index: &NodeIndex,
)
    requires
        index.collects(nodes, order),
    ensures
        index.lights@ == order.filter(|h: Handle| nodes[h].light is Some),
        index.cameras@ == order.filter(|h: Handle| nodes[h].camera is Some),
        index.particles@ == order.filter(|h: Handle| nodes[h].particles is Some),
        index.skinned@ == order.filter(|h: Handle| nodes[h].skin is Some),
        index.animators@ == order.filter(|h: Handle| nodes[h].animator is Some),
        index.rigid_bodies@ == order.filter(|h: Handle| nodes[h].rigid_body is Some),
        index.colliders@ == order.filter(|h: Handle| nodes[h].collider is Some),
        index.joints@ == order.filter(|h: Handle| nodes[h].joint is Some),
        index.ragdolls@ == order.filter(|h: Handle| nodes[h].ragdoll is Some),
        index.sounds@ == order.filter(|h: Handle| nodes[h].sound is Some),
        index.scripts@ == order.filter(|h: Handle| nodes[h].script is Some),
        index.terrains@ == order.filter(|h: Handle| nodes[h].terrain is Some),
        index.drawables@ == order.filter(|h: Handle| update::shown(nodes, h) && nodes[h].mesh is Some),
{
    lemma_listed_filters(nodes, order);
}

proof fn lemma_listed_filters(nodes: Map<Handle, Node>, order: Seq<Handle>)
    ensures
        update::listed(nodes, order, update::Component::Light) == order.filter(
            |h: Handle| nodes[h].light is Some,
        ),
        update::listed(nodes, order, update::Component::Camera) == order.filter(
            |h: Handle| nodes[h].camera is Some,
        ),
        update::listed(nodes, order, update::Component::Particles) == order.filter(
            |h: Handle| nodes[h].particles is Some,
        ),
        update::listed(nodes, order, update::Component::Skin) == order.filter(
            |h: Handle| nodes[h].skin is Some,
        ),
        update::listed(nodes, order, update::Component::Animator) == order.filter(
            |h: Handle| nodes[h].animator is Some,
        ),
        update::listed(nodes, order, update::Component::RigidBody) == order.filter(
            |h: Handle| nodes[h].rigid_body is Some,
        ),
        update::listed(nodes, order, update::Component::Collider) == order.filter(
            |h: Handle| nodes[h].collider is Some,
        ),
        update::listed(nodes, order, update::Component::Joint) == order.filter(
            |h: Handle| nodes[h].joint is Some,
        ),
        update::listed(nodes, order, update::Component::Ragdoll) == order.filter(
            |h: Handle| nodes[h].ragdoll is Some,
        ),
        update::listed(nodes, order, update::Component::Sound) == order.filter(
            |h: Handle| nodes[h].sound is Some,
        ),
        update::listed(nodes, order, update::Component::Script) == order.filter(
            |h: Handle| nodes[h].script is Some,
        ),
        update::listed(nodes, order, update::Component::Terrain) == order.filter(
            |h: Handle| nodes[h].terrain is Some,
        ),
        update::listed(nodes, order, update::Component::Drawable) == order.filter(
            |h: Handle| update::shown(nodes, h) && nodes[h].mesh is Some,
        ),
    decreases order.len(),
{
    reveal(Seq::filter);
    if order.len() > 0 {
        lemma_listed_filters(nodes, order.drop_last());
    }
}

/// A node is shown exactly if it is visible, what it hangs under is shown, and the levels of detail
/// of that, if it has some, have chosen it: children behind the levels are shown in any case.
pub proof fn lemma_shown_under_its_parent(nodes: Map<Handle, Node>, root: Handle, h: Handle, i: int)
    requires
        tree::tree_wf(graph::links_of(nodes), root),
        nodes.contains_key(h),
        h != root ==> 0 <= i < nodes[nodes[h].parent].children@.len()
            && nodes[nodes[h].parent].children@[i] == h,
    ensures
        h == root ==> (update::shown(nodes, h) <==> nodes[h].visible),
        h != root ==> (update::shown(nodes, h) <==> {
            let above = nodes[nodes[h].parent];
            &&& nodes[h].visible
            &&& update::shown(nodes, nodes[h].parent)
            &&& above.lod is Some ==> i >= above.lod->0.levels@.len() || i == above.lod->0.current
        }),
{
    let t = graph::links_of(nodes);
    assert(t.contains_key(h));
    assert(t[h].parent == nodes[h].parent);
    tree::lemma_below_self(t, root, h);
    if h == root {
        assert(t[root].parent == Handle::none());
        assert(!nodes.contains_key(nodes[h].parent)) by {
            assert(!t.contains_key(Handle::none()));
        }
        assert forall|a: Handle| #[trigger]
            tree::below(t, a, h) && nodes.contains_key(a) implies a == h by {
            assert(t.contains_key(a));
            if a != h {
                tree::lemma_below_parent(t, root, a, h);
            }
        }
        if update::shown(nodes, h) {
            assert(update::admitted(nodes, h));
        }
    } else {
        let p = nodes[h].parent;
        assert(t.contains_key(p));
        assert forall|a: Handle| nodes.contains_key(a) && a != h implies (#[trigger] tree::below(
            t,
            a,
            h,
        ) <==> tree::below(t, a, p)) by {
            assert(t.contains_key(a));
            tree::lemma_below_parent(t, root, a, h);
        }
        assert(t[p].children.no_duplicates());
        assert(t[p].children == nodes[p].children@);
        assert(update::admitted(nodes, h) <==> {
            &&& nodes[h].visible
            &&& nodes[p].lod is Some ==> i >= nodes[p].lod->0.levels@.len() || i
                == nodes[p].lod->0.current
        });
        if update::shown(nodes, h) {
            assert forall|a: Handle| #[trigger]
                tree::below(t, a, p) && nodes.contains_key(a) implies update::admitted(nodes, a) by {
                if a != h {
                    assert(tree::below(t, a, h));
                }
            }
            assert(update::admitted(nodes, h));
        }
        if update::shown(nodes, p) && update::admitted(nodes, h) {
            assert forall|a: Handle| #[trigger]
                tree::below(t, a, h) && nodes.contains_key(a) implies update::admitted(nodes, a) by {
                if a != h {
                    assert(tree::below(t, a, p));
                }
            }
        }
    }
}

/// A node that was added is there as it was given, behind the other children of its parent, and is
/// listed for each physics component that it carries. All other nodes carry what they carried.
pub proof fn lemma_added_node_is_there(
    after: &Scene,
    before: &Scene,
    h: Handle,
    node: Node,
    p: Handle,
)
    requires
        before.wf(),
        after.gained(before, h, node, p),
        before.nodes@.contains_key(p),
        !before.nodes@.contains_key(h),
    ensures
        after.nodes@.contains_key(h),
        after.nodes@[h].name == node.name,
        after.nodes@[h].transform == node.transform,
        after.nodes@[h].visible == node.visible,
        after.nodes@[h].mesh == node.mesh,
        after.nodes@[h].material == node.material,
        after.nodes@[h].camera == node.camera,
        after.nodes@[h].light == node.light,
        after.nodes@[h].skin == node.skin,
        after.nodes@[h].animator == node.animator,
        after.nodes@[h].morph_weights == node.morph_weights,
        after.nodes@[h].particles == node.particles,
        after.nodes@[h].rigid_body == node.rigid_body,
        after.nodes@[h].collider == node.collider,
        after.nodes@[h].joint == node.joint,
        after.nodes@[h].sound == node.sound,
        after.nodes@[h].script == node.script,
        after.nodes@[h].lod == node.lod,
        after.nodes@[h].parent == p,
        after.nodes@[p].children@.len() == before.nodes@[p].children@.len() + 1,
        after.nodes@[p].children@.last() == h,
        after.nodes@[p].children@.drop_last() == before.nodes@[p].children@,
        forall|x: Handle| #[trigger]
            before.nodes@.contains_key(x) ==> {
                &&& after.nodes@.contains_key(x)
                &&& after.nodes@[x].parent == before.nodes@[x].parent
                &&& after.nodes@[x].transform == before.nodes@[x].transform
                &&& after.nodes@[x].visible == before.nodes@[x].visible
                &&& x != p ==> after.nodes@[x] == before.nodes@[x]
            },
        forall|x: Handle| #[trigger]
            after.nodes@.contains_key(x) ==> x == h || before.nodes@.contains_key(x),
        after.index.rigid_bodies@.contains(h) <==> node.rigid_body is Some || before.index.rigid_bodies@.contains(h),
        forall|x: Handle|
            x != h ==> (#[trigger] after.index.rigid_bodies@.contains(x) <==> before.index.rigid_bodies@.contains(x)),
        after.index.colliders@.contains(h) <==> node.collider is Some || before.index.colliders@.contains(h),
        forall|x: Handle|
            x != h ==> (#[trigger] after.index.colliders@.contains(x) <==> before.index.colliders@.contains(x)),
        after.index.joints@.contains(h) <==> node.joint is Some || before.index.joints@.contains(h),
        forall|x: Handle|
            x != h ==> (#[trigger] after.index.joints@.contains(x) <==> before.index.joints@.contains(x)),
        after.index.ragdolls@.contains(h) <==> node.ragdoll is Some || before.index.ragdolls@.contains(h),
        forall|x: Handle|
            x != h ==> (#[trigger] after.index.ragdolls@.contains(x) <==> before.index.ragdolls@.contains(x)),
        after.physics == before.physics,
        after.root == before.root,
{
    assert(after.nodes@.dom().contains(h));
    assert(after.nodes@[p].children@.drop_last() =~= before.nodes@[p].children@);
    assert forall|x: Handle| #[trigger] before.nodes@.contains_key(x) implies {
        &&& after.nodes@.contains_key(x)
        &&& after.nodes@[x].parent == before.nodes@[x].parent
        &&& after.nodes@[x].transform == before.nodes@[x].transform
        &&& after.nodes@[x].visible == before.nodes@[x].visible
        &&& x != p ==> after.nodes@[x] == before.nodes@[x]
    } by {
        assert(after.nodes@.dom().contains(x));
        if x != p {
            assert(after.nodes@[x] == before.nodes@[x]);
        }
    }
    assert forall|x: Handle| #[trigger] after.nodes@.contains_key(x) implies x == h
        || before.nodes@.contains_key(x) by {
        assert(after.nodes@.dom().contains(x));
    }
    lemma_enlisted(before.index.rigid_bodies@, h, node.rigid_body is Some);
    lemma_enlisted(before.index.colliders@, h, node.collider is Some);
    lemma_enlisted(before.index.joints@, h, node.joint is Some);
    lemma_enlisted(before.index.ragdolls@, h, node.ragdoll is Some);
}

proof fn lemma_enlisted(list: Seq<Handle>, h: Handle, belongs: bool)
    ensures
        graph::enlisted(list, h, belongs).contains(h) <==> belongs || list.contains(h),
        forall|x: Handle|
            x != h ==> (#[trigger] graph::enlisted(list, h, belongs).contains(x) <==> list.contains(
                x,
            )),
{
    let now = graph::enlisted(list, h, belongs);
    if belongs && !list.contains(h) {
        assert(now[list.len() as int] == h);
    }
    assert forall|x: Handle| x != h implies (#[trigger] now.contains(x) <==> list.contains(x)) by {
        if list.contains(x) {
            let i = choose|i: int| 0 <= i < list.len() && list[i] == x;
            assert(now[i] == x);
        }
        if now.contains(x) {
            let i = choose|i: int| 0 <= i < now.len() && now[i] == x;
            assert(list[i] == x);
        }
    }
}

/// A node that is moved leaves its old parent, whose other children stay in their order, and hangs
/// behind the children of its new one; all other lists of children are as before.
pub proof fn lemma_moved_node_leaves_its_parent(
    before: Tree,
    root: Handle,
    child: Handle,
    parent: Handle,
)
    requires
        tree::tree_wf(before, root),
        before.contains_key(child),
        before.contains_key(parent),
        child != root,
        !tree::below(before, child, parent),
    ensures
        ({
            let after = tree::attached(tree::detached(before, child), child, parent);
            let old = before[child].parent;
            &&& after.dom() == before.dom()
            &&& forall|x: Handle| #[trigger]
                before.contains_key(x) && x != old && x != parent ==> after[x].children
                    == before[x].children
            &&& old != parent ==> after[old].children == before[old].children.filter(
                |x: Handle| x != child,
            ) && after[parent].children == before[parent].children.push(child)
            &&& old == parent ==> after[parent].children == before[parent].children.filter(
                |x: Handle| x != child,
            ).push(child)
        }),
{
    let old = before[child].parent;
    let after = tree::attached(tree::detached(before, child), child, parent);
    assert(before.contains_key(old));
    tree::lemma_below_self(before, root, child);
    assert(parent != child);
    assert(old != child) by {
        if old == child {
            let k = choose|k: int|
                0 <= k < before[old].children.len() && before[old].children[k] == child;
            tree::lemma_no_cycles(before, root, child, k);
        }
    }
    lemma_without_filters(before[old].children, child);
    assert(after.dom() =~= before.dom());
}

proof fn lemma_without_filters(list: Seq<Handle>, h: Handle)
    ensures
        tree::without(list, h) == list.filter(|x: Handle| x != h),
    decreases list.len(),
{
    reveal(Seq::filter);
    if list.len() > 0 {
        lemma_without_filters(list.drop_last(), h);
    }
}

/// What of the table is none of a removed node's business stays in it: bodies that no removed node
/// has, and colliders and joints that no removed node has and that are fixed to no body of one.
pub proof fn lemma_other_physics_stays(
    world: WorldModel,
    nodes: Map<Handle, Node>,
    list: Seq<Handle>,
    raw: Handle,
)
    ensures
        ({
            let left = world.without_nodes(nodes, list);
            let body_of = |x: Handle|
                if nodes[x].rigid_body is Some {
                    nodes[x].rigid_body->0.native
                } else {
                    None
                };
            &&& world.bodies.contains_key(raw) && (forall|i: int|
                0 <= i < list.len() ==> (body_of(#[trigger] list[i]) is None || body_of(list[i])->0.raw
                    != raw)) ==> left.bodies.contains_key(raw) && left.bodies[raw]
                == world.bodies[raw]
            &&& left.bodies.contains_key(raw) ==> world.bodies.contains_key(raw)
            &&& left.colliders.contains_key(raw) ==> world.colliders.contains_key(raw)
                && left.colliders[raw] == world.colliders[raw]
            &&& left.joints.contains_key(raw) ==> world.joints.contains_key(raw)
                && left.joints[raw] == world.joints[raw]
            &&& world.colliders.contains_key(raw) && (forall|i: int|
                0 <= i < list.len() ==> (nodes[#[trigger] list[i]].collider is None
                    || nodes[list[i]].collider->0.native is None
                    || nodes[list[i]].collider->0.native->0.raw != raw) && (body_of(list[i]) is None
                    || world.colliders[raw].parent != body_of(list[i])))
                ==> left.colliders.contains_key(raw)
            &&& world.joints.contains_key(raw) && (forall|i: int|
                0 <= i < list.len() ==> (nodes[#[trigger] list[i]].joint is None
                    || nodes[list[i]].joint->0.native is None || nodes[list[i]].joint->0.native->0.raw
                    != raw) && (body_of(list[i]) is None || (Some(world.joints[raw].body1) != body_of(
                    list[i],
                ) && Some(world.joints[raw].body2) != body_of(list[i]))))
                ==> left.joints.contains_key(raw)
        }),
    decreases list.len(),
{
    if list.len() > 0 {
        lemma_other_physics_stays(world, nodes, list.drop_last(), raw);
        assert forall|i: int| 0 <= i < list.len() - 1 implies list.drop_last()[i]
            == #[trigger] list[i] by {}
        assert(list[list.len() - 1] == list.last());
    }
}

/// After the world transforms were stored, each listed node stands in the world where it was worked
/// out for that very node, and nothing else of any node changes.
pub proof fn lemma_transform_reaches_its_node(
    before: Map<Handle, Node>,
    after: Map<Handle, Node>,
    order: Seq<Handle>,
    globals: Seq<Mat4>,
    i: int,
)
    requires
        update::transforms_stored(before, after, order, globals),
        0 <= i < order.len(),
        before.contains_key(order[i]),
    ensures
        after[order[i]].global_transform == globals[i],
        after[order[i]].transform == before[order[i]].transform,
        after[order[i]].visible == before[order[i]].visible,
        after[order[i]].global_visible == before[order[i]].global_visible,
        after[order[i]].global_aabb == before[order[i]].global_aabb,
        after[order[i]].name == before[order[i]].name,
        after[order[i]].parent == before[order[i]].parent,
        after[order[i]].children == before[order[i]].children,
        after[order[i]].mesh == before[order[i]].mesh,
        after[order[i]].rigid_body == before[order[i]].rigid_body,
        forall|h: Handle| #[trigger]
            before.contains_key(h) && !order.contains(h) ==> after[h] == before[h],
{
}

/// After the boxes were stored, each drawable has the box that was worked out for it, and nothing else
/// of any node changes.
pub proof fn lemma_box_reaches_its_node(
    before: Map<Handle, Node>,
    after: Map<Handle, Node>,
    drawables: Seq<Handle>,
    bounds: Seq<Aabb>,
    i: int,
)
    requires
        update::boxes_stored(before, after, drawables, bounds),
        0 <= i < drawables.len(),
        before.contains_key(drawables[i]),
    ensures
        after[drawables[i]].global_aabb.min == bounds[i].min,
        after[drawables[i]].global_aabb.max == bounds[i].max,
        after[drawables[i]].transform == before[drawables[i]].transform,
        after[drawables[i]].global_transform == before[drawables[i]].global_transform,
        after[drawables[i]].visible == before[drawables[i]].visible,
        after[drawables[i]].global_visible == before[drawables[i]].global_visible,
        after[drawables[i]].mesh == before[drawables[i]].mesh,
        forall|h: Handle| #[trigger]
            before.contains_key(h) && !drawables.contains(h) ==> after[h] == before[h],
{
}

/// A node that chooses its level by distance shows the level that fits; one that does not, or without
/// levels, is left alone.
pub proof fn lemma_node_takes_its_level(before: Node, after: Node, distance: Real, relaxed: Seq<Real>)
    requires
        update::level_taken(before, after, distance, relaxed),
        before.lod is Some,
        before.lod->0.wf(),
        before.lod->0.levels@.len() == relaxed.len(),
    ensures
        !before.lod->0.auto_update ==> after == before,
        before.lod->0.auto_update ==> {
            let lod = before.lod->0;
            let now = after.lod->0;
            &&& after.lod is Some
            &&& now.levels == lod.levels
            &&& now.auto_update == lod.auto_update
            &&& lod.levels@.len() < 2 || distance.nan() ==> now.current == 0
            &&& lod.levels@.len() >= 2 && !distance.nan() ==> {
                &&& now.current < lod.levels@.len()
                &&& forall|i: int|
                    0 < i <= now.current ==> !distance.less(#[trigger] lod::begins(&lod, relaxed, i))
                &&& now.current + 1 < lod.levels@.len() ==> distance.less(
                    lod::begins(&lod, relaxed, now.current + 1),
                )
            }
        },
        after.transform == before.transform,
        after.visible == before.visible,
        after.children == before.children,
{
    let lod = before.lod->0;
    lod::lemma_chosen_level_fits(&lod, distance, relaxed);
    assert(lod.levels.len() == lod.levels@.len());
}

/// What is fixed to a body goes with it, and nothing else: its colliders, and the joints at either end
/// of which it is.
pub proof fn lemma_body_takes_its_own_along(world: WorldModel, body: BodyHandle, raw: Handle)
    requires
        world.bodies.contains_key(body.raw),
    ensures
        ({
            let left = world.without_body(Some(body));
            &&& !left.bodies.contains_key(body.raw)
            &&& raw != body.raw ==> left.bodies.contains_key(raw) == world.bodies.contains_key(raw)
            &&& left.colliders.contains_key(raw) <==> world.colliders.contains_key(raw)
                && world.colliders[raw].parent != Some(body)
            &&& left.joints.contains_key(raw) <==> world.joints.contains_key(raw)
                && world.joints[raw].body1 != body && world.joints[raw].body2 != body
            &&& left.colliders.contains_key(raw) ==> left.colliders[raw] == world.colliders[raw]
            &&& left.joints.contains_key(raw) ==> left.joints[raw] == world.joints[raw]
        }),
{
}

/// A new node has its name and stands at the origin, neither turned nor scaled; it is visible, takes
/// decals, is lit by all layers, and carries nothing.
pub proof fn lemma_new_node_is_plain(node: Node, name: Seq<char>)
    requires
        node.bare(name),
    ensures
        node.name@ == name,
        node.transform.position.x.bits == 0,
        node.transform.position.y.bits == 0,
        node.transform.position.z.bits == 0,
        node.transform.rotation.w.bits == 0x3f80_0000,
        node.transform.scale.x.bits == 0x3f80_0000,
        node.transform.scale.y.bits == 0x3f80_0000,
        node.transform.scale.z.bits == 0x3f80_0000,
        node.visible,
        node.global_visible,
        node.receives_decals,
        node.light_mask == 0xffff_ffff,
        node.mesh is None,
        node.material is None,
        node.camera is None,
        node.light is None,
        node.particles is None,
        node.skin is None,
        node.animator is None,
        node.rigid_body is None,
        node.collider is None,
        node.joint is None,
        node.ragdoll is None,
        node.terrain is None,
        node.sound is None,
        node.script is None,
        node.lod is None,
        node.morph_weights@.len() == 0,
        node.children@.len() == 0,
        node.parent == Handle::none(),
{
}

/// A new scene holds its root and nothing else; no light, no physics, nothing to draw.
pub proof fn lemma_new_scene_is_empty(scene: &Scene, h: Handle)
    requires
        scene.fresh(),
    ensures
        scene.nodes@.contains_key(h) <==> h == scene.root,
        scene.nodes@[scene.root].name@ == "__root"@,
        scene.nodes@[scene.root].children@.len() == 0,
        scene.physics.bodies@.dom() == Set::<Handle>::empty(),
        scene.physics.colliders@.dom() == Set::<Handle>::empty(),
        scene.physics.joints@.dom() == Set::<Handle>::empty(),
        scene.physics.events@.len() == 0,
        scene.sprites@.len() == 0,
        scene.environment.sky.x.bits == 0,
        scene.environment.ground.x.bits == 0,
        scene.environment.intensity.bits == 0x3f80_0000,
        !scene.gizmos.enabled,
{
    assert(scene.nodes@.dom().contains(h) <==> h == scene.root);
    assert(scene.physics.bodies@ == scene.physics.model().bodies);
    assert(scene.physics.colliders@ == scene.physics.model().colliders);
    assert(scene.physics.joints@ == scene.physics.model().joints);
    assert(scene.physics.bodies@.dom() =~= Set::<Handle>::empty());
    assert(scene.physics.colliders@.dom() =~= Set::<Handle>::empty());
    assert(scene.physics.joints@.dom() =~= Set::<Handle>::empty());
}

/// A weight that is set is what it was set to; all others are as before, and so is the rest of the
/// node. One that there is not is not set.
pub proof fn lemma_weight_is_set(after: Node, before: Node, index: int, weight: Real, i: int)
    requires
        after.reweighted(before, index, weight),
        0 <= i < before.morph_weights@.len(),
    ensures
        after.morph_weights@.len() == before.morph_weights@.len(),
        i == index ==> after.morph_weights@[i] == weight,
        i != index ==> after.morph_weights@[i] == before.morph_weights@[i],
        after.mesh == before.mesh,
        after.transform == before.transform,
        after.name == before.name,
{
}

/// A node that is given a mesh has that mesh, with the weights that the mesh starts with; the rest of
/// the node stays.
pub proof fn lemma_mesh_is_put_on(after: Node, before: Node, mesh: Mesh, i: int)
    requires
        after.remeshed(before, mesh),
        0 <= i < mesh.data.morph_targets@.len(),
    ensures
        after.mesh == Some(mesh),
        after.morph_weights@.len() == mesh.data.morph_targets@.len(),
        after.morph_weights@[i] == mesh.data.morph_targets@[i].default_weight,
        after.transform == before.transform,
        after.material == before.material,
        after.name == before.name,
        after.skin == before.skin,
{
}

} // verus!
